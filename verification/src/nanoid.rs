//! NanoID: a compact, URL-friendly random string identifier, made of
//! symbols drawn from an alphabet by masked rejection sampling.
use vstd::prelude::*;
use vstd::arithmetic::power2::{pow2, lemma2_to64, lemma2_to64_rest};
use vstd::bits::low_bits_mask;
use crate::error::{ParseIdError, ParseIdErrorKind};
use crate::text::string_push;

verus! {

broadcast use vstd::string::axiom_spec_iter;

/// The default NanoID alphabet: `A-Za-z0-9_-` (64 symbols).
pub const NANOID_DEFAULT_ALPHABET: &'static str = "ABCDEFGHIJKLMNOPQRSTUVWXYZabcdefghijklmnopqrstuvwxyz0123456789_-";

/// The default NanoID length.
pub const NANOID_DEFAULT_LEN: usize = 21;

/// The number of binary digits of `n` (0 for 0).
pub open spec fn bit_length(n: nat) -> nat
    decreases n,
{
    if n == 0 { 0 } else { 1 + bit_length(n / 2) }
}

/// The sampling mask for an alphabet of `n` symbols: all ones over the
/// binary digits of `n`.
pub open spec fn nanoid_mask(n: usize) -> usize {
    ((1usize << (bit_length(n as nat) as usize)) - 1) as usize
}

/// Characters picked from the random word `bits`, one byte position at a
/// time from the least significant (`k` positions done), onto `acc`, until
/// `acc` holds `len` characters: the position's bits under the mask give
/// an index into the alphabet's characters, and pick that character, or
/// nothing when the index is past the alphabet.
pub open spec fn nanoid_absorb(
    alphabet: Seq<char>,
    mask: usize,
    len: nat,
    acc: Seq<char>,
    bits: u64,
    k: nat,
) -> Seq<char>
    decreases 8 - k,
{
    if k >= 8 || acc.len() >= len {
        acc
    } else {
        let idx = (bits as usize) & mask;
        let next = if (idx as int) < alphabet.len() {
            acc.push(alphabet[idx as int])
        } else {
            acc
        };
        nanoid_absorb(alphabet, mask, len, next, bits >> 8u64, k + 1)
    }
}

/// Calls `usize::leading_zeros`: the number of zero bits above the highest
/// one bit of `n`, that is the width of `usize` less the binary digits of `n`.
#[verifier::external_body]
fn usize_leading_zeros(n: usize) -> (z: u32)
    ensures
        z as int == usize::BITS - bit_length(n as nat),
{
    n.leading_zeros()
}

/// A number below 2^k has at most `k` binary digits.
pub proof fn lemma_bit_length_bound(n: nat, k: nat)
    requires
        n < pow2(k),
    ensures
        bit_length(n) <= k,
    decreases k,
{
    if n > 0 {
        if k == 0 {
            assert(pow2(0) == 1) by {
                lemma2_to64();
            }
        } else {
            assert(pow2(k) == 2 * pow2((k - 1) as nat)) by {
                vstd::arithmetic::power2::lemma_pow2_unfold(k);
            }
            lemma_bit_length_bound(n / 2, (k - 1) as nat);
        }
    }
}

/// For `n > 0` with `k` binary digits, shifting `n` right by `k` leaves
/// nothing and by `k - 1` leaves its top bit.
proof fn lemma_bit_length_shifts(n: usize)
    requires
        n > 0,
        bit_length(n as nat) < usize::BITS,
    ensures
        n >> (bit_length(n as nat) as usize) == 0,
        n >> ((bit_length(n as nat) - 1) as usize) == 1,
    decreases n,
{
    let k = bit_length(n as nat) as usize;
    let m = n / 2;
    assert(bit_length(n as nat) == 1 + bit_length(m as nat));
    if n == 1 {
        assert(bit_length(0) == 0);
        assert(1usize >> 1usize == 0 && 1usize >> 0usize == 1) by (bit_vector);
    } else {
        assert(m > 0);
        lemma_bit_length_shifts(m);
        let k1 = bit_length(m as nat) as usize;
        assert(k1 >= 1);
        assert(m == n >> 1usize) by (bit_vector)
            requires
                m == n / 2,
        ;
        assert(n >> k == (n >> 1usize) >> k1 && n >> ((k - 1) as usize) == (n >> 1usize) >> ((
        k1 - 1) as usize)) by (bit_vector)
            requires
                k == k1 + 1,
                1 <= k1,
                k < usize::BITS,
        ;
    }
}

/// The sampling mask for an alphabet of `n` characters (`0 < n`, a length
/// a `str` can have) is all ones below a power of two, at least `n` and
/// below `2 * n`; masking a number with it takes the number modulo that
/// power of two, and leaves every index of the alphabet as it is.
pub proof fn lemma_nanoid_mask(n: usize)
    requires
        0 < n <= isize::MAX,
    ensures
        nanoid_mask(n) & ((nanoid_mask(n) + 1) as usize) == 0,
        n <= nanoid_mask(n) < 2 * n,
        forall|x: usize| #[trigger] (x & nanoid_mask(n)) == x % ((nanoid_mask(n) + 1) as usize),
        forall|i: usize| i < n ==> #[trigger] (i & nanoid_mask(n)) == i,
{
    if usize::BITS == 64 {
        lemma2_to64_rest();
        lemma_bit_length_bound(n as nat, 63);
    } else {
        lemma2_to64();
        lemma_bit_length_bound(n as nat, 31);
    }
    let k = bit_length(n as nat) as usize;
    lemma_bit_length_shifts(n);
    let m = nanoid_mask(n);
    assert(m == ((1usize << k) - 1) as usize);
    assert(m & ((m + 1) as usize) == 0 && n <= m && m < 2 * n && (m + 1) as usize > 0)
        by (bit_vector)
        requires
            m == ((1usize << k) - 1) as usize,
            n >> k == 0,
            n >> ((k - 1) as usize) == 1,
            1 <= k < usize::BITS,
    ;
    vstd::bits::lemma_usize_pow2_no_overflow(k as nat);
    vstd::bits::lemma_usize_shl_is_mul(1usize, k);
    assert(m == low_bits_mask(k as nat) as usize);
    assert((m + 1) as usize == pow2(k as nat) as usize);
    assert forall|x: usize| #[trigger] (x & m) == x % ((m + 1) as usize) by {
        vstd::bits::lemma_usize_low_bits_mask_is_mod(x, k as nat);
    }
    assert forall|i: usize| i < n implies #[trigger] (i & m) == i by {
        assert(i & m == i) by (bit_vector)
            requires
                i < n,
                n <= m,
                m & ((m + 1) as usize) == 0,
        ;
    }
}

/// A NanoID — a compact, URL-friendly unique string identifier.
///
/// Default: 21 characters from the alphabet `A-Za-z0-9_-`.
#[derive(Clone, Debug, PartialEq, Eq, Hash)]
pub struct NanoId {
    value: String,
}

impl View for NanoId {
    type V = Seq<char>;

    closed spec fn view(&self) -> Seq<char> {
        self.value@
    }
}

impl NanoId {
    /// Returns the NanoID as a string slice.
    pub fn as_str(&self) -> (s: &str)
        ensures
            s@ == self@,
    {
        self.value.as_str()
    }

    /// The NanoID's text.
    pub fn to_string(&self) -> (s: String)
        ensures
            s@ == self@,
    {
        self.value.clone()
    }

    /// Takes any non-empty text as a NanoID.
    pub fn parse(s: &str) -> (r: Result<NanoId, ParseIdError>)
        ensures
            s@.len() == 0 ==> r == Err::<NanoId, ParseIdError>(
                ParseIdError { kind: ParseIdErrorKind::EmptyNanoId },
            ),
            s@.len() != 0 ==> (r matches Ok(n) && n@ == s@),
    {
        if s.is_empty() {
            return Err(ParseIdError { kind: ParseIdErrorKind::EmptyNanoId });
        }
        Ok(NanoId { value: s.to_owned() })
    }
}

impl AsRef<str> for NanoId {
    fn as_ref(&self) -> (s: &str)
        ensures
            s@ == self@,
    {
        self.value.as_str()
    }
}

impl std::str::FromStr for NanoId {
    type Err = ParseIdError;

    fn from_str(s: &str) -> (r: Result<NanoId, ParseIdError>)
        ensures
            s@.len() == 0 ==> r == Err::<NanoId, ParseIdError>(
                ParseIdError { kind: ParseIdErrorKind::EmptyNanoId },
            ),
            s@.len() != 0 ==> (r matches Ok(n) && n@ == s@),
    {
        NanoId::parse(s)
    }
}

/// What a [`NanoIdDraft`] holds: the alphabet's characters, the sampling
/// mask, the number of characters to reach, and the characters picked so
/// far.
pub struct NanoIdDraftState {
    pub alphabet: Seq<char>,
    pub mask: usize,
    pub len: nat,
    pub value: Seq<char>,
}

/// A NanoID being built from random words, one word at a time.
pub struct NanoIdDraft {
    alphabet: Vec<char>,
    mask: usize,
    len: usize,
    value: Vec<char>,
}

impl View for NanoIdDraft {
    type V = NanoIdDraftState;

    closed spec fn view(&self) -> NanoIdDraftState {
        NanoIdDraftState {
            alphabet: self.alphabet@,
            mask: self.mask,
            len: self.len as nat,
            value: self.value@,
        }
    }
}

/// The characters of a text, in order.
fn str_chars(s: &str) -> (v: Vec<char>)
    ensures
        v@ == s@,
{
    let mut v: Vec<char> = Vec::new();
    for c in it: s.chars()
        invariant
            v@ == it.seq().take(it.index() as int),
            it.seq() == s@,
    {
        v.push(c);
    }
    v
}

impl NanoIdDraft {
    /// The alphabet is not empty, and the characters picked are never more
    /// than the length asked for.
    #[verifier::type_invariant]
    spec fn well_formed(&self) -> bool {
        &&& self.alphabet@.len() > 0
        &&& self.value@.len() <= self.len
    }

    /// Starts a NanoID of `len` characters over the characters of
    /// `alphabet`, which must not be empty.
    pub fn new(alphabet: &str, len: usize) -> (d: NanoIdDraft)
        requires
            alphabet@.len() > 0,
            alphabet@.len() <= isize::MAX,
            len <= isize::MAX,
        ensures
            d@ == (NanoIdDraftState {
                alphabet: alphabet@,
                mask: nanoid_mask(alphabet@.len() as usize),
                len: len as nat,
                value: Seq::<char>::empty(),
            }),
    {
        let alpha_chars = str_chars(alphabet);
        let alpha_len = alpha_chars.len();
        let lz = usize_leading_zeros(alpha_len);
        proof {
            if usize::BITS == 64 {
                lemma2_to64_rest();
                lemma_bit_length_bound(alpha_len as nat, 63);
            } else {
                lemma2_to64();
                lemma_bit_length_bound(alpha_len as nat, 31);
            }
        }
        let width = usize::BITS - lz;
        let shifted: usize = 1usize << width;
        assert(shifted > 0) by (bit_vector)
            requires
                shifted == 1usize << width,
                width < usize::BITS,
        ;
        let mask = shifted - 1;
        NanoIdDraft { alphabet: alpha_chars, mask, len, value: Vec::new() }
    }

    /// Whether the NanoID has reached its length.
    pub fn is_complete(&self) -> (done: bool)
        ensures
            done == (self@.value.len() >= self@.len),
    {
        proof {
            use_type_invariant(self);
        }
        self.value.len() >= self.len
    }

    /// Picks characters with the 8 bytes of one random word, least
    /// significant first, as long as the NanoID is short of its length.
    pub fn absorb(&mut self, r: u64)
        ensures
            final(self)@ == (NanoIdDraftState {
                value: nanoid_absorb(old(self)@.alphabet, old(self)@.mask, old(self)@.len,
                    old(self)@.value, r, 0),
                ..old(self)@
            }),
    {
        proof {
            use_type_invariant(&*self);
        }
        let mut value: Vec<char> = Vec::new();
        std::mem::swap(&mut value, &mut self.value);
        let mut bits = r;
        let mut k: usize = 0;
        let alpha_len = self.alphabet.len();
        while k < 8 && value.len() < self.len
            invariant
                k <= 8,
                alpha_len == self.alphabet@.len(),
                self.alphabet@ == old(self)@.alphabet,
                self.mask == old(self)@.mask,
                self.len == old(self)@.len,
                alpha_len > 0,
                value@.len() <= self.len,
                nanoid_absorb(old(self)@.alphabet, old(self)@.mask, old(self)@.len,
                    old(self)@.value, r, 0) == nanoid_absorb(self.alphabet@, self.mask,
                    self.len as nat, value@, bits, k as nat),
            decreases 8 - k,
        {
            let idx = (#[verifier::truncate] (bits as usize)) & self.mask;
            if idx < alpha_len {
                value.push(self.alphabet[idx]);
            }
            bits = bits >> 8;
            k = k + 1;
        }
        self.value = value;
    }

    /// The NanoID built so far.
    pub fn finish(self) -> (n: NanoId)
        ensures
            n@ == self@.value,
    {
        let mut text = String::new();
        let mut i: usize = 0;
        while i < self.value.len()
            invariant
                i <= self.value@.len(),
                text@ == self.value@.take(i as int),
            decreases self.value@.len() - i,
        {
            string_push(&mut text, self.value[i]);
            assert(text@ =~= self.value@.take(i + 1));
            i = i + 1;
        }
        assert(text@ =~= self.value@);
        NanoId { value: text }
    }
}

/// Every character of `acc` is a character of the alphabet.
pub open spec fn drawn_from(acc: Seq<char>, alphabet: Seq<char>) -> bool {
    forall|i: int| 0 <= i < acc.len() ==> alphabet.contains(#[trigger] acc[i])
}

/// Picking with a random word only ever adds characters of the alphabet,
/// and never takes the text past `len` characters.
pub proof fn lemma_absorb_drawn_from(
    alphabet: Seq<char>,
    mask: usize,
    len: nat,
    acc: Seq<char>,
    bits: u64,
    k: nat,
)
    requires
        drawn_from(acc, alphabet),
        acc.len() <= len,
    ensures
        drawn_from(nanoid_absorb(alphabet, mask, len, acc, bits, k), alphabet),
        nanoid_absorb(alphabet, mask, len, acc, bits, k).len() <= len,
        acc.len() <= nanoid_absorb(alphabet, mask, len, acc, bits, k).len(),
        acc.len() == len ==> nanoid_absorb(alphabet, mask, len, acc, bits, k) == acc,
    decreases 8 - k,
{
    if !(k >= 8 || acc.len() >= len) {
        let idx = (bits as usize) & mask;
        if (idx as int) < alphabet.len() {
            let c = alphabet[idx as int];
            assert(drawn_from(acc.push(c), alphabet)) by {
                assert forall|i: int| 0 <= i < acc.push(c).len() implies alphabet.contains(
                    #[trigger] acc.push(c)[i],
                ) by {
                    if i == acc.len() {
                        assert(acc.push(c)[i] == alphabet[idx as int]);
                    } else {
                        assert(acc.push(c)[i] == acc[i]);
                    }
                }
            }
            lemma_absorb_drawn_from(alphabet, mask, len, acc.push(c), bits >> 8u64, k + 1);
        } else {
            lemma_absorb_drawn_from(alphabet, mask, len, acc, bits >> 8u64, k + 1);
        }
    }
}

proof fn lemma_absorb_keeps_prefix(
    alphabet: Seq<char>,
    mask: usize,
    len: nat,
    acc: Seq<char>,
    bits: u64,
    k: nat,
)
    ensures
        nanoid_absorb(alphabet, mask, len, acc, bits, k).len() >= acc.len(),
        nanoid_absorb(alphabet, mask, len, acc, bits, k).take(acc.len() as int) == acc,
    decreases 8 - k,
{
    if !(k >= 8 || acc.len() >= len) {
        let idx = (bits as usize) & mask;
        if (idx as int) < alphabet.len() {
            let next = acc.push(alphabet[idx as int]);
            lemma_absorb_keeps_prefix(alphabet, mask, len, next, bits >> 8u64, k + 1);
            let r = nanoid_absorb(alphabet, mask, len, next, bits >> 8u64, k + 1);
            assert(r.take(acc.len() as int) =~= r.take(next.len() as int).take(acc.len() as int));
            assert(next.take(acc.len() as int) =~= acc);
        } else {
            lemma_absorb_keeps_prefix(alphabet, mask, len, acc, bits >> 8u64, k + 1);
        }
    } else {
        assert(acc.take(acc.len() as int) =~= acc);
    }
}

/// Absorbing a random word, a draft short of its length first picks the
/// character whose index is the word's value modulo the power of two just
/// above the sampling mask, when that index lies inside the alphabet; the
/// characters already picked stay.
pub proof fn lemma_absorb_first_pick(alphabet: Seq<char>, len: nat, acc: Seq<char>, w: u64)
    requires
        0 < alphabet.len() <= isize::MAX,
        acc.len() < len,
    ensures
        ({
            let m = nanoid_mask(alphabet.len() as usize);
            let i = (w as usize) % ((m + 1) as usize);
            let r = nanoid_absorb(alphabet, m, len, acc, w, 0);
            &&& r.take(acc.len() as int) == acc
            &&& (i as int) < alphabet.len() ==> r.len() > acc.len() && r[acc.len() as int]
                == alphabet[i as int]
        }),
{
    let n = alphabet.len() as usize;
    let m = nanoid_mask(n);
    lemma_nanoid_mask(n);
    let x = w as usize;
    assert((x & m) == x % ((m + 1) as usize));
    lemma_absorb_keeps_prefix(alphabet, m, len, acc, w, 0);
    let i = x % ((m + 1) as usize);
    if (i as int) < alphabet.len() {
        let next = acc.push(alphabet[i as int]);
        lemma_absorb_keeps_prefix(alphabet, m, len, next, w >> 8u64, 1);
        let r = nanoid_absorb(alphabet, m, len, next, w >> 8u64, 1);
        assert(r.take(next.len() as int)[acc.len() as int] == next[acc.len() as int]);
    }
}

/// Every character of the alphabet can be picked: a draft short of its
/// length that absorbs the word `i`, for an index `i` of the alphabet,
/// picks the `i`-th character next.
pub proof fn lemma_absorb_every_character(
    alphabet: Seq<char>,
    len: nat,
    acc: Seq<char>,
    i: usize,
)
    requires
        0 < alphabet.len() <= isize::MAX,
        acc.len() < len,
        (i as int) < alphabet.len(),
    ensures
        nanoid_absorb(alphabet, nanoid_mask(alphabet.len() as usize), len, acc, i as u64, 0).len()
            > acc.len(),
        nanoid_absorb(alphabet, nanoid_mask(alphabet.len() as usize), len, acc, i as u64, 0)[acc.len() as int]
            == alphabet[i as int],
{
    let n = alphabet.len() as usize;
    lemma_nanoid_mask(n);
    let m = nanoid_mask(n);
    assert((i as u64) as usize == i);
    assert(i & m == i);
    assert(i & m == i % ((m + 1) as usize));
    lemma_absorb_first_pick(alphabet, len, acc, i as u64);
}

/// A draft that starts empty and absorbs random words until it is complete
/// is a NanoID of exactly `len` characters, each a character of the
/// alphabet: stated over the words absorbed, for any alphabet.
pub proof fn lemma_nanoid_complete(
    alphabet: Seq<char>,
    mask: usize,
    len: nat,
    words: Seq<u64>,
)
    requires
        nanoid_absorb_all(alphabet, mask, len, Seq::<char>::empty(), words).len() >= len,
    ensures
        nanoid_absorb_all(alphabet, mask, len, Seq::<char>::empty(), words).len() == len,
        drawn_from(nanoid_absorb_all(alphabet, mask, len, Seq::<char>::empty(), words), alphabet),
{
    lemma_absorb_all(alphabet, mask, len, Seq::<char>::empty(), words);
}

/// The text after absorbing the random words `words` in order.
pub open spec fn nanoid_absorb_all(
    alphabet: Seq<char>,
    mask: usize,
    len: nat,
    acc: Seq<char>,
    words: Seq<u64>,
) -> Seq<char>
    decreases words.len(),
{
    if words.len() == 0 {
        acc
    } else {
        nanoid_absorb_all(
            alphabet,
            mask,
            len,
            nanoid_absorb(alphabet, mask, len, acc, words[0], 0),
            words.drop_first(),
        )
    }
}

proof fn lemma_absorb_all(
    alphabet: Seq<char>,
    mask: usize,
    len: nat,
    acc: Seq<char>,
    words: Seq<u64>,
)
    requires
        drawn_from(acc, alphabet),
        acc.len() <= len,
    ensures
        drawn_from(nanoid_absorb_all(alphabet, mask, len, acc, words), alphabet),
        nanoid_absorb_all(alphabet, mask, len, acc, words).len() <= len,
    decreases words.len(),
{
    if words.len() > 0 {
        lemma_absorb_drawn_from(alphabet, mask, len, acc, words[0], 0);
        lemma_absorb_all(
            alphabet,
            mask,
            len,
            nanoid_absorb(alphabet, mask, len, acc, words[0], 0),
            words.drop_first(),
        );
    }
}

} // verus!
