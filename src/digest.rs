//! The MD5 primitive and the formatting of a digest as lowercase hex.
use vstd::prelude::*;
use md5::Digest;
use vstd::string::*;

verus! {

/// A running MD5 state: an `md5::Md5` held opaquely, since Verus cannot take
/// that type's declaration (its typenum bounds). Verus sees only the bytes it
/// has absorbed, through `absorbed`.
#[verifier::external_body]
pub struct Md5State {
    inner: md5::Md5,
}

/// The bytes that a running MD5 state has absorbed so far, in order.
pub uninterp spec fn absorbed(h: Md5State) -> Seq<u8>;

/// The MD5 digest of a byte sequence.
pub uninterp spec fn md5_of(b: Seq<u8>) -> Seq<u8>;

/// Relies on md5::Md5::new (Digest::new): a fresh state that has absorbed nothing.
#[verifier::external_body]
pub(crate) fn hasher_new() -> (h: Md5State)
    ensures
        absorbed(h) == Seq::<u8>::empty(),
{
    Md5State { inner: md5::Md5::new() }
}

/// Relies on md5::Md5::update (Digest::update): the state absorbs `data` after
/// what it held.
#[verifier::external_body]
pub(crate) fn hasher_update(h: &mut Md5State, data: &[u8])
    ensures
        absorbed(*final(h)) == absorbed(*old(h)) + data@,
{
    h.inner.update(data);
}

/// Relies on md5::Md5::finalize (Digest::finalize): the 16-byte MD5 digest of
/// everything the state absorbed.
#[verifier::external_body]
pub(crate) fn hasher_finalize(h: Md5State) -> (r: Vec<u8>)
    ensures
        r@ == md5_of(absorbed(h)),
        r@.len() == 16,
{
    h.inner.finalize().to_vec()
}

/// The lowercase hex digit of a value below sixteen.
pub open spec fn hex_digit(n: u8) -> char
    recommends
        n < 16,
{
    seq!['0', '1', '2', '3', '4', '5', '6', '7', '8', '9', 'a', 'b', 'c', 'd', 'e', 'f'][n as int]
}

/// Two lowercase hex digits per byte, high nibble first.
pub open spec fn hex_of(b: Seq<u8>) -> Seq<char>
    decreases b.len(),
{
    if b.len() == 0 {
        Seq::empty()
    } else {
        hex_of(b.drop_last()) + seq![hex_digit(b.last() / 16), hex_digit(b.last() % 16)]
    }
}

/// The first `n` characters of `s`, or all of `s` where it is shorter.
pub open spec fn truncated(s: Seq<char>, n: nat) -> Seq<char> {
    if n < s.len() {
        s.take(n as int)
    } else {
        s
    }
}

/// What a digest function returns for a raw digest and a requested length:
/// its hex form cut to `n` characters.
pub open spec fn formatted(raw: Seq<u8>, n: nat) -> Seq<char> {
    truncated(hex_of(raw), n)
}

/// The hex form has two characters per byte.
pub proof fn lemma_hex_len(b: Seq<u8>)
    ensures
        hex_of(b).len() == 2 * b.len(),
    decreases b.len(),
{
    if b.len() > 0 {
        lemma_hex_len(b.drop_last());
    }
}

/// The hex form of a 16-byte digest has 32 characters; a requested length
/// below that keeps that many leading characters, and any length from 32 on
/// keeps the whole string, with no error.
pub proof fn lemma_truncation_of_digest(raw: Seq<u8>, n: nat)
    requires
        raw.len() == 16,
    ensures
        hex_of(raw).len() == 32,
        n < 32 ==> formatted(raw, n) == hex_of(raw).take(n as int) && formatted(raw, n).len() == n,
        n >= 32 ==> formatted(raw, n) == hex_of(raw),
{
    lemma_hex_len(raw);
}

/// Appends the hex digit of `n` to `s`.
fn push_hex_digit(s: &mut String, n: u8)
    requires
        n < 16,
    ensures
        final(s)@ == old(s)@.push(hex_digit(n)),
{
    let digits = "0123456789abcdef";
    proof {
        reveal_strlit("0123456789abcdef");
    }
    assert(digits@ =~= seq!['0', '1', '2', '3', '4', '5', '6', '7', '8', '9', 'a', 'b', 'c', 'd', 'e', 'f']);
    let d = digits.substring_char(n as usize, n as usize + 1);
    assert(d@ =~= seq![hex_digit(n)]);
    s.append(d);
}

/// The lowercase hex form of `bytes`.
pub fn to_hex(bytes: &[u8]) -> (r: String)
    ensures
        r@ == hex_of(bytes@),
{
    let mut s = String::new();
    let mut i: usize = 0;
    while i < bytes.len()
        invariant
            i <= bytes@.len(),
            s@ == hex_of(bytes@.take(i as int)),
        decreases bytes@.len() - i,
    {
        let b = bytes[i];
        push_hex_digit(&mut s, b / 16);
        push_hex_digit(&mut s, b % 16);
        assert(bytes@.take(i + 1).drop_last() =~= bytes@.take(i as int));
        i = i + 1;
    }
    assert(bytes@.take(i as int) =~= bytes@);
    s
}

/// The first `n` characters of `hex`, or all of it where `n` reaches past its
/// end; an `n` out of range is no error.
pub fn truncate_hex(hex: &str, n: usize) -> (r: String)
    ensures
        r@ == truncated(hex@, n as nat),
{
    let len = hex.unicode_len();
    let end = if n < len { n } else { len };
    let r = String::from_str(hex.substring_char(0, end));
    assert(n >= len ==> r@ =~= hex@);
    r
}

/// Formats a raw digest as lowercase hex cut to `n` characters.
pub fn format_digest(raw: &[u8], n: usize) -> (r: String)
    ensures
        r@ == formatted(raw@, n as nat),
{
    let full = to_hex(raw);
    truncate_hex(full.as_str(), n)
}

} // verus!
