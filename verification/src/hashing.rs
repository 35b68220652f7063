//! Artifact hashing: a Keccak-256 digest of canonical bytes, rendered as a
//! lowercase hexadecimal string.

use vstd::prelude::*;

verus! {

/// The Keccak-256 digest of a byte sequence. The digest is a pure function of
/// the input bytes alone, so it is given a name here rather than an algorithm.
pub uninterp spec fn keccak256_of(data: Seq<u8>) -> Seq<u8>;

/// Relies on sha3::Keccak256 through digest::Digest::digest: the digest is a
/// deterministic function of the input bytes and is exactly 32 bytes long.
#[verifier::external_body]
fn keccak256(data: &[u8]) -> (r: Vec<u8>)
    ensures
        r@ == keccak256_of(data@),
        r@.len() == 32,
{
    <sha3::Keccak256 as sha3::Digest>::digest(data).to_vec()
}

/// The lowercase hexadecimal digit for a value below sixteen.
pub open spec fn hex_char_of(d: u8) -> char
    recommends
        d < 16,
{
    if d == 0 { '0' }
    else if d == 1 { '1' }
    else if d == 2 { '2' }
    else if d == 3 { '3' }
    else if d == 4 { '4' }
    else if d == 5 { '5' }
    else if d == 6 { '6' }
    else if d == 7 { '7' }
    else if d == 8 { '8' }
    else if d == 9 { '9' }
    else if d == 10 { 'a' }
    else if d == 11 { 'b' }
    else if d == 12 { 'c' }
    else if d == 13 { 'd' }
    else if d == 14 { 'e' }
    else { 'f' }
}

/// The lowercase hexadecimal rendering of a byte sequence: two digits per
/// byte, high digit first.
pub open spec fn hex_of(bytes: Seq<u8>) -> Seq<char> {
    Seq::new(
        bytes.len() * 2,
        |i: int| if i % 2 == 0 {
            hex_char_of(bytes[i / 2] / 16)
        } else {
            hex_char_of(bytes[i / 2] % 16)
        },
    )
}

/// Whether a character is a lowercase hexadecimal digit.
pub open spec fn is_lower_hex_char(c: char) -> bool {
    ('0' <= c && c <= '9') || ('a' <= c && c <= 'f')
}

/// Every hash string this module renders is fixed-format: each of its
/// characters is a lowercase hexadecimal digit.
pub proof fn lemma_hex_of_is_lower_hex(bytes: Seq<u8>)
    ensures
        forall|i: int| 0 <= i < hex_of(bytes).len() ==> is_lower_hex_char(#[trigger] hex_of(bytes)[i]),
{
    assert forall|i: int|
        0 <= i < hex_of(bytes).len() implies is_lower_hex_char(#[trigger] hex_of(bytes)[i]) by {
        let b = bytes[i / 2];
        assert(b / 16 < 16 && b % 16 < 16);
        assert(is_lower_hex_char(hex_char_of(b / 16)));
        assert(is_lower_hex_char(hex_char_of(b % 16)));
    }
}

/// One hexadecimal digit as a string slice.
pub(crate) fn hex_digit_str(d: u8) -> (r: &'static str)
    requires
        d < 16,
    ensures
        r@ =~= seq![hex_char_of(d)],
{
    proof {
        reveal_strlit("0");
        reveal_strlit("1");
        reveal_strlit("2");
        reveal_strlit("3");
        reveal_strlit("4");
        reveal_strlit("5");
        reveal_strlit("6");
        reveal_strlit("7");
        reveal_strlit("8");
        reveal_strlit("9");
        reveal_strlit("a");
        reveal_strlit("b");
        reveal_strlit("c");
        reveal_strlit("d");
        reveal_strlit("e");
        reveal_strlit("f");
    }
    match d {
        0 => "0",
        1 => "1",
        2 => "2",
        3 => "3",
        4 => "4",
        5 => "5",
        6 => "6",
        7 => "7",
        8 => "8",
        9 => "9",
        10 => "a",
        11 => "b",
        12 => "c",
        13 => "d",
        14 => "e",
        _ => "f",
    }
}

/// Renders a byte sequence as lowercase hexadecimal.
pub fn to_hex(bytes: &[u8]) -> (r: String)
    ensures
        r@ == hex_of(bytes@),
{
    let mut s = String::new();
    let mut i: usize = 0;
    while i < bytes.len()
        invariant
            i <= bytes@.len(),
            s@ == hex_of(bytes@.take(i as int)),
        decreases bytes@.len() - i,
    {
        let b = bytes[i];
        let hi = hex_digit_str(b / 16);
        let lo = hex_digit_str(b % 16);
        s.append(hi);
        s.append(lo);
        proof {
            let t0 = bytes@.take(i as int);
            let t1 = bytes@.take(i as int + 1);
            assert(hex_of(t1) =~= hex_of(t0) + seq![hex_char_of(b / 16), hex_char_of(b % 16)]);
        }
        i = i + 1;
    }
    proof {
        assert(bytes@.take(bytes@.len() as int) =~= bytes@);
    }
    s
}

/// Hashes a byte slice: Keccak-256 digest, then lowercase hexadecimal. The
/// result is 64 characters and depends only on the input bytes.
pub fn hash_bytes(data: &[u8]) -> (r: String)
    ensures
        r@ == hex_of(keccak256_of(data@)),
        r@.len() == 64,
{
    let digest = keccak256(data);
    to_hex(digest.as_slice())
}

} // verus!
