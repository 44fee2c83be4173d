//! Content hashing: the canonical object hash is the SHA-1 digest of the
//! uncompressed frame, rendered as 40 lowercase hexadecimal characters.
use vstd::prelude::*;

use crate::codec::frame_of;

verus! {

/// The 20-byte SHA-1 digest of a byte sequence. Its meaning is fixed by the
/// trusted wrapper below; the digest depends on the input bytes alone.
pub uninterp spec fn sha1_of(data: Seq<u8>) -> Seq<u8>;

/// Relies on the sha1 crate's `Digest` implementation: SHA-1 is a pure
/// function of the input and its output is 160 bits, that is 20 bytes.
#[verifier::external_body]
fn sha1_digest(data: &[u8]) -> (r: Vec<u8>)
    ensures
        r@ == sha1_of(data@),
        r@.len() == 20,
{
    let mut hasher = <sha1::Sha1 as sha1::Digest>::new();
    sha1::Digest::update(&mut hasher, data);
    sha1::Digest::finalize(hasher).to_vec()
}

/// The lowercase hexadecimal character for one value below sixteen.
pub open spec fn hex_digit(n: int) -> char {
    if n == 0 { '0' }
    else if n == 1 { '1' }
    else if n == 2 { '2' }
    else if n == 3 { '3' }
    else if n == 4 { '4' }
    else if n == 5 { '5' }
    else if n == 6 { '6' }
    else if n == 7 { '7' }
    else if n == 8 { '8' }
    else if n == 9 { '9' }
    else if n == 10 { 'a' }
    else if n == 11 { 'b' }
    else if n == 12 { 'c' }
    else if n == 13 { 'd' }
    else if n == 14 { 'e' }
    else { 'f' }
}

/// The lowercase hexadecimal rendering of a byte sequence, two characters
/// per byte, high nibble first.
pub open spec fn hex_chars(bytes: Seq<u8>) -> Seq<char>
    decreases bytes.len(),
{
    if bytes.len() == 0 {
        Seq::empty()
    } else {
        hex_chars(bytes.drop_last()) + seq![
            hex_digit(bytes.last() as int / 16),
            hex_digit(bytes.last() as int % 16),
        ]
    }
}

fn push_hex_digit(out: &mut String, n: u8)
    requires
        n < 16,
    ensures
        final(out)@ == old(out)@ + seq![hex_digit(n as int)],
{
    proof {
        reveal_strlit("0");
        reveal_strlit("1");
        reveal_strlit("2");
        reveal_strlit("3");
        reveal_strlit("4");
        reveal_strlit("5");
        reveal_strlit("6");
        reveal_strlit("7");
        reveal_strlit("8");
        reveal_strlit("9");
        reveal_strlit("a");
        reveal_strlit("b");
        reveal_strlit("c");
        reveal_strlit("d");
        reveal_strlit("e");
        reveal_strlit("f");
    }
    match n {
        0 => out.append("0"),
        1 => out.append("1"),
        2 => out.append("2"),
        3 => out.append("3"),
        4 => out.append("4"),
        5 => out.append("5"),
        6 => out.append("6"),
        7 => out.append("7"),
        8 => out.append("8"),
        9 => out.append("9"),
        10 => out.append("a"),
        11 => out.append("b"),
        12 => out.append("c"),
        13 => out.append("d"),
        14 => out.append("e"),
        _ => out.append("f"),
    }
    proof {
        assert(out@ =~= old(out)@ + seq![hex_digit(n as int)]);
    }
}

/// Renders a byte sequence as lowercase hexadecimal text.
#[verifier::loop_isolation(false)]
pub fn hex_string(bytes: &[u8]) -> (r: String)
    ensures
        r@ == hex_chars(bytes@),
{
    let mut out = String::new();
    let mut i: usize = 0;
    while i < bytes.len()
        invariant
            0 <= i <= bytes@.len(),
            out@ == hex_chars(bytes@.subrange(0, i as int)),
        decreases bytes@.len() - i,
    {
        let b = *vstd::slice::slice_index_get(bytes, i);
        push_hex_digit(&mut out, b / 16);
        push_hex_digit(&mut out, b % 16);
        proof {
            let pre = bytes@.subrange(0, i as int);
            let cur = bytes@.subrange(0, i as int + 1);
            assert(cur.drop_last() =~= pre);
            assert(cur.last() == bytes@[i as int]);
            assert(out@ =~= hex_chars(cur));
        }
        i = i + 1;
    }
    proof {
        assert(bytes@.subrange(0, bytes@.len() as int) =~= bytes@);
    }
    out
}

/// The canonical object hash of a content blob, as characters: the SHA-1
/// digest of its uncompressed frame, in lowercase hexadecimal.
pub open spec fn hash_chars_of(c: Seq<u8>) -> Seq<char> {
    hex_chars(sha1_of(frame_of(c)))
}

proof fn lemma_hex_chars_alnum(bytes: Seq<u8>)
    ensures
        hex_chars(bytes).len() == 2 * bytes.len(),
        forall|k: int| 0 <= k < hex_chars(bytes).len()
            ==> crate::store::is_alnum_char(#[trigger] hex_chars(bytes)[k]),
    decreases bytes.len(),
{
    assert(forall|n: int| 0 <= n < 16 ==> crate::store::is_alnum_char(#[trigger] hex_digit(n)));
    if bytes.len() > 0 {
        lemma_hex_chars_alnum(bytes.drop_last());
    }
}

/// Computes the canonical object hash for a content blob. Deterministic:
/// the same content always yields the same hash, and that hash is itself
/// well formed, so stored content can always be retrieved.
pub fn object_hash(content: &[u8]) -> (r: String)
    ensures
        r@ == hash_chars_of(content@),
        crate::store::valid_hash(r@),
{
    let frame = crate::codec::encode_frame(content);
    let digest = sha1_digest(frame.as_slice());
    proof {
        lemma_hex_chars_alnum(digest@);
    }
    hex_string(digest.as_slice())
}

} // verus!
