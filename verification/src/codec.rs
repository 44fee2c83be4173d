//! The object codec: converts between raw content bytes and the framed,
//! zlib-compressed on-disk representation of one stored object.
use vstd::prelude::*;

use crate::Error;

verus! {

/// The four tag bytes `blob` that open every frame.
pub open spec fn blob_tag() -> Seq<u8> {
    seq![98u8, 108u8, 111u8, 98u8]
}

/// ASCII whitespace, as trimmed between the tag and the size field.
pub open spec fn is_space_byte(b: u8) -> bool {
    b == 32 || (9 <= b && b <= 13)
}

/// The sequence with its leading whitespace bytes removed.
pub open spec fn skip_ws(s: Seq<u8>) -> Seq<u8>
    decreases s.len(),
{
    if s.len() > 0 && is_space_byte(s[0]) {
        skip_ws(s.drop_first())
    } else {
        s
    }
}

/// The index of the first null byte, if any.
pub open spec fn find_nul(s: Seq<u8>) -> Option<int>
    decreases s.len(),
{
    if s.len() == 0 {
        None
    } else if s[0] == 0 {
        Some(0int)
    } else {
        match find_nul(s.drop_first()) {
            None => None,
            Some(i) => Some(i + 1),
        }
    }
}

pub open spec fn is_digit_byte(b: u8) -> bool {
    48 <= b && b <= 57
}

/// A size field parses as a non-negative decimal integer: it is a non-empty
/// run of ASCII digits.
pub open spec fn valid_size_field(s: Seq<u8>) -> bool {
    s.len() > 0 && forall|i: int| 0 <= i < s.len() ==> is_digit_byte(#[trigger] s[i])
}

/// The strict left-to-right parse of an uncompressed frame: the `blob` tag,
/// whitespace, a decimal size field, a null byte, then the payload.
pub open spec fn spec_parse_frame(f: Seq<u8>) -> Result<Seq<u8>, Error> {
    if f.len() < 4 || f.subrange(0, 4) != blob_tag() {
        Err(Error::MalformedObject)
    } else {
        let rest = skip_ws(f.skip(4));
        match find_nul(rest) {
            None => Err(Error::MalformedObject),
            Some(i) => if valid_size_field(rest.subrange(0, i)) {
                Ok(rest.skip(i + 1))
            } else {
                Err(Error::MalformedObject)
            },
        }
    }
}

/// An executable parse result agrees with the specification-level parse of `f`.
pub open spec fn frame_outcome(f: Seq<u8>, r: Result<Vec<u8>, Error>) -> bool {
    match spec_parse_frame(f) {
        Ok(c) => r matches Ok(v) && v@ == c,
        Err(e) => r matches Err(e2) && e2 == e,
    }
}

fn is_space_at(b: &[u8], i: usize) -> (r: bool)
    requires
        i < b@.len(),
    ensures
        r == is_space_byte(b@[i as int]),
{
    let x = *vstd::slice::slice_index_get(b, i);
    x == 32 || (9 <= x && x <= 13)
}

proof fn lemma_skip_ws_step(s: Seq<u8>, i: int)
    requires
        0 <= i < s.len(),
        is_space_byte(s[i]),
    ensures
        skip_ws(s.skip(i)) == skip_ws(s.skip(i + 1)),
{
    assert(s.skip(i).len() > 0);
    assert(s.skip(i)[0] == s[i]);
    assert(s.skip(i).drop_first() =~= s.skip(i + 1));
}

proof fn lemma_find_nul_none(s: Seq<u8>)
    requires
        forall|k: int| 0 <= k < s.len() ==> s[k] != 0,
    ensures
        find_nul(s) is None,
    decreases s.len(),
{
    if s.len() > 0 {
        assert(forall|k: int| 0 <= k < s.drop_first().len() ==> s.drop_first()[k] == s[k + 1]);
        lemma_find_nul_none(s.drop_first());
    }
}

proof fn lemma_find_nul_at(s: Seq<u8>, m: int)
    requires
        0 <= m < s.len(),
        s[m] == 0,
        forall|k: int| 0 <= k < m ==> s[k] != 0,
    ensures
        find_nul(s) == Some(m),
    decreases m,
{
    if m == 0 {
    } else {
        assert(s[0] != 0);
        assert(forall|k: int| 0 <= k < s.drop_first().len() ==> s.drop_first()[k] == s[k + 1]);
        lemma_find_nul_at(s.drop_first(), m - 1);
    }
}

#[verifier::loop_isolation(false)]
fn parse_frame_bytes(b: &[u8]) -> (r: Result<Vec<u8>, Error>)
    ensures
        frame_outcome(b@, r),
        r matches Err(e) ==> e == Error::MalformedObject,
{
    let n = b.len();
    if n < 4 {
        return Err(Error::MalformedObject);
    }
    let b0 = *vstd::slice::slice_index_get(b, 0);
    let b1 = *vstd::slice::slice_index_get(b, 1);
    let b2 = *vstd::slice::slice_index_get(b, 2);
    let b3 = *vstd::slice::slice_index_get(b, 3);
    if !(b0 == 98 && b1 == 108 && b2 == 111 && b3 == 98) {
        proof {
            if b@.subrange(0, 4) == blob_tag() {
                assert(b@.subrange(0, 4)[0] == 98);
                assert(b@.subrange(0, 4)[1] == 108);
                assert(b@.subrange(0, 4)[2] == 111);
                assert(b@.subrange(0, 4)[3] == 98);
            }
        }
        return Err(Error::MalformedObject);
    }
    proof {
        assert(b@.subrange(0, 4) =~= blob_tag());
    }
    let mut i: usize = 4;
    while i < n && is_space_at(b, i)
        invariant
            4 <= i <= n,
            n == b@.len(),
            skip_ws(b@.skip(4)) == skip_ws(b@.skip(i as int)),
        decreases n - i,
    {
        proof {
            lemma_skip_ws_step(b@, i as int);
        }
        i = i + 1;
    }
    proof {
        assert(skip_ws(b@.skip(4)) == b@.skip(i as int));
    }
    let ws_end = i;
    let ghost rest = b@.skip(ws_end as int);
    let mut j: usize = ws_end;
    while j < n && *vstd::slice::slice_index_get(b, j) != 0
        invariant
            ws_end <= j <= n,
            n == b@.len(),
            forall|k: int| ws_end <= k < j ==> b@[k] != 0,
        decreases n - j,
    {
        j = j + 1;
    }
    if j == n {
        proof {
            assert(forall|k: int| 0 <= k < rest.len() ==> rest[k] == b@[k + ws_end]);
            lemma_find_nul_none(rest);
        }
        return Err(Error::MalformedObject);
    }
    proof {
        assert(b@[j as int] == 0);
        assert(forall|k: int| 0 <= k < rest.len() ==> rest[k] == b@[k + ws_end]);
        lemma_find_nul_at(rest, j - ws_end);
    }
    // the size field runs from ws_end to the null byte
    if j == ws_end {
        proof {
            assert(!valid_size_field(rest.subrange(0, 0)));
        }
        return Err(Error::MalformedObject);
    }
    let mut k: usize = ws_end;
    while k < j
        invariant
            ws_end <= k <= j < n,
            n == b@.len(),
            rest == b@.skip(ws_end as int),
            forall|t: int| ws_end <= t < k ==> is_digit_byte(#[trigger] b@[t]),
        decreases j - k,
    {
        let d = *vstd::slice::slice_index_get(b, k);
        if !(48 <= d && d <= 57) {
            proof {
                assert(rest[k - ws_end] == b@[k as int]);
                assert(rest.subrange(0, j - ws_end)[k - ws_end] == rest[k - ws_end]);
                assert(!is_digit_byte(rest.subrange(0, j - ws_end)[k - ws_end]));
                assert(!valid_size_field(rest.subrange(0, j - ws_end)));
            }
            return Err(Error::MalformedObject);
        }
        k = k + 1;
    }
    proof {
        assert(forall|t: int| 0 <= t < j - ws_end ==> #[trigger] rest.subrange(0, j - ws_end)[t] == b@[t + ws_end]);
        assert(valid_size_field(rest.subrange(0, j - ws_end)));
    }
    let payload = vstd::slice::slice_subrange(b, j + 1, n);
    let v = vstd::slice::slice_to_vec(payload);
    proof {
        assert(v@ =~= rest.skip(j - ws_end + 1));
    }
    Ok(v)
}

/// The ASCII decimal rendering of a non-negative integer, most significant
/// digit first, with no sign and no leading zeros.
pub open spec fn decimal_of(n: nat) -> Seq<u8>
    decreases n,
{
    if n < 10 {
        seq![(48 + n) as u8]
    } else {
        decimal_of(n / 10).push((48 + n % 10) as u8)
    }
}

/// The uncompressed frame for a content blob: the `blob` tag, one space, the
/// decimal payload length, a null byte, then the payload itself.
pub open spec fn frame_of(c: Seq<u8>) -> Seq<u8> {
    blob_tag() + seq![32u8] + decimal_of(c.len()) + seq![0u8] + c
}

/// The zlib-compressed form of a byte sequence, at the compression level the
/// encoder uses. Its meaning is fixed by the trusted wrappers below.
pub uninterp spec fn zlib_of(data: Seq<u8>) -> Seq<u8>;

fn push_decimal(out: &mut Vec<u8>, n: u64)
    ensures
        final(out)@ == old(out)@ + decimal_of(n as nat),
    decreases n,
{
    if n < 10 {
        out.push(48 + n as u8);
        proof {
            assert(out@ =~= old(out)@ + decimal_of(n as nat));
        }
    } else {
        proof {
            assert(n / 10 < n) by (nonlinear_arith)
                requires n >= 10;
        }
        push_decimal(out, n / 10);
        out.push(48 + (n % 10) as u8);
        proof {
            assert(out@ =~= old(out)@ + decimal_of(n as nat));
        }
    }
}

/// Builds the uncompressed frame for `content`.
pub fn encode_frame(content: &[u8]) -> (r: Vec<u8>)
    ensures
        r@ == frame_of(content@),
{
    let mut out: Vec<u8> = Vec::new();
    out.push(98);
    out.push(108);
    out.push(111);
    out.push(98);
    out.push(32);
    push_decimal(&mut out, content.len() as u64);
    out.push(0);
    out.extend_from_slice(content);
    proof {
        assert(out@ =~= frame_of(content@));
    }
    out
}

/// Relies on flate2's `write::ZlibEncoder`: compressing into an in-memory
/// buffer cannot fail, and the output is a function of the input bytes and
/// the fixed compression level.
#[verifier::external_body]
fn zlib_compress(data: &[u8]) -> (r: Vec<u8>)
    ensures
        r@ == zlib_of(data@),
{
    let mut enc = flate2::write::ZlibEncoder::new(Vec::new(), flate2::Compression::new(6));
    std::io::Write::write_all(&mut enc, data).unwrap();
    enc.finish().unwrap()
}

/// Relies on flate2's `read::ZlibDecoder`: decompressing the compressed form
/// of any byte sequence recovers exactly that sequence.
#[verifier::external_body]
fn zlib_decompress(data: &[u8]) -> (r: Option<Vec<u8>>)
    ensures
        forall|x: Seq<u8>| data@ == zlib_of(x) ==> (r is Some && r.unwrap()@ == x),
{
    let mut dec = flate2::read::ZlibDecoder::new(data);
    let mut out = Vec::new();
    match std::io::Read::read_to_end(&mut dec, &mut out) {
        Ok(_) => Some(out),
        Err(_) => None,
    }
}

/// Encodes a content blob into the bytes persisted for it: the frame,
/// compressed. Always succeeds.
pub fn encode_object(content: &[u8]) -> (r: Vec<u8>)
    ensures
        r@ == zlib_of(frame_of(content@)),
{
    let frame = encode_frame(content);
    zlib_compress(frame.as_slice())
}

/// Decodes persisted object bytes back into the content blob: decompression
/// followed by the strict frame parse. All-or-nothing: every structural
/// violation is `MalformedObject` and no partial result is returned.
pub fn decode_object(data: &[u8]) -> (r: Result<Vec<u8>, Error>)
    ensures
        forall|f: Seq<u8>| data@ == zlib_of(f) ==> frame_outcome(f, r),
        r matches Err(e) ==> e == Error::MalformedObject,
{
    match zlib_decompress(data) {
        None => Err(Error::MalformedObject),
        Some(frame) => parse_frame_bytes(frame.as_slice()),
    }
}

proof fn lemma_decimal_digits(n: nat)
    ensures
        decimal_of(n).len() >= 1,
        forall|k: int| 0 <= k < decimal_of(n).len() ==> is_digit_byte(#[trigger] decimal_of(n)[k]),
    decreases n,
{
    if n >= 10 {
        lemma_decimal_digits(n / 10);
    }
}

proof fn lemma_skip_ws_of_nonspace(s: Seq<u8>)
    requires
        s.len() > 0,
        !is_space_byte(s[0]),
    ensures
        skip_ws(s) == s,
{
}

/// Round-trip law of the codec: the strict frame parse recovers exactly the
/// content that the frame encoder was given, for every content blob.
pub proof fn lemma_frame_round_trip(c: Seq<u8>)
    ensures
        spec_parse_frame(frame_of(c)) == Result::<Seq<u8>, Error>::Ok(c),
{
    let f = frame_of(c);
    let d = decimal_of(c.len());
    lemma_decimal_digits(c.len());
    assert(f.subrange(0, 4) =~= blob_tag());
    let tail = f.skip(4);
    assert(tail =~= seq![32u8] + d + seq![0u8] + c);
    assert(is_space_byte(tail[0]));
    assert(tail.drop_first() =~= d + seq![0u8] + c);
    let rest = d + seq![0u8] + c;
    assert(rest[0] == d[0]);
    assert(is_digit_byte(d[0]));
    lemma_skip_ws_of_nonspace(rest);
    assert(skip_ws(tail) == rest);
    assert(rest[d.len() as int] == 0);
    assert(forall|k: int| 0 <= k < d.len() ==> #[trigger] rest[k] == d[k] && rest[k] != 0);
    lemma_find_nul_at(rest, d.len() as int);
    assert(rest.subrange(0, d.len() as int) =~= d);
    assert(valid_size_field(d));
    assert(rest.skip(d.len() as int + 1) =~= c);
}

/// Parses an uncompressed object frame; an absent frame is a missing object.
pub fn parse_blob(blob: Option<&[u8]>) -> (r: Result<Vec<u8>, Error>)
    ensures
        blob is None ==> (r matches Err(e) && e == Error::ObjectNotFound),
        blob matches Some(b) ==> frame_outcome(b@, r),
{
    match blob {
        None => Err(Error::ObjectNotFound),
        Some(b) => parse_frame_bytes(b),
    }
}

} // verus!
