use vstd::prelude::*;

use crate::errors::DownloadError;

verus! {

/// The decimal digits of `n`, most significant first, as ASCII bytes.
pub open spec fn dec_bytes(n: nat) -> Seq<u8>
    decreases n,
{
    if n < 10 {
        seq![(n + 48) as u8]
    } else {
        dec_bytes(n / 10) + seq![(n % 10 + 48) as u8]
    }
}

/// The wire form of the range selector for the plan range
/// `[start, end_exclusive)`: `bytes=<low>-<high>` with both bounds
/// inclusive, so the high bound is `end_exclusive - 1`.
pub open spec fn spec_range_header(start: u64, end_exclusive: u64) -> Seq<u8>
    recommends
        start < end_exclusive,
{
    // the ASCII bytes of "bytes=", then the low bound, "-", the high bound
    seq![98u8, 121u8, 116u8, 101u8, 115u8, 61u8] + dec_bytes(start as nat) + seq![45u8]
        + dec_bytes((end_exclusive - 1) as nat)
}

/// Appends the decimal digits of `n`, most significant first, to
/// `out`.
fn push_dec(out: &mut Vec<u8>, n: u64)
    ensures
        final(out)@ == old(out)@ + dec_bytes(n as nat),
    decreases n,
{
    if n >= 10 {
        push_dec(out, n / 10);
        out.push((n % 10) as u8 + 48);
    } else {
        out.push(n as u8 + 48);
    }
    proof {
        assert(out@ =~= old(out)@ + dec_bytes(n as nat));
    }
}

/// The range selector a ranged request carries for the plan range
/// `[start, end)`: the bytes of `bytes=<start>-<end - 1>`. The plan
/// speaks in half-open ranges and the wire in inclusive bounds, so
/// the conversion happens here and nowhere else.
pub fn range_header_value(start: u64, end: u64) -> (r: Vec<u8>)
    requires
        start < end,
    ensures
        r@ == spec_range_header(start, end),
{
    let mut out: Vec<u8> = Vec::new();
    // the ASCII bytes of "bytes="
    out.push(98);
    out.push(121);
    out.push(116);
    out.push(101);
    out.push(115);
    out.push(61);
    proof {
        assert(out@ =~= seq![98u8, 121u8, 116u8, 101u8, 115u8, 61u8]);
    }
    push_dec(&mut out, start);
    // the ASCII byte of "-"
    out.push(45);
    push_dec(&mut out, end - 1);
    proof {
        assert(out@ =~= spec_range_header(start, end));
    }
    out
}

/// Whether `b` is an ASCII decimal digit.
pub open spec fn is_dec_digit(b: u8) -> bool {
    48 <= b <= 57
}

/// Whether every byte of `s` is an ASCII decimal digit.
pub open spec fn all_dec_digits(s: Seq<u8>) -> bool {
    forall|i: int| 0 <= i < s.len() ==> is_dec_digit(#[trigger] s[i])
}

/// The value of `s` read as a base-10 numeral, most significant
/// digit first.
pub open spec fn dec_value(s: Seq<u8>) -> nat
    recommends
        all_dec_digits(s),
    decreases s.len(),
{
    if s.len() == 0 {
        0
    } else {
        dec_value(s.drop_last()) * 10 + (s.last() - 48) as nat
    }
}

/// A numeral never shrinks when more digits follow: the value of a
/// prefix is at most the value of the whole.
proof fn lemma_dec_value_prefix_le(s: Seq<u8>, i: int)
    requires
        0 <= i <= s.len(),
    ensures
        dec_value(s.take(i)) <= dec_value(s),
    decreases s.len() - i,
{
    if i == s.len() {
        assert(s.take(i) =~= s);
    } else {
        assert(s.take(i + 1).drop_last() =~= s.take(i));
        assert(dec_value(s.take(i + 1)) == dec_value(s.take(i)) * 10 + (s.take(i + 1).last()
            - 48) as nat);
        assert(dec_value(s.take(i)) <= dec_value(s.take(i)) * 10);
        lemma_dec_value_prefix_le(s, i + 1);
    }
}

/// Reads a content-length value: one or more ASCII decimal digits
/// whose value fits in a `u64`. Anything else — empty, a non-digit
/// byte, or a numeral past `u64::MAX` — is an `InvalidLengthValue`
/// error; the wire contract grants no whitespace, sign or radix
/// tolerance.
pub fn parse_content_length(bytes: &[u8]) -> (r: Result<u64, DownloadError>)
    ensures
        r is Ok <==> (bytes@.len() > 0 && all_dec_digits(bytes@) && dec_value(bytes@)
            <= u64::MAX),
        r matches Ok(v) ==> v == dec_value(bytes@),
        r is Err ==> r == Err::<u64, DownloadError>(DownloadError::InvalidLengthValue),
{
    if bytes.len() == 0 {
        return Err(DownloadError::InvalidLengthValue);
    }
    let mut acc: u64 = 0;
    let mut i: usize = 0;
    while i < bytes.len()
        invariant
            0 <= i <= bytes@.len(),
            all_dec_digits(bytes@.take(i as int)),
            acc == dec_value(bytes@.take(i as int)),
        decreases bytes@.len() - i,
    {
        let b = bytes[i];
        if b < 48 || b > 57 {
            return Err(DownloadError::InvalidLengthValue);
        }
        let d = (b - 48) as u64;
        proof {
            assert(bytes@.take(i + 1).drop_last() =~= bytes@.take(i as int));
            assert(bytes@.take(i + 1).last() == bytes@[i as int]);
            assert(dec_value(bytes@.take(i + 1)) == acc * 10 + d);
        }
        if acc > u64::MAX / 10 || (acc == u64::MAX / 10 && d > u64::MAX % 10) {
            proof {
                assert(dec_value(bytes@.take(i + 1)) > u64::MAX);
                lemma_dec_value_prefix_le(bytes@, i + 1);
            }
            return Err(DownloadError::InvalidLengthValue);
        }
        acc = acc * 10 + d;
        proof {
            assert(all_dec_digits(bytes@.take(i + 1)));
        }
        i = i + 1;
    }
    proof {
        assert(bytes@.take(bytes@.len() as int) =~= bytes@);
    }
    Ok(acc)
}

/// The single content-length consultation of the metadata probe. No
/// header at all is `MissingLengthHeader`; a header that is not a
/// base-10 `u64` numeral is `InvalidLengthValue`; otherwise the total
/// size of the resource. Either error is terminal: no range is
/// fetched without a known total length.
pub fn content_length_from_header(header: Option<&[u8]>) -> (r: Result<u64, DownloadError>)
    ensures
        header is None ==> r == Err::<u64, DownloadError>(DownloadError::MissingLengthHeader),
        header matches Some(h) ==> (r is Ok <==> (h@.len() > 0 && all_dec_digits(h@) && dec_value(
            h@,
        ) <= u64::MAX)),
        header matches Some(h) ==> (r matches Ok(v) ==> v == dec_value(h@)),
        header is Some && r is Err ==> r == Err::<u64, DownloadError>(
            DownloadError::InvalidLengthValue,
        ),
{
    match header {
        None => Err(DownloadError::MissingLengthHeader),
        Some(h) => parse_content_length(h),
    }
}

/// The only status a server may answer a ranged request with: HTTP
/// 206, Partial Content.
pub const PARTIAL_CONTENT: u16 = 206;

/// Accepts a response to a ranged request only when the server
/// honoured the range. Any other status — a plain 200 that carries
/// the whole resource included — is a protocol violation and aborts
/// the download rather than letting wrong bytes reach the sink.
pub fn check_range_status(status: u16) -> (r: Result<(), DownloadError>)
    ensures
        r is Ok <==> status == PARTIAL_CONTENT,
        status != PARTIAL_CONTENT ==> r == Err::<(), DownloadError>(
            DownloadError::Protocol { status },
        ),
{
    if status == PARTIAL_CONTENT {
        Ok(())
    } else {
        Err(DownloadError::Protocol { status })
    }
}

} // verus!
