//! Writer helpers: integer fields with size hints, type codes, string
//! sample encoding and the library version text.

use vstd::prelude::*;
use vstd::string::*;
use crate::ogawa::le::{le_bytes, le_value, byte_range, lemma_le_roundtrip};
use crate::ogawa::read_util::{read_hinted, hint_width};
use crate::util::pod::{PlainOldDataType, pod_code};
use crate::util::text::{signed_decimal, push_signed_decimal};

verus! {

/// Number of bytes `write_with_hint` emits for a hint: 1 for 0, 2 for 1,
/// 4 for any other hint.
pub open spec fn written_width(hint: int) -> int {
    if hint == 0 {
        1
    } else if hint == 1 {
        2
    } else {
        4
    }
}

/// Append `value` with a size hint: one byte for hint 0, two bytes for
/// hint 1, four bytes otherwise, little-endian and truncated to that width.
pub fn write_with_hint(buf: &mut Vec<u8>, value: u32, hint: u8)
    ensures
        final(buf)@ == old(buf)@ + le_bytes(value as nat, written_width(hint as int) as nat),
{
    let ghost v = value as nat;
    proof {
        reveal_with_fuel(le_bytes, 5);
    }
    if hint == 0 {
        buf.push((value % 256) as u8);
        assert(le_bytes(v, 1) =~= seq![(v % 256) as u8]);
    } else if hint == 1 {
        buf.push((value % 256) as u8);
        buf.push(((value / 256) % 256) as u8);
        assert(le_bytes(v, 2) =~= seq![(v % 256) as u8, ((v / 256) % 256) as u8]);
    } else {
        buf.push((value % 256) as u8);
        buf.push(((value / 256) % 256) as u8);
        buf.push(((value / 65536) % 256) as u8);
        buf.push((value / 16777216) as u8);
        assert(v / 256 / 256 == v / 65536);
        assert(v / 65536 / 256 == v / 16777216);
        assert((v / 16777216) % 256 == v / 16777216);
        assert(le_bytes(v, 4) =~= seq![
            (v % 256) as u8,
            ((v / 256) % 256) as u8,
            ((v / 65536) % 256) as u8,
            (v / 16777216) as u8,
        ]);
    }
}

/// What `write_with_hint` writes, `get_u32_with_hint` reads back: for the
/// hints 0, 1 and 2 and a value that fits the hinted width, reading at the
/// position where the value was appended yields the value and the position
/// just after it, whatever bytes preceded it.
pub proof fn lemma_hinted_roundtrip(prefix: Seq<u8>, value: u32, hint: u8)
    requires
        hint <= 2,
        (value as nat) < byte_range(hint_width(hint as int) as nat),
    ensures
        read_hinted(
            prefix + le_bytes(value as nat, written_width(hint as int) as nat),
            prefix.len() as int,
            hint as int,
        ) == Some((value as nat, prefix.len() + hint_width(hint as int))),
{
    let w = written_width(hint as int) as nat;
    lemma_le_roundtrip(value as nat, w);
    let all = prefix + le_bytes(value as nat, w);
    assert(all.subrange(prefix.len() as int, prefix.len() + w as int) =~= le_bytes(value as nat, w));
}

/// The on-disk type code a writer emits for a type (`Unknown` as 0).
pub open spec fn written_pod_code(p: PlainOldDataType) -> int {
    if p == PlainOldDataType::Unknown {
        0
    } else {
        pod_code(p)
    }
}

/// Convert a POD type to its on-disk code (`Unknown` is written as 0).
pub fn pod_to_u8(pod: PlainOldDataType) -> (r: u8)
    ensures
        r == written_pod_code(pod),
        pod == PlainOldDataType::Boolean ==> r == 0,
        pod == PlainOldDataType::Uint8 ==> r == 1,
        pod == PlainOldDataType::Int8 ==> r == 2,
        pod == PlainOldDataType::Uint16 ==> r == 3,
        pod == PlainOldDataType::Int16 ==> r == 4,
        pod == PlainOldDataType::Uint32 ==> r == 5,
        pod == PlainOldDataType::Int32 ==> r == 6,
        pod == PlainOldDataType::Uint64 ==> r == 7,
        pod == PlainOldDataType::Int64 ==> r == 8,
        pod == PlainOldDataType::Float16 ==> r == 9,
        pod == PlainOldDataType::Float32 ==> r == 10,
        pod == PlainOldDataType::Float64 ==> r == 11,
        pod == PlainOldDataType::String ==> r == 12,
        pod == PlainOldDataType::Wstring ==> r == 13,
        pod == PlainOldDataType::Unknown ==> r == 0,
{
    match pod {
        PlainOldDataType::Boolean => 0,
        PlainOldDataType::Uint8 => 1,
        PlainOldDataType::Int8 => 2,
        PlainOldDataType::Uint16 => 3,
        PlainOldDataType::Int16 => 4,
        PlainOldDataType::Uint32 => 5,
        PlainOldDataType::Int32 => 6,
        PlainOldDataType::Uint64 => 7,
        PlainOldDataType::Int64 => 8,
        PlainOldDataType::Float16 => 9,
        PlainOldDataType::Float32 => 10,
        PlainOldDataType::Float64 => 11,
        PlainOldDataType::String => 12,
        PlainOldDataType::Wstring => 13,
        PlainOldDataType::Unknown => 0,
    }
}

/// The element width a content digest is seeded with: the byte width of the
/// type, 1 for strings, 4 for wide strings, none for `Unknown`.
pub open spec fn pod_digest_seed(p: PlainOldDataType) -> Option<u32> {
    match p {
        PlainOldDataType::Boolean | PlainOldDataType::Uint8 | PlainOldDataType::Int8 => Some(1),
        PlainOldDataType::Uint16 | PlainOldDataType::Int16 | PlainOldDataType::Float16 => Some(2),
        PlainOldDataType::Uint32 | PlainOldDataType::Int32 | PlainOldDataType::Float32 => Some(4),
        PlainOldDataType::Uint64 | PlainOldDataType::Int64 | PlainOldDataType::Float64 => Some(8),
        PlainOldDataType::String => Some(1),
        PlainOldDataType::Wstring => Some(4),
        PlainOldDataType::Unknown => None,
    }
}

/// The POD size used to seed a content digest.
pub fn pod_seed(pod: PlainOldDataType) -> (r: Option<u32>)
    ensures
        r == pod_digest_seed(pod),
{
    let size: u32 = match pod {
        PlainOldDataType::Boolean => 1,
        PlainOldDataType::Uint8 => 1,
        PlainOldDataType::Int8 => 1,
        PlainOldDataType::Uint16 => 2,
        PlainOldDataType::Int16 => 2,
        PlainOldDataType::Uint32 => 4,
        PlainOldDataType::Int32 => 4,
        PlainOldDataType::Uint64 => 8,
        PlainOldDataType::Int64 => 8,
        PlainOldDataType::Float16 => 2,
        PlainOldDataType::Float32 => 4,
        PlainOldDataType::Float64 => 8,
        PlainOldDataType::String => 1,
        PlainOldDataType::Wstring => 4,
        PlainOldDataType::Unknown => {
            return None;
        },
    };
    Some(size)
}

/// Rust's integer division, rounding toward zero.
pub open spec fn div_toward_zero(a: int, b: int) -> int {
    if a >= 0 {
        a / b
    } else {
        -((-a) / b)
    }
}

/// The remainder that goes with `div_toward_zero` (same sign as `a`).
pub open spec fn rem_toward_zero(a: int, b: int) -> int {
    a - b * div_toward_zero(a, b)
}

/// The library version text, e.g. `Alembic 1.8.10 (built <date> <time>)` for
/// the version number 10810.
pub open spec fn alembic_version_text(version: int, date: Seq<char>, time: Seq<char>) -> Seq<
    char,
> {
    "Alembic "@ + signed_decimal(div_toward_zero(version, 10000)) + "."@ + signed_decimal(
        rem_toward_zero(div_toward_zero(version, 100), 100),
    ) + "."@ + signed_decimal(rem_toward_zero(version, 100)) + " (built "@ + date + " "@ + time
        + ")"@
}

/// Format the library version string: major, minor and patch of `version`
/// (major * 10000 + minor * 100 + patch) and the build date and time.
pub fn format_alembic_version(version: i32, date: &str, time: &str) -> (r: String)
    ensures
        r@ == alembic_version_text(version as int, date@, time@),
{
    let major = version / 10000;
    let minor = (version / 100) % 100;
    let patch = version % 100;
    let mut s = "Alembic ".to_owned();
    push_signed_decimal(&mut s, major as i64);
    s.append(".");
    push_signed_decimal(&mut s, minor as i64);
    s.append(".");
    push_signed_decimal(&mut s, patch as i64);
    s.append(" (built ");
    s.append(date);
    s.append(" ");
    s.append(time);
    s.append(")");
    s
}

/// The stored form of a sample: a string sample ends with one zero byte and
/// a wide-string sample with four zero bytes (appended when missing); other
/// samples are stored as they are.
pub open spec fn encoded_sample(data: Seq<u8>, pod: PlainOldDataType) -> Seq<u8> {
    if pod == PlainOldDataType::String {
        if data.len() > 0 && data.last() == 0 {
            data
        } else {
            data.push(0)
        }
    } else if pod == PlainOldDataType::Wstring {
        if data.len() >= 4 && data.subrange(data.len() - 4, data.len() as int) == seq![0u8, 0, 0, 0] {
            data
        } else {
            data + seq![0u8, 0, 0, 0]
        }
    } else {
        data
    }
}

/// Copy the bytes of a slice into a new vector.
pub fn bytes_to_vec(data: &[u8]) -> (r: Vec<u8>)
    ensures
        r@ == data@,
{
    let mut out: Vec<u8> = Vec::with_capacity(data.len());
    let mut i: usize = 0;
    while i < data.len()
        invariant
            i <= data@.len(),
            out@ == data@.subrange(0, i as int),
        decreases data@.len() - i,
    {
        out.push(data[i]);
        i = i + 1;
    }
    assert(out@ =~= data@);
    out
}

/// Append a 64-bit value as eight little-endian bytes.
pub fn write_u64_le(buf: &mut Vec<u8>, value: u64)
    ensures
        final(buf)@ == old(buf)@ + le_bytes(value as nat, 8),
{
    let mut v: u64 = value;
    let mut i: usize = 0;
    while i < 8
        invariant
            i <= 8,
            old(buf)@ + le_bytes(value as nat, 8) == buf@ + le_bytes(v as nat, (8 - i) as nat),
        decreases 8 - i,
    {
        let ghost before = buf@;
        buf.push((v % 256) as u8);
        proof {
            let n = (8 - i) as nat;
            assert(le_bytes(v as nat, n) == seq![(v as nat % 256) as u8] + le_bytes(v as nat / 256, (n - 1) as nat));
            assert(before + le_bytes(v as nat, n) =~= buf@ + le_bytes(v as nat / 256, (n - 1) as nat));
        }
        v = v / 256;
        i = i + 1;
    }
    assert(le_bytes(v as nat, 0) =~= Seq::<u8>::empty());
    assert(buf@ + Seq::<u8>::empty() =~= buf@);
}

/// Append the bytes of a slice to a vector.
pub fn extend_bytes(out: &mut Vec<u8>, data: &[u8])
    ensures
        final(out)@ == old(out)@ + data@,
{
    let mut i: usize = 0;
    while i < data.len()
        invariant
            i <= data@.len(),
            out@ == old(out)@ + data@.subrange(0, i as int),
        decreases data@.len() - i,
    {
        out.push(data[i]);
        i = i + 1;
    }
    assert(data@.subrange(0, data@.len() as int) =~= data@);
}

/// Encode a sample in its stored form (string terminators added).
pub fn encode_sample_for_pod(data: &[u8], pod: PlainOldDataType) -> (r: Vec<u8>)
    ensures
        r@ == encoded_sample(data@, pod),
{
    match pod {
        PlainOldDataType::String => {
            let mut out = bytes_to_vec(data);
            let n = out.len();
            if n == 0 || out[n - 1] != 0 {
                out.push(0);
            }
            out
        },
        PlainOldDataType::Wstring => {
            let mut out = bytes_to_vec(data);
            let n = out.len();
            let needs_term = n < 4 || out[n - 4] != 0 || out[n - 3] != 0 || out[n - 2] != 0
                || out[n - 1] != 0;
            if n >= 4 {
                assert(needs_term == (data@.subrange(n - 4, n as int) != seq![0u8, 0, 0, 0])) by {
                    let t = data@.subrange(n - 4, n as int);
                    if !needs_term {
                        assert(t =~= seq![0u8, 0, 0, 0]);
                    } else {
                        assert(t[0] != 0 || t[1] != 0 || t[2] != 0 || t[3] != 0);
                    }
                }
            }
            if needs_term {
                out.push(0);
                out.push(0);
                out.push(0);
                out.push(0);
                assert(out@ =~= data@ + seq![0u8, 0, 0, 0]);
            }
            out
        },
        _ => bytes_to_vec(data),
    }
}

/// The bytes of a list of strings: each string's UTF-8 bytes followed by a
/// zero byte.
pub open spec fn string_array_bytes(strings: Seq<Seq<char>>) -> Seq<u8>
    decreases strings.len(),
{
    if strings.len() == 0 {
        Seq::empty()
    } else {
        string_array_bytes(strings.drop_last()) + vstd::utf8::encode_utf8(strings.last()).push(0)
    }
}

/// Encode a string array into its stored form (zero-terminated elements).
pub fn encode_string_array(strings: &[String]) -> (r: Vec<u8>)
    ensures
        r@ == string_array_bytes(strings@.map_values(|s: String| s@)),
{
    let ghost views = strings@.map_values(|s: String| s@);
    let mut out: Vec<u8> = Vec::new();
    let mut i: usize = 0;
    while i < strings.len()
        invariant
            i <= strings@.len(),
            views == strings@.map_values(|s: String| s@),
            out@ == string_array_bytes(views.subrange(0, i as int)),
        decreases strings@.len() - i,
    {
        let bytes = strings[i].as_str().as_bytes();
        extend_bytes(&mut out, bytes);
        out.push(0);
        assert(views.subrange(0, i + 1).drop_last() =~= views.subrange(0, i as int));
        i = i + 1;
    }
    assert(views.subrange(0, strings@.len() as int) =~= views);
    out
}

} // verus!
