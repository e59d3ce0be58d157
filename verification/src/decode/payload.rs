//! The segments of the bit stream: numeric, alphanumeric, byte, Kanji and
//! ECI, each begun by a mode indicator of four bits.

use crate::constants::{
    QUIRC_DATA_TYPE_ALPHA, QUIRC_DATA_TYPE_BYTE, QUIRC_DATA_TYPE_KANJI, QUIRC_DATA_TYPE_NUMERIC, QUIRC_MAX_PAYLOAD,
};
use crate::decode::datastream::{take_value, taken, Datastream};
use crate::error::QuircDecodeError;
use crate::ops::QuircData;
use vstd::arithmetic::power2::lemma2_to64;
use vstd::prelude::*;

verus! {

/// The characters of the alphanumeric mode, by their code.
pub const ALPHA_MAP: [u8; 45] = [
    0x30, 0x31, 0x32, 0x33, 0x34, 0x35, 0x36, 0x37, 0x38, 0x39, 0x41, 0x42, 0x43, 0x44, 0x45,
    0x46, 0x47, 0x48, 0x49, 0x4a, 0x4b, 0x4c, 0x4d, 0x4e, 0x4f, 0x50, 0x51, 0x52, 0x53, 0x54,
    0x55, 0x56, 0x57, 0x58, 0x59, 0x5a, 0x20, 0x24, 0x25, 0x2a, 0x2b, 0x2d, 0x2e, 0x2f, 0x3a,
];

/// The mode indicator of an ECI segment.
pub const MODE_ECI: u8 = 7;

/// What decoding the segments changes: the payload and its length, the
/// position in the stream, the data type and the ECI number.
pub struct Scan {
    pub payload: Seq<u8>,
    pub len: int,
    pub ptr: int,
    pub data_type: u8,
    pub eci: u32,
}

/// The scan that a decoded record and a stream stand at.
pub open spec fn scan_of(data: QuircData, ds: Datastream) -> Scan {
    Scan {
        payload: data.payload@,
        len: data.payload_len as int,
        ptr: ds.ptr as int,
        data_type: data.data_type,
        eci: data.eci,
    }
}

/// The record `d1` and the stream `s1` are `d0` and `s0` moved on to the
/// scan `sc`, and nothing else of them has changed.
pub open spec fn scanned(d0: QuircData, s0: Datastream, d1: QuircData, s1: Datastream, sc: Scan) -> bool {
    &&& scan_of(d1, s1) == sc
    &&& d1.version == d0.version
    &&& d1.ecc_level == d0.ecc_level
    &&& d1.mask == d0.mask
    &&& s1.data_bits == s0.data_bits
    &&& s1.data == s0.data
    &&& s1.raw == s0.raw
}

/// The payload `p` with the number `v` written in `n` decimal digits that
/// end before position `at + n`.
pub open spec fn put_decimal(p: Seq<u8>, at: int, v: int, n: int) -> Seq<u8>
    decreases n,
{
    if n <= 0 {
        p
    } else {
        put_decimal(p.update(at + n - 1, (v % 10 + 0x30) as u8), at, v / 10, n - 1)
    }
}

/// The payload `p` with the number `v` written in `n` characters of the
/// alphanumeric mode that end before position `at + n`.
pub open spec fn put_alpha(p: Seq<u8>, at: int, v: int, n: int) -> Seq<u8>
    decreases n,
{
    if n <= 0 {
        p
    } else {
        put_alpha(p.update(at + n - 1, ALPHA_MAP[v % 45]), at, v / 45, n - 1)
    }
}

/// One group of a numeric segment: `bits` bits that give `digits` digits.
/// `None` stands for a stream that holds fewer bits.
pub open spec fn spec_numeric_tuple(stream: Seq<u8>, total: int, sc: Scan, bits: int, digits: int) -> Option<Scan> {
    if total - sc.ptr < bits {
        None
    } else {
        Some(
            Scan {
                payload: put_decimal(sc.payload, sc.len, take_value(stream, sc.ptr, bits), digits),
                len: sc.len + digits,
                ptr: sc.ptr + bits,
                ..sc
            },
        )
    }
}

/// One group of an alphanumeric segment.
pub open spec fn spec_alpha_tuple(stream: Seq<u8>, total: int, sc: Scan, bits: int, digits: int) -> Option<Scan> {
    if total - sc.ptr < bits {
        None
    } else {
        Some(
            Scan {
                payload: put_alpha(sc.payload, sc.len, take_value(stream, sc.ptr, bits), digits),
                len: sc.len + digits,
                ptr: sc.ptr + bits,
                ..sc
            },
        )
    }
}

/// The groups of a numeric segment of `count` digits: three digits in ten
/// bits, then two in seven or one in four.
pub open spec fn numeric_groups(stream: Seq<u8>, total: int, sc: Scan, count: int) -> (QuircDecodeError, Scan)
    decreases count,
{
    let group = if count >= 3 {
        spec_numeric_tuple(stream, total, sc, 10, 3)
    } else if count == 2 {
        spec_numeric_tuple(stream, total, sc, 7, 2)
    } else {
        spec_numeric_tuple(stream, total, sc, 4, 1)
    };
    if count <= 0 {
        (QuircDecodeError::QuircSuccess, sc)
    } else if group is None {
        (QuircDecodeError::QuircErrorDataUnderflow, sc)
    } else if count >= 3 {
        numeric_groups(stream, total, group->0, count - 3)
    } else {
        (QuircDecodeError::QuircSuccess, group->0)
    }
}

/// The groups of an alphanumeric segment of `count` characters: two
/// characters in eleven bits, then one in six.
pub open spec fn alpha_groups(stream: Seq<u8>, total: int, sc: Scan, count: int) -> (QuircDecodeError, Scan)
    decreases count,
{
    let group = if count >= 2 {
        spec_alpha_tuple(stream, total, sc, 11, 2)
    } else {
        spec_alpha_tuple(stream, total, sc, 6, 1)
    };
    if count <= 0 {
        (QuircDecodeError::QuircSuccess, sc)
    } else if group is None {
        (QuircDecodeError::QuircErrorDataUnderflow, sc)
    } else if count >= 2 {
        alpha_groups(stream, total, group->0, count - 2)
    } else {
        (QuircDecodeError::QuircSuccess, group->0)
    }
}

/// The scan after `count` bytes are copied from the stream to the payload.
pub open spec fn put_bytes(stream: Seq<u8>, sc: Scan, count: int) -> Scan
    decreases count,
{
    if count <= 0 {
        sc
    } else {
        put_bytes(
            stream,
            Scan {
                payload: sc.payload.update(sc.len, take_value(stream, sc.ptr, 8) as u8),
                len: sc.len + 1,
                ptr: sc.ptr + 8,
                ..sc
            },
            count - 1,
        )
    }
}

/// The Shift-JIS code of the Kanji with the 13-bit code `d`.
pub open spec fn shift_jis(d: int) -> int {
    let intermediate = (d / 0xc0) * 0x100 + d % 0xc0;
    if intermediate + 0x8140 <= 0x9ffc {
        intermediate + 0x8140
    } else {
        intermediate + 0xc140
    }
}

/// The scan after `count` Kanji are read from the stream and written to
/// the payload as Shift-JIS, two bytes each.
pub open spec fn put_kanji(stream: Seq<u8>, sc: Scan, count: int) -> Scan
    decreases count,
{
    if count <= 0 {
        sc
    } else {
        let sjw = shift_jis(take_value(stream, sc.ptr, 13));
        put_kanji(
            stream,
            Scan {
                payload: sc.payload.update(sc.len, (sjw / 0x100 % 0x100) as u8).update(
                    sc.len + 1,
                    (sjw % 0x100) as u8,
                ),
                len: sc.len + 2,
                ptr: sc.ptr + 13,
                ..sc
            },
            count - 1,
        )
    }
}

/// The width of the count of a numeric segment.
pub open spec fn numeric_count_bits(version: int) -> int {
    if version < 10 {
        10
    } else if version < 27 {
        12
    } else {
        14
    }
}

/// The width of the count of an alphanumeric segment.
pub open spec fn alpha_count_bits(version: int) -> int {
    if version < 10 {
        9
    } else if version < 27 {
        11
    } else {
        13
    }
}

/// The width of the count of a byte segment.
pub open spec fn byte_count_bits(version: int) -> int {
    if version < 10 {
        8
    } else {
        16
    }
}

/// The width of the count of a Kanji segment.
pub open spec fn kanji_count_bits(version: int) -> int {
    if version < 10 {
        8
    } else if version < 27 {
        10
    } else {
        12
    }
}

/// The scan after the count of a segment is read, and the count. A stream
/// that ends inside the count gives the bits that it has.
pub open spec fn read_count(stream: Seq<u8>, total: int, sc: Scan, bits: int) -> (Scan, int) {
    let n = taken(total, sc.ptr, bits);
    (Scan { ptr: sc.ptr + n, ..sc }, take_value(stream, sc.ptr, n))
}

/// A numeric segment.
pub open spec fn spec_decode_numeric(version: int, stream: Seq<u8>, total: int, sc: Scan) -> (
    QuircDecodeError,
    Scan,
) {
    let (sc1, count) = read_count(stream, total, sc, numeric_count_bits(version));
    if sc1.len + count + 1 > QUIRC_MAX_PAYLOAD {
        (QuircDecodeError::QuircErrorDataOverflow, sc1)
    } else {
        numeric_groups(stream, total, sc1, count)
    }
}

/// An alphanumeric segment.
pub open spec fn spec_decode_alpha(version: int, stream: Seq<u8>, total: int, sc: Scan) -> (
    QuircDecodeError,
    Scan,
) {
    let (sc1, count) = read_count(stream, total, sc, alpha_count_bits(version));
    if sc1.len + count + 1 > QUIRC_MAX_PAYLOAD {
        (QuircDecodeError::QuircErrorDataOverflow, sc1)
    } else {
        alpha_groups(stream, total, sc1, count)
    }
}

/// A byte segment.
pub open spec fn spec_decode_byte(version: int, stream: Seq<u8>, total: int, sc: Scan) -> (
    QuircDecodeError,
    Scan,
) {
    let (sc1, count) = read_count(stream, total, sc, byte_count_bits(version));
    if sc1.len + count + 1 > QUIRC_MAX_PAYLOAD {
        (QuircDecodeError::QuircErrorDataOverflow, sc1)
    } else if total - sc1.ptr < count * 8 {
        (QuircDecodeError::QuircErrorDataUnderflow, sc1)
    } else {
        (QuircDecodeError::QuircSuccess, put_bytes(stream, sc1, count))
    }
}

/// A Kanji segment.
pub open spec fn spec_decode_kanji(version: int, stream: Seq<u8>, total: int, sc: Scan) -> (
    QuircDecodeError,
    Scan,
) {
    let (sc1, count) = read_count(stream, total, sc, kanji_count_bits(version));
    if sc1.len + count * 2 + 1 > QUIRC_MAX_PAYLOAD {
        (QuircDecodeError::QuircErrorDataOverflow, sc1)
    } else if total - sc1.ptr < count * 13 {
        (QuircDecodeError::QuircErrorDataUnderflow, sc1)
    } else {
        (QuircDecodeError::QuircSuccess, put_kanji(stream, sc1, count))
    }
}

/// An ECI segment. The first byte of the number says how long it is: a
/// byte that begins with the bits 10 is followed by one more, a byte that
/// begins with 110 by two more.
pub open spec fn spec_decode_eci(stream: Seq<u8>, total: int, sc: Scan) -> (QuircDecodeError, Scan) {
    let first = take_value(stream, sc.ptr, 8);
    let sc1 = Scan { ptr: sc.ptr + 8, eci: first as u32, ..sc };
    if total - sc.ptr < 8 {
        (QuircDecodeError::QuircErrorDataUnderflow, sc)
    } else if 0x80 <= first < 0xc0 {
        if total - sc1.ptr < 8 {
            (QuircDecodeError::QuircErrorDataUnderflow, sc1)
        } else {
            (
                QuircDecodeError::QuircSuccess,
                Scan {
                    ptr: sc1.ptr + 8,
                    eci: (first * 0x100 + take_value(stream, sc1.ptr, 8)) as u32,
                    ..sc1
                },
            )
        }
    } else if 0xc0 <= first < 0xe0 {
        if total - sc1.ptr < 16 {
            (QuircDecodeError::QuircErrorDataUnderflow, sc1)
        } else {
            (
                QuircDecodeError::QuircSuccess,
                Scan {
                    ptr: sc1.ptr + 16,
                    eci: (first * 0x10000 + take_value(stream, sc1.ptr, 16)) as u32,
                    ..sc1
                },
            )
        }
    } else {
        (QuircDecodeError::QuircSuccess, sc1)
    }
}

/// Whether `mode` begins a segment. Any other indicator ends the message.
pub open spec fn is_mode(mode: int) -> bool {
    mode == QUIRC_DATA_TYPE_NUMERIC || mode == QUIRC_DATA_TYPE_ALPHA || mode == QUIRC_DATA_TYPE_BYTE || mode
        == QUIRC_DATA_TYPE_KANJI || mode == MODE_ECI
}

/// The segment that the indicator `mode` begins.
pub open spec fn spec_segment(mode: int, version: int, stream: Seq<u8>, total: int, sc: Scan) -> (
    QuircDecodeError,
    Scan,
) {
    if mode == QUIRC_DATA_TYPE_NUMERIC {
        spec_decode_numeric(version, stream, total, sc)
    } else if mode == QUIRC_DATA_TYPE_ALPHA {
        spec_decode_alpha(version, stream, total, sc)
    } else if mode == QUIRC_DATA_TYPE_BYTE {
        spec_decode_byte(version, stream, total, sc)
    } else if mode == QUIRC_DATA_TYPE_KANJI {
        spec_decode_kanji(version, stream, total, sc)
    } else {
        spec_decode_eci(stream, total, sc)
    }
}

/// The scan with the payload ended by a zero byte, which is not counted.
/// A payload that fills the room loses its last byte to it.
pub open spec fn terminated(sc: Scan) -> Scan {
    let len = if sc.len >= QUIRC_MAX_PAYLOAD {
        sc.len - 1
    } else {
        sc.len
    };
    Scan { payload: sc.payload.update(len, 0), len: len, ..sc }
}

/// The scan with the data type raised to that of a segment of mode `mode`.
/// An ECI segment has no data type.
pub open spec fn with_data_type(sc: Scan, mode: int) -> Scan {
    if mode != MODE_ECI && mode > sc.data_type {
        Scan { data_type: mode as u8, ..sc }
    } else {
        sc
    }
}

/// The number of bits between the position `ptr` and the end of a stream
/// of `total` bits.
pub open spec fn bits_left(total: int, ptr: int) -> nat {
    if ptr < total {
        (total - ptr) as nat
    } else {
        0
    }
}

/// All segments from the scan `sc` on. The message ends where fewer than
/// four bits are left or where the indicator is that of no mode; a segment
/// that fails ends the decoding with its error.
#[verifier::opaque]
pub open spec fn spec_decode_payload(version: int, stream: Seq<u8>, total: int, sc: Scan) -> (
    QuircDecodeError,
    Scan,
)
    decreases bits_left(total, sc.ptr),
{
    let mode = take_value(stream, sc.ptr, 4);
    let sc1 = Scan { ptr: sc.ptr + 4, ..sc };
    let seg = spec_segment(mode, version, stream, total, sc1);
    if total - sc.ptr < 4 {
        (QuircDecodeError::QuircSuccess, terminated(sc))
    } else if !is_mode(mode) {
        (QuircDecodeError::QuircSuccess, terminated(sc1))
    } else if seg.0 != QuircDecodeError::QuircSuccess {
        seg
    } else {
        proof {
            lemma_segment_advances(mode, version, stream, total, sc1);
        }
        spec_decode_payload(version, stream, total, with_data_type(seg.1, mode))
    }
}

/// The three ways in which decoding goes on from the scan `sc`.
pub proof fn lemma_decode_payload_step(version: int, stream: Seq<u8>, total: int, sc: Scan)
    ensures
        ({
            let mode = take_value(stream, sc.ptr, 4);
            let sc1 = Scan { ptr: sc.ptr + 4, ..sc };
            let seg = spec_segment(mode, version, stream, total, sc1);
            spec_decode_payload(version, stream, total, sc) == if total - sc.ptr < 4 {
                (QuircDecodeError::QuircSuccess, terminated(sc))
            } else if !is_mode(mode) {
                (QuircDecodeError::QuircSuccess, terminated(sc1))
            } else if seg.0 != QuircDecodeError::QuircSuccess {
                seg
            } else {
                spec_decode_payload(version, stream, total, with_data_type(seg.1, mode))
            }
        }),
{
    reveal(spec_decode_payload);
}

proof fn lemma_numeric_groups_advance(stream: Seq<u8>, total: int, sc: Scan, count: int)
    ensures
        numeric_groups(stream, total, sc, count).1.ptr >= sc.ptr,
    decreases count,
{
    if count >= 3 && spec_numeric_tuple(stream, total, sc, 10, 3) is Some {
        lemma_numeric_groups_advance(stream, total, spec_numeric_tuple(stream, total, sc, 10, 3)->0, count - 3);
    }
}

proof fn lemma_alpha_groups_advance(stream: Seq<u8>, total: int, sc: Scan, count: int)
    ensures
        alpha_groups(stream, total, sc, count).1.ptr >= sc.ptr,
    decreases count,
{
    if count >= 2 && spec_alpha_tuple(stream, total, sc, 11, 2) is Some {
        lemma_alpha_groups_advance(stream, total, spec_alpha_tuple(stream, total, sc, 11, 2)->0, count - 2);
    }
}

/// Copying bytes moves the scan by eight bits and one byte of payload for
/// each, and leaves the data type and the ECI number.
pub proof fn lemma_put_bytes(stream: Seq<u8>, sc: Scan, count: int)
    requires
        0 <= count,
    ensures
        put_bytes(stream, sc, count).ptr == sc.ptr + 8 * count,
        put_bytes(stream, sc, count).len == sc.len + count,
        put_bytes(stream, sc, count).data_type == sc.data_type,
        put_bytes(stream, sc, count).eci == sc.eci,
        0 <= sc.len && sc.len + count <= sc.payload.len() ==> put_bytes(stream, sc, count).payload.len()
            == sc.payload.len(),
    decreases count,
{
    if count > 0 {
        let next = Scan {
            payload: sc.payload.update(sc.len, take_value(stream, sc.ptr, 8) as u8),
            len: sc.len + 1,
            ptr: sc.ptr + 8,
            ..sc
        };
        lemma_put_bytes(stream, next, count - 1);
    }
}

/// Writing Kanji moves the scan by 13 bits and two bytes of payload for
/// each, and leaves the data type and the ECI number.
pub proof fn lemma_put_kanji(stream: Seq<u8>, sc: Scan, count: int)
    requires
        0 <= count,
    ensures
        put_kanji(stream, sc, count).ptr == sc.ptr + 13 * count,
        put_kanji(stream, sc, count).len == sc.len + 2 * count,
        put_kanji(stream, sc, count).data_type == sc.data_type,
        put_kanji(stream, sc, count).eci == sc.eci,
        0 <= sc.len && sc.len + 2 * count <= sc.payload.len() ==> put_kanji(stream, sc, count).payload.len()
            == sc.payload.len(),
    decreases count,
{
    if count > 0 {
        let sjw = shift_jis(take_value(stream, sc.ptr, 13));
        let next = Scan {
            payload: sc.payload.update(sc.len, (sjw / 0x100 % 0x100) as u8).update(sc.len + 1, (sjw % 0x100) as u8),
            len: sc.len + 2,
            ptr: sc.ptr + 13,
            ..sc
        };
        lemma_put_kanji(stream, next, count - 1);
    }
}

/// No segment moves the position in the stream backwards.
pub proof fn lemma_segment_advances(mode: int, version: int, stream: Seq<u8>, total: int, sc: Scan)
    requires
        sc.ptr <= total,
    ensures
        spec_segment(mode, version, stream, total, sc).1.ptr >= sc.ptr,
{
    if mode == QUIRC_DATA_TYPE_NUMERIC {
        let (sc1, count) = read_count(stream, total, sc, numeric_count_bits(version));
        lemma_numeric_groups_advance(stream, total, sc1, count);
    } else if mode == QUIRC_DATA_TYPE_ALPHA {
        let (sc1, count) = read_count(stream, total, sc, alpha_count_bits(version));
        lemma_alpha_groups_advance(stream, total, sc1, count);
    } else if mode == QUIRC_DATA_TYPE_BYTE {
        let (sc1, count) = read_count(stream, total, sc, byte_count_bits(version));
        if count >= 0 {
            lemma_put_bytes(stream, sc1, count);
        }
    } else if mode == QUIRC_DATA_TYPE_KANJI {
        let (sc1, count) = read_count(stream, total, sc, kanji_count_bits(version));
        if count >= 0 {
            lemma_put_kanji(stream, sc1, count);
        }
    }
}

/// The call returned `err` and moved the record and the stream as the
/// outcome `r` says.
pub open spec fn segment_done(
    r: (QuircDecodeError, Scan),
    d0: QuircData,
    s0: Datastream,
    d1: QuircData,
    s1: Datastream,
    err: QuircDecodeError,
) -> bool {
    err == r.0 && scanned(d0, s0, d1, s1, r.1)
}

/// Reads one group of a numeric segment: `bits` bits, written to the
/// payload as `digits` decimal digits. Returns `true`, and changes nothing,
/// if the stream holds fewer bits.
pub fn numeric_tuple(data: &mut QuircData, ds: &mut Datastream, bits: usize, digits: usize) -> (underflow: bool)
    requires
        old(ds).wf(),
        bits <= 32,
        old(data).payload_len + digits <= QUIRC_MAX_PAYLOAD,
    ensures
        final(ds).wf(),
        match spec_numeric_tuple(
            old(ds).data@,
            old(ds).data_bits as int,
            scan_of(*old(data), *old(ds)),
            bits as int,
            digits as int,
        ) {
            None => underflow && *final(data) == *old(data) && *final(ds) == *old(ds),
            Some(sc) => !underflow && scanned(*old(data), *old(ds), *final(data), *final(ds), sc),
        },
{
    if ds.bits_remaining() < bits {
        return true;
    }
    let mut tuple = ds.take_bits(bits);
    let ghost value = tuple as int;
    let ghost before = data.payload@;
    let mut i = digits;
    while i > 0
        invariant
            i <= digits,
            data.payload_len + digits <= QUIRC_MAX_PAYLOAD,
            data.payload_len == old(data).payload_len,
            data.version == old(data).version,
            data.ecc_level == old(data).ecc_level,
            data.mask == old(data).mask,
            data.data_type == old(data).data_type,
            data.eci == old(data).eci,
            put_decimal(data.payload@, data.payload_len as int, tuple as int, i as int) == put_decimal(
                before,
                data.payload_len as int,
                value,
                digits as int,
            ),
        decreases i,
    {
        i -= 1;
        data.payload[data.payload_len + i] = (tuple % 10 + 0x30) as u8;
        tuple /= 10;
    }
    data.payload_len += digits;
    false
}

/// Decodes a numeric segment.
pub fn decode_numeric(data: &mut QuircData, ds: &mut Datastream) -> (err: QuircDecodeError)
    requires
        old(ds).wf(),
        old(data).payload_len <= QUIRC_MAX_PAYLOAD,
    ensures
        final(ds).wf(),
        final(data).payload_len <= QUIRC_MAX_PAYLOAD,
        final(ds).ptr >= old(ds).ptr,
        segment_done(
            spec_decode_numeric(
                old(data).version as int,
                old(ds).data@,
                old(ds).data_bits as int,
                scan_of(*old(data), *old(ds)),
            ),
            *old(data),
            *old(ds),
            *final(data),
            *final(ds),
            err,
        ),
{
    let bits: usize = if data.version < 10 {
        10
    } else if data.version < 27 {
        12
    } else {
        14
    };
    let mut count = ds.take_bits(bits);
    proof {
        lemma2_to64();
    }
    if data.payload_len + count as usize + 1 > QUIRC_MAX_PAYLOAD {
        return QuircDecodeError::QuircErrorDataOverflow;
    }
    let ghost sc1 = scan_of(*data, *ds);
    let ghost count0 = count as int;
    let ghost stream = ds.data@;
    let ghost total = ds.data_bits as int;
    while count >= 3
        invariant
            ds.wf(),
            data.payload_len + count + 1 <= QUIRC_MAX_PAYLOAD,
            ds.ptr >= old(ds).ptr,
            stream == old(ds).data@,
            total == old(ds).data_bits,
            scanned(*old(data), *old(ds), *data, *ds, scan_of(*data, *ds)),
            numeric_groups(stream, total, scan_of(*data, *ds), count as int) == numeric_groups(
                stream,
                total,
                sc1,
                count0,
            ),
            spec_decode_numeric(old(data).version as int, stream, total, scan_of(*old(data), *old(ds)))
                == numeric_groups(stream, total, sc1, count0),
        decreases count,
    {
        if numeric_tuple(data, ds, 10, 3) {
            return QuircDecodeError::QuircErrorDataUnderflow;
        }
        count -= 3;
    }
    if count >= 2 {
        if numeric_tuple(data, ds, 7, 2) {
            return QuircDecodeError::QuircErrorDataUnderflow;
        }
        count -= 2;
    }
    if count != 0 {
        if numeric_tuple(data, ds, 4, 1) {
            return QuircDecodeError::QuircErrorDataUnderflow;
        }
    }
    QuircDecodeError::QuircSuccess
}

/// Reads one group of an alphanumeric segment: `bits` bits, written to the
/// payload as `digits` characters. Returns `true`, and changes nothing, if
/// the stream holds fewer bits.
pub fn alpha_tuple(data: &mut QuircData, ds: &mut Datastream, bits: usize, digits: usize) -> (underflow: bool)
    requires
        old(ds).wf(),
        bits <= 32,
        old(data).payload_len + digits <= QUIRC_MAX_PAYLOAD,
    ensures
        final(ds).wf(),
        match spec_alpha_tuple(
            old(ds).data@,
            old(ds).data_bits as int,
            scan_of(*old(data), *old(ds)),
            bits as int,
            digits as int,
        ) {
            None => underflow && *final(data) == *old(data) && *final(ds) == *old(ds),
            Some(sc) => !underflow && scanned(*old(data), *old(ds), *final(data), *final(ds), sc),
        },
{
    if ds.bits_remaining() < bits {
        return true;
    }
    let mut tuple = ds.take_bits(bits);
    let ghost value = tuple as int;
    let ghost before = data.payload@;
    let mut i = digits;
    while i > 0
        invariant
            i <= digits,
            data.payload_len + digits <= QUIRC_MAX_PAYLOAD,
            data.payload_len == old(data).payload_len,
            data.version == old(data).version,
            data.ecc_level == old(data).ecc_level,
            data.mask == old(data).mask,
            data.data_type == old(data).data_type,
            data.eci == old(data).eci,
            put_alpha(data.payload@, data.payload_len as int, tuple as int, i as int) == put_alpha(
                before,
                data.payload_len as int,
                value,
                digits as int,
            ),
        decreases i,
    {
        i -= 1;
        data.payload[data.payload_len + i] = ALPHA_MAP[(tuple % 45) as usize];
        tuple /= 45;
    }
    data.payload_len += digits;
    false
}

/// Decodes an alphanumeric segment.
pub fn decode_alpha(data: &mut QuircData, ds: &mut Datastream) -> (err: QuircDecodeError)
    requires
        old(ds).wf(),
        old(data).payload_len <= QUIRC_MAX_PAYLOAD,
    ensures
        final(ds).wf(),
        final(data).payload_len <= QUIRC_MAX_PAYLOAD,
        final(ds).ptr >= old(ds).ptr,
        segment_done(
            spec_decode_alpha(
                old(data).version as int,
                old(ds).data@,
                old(ds).data_bits as int,
                scan_of(*old(data), *old(ds)),
            ),
            *old(data),
            *old(ds),
            *final(data),
            *final(ds),
            err,
        ),
{
    let bits: usize = if data.version < 10 {
        9
    } else if data.version < 27 {
        11
    } else {
        13
    };
    let mut count = ds.take_bits(bits);
    proof {
        lemma2_to64();
    }
    if data.payload_len + count as usize + 1 > QUIRC_MAX_PAYLOAD {
        return QuircDecodeError::QuircErrorDataOverflow;
    }
    let ghost sc1 = scan_of(*data, *ds);
    let ghost count0 = count as int;
    let ghost stream = ds.data@;
    let ghost total = ds.data_bits as int;
    while count >= 2
        invariant
            ds.wf(),
            data.payload_len + count + 1 <= QUIRC_MAX_PAYLOAD,
            ds.ptr >= old(ds).ptr,
            stream == old(ds).data@,
            total == old(ds).data_bits,
            scanned(*old(data), *old(ds), *data, *ds, scan_of(*data, *ds)),
            alpha_groups(stream, total, scan_of(*data, *ds), count as int) == alpha_groups(
                stream,
                total,
                sc1,
                count0,
            ),
            spec_decode_alpha(old(data).version as int, stream, total, scan_of(*old(data), *old(ds)))
                == alpha_groups(stream, total, sc1, count0),
        decreases count,
    {
        if alpha_tuple(data, ds, 11, 2) {
            return QuircDecodeError::QuircErrorDataUnderflow;
        }
        count -= 2;
    }
    if count != 0 {
        if alpha_tuple(data, ds, 6, 1) {
            return QuircDecodeError::QuircErrorDataUnderflow;
        }
    }
    QuircDecodeError::QuircSuccess
}

/// Decodes a byte segment.
pub fn decode_byte(data: &mut QuircData, ds: &mut Datastream) -> (err: QuircDecodeError)
    requires
        old(ds).wf(),
        old(data).payload_len <= QUIRC_MAX_PAYLOAD,
    ensures
        final(ds).wf(),
        final(data).payload_len <= QUIRC_MAX_PAYLOAD,
        final(ds).ptr >= old(ds).ptr,
        segment_done(
            spec_decode_byte(
                old(data).version as int,
                old(ds).data@,
                old(ds).data_bits as int,
                scan_of(*old(data), *old(ds)),
            ),
            *old(data),
            *old(ds),
            *final(data),
            *final(ds),
            err,
        ),
{
    let bits: usize = if data.version < 10 {
        8
    } else {
        16
    };
    let count = ds.take_bits(bits);
    proof {
        lemma2_to64();
    }
    if data.payload_len + count as usize + 1 > QUIRC_MAX_PAYLOAD {
        return QuircDecodeError::QuircErrorDataOverflow;
    }
    if ds.bits_remaining() < count as usize * 8 {
        return QuircDecodeError::QuircErrorDataUnderflow;
    }
    let ghost sc1 = scan_of(*data, *ds);
    let ghost stream = ds.data@;
    let mut left = count;
    while left > 0
        invariant
            ds.wf(),
            left <= count,
            data.payload_len + left + 1 <= QUIRC_MAX_PAYLOAD,
            ds.data_bits - ds.ptr >= 8 * left,
            ds.ptr >= old(ds).ptr,
            stream == old(ds).data@,
            scanned(*old(data), *old(ds), *data, *ds, scan_of(*data, *ds)),
            put_bytes(stream, scan_of(*data, *ds), left as int) == put_bytes(stream, sc1, count as int),
        decreases left,
    {
        let b = ds.take_bits(8);
        proof {
            lemma2_to64();
        }
        data.payload[data.payload_len] = b as u8;
        data.payload_len += 1;
        left -= 1;
    }
    QuircDecodeError::QuircSuccess
}

/// Decodes a Kanji segment.
pub fn decode_kanji(data: &mut QuircData, ds: &mut Datastream) -> (err: QuircDecodeError)
    requires
        old(ds).wf(),
        old(data).payload_len <= QUIRC_MAX_PAYLOAD,
    ensures
        final(ds).wf(),
        final(data).payload_len <= QUIRC_MAX_PAYLOAD,
        final(ds).ptr >= old(ds).ptr,
        segment_done(
            spec_decode_kanji(
                old(data).version as int,
                old(ds).data@,
                old(ds).data_bits as int,
                scan_of(*old(data), *old(ds)),
            ),
            *old(data),
            *old(ds),
            *final(data),
            *final(ds),
            err,
        ),
{
    let bits: usize = if data.version < 10 {
        8
    } else if data.version < 27 {
        10
    } else {
        12
    };
    let count = ds.take_bits(bits);
    proof {
        lemma2_to64();
    }
    if data.payload_len + count as usize * 2 + 1 > QUIRC_MAX_PAYLOAD {
        return QuircDecodeError::QuircErrorDataOverflow;
    }
    if ds.bits_remaining() < count as usize * 13 {
        return QuircDecodeError::QuircErrorDataUnderflow;
    }
    let ghost sc1 = scan_of(*data, *ds);
    let ghost stream = ds.data@;
    let mut left = count;
    while left > 0
        invariant
            ds.wf(),
            left <= count,
            data.payload_len + 2 * left + 1 <= QUIRC_MAX_PAYLOAD,
            ds.data_bits - ds.ptr >= 13 * left,
            ds.ptr >= old(ds).ptr,
            stream == old(ds).data@,
            scanned(*old(data), *old(ds), *data, *ds, scan_of(*data, *ds)),
            put_kanji(stream, scan_of(*data, *ds), left as int) == put_kanji(stream, sc1, count as int),
        decreases left,
    {
        let d = ds.take_bits(13);
        proof {
            lemma2_to64();
        }
        let intermediate = (d / 0xc0) * 0x100 + d % 0xc0;
        let sjw = if intermediate + 0x8140 <= 0x9ffc {
            intermediate + 0x8140
        } else {
            intermediate + 0xc140
        };
        data.payload[data.payload_len] = (sjw / 0x100 % 0x100) as u8;
        data.payload[data.payload_len + 1] = (sjw % 0x100) as u8;
        data.payload_len += 2;
        left -= 1;
    }
    QuircDecodeError::QuircSuccess
}

/// Decodes an ECI segment.
pub fn decode_eci(data: &mut QuircData, ds: &mut Datastream) -> (err: QuircDecodeError)
    requires
        old(ds).wf(),
    ensures
        final(ds).wf(),
        final(data).payload_len == old(data).payload_len,
        final(ds).ptr >= old(ds).ptr,
        segment_done(
            spec_decode_eci(old(ds).data@, old(ds).data_bits as int, scan_of(*old(data), *old(ds))),
            *old(data),
            *old(ds),
            *final(data),
            *final(ds),
            err,
        ),
{
    if ds.bits_remaining() < 8 {
        return QuircDecodeError::QuircErrorDataUnderflow;
    }
    data.eci = ds.take_bits(8);
    proof {
        lemma2_to64();
    }
    if 0x80 <= data.eci && data.eci < 0xc0 {
        if ds.bits_remaining() < 8 {
            return QuircDecodeError::QuircErrorDataUnderflow;
        }
        data.eci = data.eci * 0x100 + ds.take_bits(8);
    } else if 0xc0 <= data.eci && data.eci < 0xe0 {
        if ds.bits_remaining() < 16 {
            return QuircDecodeError::QuircErrorDataUnderflow;
        }
        data.eci = data.eci * 0x10000 + ds.take_bits(16);
    }
    QuircDecodeError::QuircSuccess
}

/// Ends the payload with a zero byte.
fn end_payload(data: &mut QuircData)
    requires
        old(data).payload_len <= QUIRC_MAX_PAYLOAD,
    ensures
        final(data).version == old(data).version,
        final(data).ecc_level == old(data).ecc_level,
        final(data).mask == old(data).mask,
        final(data).data_type == old(data).data_type,
        final(data).eci == old(data).eci,
        final(data).payload_len < QUIRC_MAX_PAYLOAD,
        final(data).payload@ == old(data).payload@.update(final(data).payload_len as int, 0),
        final(data).payload_len == if old(data).payload_len >= QUIRC_MAX_PAYLOAD {
            old(data).payload_len - 1
        } else {
            old(data).payload_len as int
        },
{
    if data.payload_len >= QUIRC_MAX_PAYLOAD {
        data.payload_len -= 1;
    }
    data.payload[data.payload_len] = 0;
}

/// Decodes the segment that the indicator `mode` begins.
fn decode_segment(mode: u8, data: &mut QuircData, ds: &mut Datastream) -> (err: QuircDecodeError)
    requires
        is_mode(mode as int),
        old(ds).wf(),
        old(data).payload_len <= QUIRC_MAX_PAYLOAD,
    ensures
        final(ds).wf(),
        final(data).payload_len <= QUIRC_MAX_PAYLOAD,
        final(ds).ptr >= old(ds).ptr,
        segment_done(
            spec_segment(
                mode as int,
                old(data).version as int,
                old(ds).data@,
                old(ds).data_bits as int,
                scan_of(*old(data), *old(ds)),
            ),
            *old(data),
            *old(ds),
            *final(data),
            *final(ds),
            err,
        ),
{
    if mode == QUIRC_DATA_TYPE_NUMERIC {
        decode_numeric(data, ds)
    } else if mode == QUIRC_DATA_TYPE_ALPHA {
        decode_alpha(data, ds)
    } else if mode == QUIRC_DATA_TYPE_BYTE {
        decode_byte(data, ds)
    } else if mode == QUIRC_DATA_TYPE_KANJI {
        decode_kanji(data, ds)
    } else {
        decode_eci(data, ds)
    }
}

/// Decodes the segments of the stream into the payload, from the position
/// of the stream to the end of the message, and ends the payload with a
/// zero byte. The data type of the record becomes the highest among the
/// segments. A segment that fails ends the decoding with its error; the
/// payload then holds what was decoded before, without the zero byte.
pub fn decode_payload(data: &mut QuircData, ds: &mut Datastream) -> (err: QuircDecodeError)
    requires
        old(ds).wf(),
        old(data).payload_len <= QUIRC_MAX_PAYLOAD,
    ensures
        final(ds).wf(),
        final(data).payload_len <= QUIRC_MAX_PAYLOAD,
        err == QuircDecodeError::QuircSuccess ==> final(data).payload_len < QUIRC_MAX_PAYLOAD && final(data).payload@[final(data).payload_len as int]
            == 0,
        segment_done(
            spec_decode_payload(
                old(data).version as int,
                old(ds).data@,
                old(ds).data_bits as int,
                scan_of(*old(data), *old(ds)),
            ),
            *old(data),
            *old(ds),
            *final(data),
            *final(ds),
            err,
        ),
{
    let ghost version = data.version as int;
    let ghost stream = ds.data@;
    let ghost total = ds.data_bits as int;
    let ghost start = scan_of(*data, *ds);
    while ds.bits_remaining() >= 4
        invariant
            ds.wf(),
            data.payload_len <= QUIRC_MAX_PAYLOAD,
            version == old(data).version,
            stream == old(ds).data@,
            total == old(ds).data_bits,
            start == scan_of(*old(data), *old(ds)),
            scanned(*old(data), *old(ds), *data, *ds, scan_of(*data, *ds)),
            spec_decode_payload(version, stream, total, scan_of(*data, *ds)) == spec_decode_payload(
                version,
                stream,
                total,
                start,
            ),
        decreases ds.data_bits - ds.ptr,
    {
        let ghost sc = scan_of(*data, *ds);
        proof {
            lemma_decode_payload_step(version, stream, total, sc);
        }
        let mode = ds.take_bits(4) as u8;
        proof {
            lemma2_to64();
        }
        if !(mode == QUIRC_DATA_TYPE_NUMERIC || mode == QUIRC_DATA_TYPE_ALPHA || mode == QUIRC_DATA_TYPE_BYTE
            || mode == QUIRC_DATA_TYPE_KANJI || mode == MODE_ECI) {
            end_payload(data);
            return QuircDecodeError::QuircSuccess;
        }
        let err = decode_segment(mode, data, ds);
        if err != QuircDecodeError::QuircSuccess {
            return err;
        }
        if mode != MODE_ECI && mode > data.data_type {
            data.data_type = mode;
        }
    }
    proof {
        lemma_decode_payload_step(version, stream, total, scan_of(*data, *ds));
    }
    end_payload(data);
    QuircDecodeError::QuircSuccess
}

} // verus!
