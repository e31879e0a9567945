//! Properties of the decoder, each proved against `spec_decode`.

use vstd::prelude::*;

use crate::{
    decode_result_matches, find_term, find_term_from, le16, le32, lemma_find_term_from_props,
    lemma_find_term_from_skip, lemma_no_terminator_when_all_nonzero, spec_decode, unit_at,
    units_upto, DecodeError, EFILoadOpt,
};
use crate::utf16::{
    lemma_valid_utf16_has_no_unpaired_surrogate, unpaired_surrogate_at, utf16_chars, utf16_valid,
};

verus! {

/// Decoding is deterministic: two outcomes that both satisfy `decode`'s
/// contract for the same bytes agree, as values for errors and up to views
/// for records.
pub proof fn lemma_decode_deterministic(
    b: Seq<u8>,
    r1: Result<EFILoadOpt, DecodeError>,
    r2: Result<EFILoadOpt, DecodeError>,
)
    requires
        decode_result_matches(b, r1),
        decode_result_matches(b, r2),
    ensures
        match (r1, r2) {
            (Ok(o1), Ok(o2)) => o1@ == o2@,
            (Err(e1), Err(e2)) => e1 == e2,
            _ => false,
        },
{
}

/// A successful decode accounts for the whole buffer: the header, the
/// description with its terminator, the declared device-path region and the
/// optional data together have exactly the buffer's length.
pub proof fn lemma_decode_consumes_whole_buffer(b: Seq<u8>)
    requires
        spec_decode(b) is Ok,
    ensures
        find_term(b) is Some,
        ({
            let n = find_term(b)->Some_0;
            let tail = spec_decode(b)->Ok_0.2;
            6 + 2 * (n + 1) + le16(b, 4) + tail.len() == b.len()
        }),
{
}

/// A description terminated by its very first code unit decodes to the empty
/// string.
pub proof fn lemma_empty_description(b: Seq<u8>)
    requires
        8 <= b.len(),
        unit_at(b, 0) == 0,
        8 + le16(b, 4) <= b.len(),
    ensures
        spec_decode(b) == Ok::<(u32, Seq<char>, Seq<u8>), DecodeError>(
            (le32(b, 0), Seq::empty(), b.subrange(8 + le16(b, 4), b.len() as int)),
        ),
{
    assert(find_term_from(b, 0) == Some(0nat));
    assert(units_upto(b, 0) =~= Seq::<u16>::empty());
}

/// When the device-path region's end coincides with the buffer's end, the
/// decoded optional data is empty.
pub proof fn lemma_empty_optional_data(b: Seq<u8>)
    requires
        spec_decode(b) is Ok,
        6 + 2 * (find_term(b)->Some_0 + 1) + le16(b, 4) == b.len(),
    ensures
        spec_decode(b)->Ok_0.2 == Seq::<u8>::empty(),
{
    assert(b.subrange(b.len() as int, b.len() as int) =~= Seq::<u8>::empty());
}

/// A buffer shorter than the fixed 6-byte header fails as a header read.
pub proof fn lemma_truncation_in_header(b: Seq<u8>)
    requires
        b.len() < 6,
    ensures
        spec_decode(b) == Err::<(u32, Seq<char>, Seq<u8>), DecodeError>(
            DecodeError::HeaderReadFailure,
        ),
{
}

/// Truncating a buffer anywhere before the end of its description terminator
/// (but not into the header) fails as a description read.
pub proof fn lemma_truncation_before_terminator(b: Seq<u8>, m: int)
    requires
        find_term(b) is Some,
        6 <= m < 6 + 2 * (find_term(b)->Some_0 + 1),
        m <= b.len(),
    ensures
        spec_decode(b.take(m)) == Err::<(u32, Seq<char>, Seq<u8>), DecodeError>(
            DecodeError::DescriptionReadFailure,
        ),
{
    let n = find_term(b)->Some_0;
    let t = b.take(m);
    lemma_find_term_from_props(b, 0);
    assert forall|j: int| 0 <= j && 6 + 2 * j + 2 <= t.len() implies #[trigger] unit_at(t, j)
        != 0 by {
        assert(j < n);
        assert(t[6 + 2 * j] == b[6 + 2 * j]);
        assert(t[6 + 2 * j + 1] == b[6 + 2 * j + 1]);
        assert(unit_at(b, j) != 0);
    }
    lemma_no_terminator_when_all_nonzero(t);
}

/// A description containing an unpaired surrogate code unit is rejected as
/// invalid text.
pub proof fn lemma_unpaired_surrogate_rejected(b: Seq<u8>, i: int)
    requires
        6 <= b.len(),
        find_term(b) is Some,
        0 <= i < find_term(b)->Some_0,
        unpaired_surrogate_at(units_upto(b, find_term(b)->Some_0), i),
    ensures
        spec_decode(b) == Err::<(u32, Seq<char>, Seq<u8>), DecodeError>(
            DecodeError::DescriptionTextFailure,
        ),
{
    let units = units_upto(b, find_term(b)->Some_0);
    if utf16_valid(units) {
        lemma_valid_utf16_has_no_unpaired_surrogate(units);
        assert(false);
    }
}

/// A device-path-list length that reaches past the buffer's end is rejected
/// as a trailer range failure.
pub proof fn lemma_trailer_range_rejected(b: Seq<u8>)
    requires
        6 <= b.len(),
        find_term(b) is Some,
        utf16_valid(units_upto(b, find_term(b)->Some_0)),
        6 + 2 * (find_term(b)->Some_0 + 1) + le16(b, 4) > b.len(),
    ensures
        spec_decode(b) == Err::<(u32, Seq<char>, Seq<u8>), DecodeError>(
            DecodeError::TrailerRangeFailure,
        ),
{
}

/// The two little-endian bytes of a 16-bit value.
pub open spec fn u16_le_bytes(v: u16) -> Seq<u8> {
    seq![(v % 256) as u8, (v / 256) as u8]
}

/// The four little-endian bytes of a 32-bit value.
pub open spec fn u32_le_bytes(v: u32) -> Seq<u8> {
    seq![
        (v % 256) as u8,
        ((v / 256) % 256) as u8,
        ((v / 65536) % 256) as u8,
        ((v / 16777216) % 256) as u8,
    ]
}

/// The little-endian bytes of a run of 16-bit code units.
pub open spec fn units_le_bytes(units: Seq<u16>) -> Seq<u8>
    decreases units.len(),
{
    if units.len() == 0 {
        Seq::empty()
    } else {
        u16_le_bytes(units[0]) + units_le_bytes(units.drop_first())
    }
}

/// A whole load option record laid out as bytes: attributes, the length of
/// the device-path region, the description's code units with their zero
/// terminator, the device-path region itself, and the optional data.
pub open spec fn encode_load_option(
    attributes: u32,
    units: Seq<u16>,
    device_path: Seq<u8>,
    tail: Seq<u8>,
) -> Seq<u8>
    recommends
        device_path.len() <= 0xFFFF,
{
    u32_le_bytes(attributes) + u16_le_bytes(device_path.len() as u16) + units_le_bytes(units)
        + seq![0u8, 0u8] + device_path + tail
}

proof fn lemma_le16_of_u16_le_bytes(b: Seq<u8>, off: int, v: u16)
    requires
        0 <= off,
        off + 2 <= b.len(),
        b[off] == u16_le_bytes(v)[0],
        b[off + 1] == u16_le_bytes(v)[1],
    ensures
        le16(b, off) == v,
{
    vstd::arithmetic::div_mod::lemma_fundamental_div_mod(v as int, 256);
    vstd::arithmetic::div_mod::lemma_mod_pos_bound(v as int, 256);
    vstd::arithmetic::div_mod::lemma_div_is_ordered(v as int, 0xFFFF, 256);
    assert(0xFFFF as int / 256 == 255);
}

proof fn lemma_le32_of_u32_le_bytes(b: Seq<u8>, off: int, v: u32)
    requires
        0 <= off,
        off + 4 <= b.len(),
        b[off] == u32_le_bytes(v)[0],
        b[off + 1] == u32_le_bytes(v)[1],
        b[off + 2] == u32_le_bytes(v)[2],
        b[off + 3] == u32_le_bytes(v)[3],
    ensures
        le32(b, off) == v,
{
    let q1 = v as int / 256;
    let q2 = v as int / 65536;
    let q3 = v as int / 16777216;
    vstd::arithmetic::div_mod::lemma_fundamental_div_mod(v as int, 256);
    vstd::arithmetic::div_mod::lemma_fundamental_div_mod(q1, 256);
    vstd::arithmetic::div_mod::lemma_fundamental_div_mod(q2, 256);
    vstd::arithmetic::div_mod::lemma_div_denominator(v as int, 256, 256);
    vstd::arithmetic::div_mod::lemma_div_denominator(v as int, 65536, 256);
    vstd::arithmetic::div_mod::lemma_mod_pos_bound(v as int, 256);
    vstd::arithmetic::div_mod::lemma_mod_pos_bound(q1, 256);
    vstd::arithmetic::div_mod::lemma_mod_pos_bound(q2, 256);
    vstd::arithmetic::div_mod::lemma_div_pos_is_pos(v as int, 16777216);
    vstd::arithmetic::div_mod::lemma_div_is_ordered(v as int, 0xFFFFFFFF, 16777216);
    assert(0xFFFFFFFF as int / 16777216 == 255);
    vstd::arithmetic::div_mod::lemma_small_mod(q3 as nat, 256);
    assert(v == v as int % 256 + 256 * (q1 % 256) + 65536 * (q2 % 256) + 16777216 * q3);
}

proof fn lemma_units_le_bytes_len(units: Seq<u16>)
    ensures
        units_le_bytes(units).len() == 2 * units.len(),
    decreases units.len(),
{
    if units.len() > 0 {
        lemma_units_le_bytes_len(units.drop_first());
    }
}

proof fn lemma_units_le_bytes_index(units: Seq<u16>, j: int)
    requires
        0 <= j < units.len(),
    ensures
        units_le_bytes(units)[2 * j] == u16_le_bytes(units[j])[0],
        units_le_bytes(units)[2 * j + 1] == u16_le_bytes(units[j])[1],
    decreases units.len(),
{
    lemma_units_le_bytes_len(units.drop_first());
    if j > 0 {
        lemma_units_le_bytes_index(units.drop_first(), j - 1);
    }
}

/// Decoding inverts encoding: a buffer laid out from given attributes, a
/// terminator-free well-formed description, a device-path region of declared
/// length and trailing optional data decodes to exactly those parts.
pub proof fn lemma_decode_of_encoding(
    attributes: u32,
    units: Seq<u16>,
    device_path: Seq<u8>,
    tail: Seq<u8>,
)
    requires
        forall|j: int| 0 <= j < units.len() ==> units[j] != 0,
        utf16_valid(units),
        device_path.len() <= 0xFFFF,
    ensures
        spec_decode(encode_load_option(attributes, units, device_path, tail))
            == Ok::<(u32, Seq<char>, Seq<u8>), DecodeError>(
            (attributes, utf16_chars(units), tail),
        ),
{
    let b = encode_load_option(attributes, units, device_path, tail);
    let n = units.len() as int;
    lemma_units_le_bytes_len(units);
    assert(b.len() == 8 + 2 * n + device_path.len() + tail.len());
    lemma_le32_of_u32_le_bytes(b, 0, attributes);
    lemma_le16_of_u16_le_bytes(b, 4, device_path.len() as u16);
    assert(le16(b, 4) == device_path.len());
    assert forall|j: int| 0 <= j < n implies #[trigger] unit_at(b, j) == units[j] by {
        lemma_units_le_bytes_index(units, j);
        assert(b[6 + 2 * j] == units_le_bytes(units)[2 * j]);
        assert(b[6 + 2 * j + 1] == units_le_bytes(units)[2 * j + 1]);
        lemma_le16_of_u16_le_bytes(b, 6 + 2 * j, units[j]);
    }
    assert(b[6 + 2 * n] == 0u8);
    assert(b[6 + 2 * n + 1] == 0u8);
    assert(unit_at(b, n) == 0);
    lemma_find_term_from_skip(b, n as nat);
    assert(find_term(b) == Some(n as nat));
    assert(units_upto(b, n as nat) =~= units);
    assert(6 + 2 * (n + 1) + le16(b, 4) == 8 + 2 * n + device_path.len());
    assert(b.subrange(8 + 2 * n + device_path.len(), b.len() as int) =~= tail);
}

} // verus!
