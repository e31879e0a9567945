//! Decoder for a firmware boot load option record.
//!
//! A load option is a fixed-layout binary record: a 4-byte attribute word and
//! a 2-byte device-path-list length (both little-endian), a zero-terminated
//! UTF-16 description, an opaque device-path region of the declared length,
//! and a trailing blob of optional data reaching to the end of the buffer.
//! `EFILoadOpt::decode` parses such a record from a byte buffer; its result
//! is pinned down exactly by the specification function `spec_decode`.

use vstd::prelude::*;

pub mod laws;
pub mod utf16;

verus! {

/// The little-endian 16-bit value stored at byte offset `off`.
pub open spec fn le16(b: Seq<u8>, off: int) -> u16
    recommends
        0 <= off,
        off + 2 <= b.len(),
{
    (b[off] + 256 * b[off + 1]) as u16
}

/// The little-endian 32-bit value stored at byte offset `off`.
pub open spec fn le32(b: Seq<u8>, off: int) -> u32
    recommends
        0 <= off,
        off + 4 <= b.len(),
{
    (b[off] + 256 * b[off + 1] + 65536 * b[off + 2] + 16777216 * b[off + 3]) as u32
}

/// Reads the little-endian 16-bit value at byte offset `off`.
fn read_u16_le(buf: &[u8], off: usize) -> (r: u16)
    requires
        off + 2 <= buf@.len(),
    ensures
        r == le16(buf@, off as int),
{
    let b0 = buf[off];
    let b1 = buf[off + 1];
    b0 as u16 + 256 * (b1 as u16)
}

/// Reads the little-endian 32-bit value at byte offset `off`.
fn read_u32_le(buf: &[u8], off: usize) -> (r: u32)
    requires
        off + 4 <= buf@.len(),
    ensures
        r == le32(buf@, off as int),
{
    let b0 = buf[off];
    let b1 = buf[off + 1];
    let b2 = buf[off + 2];
    let b3 = buf[off + 3];
    b0 as u32 + 256 * (b1 as u32) + 65536 * (b2 as u32) + 16777216 * (b3 as u32)
}

/// The description's code unit at index `i`: the little-endian 16-bit value
/// at byte offset `6 + 2*i`, just past the fixed 6-byte header.
pub open spec fn unit_at(b: Seq<u8>, i: int) -> u16
    recommends
        0 <= i,
        6 + 2 * i + 2 <= b.len(),
{
    le16(b, 6 + 2 * i)
}

/// Scans the description's code units from index `i` on for the first zero
/// unit; `None` when the buffer runs out before one appears.
pub open spec fn find_term_from(b: Seq<u8>, i: nat) -> Option<nat>
    decreases b.len() - 6 - 2 * i,
{
    if 6 + 2 * i + 2 > b.len() {
        None
    } else if unit_at(b, i as int) == 0 {
        Some(i)
    } else {
        find_term_from(b, i + 1)
    }
}

/// The index of the description's terminating zero code unit, if any.
pub open spec fn find_term(b: Seq<u8>) -> Option<nat> {
    find_term_from(b, 0)
}

/// The first `n` code units of the description.
pub open spec fn units_upto(b: Seq<u8>, n: nat) -> Seq<u16> {
    Seq::new(n, |i: int| unit_at(b, i))
}

/// What `find_term_from` finding (or not finding) a terminator says of the
/// code units themselves.
pub proof fn lemma_find_term_from_props(b: Seq<u8>, k: nat)
    ensures
        match find_term_from(b, k) {
            Some(n) => k <= n && 6 + 2 * n + 2 <= b.len() && unit_at(b, n as int) == 0 && forall|
                j: int,
            | k <= j < n ==> unit_at(b, j) != 0,
            None => forall|j: int| k <= j && 6 + 2 * j + 2 <= b.len() ==> unit_at(b, j) != 0,
        },
    decreases b.len() - 6 - 2 * k,
{
    if 6 + 2 * k + 2 > b.len() {
    } else if unit_at(b, k as int) == 0 {
    } else {
        lemma_find_term_from_props(b, k + 1);
    }
}

/// Scanning may start past any run of nonzero code units without changing
/// the outcome.
pub proof fn lemma_find_term_from_skip(b: Seq<u8>, k: nat)
    requires
        6 + 2 * k <= b.len(),
        forall|j: int| 0 <= j < k ==> #[trigger] unit_at(b, j) != 0,
    ensures
        find_term(b) == find_term_from(b, k),
    decreases k,
{
    if k > 0 {
        lemma_find_term_from_skip(b, (k - 1) as nat);
        assert(unit_at(b, k - 1) != 0);
    }
}

/// A buffer whose in-range code units are all nonzero has no terminator.
pub proof fn lemma_no_terminator_when_all_nonzero(b: Seq<u8>)
    requires
        forall|j: int| 0 <= j && 6 + 2 * j + 2 <= b.len() ==> #[trigger] unit_at(b, j) != 0,
    ensures
        find_term(b) is None,
{
    if b.len() < 8 {
    } else {
        let k = (b.len() - 6) / 2;
        vstd::arithmetic::div_mod::lemma_fundamental_div_mod(b.len() - 6, 2);
        vstd::arithmetic::div_mod::lemma_mod_pos_bound(b.len() - 6, 2);
        assert forall|j: int| 0 <= j < k implies #[trigger] unit_at(b, j) != 0 by {
            assert(6 + 2 * j + 2 <= b.len());
        }
        lemma_find_term_from_skip(b, k as nat);
        assert(6 + 2 * k + 2 > b.len());
    }
}

/// A decoded load option record.
#[derive(Debug)]
pub struct EFILoadOpt {
    /// Attribute bit flags, kept as opaque bits.
    pub attributes: u32,
    /// The human-readable label of the boot entry.
    pub description: String,
    /// Trailing vendor- or OS-specific payload; may be empty.
    pub optional_data: Vec<u8>,
}

impl View for EFILoadOpt {
    type V = (u32, Seq<char>, Seq<u8>);

    open spec fn view(&self) -> (u32, Seq<char>, Seq<u8>) {
        (self.attributes, self.description@, self.optional_data@)
    }
}

/// Compares two byte vectors element by element.
fn bytes_eq(a: &Vec<u8>, b: &Vec<u8>) -> (r: bool)
    ensures
        r == (a@ == b@),
{
    if a.len() != b.len() {
        proof {
            assert(a@ != b@);
        }
        return false;
    }
    let mut i: usize = 0;
    while i < a.len()
        invariant
            i <= a@.len(),
            a@.len() == b@.len(),
            forall|j: int| 0 <= j < i ==> a@[j] == b@[j],
        decreases a@.len() - i,
    {
        if a[i] != b[i] {
            return false;
        }
        i = i + 1;
    }
    proof {
        assert(a@ =~= b@);
    }
    true
}

impl PartialEq for EFILoadOpt {
    /// Records are equal when all three fields hold the same values.
    fn eq(&self, other: &EFILoadOpt) -> (r: bool) {
        self.attributes == other.attributes && self.description == other.description && bytes_eq(
            &self.optional_data,
            &other.optional_data,
        )
    }
}

impl vstd::std_specs::cmp::PartialEqSpecImpl for EFILoadOpt {
    open spec fn obeys_eq_spec() -> bool {
        true
    }

    open spec fn eq_spec(&self, other: &EFILoadOpt) -> bool {
        self@ == other@
    }
}

/// Why a decode failed; each variant is tied to exactly one stage of the
/// layout walk.
#[derive(Clone, Copy, Debug, PartialEq, Eq, Structural)]
pub enum DecodeError {
    /// Fewer than the 6 bytes needed for the attributes and the
    /// device-path-list length.
    HeaderReadFailure,
    /// The buffer ran out before the description's zero terminator appeared.
    DescriptionReadFailure,
    /// The description's code units are not well-formed UTF-16 text.
    DescriptionTextFailure,
    /// The declared device-path-list length reaches past the buffer's end.
    TrailerRangeFailure,
}

/// What `EFILoadOpt::decode` returns, stated over the raw bytes: either the
/// decoded attribute word, description characters and optional-data bytes, or
/// the error of the first stage that fails.
pub open spec fn spec_decode(b: Seq<u8>) -> Result<(u32, Seq<char>, Seq<u8>), DecodeError> {
    if b.len() < 6 {
        Err(DecodeError::HeaderReadFailure)
    } else {
        match find_term(b) {
            None => Err(DecodeError::DescriptionReadFailure),
            Some(n) => if !utf16::utf16_valid(units_upto(b, n)) {
                Err(DecodeError::DescriptionTextFailure)
            } else if 6 + 2 * (n + 1) + le16(b, 4) > b.len() {
                Err(DecodeError::TrailerRangeFailure)
            } else {
                Ok(
                    (
                        le32(b, 0),
                        utf16::utf16_chars(units_upto(b, n)),
                        b.subrange(6 + 2 * (n + 1) + le16(b, 4), b.len() as int),
                    ),
                )
            },
        }
    }
}

/// True when `r` is what `spec_decode` says the buffer `b` decodes to.
pub open spec fn decode_result_matches(b: Seq<u8>, r: Result<EFILoadOpt, DecodeError>) -> bool {
    match r {
        Ok(o) => spec_decode(b) == Ok::<(u32, Seq<char>, Seq<u8>), DecodeError>(o@),
        Err(e) => spec_decode(b) == Err::<(u32, Seq<char>, Seq<u8>), DecodeError>(e),
    }
}

/// Collects the description's code units up to (but not including) the zero
/// terminator; `None` when the buffer runs out first.
fn read_description_units(buf: &[u8]) -> (r: Option<Vec<u16>>)
    requires
        6 <= buf@.len(),
    ensures
        match r {
            Some(v) => {
                &&& find_term(buf@) == Some(v@.len() as nat)
                &&& v@ == units_upto(buf@, v@.len() as nat)
                &&& 6 + 2 * v@.len() + 2 <= buf@.len()
            },
            None => find_term(buf@) is None,
        },
{
    let mut units: Vec<u16> = Vec::new();
    let mut pos: usize = 6;
    loop
        invariant
            6 <= buf@.len(),
            pos == 6 + 2 * units@.len(),
            pos <= buf@.len(),
            forall|j: int| 0 <= j < units@.len() ==> #[trigger] unit_at(buf@, j) == units@[j]
                && units@[j] != 0,
        decreases buf@.len() - pos,
    {
        proof {
            lemma_find_term_from_skip(buf@, units@.len() as nat);
        }
        if buf.len() - pos < 2 {
            return None;
        }
        let u = read_u16_le(buf, pos);
        if u == 0 {
            proof {
                assert(units@ =~= units_upto(buf@, units@.len() as nat));
            }
            return Some(units);
        }
        units.push(u);
        pos = pos + 2;
    }
}

impl EFILoadOpt {
    /// Decodes one load option record from a raw byte buffer; the result is
    /// exactly what `spec_decode` states for those bytes.
    pub fn decode(buf: &[u8]) -> (r: Result<Self, DecodeError>)
        ensures
            decode_result_matches(buf@, r),
    {
        if buf.len() < 6 {
            return Err(DecodeError::HeaderReadFailure);
        }
        let attributes = read_u32_le(buf, 0);
        let file_path_list_length = read_u16_le(buf, 4);
        let units = match read_description_units(buf) {
            Some(v) => v,
            None => {
                return Err(DecodeError::DescriptionReadFailure);
            },
        };
        let description = match utf16::decode_utf16_units(&units) {
            Some(s) => s,
            None => {
                return Err(DecodeError::DescriptionTextFailure);
            },
        };
        let after_terminator: usize = 6 + 2 * units.len() + 2;
        let optional_data_start = match after_terminator.checked_add(
            file_path_list_length as usize,
        ) {
            Some(s) => s,
            None => {
                return Err(DecodeError::TrailerRangeFailure);
            },
        };
        if optional_data_start > buf.len() {
            return Err(DecodeError::TrailerRangeFailure);
        }
        let optional_data = vstd::slice::slice_to_vec(
            vstd::slice::slice_subrange(buf, optional_data_start, buf.len()),
        );
        Ok(EFILoadOpt { attributes, description, optional_data })
    }
}

} // verus!
