//! The container layout, as mathematical functions from section lists to
//! byte sequences.
//!
//! A container is: the 4-byte magic identifier, a 1-byte section count, one
//! 9-byte offset-table entry per section (1-byte id, 8-byte absolute offset),
//! then each section's record (4-byte flags, 4-byte checksum, 8-byte body
//! length, body), packed contiguously in input order. Offsets are measured
//! from byte 0 of the magic identifier and point at a record's flags field.

use vstd::prelude::*;
use crate::wire::spec_u32_from_be;
use crate::wire::spec_u32_to_be;
use crate::wire::spec_u64_from_be;
use crate::wire::spec_u64_to_be;

verus! {

/// The fixed 4-byte magic identifier that opens every container.
pub const MAGIC: u32 = 0x57494C44;

/// Bytes of the header before the offset table: magic plus count byte.
pub const HEADER_FIXED_LEN: usize = 5;

/// Bytes of one offset-table entry: a 1-byte id and an 8-byte offset.
pub const TABLE_ENTRY_LEN: usize = 9;

/// Bytes of a section record before its body: flags, checksum, body length.
pub const RECORD_FIXED_LEN: usize = 16;

/// The largest section count the 1-byte count field can hold.
pub const MAX_SECTIONS: usize = 255;

/// A section as the contracts see it: the four fields, with the body as a
/// byte sequence.
pub ghost struct SpecSection {
    pub id: u8,
    pub flags: u32,
    pub checksum: u32,
    pub body: Seq<u8>,
}

/// Length of the header including the whole offset table for `n` sections.
pub open spec fn spec_header_len(n: int) -> int {
    HEADER_FIXED_LEN + TABLE_ENTRY_LEN * n
}

/// The record of one section: flags, checksum, body length, body.
pub open spec fn spec_record(s: SpecSection) -> Seq<u8> {
    spec_u32_to_be(s.flags) + spec_u32_to_be(s.checksum) + spec_u64_to_be(s.body.len() as u64)
        + s.body
}

/// Absolute offset of section `i`'s record: the header length plus the sizes
/// of all preceding records (a running prefix sum).
pub open spec fn spec_offset(sections: Seq<SpecSection>, i: int) -> int
    decreases i,
{
    if i <= 0 {
        spec_header_len(sections.len() as int)
    } else {
        spec_offset(sections, i - 1) + RECORD_FIXED_LEN + sections[i - 1].body.len()
    }
}

/// One offset-table entry: the section's id and its absolute offset.
pub open spec fn spec_entry(sections: Seq<SpecSection>, i: int) -> Seq<u8> {
    seq![sections[i].id] + spec_u64_to_be(spec_offset(sections, i) as u64)
}

/// The offset table for the first `i` sections, in order.
pub open spec fn spec_table_upto(sections: Seq<SpecSection>, i: int) -> Seq<u8>
    decreases i,
{
    if i <= 0 {
        Seq::empty()
    } else {
        spec_table_upto(sections, i - 1) + spec_entry(sections, i - 1)
    }
}

/// The concatenated records of the first `i` sections, in order.
pub open spec fn spec_bodies_upto(sections: Seq<SpecSection>, i: int) -> Seq<u8>
    decreases i,
{
    if i <= 0 {
        Seq::empty()
    } else {
        spec_bodies_upto(sections, i - 1) + spec_record(sections[i - 1])
    }
}

/// The whole container for a section list: header, offset table, records.
pub open spec fn spec_encode(sections: Seq<SpecSection>) -> Seq<u8>
    recommends
        sections.len() <= MAX_SECTIONS,
{
    spec_u32_to_be(MAGIC) + seq![sections.len() as u8]
        + spec_table_upto(sections, sections.len() as int)
        + spec_bodies_upto(sections, sections.len() as int)
}

/// Whether a byte sequence opens with the magic identifier.
pub open spec fn spec_magic_ok(src: Seq<u8>) -> bool {
    src.len() >= 4 && spec_u32_from_be(src.subrange(0, 4)) == MAGIC
}

/// The offset-table entry at index `j` of a container's header: the id byte
/// and the big-endian offset that follow the fixed header part.
pub open spec fn spec_entry_at(src: Seq<u8>, j: int) -> (u8, u64) {
    (
        src[HEADER_FIXED_LEN + TABLE_ENTRY_LEN * j],
        spec_u64_from_be(
            src.subrange(
                HEADER_FIXED_LEN + TABLE_ENTRY_LEN * j + 1,
                HEADER_FIXED_LEN + TABLE_ENTRY_LEN * (j + 1),
            ),
        ),
    )
}

/// The offset table read from a container's header: as many entries as the
/// count byte declares.
pub open spec fn spec_entries(src: Seq<u8>) -> Seq<(u8, u64)>
    recommends
        src.len() >= HEADER_FIXED_LEN,
{
    Seq::new(src[4] as nat, |j: int| spec_entry_at(src, j))
}

/// The section read from `src` at absolute offset `addr`, if the fixed fields
/// and the declared body both lie inside `src`; `None` where the read would
/// run past the end.
pub open spec fn spec_read_section(src: Seq<u8>, id: u8, addr: u64) -> Option<SpecSection> {
    if addr + RECORD_FIXED_LEN <= src.len() {
        let flags = spec_u32_from_be(src.subrange(addr as int, addr + 4));
        let checksum = spec_u32_from_be(src.subrange(addr + 4, addr + 8));
        let body_len = spec_u64_from_be(src.subrange(addr + 8, addr + RECORD_FIXED_LEN));
        if addr + RECORD_FIXED_LEN + body_len <= src.len() {
            Some(
                SpecSection {
                    id,
                    flags,
                    checksum,
                    body: src.subrange(addr + RECORD_FIXED_LEN, addr + RECORD_FIXED_LEN + body_len),
                },
            )
        } else {
            None
        }
    } else {
        None
    }
}

/// The offset table's byte length grows by one entry per section.
pub proof fn lemma_table_upto_len(sections: Seq<SpecSection>, i: int)
    requires
        0 <= i,
    ensures
        spec_table_upto(sections, i).len() == TABLE_ENTRY_LEN * i,
    decreases i,
{
    if i > 0 {
        lemma_table_upto_len(sections, i - 1);
    }
}

/// The concatenated records of the first `i` sections fill the bytes between
/// the end of the header and section `i`'s offset.
pub proof fn lemma_bodies_upto_len(sections: Seq<SpecSection>, i: int)
    requires
        0 <= i,
    ensures
        spec_bodies_upto(sections, i).len() == spec_offset(sections, i) - spec_header_len(
            sections.len() as int,
        ),
    decreases i,
{
    if i > 0 {
        lemma_bodies_upto_len(sections, i - 1);
    }
}

/// Offsets grow along the section list: a later section's offset is never
/// smaller, and each offset lies between the header end and the total length.
pub proof fn lemma_offset_monotone(sections: Seq<SpecSection>, i: int, j: int)
    requires
        0 <= i <= j,
    ensures
        spec_offset(sections, i) <= spec_offset(sections, j),
    decreases j - i,
{
    if i < j {
        lemma_offset_monotone(sections, i, j - 1);
    }
}

/// The container's total length is the offset just past the last record.
pub proof fn lemma_encode_len(sections: Seq<SpecSection>)
    requires
        sections.len() <= MAX_SECTIONS,
    ensures
        spec_encode(sections).len() == spec_offset(sections, sections.len() as int),
{
    lemma_table_upto_len(sections, sections.len() as int);
    lemma_bodies_upto_len(sections, sections.len() as int);
}

} // verus!
