//! The format's guarantees, stated and proved over the layout functions:
//! every encoded container decodes back to the section list it came from,
//! every recorded offset points at its section's record, and a truncated body
//! region loses exactly the records that run past the cut.

use vstd::prelude::*;
use crate::format::HEADER_FIXED_LEN;
use crate::format::MAGIC;
use crate::format::MAX_SECTIONS;
use crate::format::RECORD_FIXED_LEN;
use crate::format::SpecSection;
use crate::format::TABLE_ENTRY_LEN;
use crate::format::lemma_bodies_upto_len;
use crate::format::lemma_encode_len;
use crate::format::lemma_offset_monotone;
use crate::format::lemma_table_upto_len;
use crate::format::spec_bodies_upto;
use crate::format::spec_encode;
use crate::format::spec_entries;
use crate::format::spec_entry;
use crate::format::spec_entry_at;
use crate::format::spec_header_len;
use crate::format::spec_magic_ok;
use crate::format::spec_offset;
use crate::format::spec_read_section;
use crate::format::spec_record;
use crate::format::spec_table_upto;
use crate::wire::lemma_u32_be_round_trip;
use crate::wire::lemma_u64_be_round_trip;
use crate::wire::spec_u32_to_be;
use crate::wire::spec_u64_to_be;

verus! {

proof fn lemma_concat_subrange_left(a: Seq<u8>, b: Seq<u8>, x: int, y: int)
    requires
        0 <= x <= y <= a.len(),
    ensures
        (a + b).subrange(x, y) == a.subrange(x, y),
{
    assert((a + b).subrange(x, y) =~= a.subrange(x, y));
}

proof fn lemma_concat_subrange_right(a: Seq<u8>, b: Seq<u8>, x: int, y: int)
    requires
        a.len() <= x <= y <= a.len() + b.len(),
    ensures
        (a + b).subrange(x, y) == b.subrange(x - a.len(), y - a.len()),
{
    assert((a + b).subrange(x, y) =~= b.subrange(x - a.len(), y - a.len()));
}

/// Entry `j` occupies its nine bytes of the offset table.
proof fn lemma_table_upto_entry(sections: Seq<SpecSection>, j: int, m: int)
    requires
        0 <= j < m <= sections.len(),
    ensures
        spec_table_upto(sections, m).subrange(
            TABLE_ENTRY_LEN * j,
            TABLE_ENTRY_LEN * (j + 1),
        ) == spec_entry(sections, j),
    decreases m,
{
    lemma_table_upto_len(sections, m - 1);
    if m == j + 1 {
        lemma_concat_subrange_right(
            spec_table_upto(sections, j),
            spec_entry(sections, j),
            TABLE_ENTRY_LEN * j,
            TABLE_ENTRY_LEN * (j + 1),
        );
        assert(spec_entry(sections, j).subrange(0, TABLE_ENTRY_LEN as int) =~= spec_entry(
            sections,
            j,
        ));
    } else {
        lemma_table_upto_entry(sections, j, m - 1);
        lemma_concat_subrange_left(
            spec_table_upto(sections, m - 1),
            spec_entry(sections, m - 1),
            TABLE_ENTRY_LEN * j,
            TABLE_ENTRY_LEN * (j + 1),
        );
    }
}

/// Section `i`'s record occupies the bytes between its offset and the next
/// one, within the concatenated records of the first `m` sections.
proof fn lemma_bodies_upto_record(sections: Seq<SpecSection>, i: int, m: int)
    requires
        0 <= i < m <= sections.len(),
    ensures
        spec_bodies_upto(sections, m).subrange(
            spec_offset(sections, i) - spec_header_len(sections.len() as int),
            spec_offset(sections, i + 1) - spec_header_len(sections.len() as int),
        ) == spec_record(sections[i]),
    decreases m,
{
    let hl = spec_header_len(sections.len() as int);
    lemma_bodies_upto_len(sections, m - 1);
    lemma_offset_monotone(sections, 0, i);
    if m == i + 1 {
        lemma_concat_subrange_right(
            spec_bodies_upto(sections, i),
            spec_record(sections[i]),
            spec_offset(sections, i) - hl,
            spec_offset(sections, i + 1) - hl,
        );
        assert(spec_record(sections[i]).subrange(
            0,
            RECORD_FIXED_LEN + sections[i].body.len(),
        ) =~= spec_record(sections[i]));
    } else {
        lemma_bodies_upto_record(sections, i, m - 1);
        lemma_offset_monotone(sections, i + 1, m - 1);
        lemma_concat_subrange_left(
            spec_bodies_upto(sections, m - 1),
            spec_record(sections[m - 1]),
            spec_offset(sections, i) - hl,
            spec_offset(sections, i + 1) - hl,
        );
    }
}

/// Reading the encoded container at section `i`'s recorded offset
/// reproduces section `i` exactly.
proof fn lemma_read_encoded_section(sections: Seq<SpecSection>, i: int)
    requires
        sections.len() <= MAX_SECTIONS,
        spec_encode(sections).len() <= u64::MAX,
        0 <= i < sections.len(),
    ensures
        spec_read_section(
            spec_encode(sections),
            sections[i].id,
            spec_offset(sections, i) as u64,
        ) == Some(sections[i]),
{
    let n = sections.len() as int;
    let bytes = spec_encode(sections);
    let hl = spec_header_len(n);
    let off = spec_offset(sections, i);
    let blen = sections[i].body.len() as int;
    let head = spec_u32_to_be(MAGIC) + seq![sections.len() as u8] + spec_table_upto(sections, n);
    let rec = spec_record(sections[i]);

    lemma_table_upto_len(sections, n);
    lemma_encode_len(sections);
    lemma_offset_monotone(sections, 0, i);
    lemma_offset_monotone(sections, i + 1, n);
    assert(head.len() == hl);
    assert(off + RECORD_FIXED_LEN + blen == spec_offset(sections, i + 1));

    lemma_bodies_upto_record(sections, i, n);
    lemma_concat_subrange_right(
        head,
        spec_bodies_upto(sections, n),
        off,
        off + RECORD_FIXED_LEN + blen,
    );
    assert(bytes.subrange(off, off + RECORD_FIXED_LEN + blen) == rec);

    let addr = off as u64;
    assert(addr as int == off);
    let recb = bytes.subrange(off, off + RECORD_FIXED_LEN + blen);

    assert(bytes.subrange(addr as int, addr + 4) =~= recb.subrange(0, 4));
    assert(rec.subrange(0, 4) =~= spec_u32_to_be(sections[i].flags));
    assert(bytes.subrange(addr + 4, addr + 8) =~= recb.subrange(4, 8));
    assert(rec.subrange(4, 8) =~= spec_u32_to_be(sections[i].checksum));
    assert(bytes.subrange(addr + 8, addr + RECORD_FIXED_LEN) =~= recb.subrange(
        8,
        RECORD_FIXED_LEN as int,
    ));
    assert(rec.subrange(8, RECORD_FIXED_LEN as int) =~= spec_u64_to_be(
        sections[i].body.len() as u64,
    ));
    assert(bytes.subrange(addr + RECORD_FIXED_LEN, addr + RECORD_FIXED_LEN + blen)
        =~= recb.subrange(RECORD_FIXED_LEN as int, RECORD_FIXED_LEN + blen));
    assert(rec.subrange(RECORD_FIXED_LEN as int, RECORD_FIXED_LEN + blen) =~= sections[i].body);

    lemma_u32_be_round_trip(sections[i].flags);
    lemma_u32_be_round_trip(sections[i].checksum);
    lemma_u64_be_round_trip(sections[i].body.len() as u64);

    let got = spec_read_section(bytes, sections[i].id, addr);
    assert(got matches Some(s) && s == sections[i]);
}

/// The header of an encoded container parses back: the magic identifier is
/// in place, the count byte is the section count, and entry `j` of the
/// offset table is section `j`'s id with its computed offset.
proof fn lemma_encoded_header(sections: Seq<SpecSection>)
    requires
        sections.len() <= MAX_SECTIONS,
        spec_encode(sections).len() <= u64::MAX,
    ensures
        spec_encode(sections).len() >= spec_header_len(sections.len() as int),
        spec_magic_ok(spec_encode(sections)),
        spec_encode(sections)[4] == sections.len() as u8,
        spec_entries(spec_encode(sections)).len() == sections.len(),
        forall|j: int|
            0 <= j < sections.len() ==> #[trigger] spec_entries(spec_encode(sections))[j] == (
            sections[j].id,
            spec_offset(sections, j) as u64,
            ),
{
    let n = sections.len() as int;
    let bytes = spec_encode(sections);
    let pre = spec_u32_to_be(MAGIC) + seq![sections.len() as u8];
    let table = spec_table_upto(sections, n);

    lemma_table_upto_len(sections, n);
    lemma_bodies_upto_len(sections, n);
    lemma_encode_len(sections);
    lemma_offset_monotone(sections, 0, n);

    assert(bytes.subrange(0, 4) =~= spec_u32_to_be(MAGIC));
    lemma_u32_be_round_trip(MAGIC);
    assert(spec_magic_ok(bytes));
    assert(bytes[4] == sections.len() as u8);

    assert forall|j: int| 0 <= j < n implies #[trigger] spec_entry_at(bytes, j) == (
        sections[j].id,
        spec_offset(sections, j) as u64,
    ) by {
        lemma_table_upto_entry(sections, j, n);
        let entry = spec_entry(sections, j);
        lemma_concat_subrange_left(
            pre + table,
            spec_bodies_upto(sections, n),
            HEADER_FIXED_LEN + TABLE_ENTRY_LEN * j,
            HEADER_FIXED_LEN + TABLE_ENTRY_LEN * (j + 1),
        );
        lemma_concat_subrange_right(
            pre,
            table,
            HEADER_FIXED_LEN + TABLE_ENTRY_LEN * j,
            HEADER_FIXED_LEN + TABLE_ENTRY_LEN * (j + 1),
        );
        let base = HEADER_FIXED_LEN + TABLE_ENTRY_LEN * j;
        let entryb = bytes.subrange(base, base + TABLE_ENTRY_LEN);
        assert(entryb == entry);
        assert(bytes[base] == entryb[0]);
        assert(entry[0] == sections[j].id);
        let off = spec_offset(sections, j);
        lemma_offset_monotone(sections, 0, j);
        lemma_offset_monotone(sections, j, n);
        assert(bytes.subrange(base + 1, base + TABLE_ENTRY_LEN) =~= entryb.subrange(
            1,
            TABLE_ENTRY_LEN as int,
        ));
        assert(entry.subrange(1, TABLE_ENTRY_LEN as int) =~= spec_u64_to_be(off as u64));
        lemma_u64_be_round_trip(off as u64);
    }
}

/// Offset correctness: in every encoded container, each offset-table entry's
/// offset points exactly at that section's flags field — reading the fixed
/// fields and the declared body from that point reproduces the section.
pub proof fn lemma_offset_correctness(sections: Seq<SpecSection>)
    requires
        sections.len() <= MAX_SECTIONS,
        spec_encode(sections).len() <= u64::MAX,
    ensures
        forall|i: int|
            0 <= i < sections.len() ==> #[trigger] spec_read_section(
                spec_encode(sections),
                sections[i].id,
                spec_offset(sections, i) as u64,
            ) == Some(sections[i]),
{
    assert forall|i: int| 0 <= i < sections.len() implies #[trigger] spec_read_section(
        spec_encode(sections),
        sections[i].id,
        spec_offset(sections, i) as u64,
    ) == Some(sections[i]) by {
        lemma_read_encoded_section(sections, i);
    }
}

/// Round-trip: decoding an encoded container gives back the section list it
/// was made from. The header parses with the magic identifier in place and
/// the count byte equal to the list's length; the offset table lists each
/// section's id with its computed offset, in order; and reading at each
/// entry yields exactly that section.
pub proof fn lemma_round_trip(sections: Seq<SpecSection>)
    requires
        sections.len() <= MAX_SECTIONS,
        spec_encode(sections).len() <= u64::MAX,
    ensures
        spec_magic_ok(spec_encode(sections)),
        spec_encode(sections).len() >= spec_header_len(sections.len() as int),
        spec_encode(sections)[4] == sections.len() as u8,
        spec_entries(spec_encode(sections)).len() == sections.len(),
        forall|i: int|
            0 <= i < sections.len() ==> #[trigger] spec_entries(spec_encode(sections))[i] == (
            sections[i].id,
            spec_offset(sections, i) as u64,
            ),
        forall|i: int|
            0 <= i < sections.len() ==> #[trigger] spec_read_section(
                spec_encode(sections),
                spec_entries(spec_encode(sections))[i].0,
                spec_entries(spec_encode(sections))[i].1,
            ) == Some(sections[i]),
{
    lemma_encoded_header(sections);
    lemma_offset_correctness(sections);
}

/// Truncation tolerance: cut an encoded container anywhere at or after the
/// end of the offset table, and the header and table still parse unchanged;
/// each section whose whole record lies before the cut still reads back
/// exactly, and each section whose record crosses or follows the cut reads
/// as `None` — never as a mangled section.
pub proof fn lemma_truncation_tolerance(sections: Seq<SpecSection>, cut: int)
    requires
        sections.len() <= MAX_SECTIONS,
        spec_encode(sections).len() <= u64::MAX,
        spec_header_len(sections.len() as int) <= cut <= spec_encode(sections).len(),
    ensures
        spec_magic_ok(spec_encode(sections).take(cut)),
        spec_encode(sections).take(cut)[4] == sections.len() as u8,
        spec_entries(spec_encode(sections).take(cut)) == spec_entries(spec_encode(sections)),
        forall|i: int|
            0 <= i < sections.len() ==> #[trigger] spec_read_section(
                spec_encode(sections).take(cut),
                sections[i].id,
                spec_offset(sections, i) as u64,
            ) == if spec_offset(sections, i + 1) <= cut {
                Some(sections[i])
            } else {
                None
            },
{
    let n = sections.len() as int;
    let bytes = spec_encode(sections);
    let cutb = bytes.take(cut);
    let hl = spec_header_len(n);

    lemma_encoded_header(sections);
    lemma_encode_len(sections);

    assert(cutb.subrange(0, 4) =~= bytes.subrange(0, 4));
    assert(spec_magic_ok(cutb));
    assert(cutb[4] == bytes[4]);
    assert forall|j: int| 0 <= j < n implies #[trigger] spec_entry_at(cutb, j) == spec_entry_at(
        bytes,
        j,
    ) by {
        lemma_offset_monotone(sections, 0, n);
        assert(cutb[HEADER_FIXED_LEN + TABLE_ENTRY_LEN * j] == bytes[HEADER_FIXED_LEN
            + TABLE_ENTRY_LEN * j]);
        assert(cutb.subrange(
            HEADER_FIXED_LEN + TABLE_ENTRY_LEN * j + 1,
            HEADER_FIXED_LEN + TABLE_ENTRY_LEN * (j + 1),
        ) =~= bytes.subrange(
            HEADER_FIXED_LEN + TABLE_ENTRY_LEN * j + 1,
            HEADER_FIXED_LEN + TABLE_ENTRY_LEN * (j + 1),
        ));
    }
    assert(spec_entries(cutb) =~= spec_entries(bytes));

    assert forall|i: int| 0 <= i < n implies #[trigger] spec_read_section(
        cutb,
        sections[i].id,
        spec_offset(sections, i) as u64,
    ) == if spec_offset(sections, i + 1) <= cut {
        Some(sections[i])
    } else {
        None
    } by {
        lemma_read_encoded_section(sections, i);
        let off = spec_offset(sections, i);
        let addr = off as u64;
        let blen = sections[i].body.len() as int;
        lemma_offset_monotone(sections, 0, i);
        lemma_offset_monotone(sections, i + 1, n);
        assert(off + RECORD_FIXED_LEN + blen == spec_offset(sections, i + 1));
        if off + RECORD_FIXED_LEN <= cut {
            assert(cutb.subrange(addr as int, addr + 4) =~= bytes.subrange(addr as int, addr + 4));
            assert(cutb.subrange(addr + 4, addr + 8) =~= bytes.subrange(addr + 4, addr + 8));
            assert(cutb.subrange(addr + 8, addr + RECORD_FIXED_LEN) =~= bytes.subrange(
                addr + 8,
                addr + RECORD_FIXED_LEN,
            ));
            lemma_u64_be_round_trip(sections[i].body.len() as u64);
            if spec_offset(sections, i + 1) <= cut {
                assert(cutb.subrange(addr + RECORD_FIXED_LEN, addr + RECORD_FIXED_LEN + blen)
                    =~= bytes.subrange(addr + RECORD_FIXED_LEN, addr + RECORD_FIXED_LEN + blen));
            }
        }
    }
}

} // verus!
