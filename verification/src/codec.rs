//! The sections themselves, the error taxonomy, and the encoder.

use vstd::prelude::*;
use crate::format::HEADER_FIXED_LEN;
use crate::format::MAGIC;
use crate::format::MAX_SECTIONS;
use crate::format::RECORD_FIXED_LEN;
use crate::format::SpecSection;
use crate::format::TABLE_ENTRY_LEN;
use crate::format::lemma_encode_len;
use crate::format::lemma_offset_monotone;
use crate::format::spec_bodies_upto;
use crate::format::spec_encode;
use crate::format::spec_entry;
use crate::format::spec_offset;
use crate::format::spec_table_upto;
use crate::wire::push_u32_be;
use crate::wire::push_u64_be;
use crate::wire::spec_u32_to_be;

verus! {

/// One tagged record of a container. The id is a caller-assigned tag; flags
/// and checksum are opaque payload carried through unchanged; the body is raw
/// bytes.
#[derive(Clone, Debug, Default, Hash, PartialOrd, Ord)]
pub struct Section {
    pub id: u8,
    pub flags: u32,
    pub checksum: u32,
    pub body: Vec<u8>,
}

impl View for Section {
    type V = SpecSection;

    open spec fn view(&self) -> SpecSection {
        SpecSection { id: self.id, flags: self.flags, checksum: self.checksum, body: self.body@ }
    }
}

impl PartialEq for Section {
    fn eq(&self, other: &Section) -> (r: bool) {
        if self.id != other.id || self.flags != other.flags || self.checksum != other.checksum {
            return false;
        }
        if self.body.len() != other.body.len() {
            return false;
        }
        let n = self.body.len();
        let mut i: usize = 0;
        while i < n
            invariant
                i <= n,
                n == self.body@.len(),
                n == other.body@.len(),
                forall|k: int| 0 <= k < i ==> self.body@[k] == other.body@[k],
            decreases n - i,
        {
            if self.body[i] != other.body[i] {
                return false;
            }
            i += 1;
        }
        proof {
            assert(self.body@ =~= other.body@);
        }
        true
    }
}

impl Eq for Section {

}

impl vstd::std_specs::cmp::PartialEqSpecImpl for Section {
    open spec fn obeys_eq_spec() -> bool {
        true
    }

    open spec fn eq_spec(&self, other: &Section) -> bool {
        self@ == other@
    }
}

/// What can go wrong while encoding or decoding a container.
#[derive(Clone, Copy, Debug, PartialEq, Eq, Structural)]
pub enum Error {
    /// The first four bytes were not the magic identifier; carries the
    /// observed value read big-endian.
    InvalidIdentifier(u32),
    /// More sections than the 1-byte count field can record.
    TooManySections,
    /// The input ended before the header and offset table were complete.
    Io,
    /// Reserved for callers that interpret section bodies as text; the codec
    /// itself never produces it.
    NotUtf8,
}

/// The section list as the contracts see it.
pub open spec fn spec_views(sections: Seq<Section>) -> Seq<SpecSection> {
    sections.map_values(|s: Section| s@)
}

/// Encodes a section list into one container byte sequence: magic identifier,
/// count byte, offset table, then the packed section records in input order.
/// Rejects lists the 1-byte count field cannot describe; accepts every list
/// of at most 255 sections.
pub fn encode(sections: Vec<Section>) -> (r: Result<Vec<u8>, Error>)
    requires
        sections@.len() <= MAX_SECTIONS ==> spec_encode(spec_views(sections@)).len() <= usize::MAX,
    ensures
        sections@.len() > MAX_SECTIONS <==> (r matches Err(e) && e == Error::TooManySections),
        sections@.len() <= MAX_SECTIONS ==> (r matches Ok(out) && out@ == spec_encode(
            spec_views(sections@),
        )),
{
    let n = sections.len();
    if n > MAX_SECTIONS {
        return Err(Error::TooManySections);
    }
    let ghost vs = spec_views(sections@);
    proof {
        lemma_encode_len(vs);
    }
    let mut out: Vec<u8> = Vec::new();
    push_u32_be(&mut out, MAGIC);
    out.push(n as u8);
    let mut bodies: Vec<u8> = Vec::new();
    let mut offset: usize = HEADER_FIXED_LEN + TABLE_ENTRY_LEN * n;
    let mut i: usize = 0;
    while i < n
        invariant
            i <= n,
            n == sections@.len(),
            n <= MAX_SECTIONS,
            vs == spec_views(sections@),
            out@ == spec_u32_to_be(MAGIC) + seq![n as u8] + spec_table_upto(vs, i as int),
            bodies@ == spec_bodies_upto(vs, i as int),
            offset == spec_offset(vs, i as int),
            spec_offset(vs, n as int) <= usize::MAX,
        decreases n - i,
    {
        proof {
            lemma_offset_monotone(vs, i + 1, n as int);
            assert(vs[i as int] == sections@[i as int]@);
        }
        let s = &sections[i];
        out.push(s.id);
        push_u64_be(&mut out, offset as u64);
        proof {
            assert(out@ =~= spec_u32_to_be(MAGIC) + seq![n as u8] + spec_table_upto(
                vs,
                i as int,
            ) + spec_entry(vs, i as int));
            assert(out@ =~= spec_u32_to_be(MAGIC) + seq![n as u8] + spec_table_upto(
                vs,
                i + 1,
            ));
        }
        push_u32_be(&mut bodies, s.flags);
        push_u32_be(&mut bodies, s.checksum);
        push_u64_be(&mut bodies, s.body.len() as u64);
        let blen = s.body.len();
        let ghost bodies_before = bodies@;
        let mut k: usize = 0;
        while k < blen
            invariant
                k <= blen,
                blen == s.body@.len(),
                bodies@ == bodies_before + s.body@.subrange(0, k as int),
            decreases blen - k,
        {
            bodies.push(s.body[k]);
            proof {
                assert(bodies@ =~= bodies_before + s.body@.subrange(0, k + 1));
            }
            k += 1;
        }
        proof {
            assert(s.body@.subrange(0, blen as int) =~= s.body@);
            assert(bodies@ =~= spec_bodies_upto(vs, i + 1));
        }
        offset = offset + RECORD_FIXED_LEN + blen;
        i += 1;
    }
    out.append(&mut bodies);
    proof {
        assert(spec_table_upto(vs, n as int) == spec_table_upto(vs, vs.len() as int));
        assert(out@ =~= spec_encode(vs));
    }
    Ok(out)
}

} // verus!
