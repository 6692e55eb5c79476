//! The decoder: eager header parsing, then one section per `next` call.

use vstd::prelude::*;
use crate::codec::Error;
use crate::codec::Section;
use crate::format::HEADER_FIXED_LEN;
use crate::format::MAGIC;
use crate::format::RECORD_FIXED_LEN;
use crate::format::TABLE_ENTRY_LEN;
use crate::format::spec_entries;
use crate::format::spec_entry_at;
use crate::format::spec_header_len;
use crate::format::spec_read_section;
use crate::wire::read_u32_be;
use crate::wire::read_u64_be;
use crate::wire::spec_u32_from_be;

verus! {

/// A decoder as the contracts see it: the underlying bytes, the cursor into
/// the offset table, and the table itself.
pub ghost struct SpecDecoder {
    pub source: Seq<u8>,
    pub idx: int,
    pub sections: Seq<(u8, u64)>,
}

/// A cursor over one in-memory container. Construction parses the header and
/// offset table eagerly; section bodies are read lazily, one per `next` call,
/// in offset-table order.
pub struct ContainerDecoder {
    source: Vec<u8>,
    idx: usize,
    /// The offset table: one `(id, absolute offset)` pair per section, in
    /// header order.
    pub sections: Vec<(u8, u64)>,
}

impl View for ContainerDecoder {
    type V = SpecDecoder;

    closed spec fn view(&self) -> SpecDecoder {
        SpecDecoder { source: self.source@, idx: self.idx as int, sections: self.sections@ }
    }
}

impl ContainerDecoder {
    /// Parses the header: checks the magic identifier, reads the count byte,
    /// then reads one offset-table entry per declared section. No section
    /// body is read or validated here. A wrong identifier is a distinct
    /// error carrying the observed value; an input too short for the header
    /// or the table is an input error.
    pub fn new(source: Vec<u8>) -> (r: Result<ContainerDecoder, Error>)
        ensures
            source@.len() < 4 ==> (r matches Err(e) && e == Error::Io),
            source@.len() >= 4 && spec_u32_from_be(source@.subrange(0, 4)) != MAGIC ==> (r matches
                Err(e) && e == Error::InvalidIdentifier(spec_u32_from_be(source@.subrange(0, 4)))),
            source@.len() == 4 && spec_u32_from_be(source@.subrange(0, 4)) == MAGIC ==> (r matches
                Err(e) && e == Error::Io),
            source@.len() >= HEADER_FIXED_LEN && spec_u32_from_be(source@.subrange(0, 4)) == MAGIC
                && source@.len() < spec_header_len(source@[4] as int) ==> (r matches Err(e) && e
                == Error::Io),
            source@.len() >= HEADER_FIXED_LEN && spec_u32_from_be(source@.subrange(0, 4)) == MAGIC
                && source@.len() >= spec_header_len(source@[4] as int) ==> (r matches Ok(d) && d@
                == (SpecDecoder {
                source: source@,
                idx: 0,
                sections: spec_entries(source@),
            })),
    {
        if source.len() < 4 {
            return Err(Error::Io);
        }
        let identifier = read_u32_be(&source, 0);
        if identifier != MAGIC {
            return Err(Error::InvalidIdentifier(identifier));
        }
        if source.len() < HEADER_FIXED_LEN {
            return Err(Error::Io);
        }
        let count = source[4] as usize;
        if source.len() < HEADER_FIXED_LEN + TABLE_ENTRY_LEN * count {
            return Err(Error::Io);
        }
        let mut sections: Vec<(u8, u64)> = Vec::new();
        let mut j: usize = 0;
        while j < count
            invariant
                j <= count,
                count == source@[4] as int,
                source@.len() >= HEADER_FIXED_LEN + TABLE_ENTRY_LEN * count,
                sections@.len() == j,
                forall|k: int| 0 <= k < j ==> sections@[k] == spec_entry_at(source@, k),
            decreases count - j,
        {
            let id = source[HEADER_FIXED_LEN + TABLE_ENTRY_LEN * j];
            let addr = read_u64_be(&source, HEADER_FIXED_LEN + TABLE_ENTRY_LEN * j + 1);
            sections.push((id, addr));
            j += 1;
        }
        proof {
            assert(sections@ =~= spec_entries(source@));
        }
        Ok(ContainerDecoder { source, idx: 0, sections })
    }

    /// Produces the next section, or `None` once the sequence is exhausted.
    /// A step seeks to the next entry's recorded offset, reads the fixed
    /// fields and then exactly the declared number of body bytes. This is the
    /// lenient mode: a record that runs past the end of the input also yields
    /// `None`, so truncation and clean exhaustion are deliberately
    /// indistinguishable. Exhaustion is terminal and is reached either by
    /// consuming every entry or by the first failed step: after a failure no
    /// later section is produced, and corruption is visible only as fewer
    /// sections than the header promised. `try_next` is the strict mode.
    pub fn next(&mut self) -> (r: Option<Section>)
        ensures
            final(self)@.source == old(self)@.source,
            final(self)@.sections == old(self)@.sections,
            old(self)@.idx >= old(self)@.sections.len() ==> r is None && final(self)@.idx == old(
                self,
            )@.idx,
            old(self)@.idx < old(self)@.sections.len() ==> {
                let entry = old(self)@.sections[old(self)@.idx];
                match spec_read_section(old(self)@.source, entry.0, entry.1) {
                    Some(s) => {
                        &&& final(self)@.idx == old(self)@.idx + 1
                        &&& r matches Some(sec) && sec@ == s
                    },
                    None => {
                        &&& final(self)@.idx == old(self)@.sections.len()
                        &&& r is None
                    },
                }
            },
    {
        match self.try_next() {
            Ok(section) => section,
            Err(_) => None,
        }
    }

    /// The strict counterpart of `next`: a record that runs past the end of
    /// the input surfaces as an input error instead of being read as clean
    /// exhaustion. A failure is terminal here too: it exhausts the decoder,
    /// and every later call reports clean exhaustion.
    pub fn try_next(&mut self) -> (r: Result<Option<Section>, Error>)
        ensures
            final(self)@.source == old(self)@.source,
            final(self)@.sections == old(self)@.sections,
            old(self)@.idx >= old(self)@.sections.len() ==> r == Ok::<Option<Section>, Error>(None)
                && final(self)@.idx == old(self)@.idx,
            old(self)@.idx < old(self)@.sections.len() ==> {
                let entry = old(self)@.sections[old(self)@.idx];
                match spec_read_section(old(self)@.source, entry.0, entry.1) {
                    Some(s) => {
                        &&& final(self)@.idx == old(self)@.idx + 1
                        &&& r matches Ok(o) && o matches Some(sec) && sec@ == s
                    },
                    None => {
                        &&& final(self)@.idx == old(self)@.sections.len()
                        &&& r matches Err(e) && e == Error::Io
                    },
                }
            },
    {
        if self.idx >= self.sections.len() {
            return Ok(None);
        }
        let (id, addr) = self.sections[self.idx];
        self.idx = self.idx + 1;
        let n = self.source.len();
        let n64 = n as u64;
        if n64 < RECORD_FIXED_LEN as u64 || addr > n64 - RECORD_FIXED_LEN as u64 {
            self.idx = self.sections.len();
            return Err(Error::Io);
        }
        let pos = addr as usize;
        let flags = read_u32_be(&self.source, pos);
        let checksum = read_u32_be(&self.source, pos + 4);
        let body_len = read_u64_be(&self.source, pos + 8);
        if body_len > n64 - RECORD_FIXED_LEN as u64 - addr {
            self.idx = self.sections.len();
            return Err(Error::Io);
        }
        let blen = body_len as usize;
        let start = pos + RECORD_FIXED_LEN;
        let ghost src = self.source@;
        let ghost idx_now = self.idx as int;
        let ghost table = self.sections@;
        let mut body: Vec<u8> = Vec::new();
        let mut k: usize = 0;
        while k < blen
            invariant
                k <= blen,
                start + blen <= src.len(),
                src.len() <= usize::MAX,
                self.source@ == src,
                self.idx as int == idx_now,
                self.sections@ == table,
                body@ == src.subrange(start as int, start + k),
            decreases blen - k,
        {
            body.push(self.source[start + k]);
            proof {
                assert(body@ =~= src.subrange(start as int, start + k + 1));
            }
            k += 1;
        }
        proof {
            assert(src.subrange(pos as int, pos as int + 4) =~= src.subrange(
                addr as int,
                addr + 4,
            ));
            assert(src.subrange(pos + 4, pos + 8) =~= src.subrange(addr + 4, addr + 8));
            assert(src.subrange(pos + 8, pos + RECORD_FIXED_LEN) =~= src.subrange(
                addr + 8,
                addr + RECORD_FIXED_LEN,
            ));
            assert(body@ =~= src.subrange(
                addr + RECORD_FIXED_LEN,
                addr + RECORD_FIXED_LEN + body_len,
            ));
        }
        Ok(Some(Section { id, flags, checksum, body }))
    }
}

} // verus!
