//! A small self-describing binary container format.
//!
//! A container is a header (a fixed magic identifier, a one-byte section
//! count, and one offset-table entry per section) followed by the section
//! records themselves. `encode` lays out a list of sections; `ContainerDecoder`
//! parses the header eagerly and reads one section per `next` call.

mod codec;
mod decoder;
mod format;
mod laws;
mod wire;

pub use codec::Error;
pub use codec::Section;
pub use codec::encode;
pub use codec::spec_views;
pub use decoder::ContainerDecoder;
pub use decoder::SpecDecoder;
pub use format::HEADER_FIXED_LEN;
pub use format::MAGIC;
pub use format::MAX_SECTIONS;
pub use format::RECORD_FIXED_LEN;
pub use format::SpecSection;
pub use format::TABLE_ENTRY_LEN;
pub use format::lemma_encode_len;
pub use format::lemma_offset_monotone;
pub use format::spec_bodies_upto;
pub use format::spec_encode;
pub use format::spec_entries;
pub use format::spec_entry;
pub use format::spec_entry_at;
pub use format::spec_header_len;
pub use format::spec_magic_ok;
pub use format::spec_offset;
pub use format::spec_read_section;
pub use format::spec_record;
pub use format::spec_table_upto;
pub use laws::lemma_offset_correctness;
pub use laws::lemma_round_trip;
pub use laws::lemma_truncation_tolerance;
pub use wire::spec_u32_from_be;
pub use wire::spec_u32_to_be;
pub use wire::spec_u64_from_be;
pub use wire::spec_u64_to_be;
