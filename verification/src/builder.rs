//! The allocation-based write path: accumulate named payloads into builder
//! objects and serialize them per the wire format.

use vstd::prelude::*;

use crate::VptHeader;
use crate::sdk_version;
use crate::wire;
use crate::VPT_MAGIC;

verus! {

/// One named program waiting to be packed into a table.
#[derive(Debug, Clone, PartialEq, Eq)]
pub struct ProgramBuilder {
    /// The program's name.
    pub name: Vec<u8>,
    /// The program's payload.
    pub payload: Vec<u8>,
}

/// Accumulates an ordered sequence of programs plus a fixed vendor ID, and
/// serializes them into a table with [`VptBuilder::build`].
#[derive(Debug, Clone, PartialEq, Eq)]
pub struct VptBuilder {
    vendor_id: u32,
    programs: Vec<ProgramBuilder>,
}

impl View for ProgramBuilder {
    type V = (Seq<u8>, Seq<u8>);

    open spec fn view(&self) -> (Seq<u8>, Seq<u8>) {
        (self.name@, self.payload@)
    }
}

impl ProgramBuilder {
    /// The entry's unpadded wire size: program header, name and payload.
    pub fn base_size(&self) -> (r: usize)
        requires
            wire::PROGRAM_HEADER_SIZE + self.name@.len() + self.payload@.len() <= usize::MAX,
        ensures
            r == wire::PROGRAM_HEADER_SIZE + self@.0.len() + self@.1.len(),
    {
        wire::PROGRAM_HEADER_SIZE + self.name.len() + self.payload.len()
    }

    /// The entry's wire size, padded to the next multiple of 8.
    pub fn size(&self) -> (r: usize)
        requires
            wire::PROGRAM_HEADER_SIZE + self.name@.len() + self.payload@.len() + 7 <= usize::MAX,
        ensures
            r == wire::spec_entry_size(self@.0, self@.1),
    {
        wire::align8(self.base_size())
    }

    /// The number of zero bytes that follow the entry's name on the wire.
    pub fn padding_bytes(&self) -> (r: usize)
        requires
            wire::PROGRAM_HEADER_SIZE + self.name@.len() + self.payload@.len() + 7 <= usize::MAX,
        ensures
            r == wire::spec_entry_size(self@.0, self@.1) - (wire::PROGRAM_HEADER_SIZE
                + self@.0.len() + self@.1.len()),
    {
        proof {
            wire::lemma_entry_size_bounds(self@.0, self@.1);
        }
        self.size() - self.base_size()
    }
}

impl VptBuilder {
    /// The vendor ID the table is being built for.
    pub closed spec fn spec_vendor_id(self) -> u32 {
        self.vendor_id
    }

    /// The accumulated `(name, payload)` pairs, in insertion order.
    pub closed spec fn programs_view(self) -> Seq<(Seq<u8>, Seq<u8>)> {
        self.programs@.map_values(|p: ProgramBuilder| p@)
    }

    /// Creates an empty builder for the given vendor ID.
    pub fn new(vendor_id: u32) -> (r: VptBuilder)
        ensures
            r.spec_vendor_id() == vendor_id,
            r.programs_view() == Seq::<(Seq<u8>, Seq<u8>)>::empty(),
    {
        let r = VptBuilder { vendor_id, programs: Vec::new() };
        proof {
            assert(r.programs_view() =~= Seq::<(Seq<u8>, Seq<u8>)>::empty());
        }
        r
    }

    /// Appends a program; insertion order becomes wire order.
    pub fn add_program(&mut self, program: ProgramBuilder)
        ensures
            final(self).spec_vendor_id() == old(self).spec_vendor_id(),
            final(self).programs_view() == old(self).programs_view().push(program@),
    {
        self.programs.push(program);
        proof {
            assert(self.programs_view() =~= old(self).programs_view().push(program@));
        }
    }

    /// Serializes the accumulated programs into a fully-formed table: the
    /// table header first, then each entry in order with its program header,
    /// payload, name and zero padding up to the next 8-byte boundary.
    pub fn build(self) -> (r: Vec<u8>)
        requires
            wire::spec_table_size(self.programs_view()) <= u32::MAX,
        ensures
            r@ == wire::spec_vpt_bytes(self.spec_vendor_id(), self.programs_view()),
    {
        let ghost pview = self.programs_view();
        proof {
            wire::lemma_entries_size_lower(pview);
        }
        let n = self.programs.len();
        let mut total: usize = wire::HEADER_SIZE;
        let mut i: usize = 0;
        proof {
            assert(pview.take(0) =~= Seq::<(Seq<u8>, Seq<u8>)>::empty());
        }
        while i < n
            invariant
                i <= n,
                n == self.programs@.len(),
                pview == self.programs@.map_values(|p: ProgramBuilder| p@),
                wire::spec_table_size(pview) <= u32::MAX,
                total == wire::HEADER_SIZE + wire::spec_entries_size(pview.take(i as int)),
                total <= u32::MAX,
            decreases n - i,
        {
            proof {
                wire::lemma_entry_in_bounds(pview, i as int);
            }
            let p = &self.programs[i];
            let size = p.size();
            proof {
                assert(pview.take(i as int).push(pview[i as int]) =~= pview.take(i as int + 1));
                wire::lemma_entries_push(pview.take(i as int), pview[i as int]);
                wire::lemma_entries_size_split(pview, i as int + 1);
                wire::lemma_entries_size_lower(pview.skip(i as int + 1));
            }
            total = total + size;
            i = i + 1;
        }
        proof {
            assert(pview.take(n as int) =~= pview);
        }
        let header = VptHeader {
            magic: VPT_MAGIC,
            version: sdk_version(),
            vendor_id: self.vendor_id,
            size: total as u32,
            program_count: n as u32,
        };
        let mut bytes: Vec<u8> = Vec::new();
        wire::push_header(&mut bytes, header);
        let mut i: usize = 0;
        while i < n
            invariant
                i <= n,
                n == self.programs@.len(),
                pview == self.programs@.map_values(|p: ProgramBuilder| p@),
                wire::spec_table_size(pview) <= u32::MAX,
                bytes@ == wire::spec_header_bytes(header) + wire::spec_entries_bytes(
                    pview.take(i as int),
                ),
            decreases n - i,
        {
            proof {
                wire::lemma_entry_in_bounds(pview, i as int);
            }
            let p = &self.programs[i];
            wire::push_u32_le(&mut bytes, p.name.len() as u32);
            wire::push_u32_le(&mut bytes, p.payload.len() as u32);
            wire::push_bytes(&mut bytes, p.payload.as_slice());
            wire::push_bytes(&mut bytes, p.name.as_slice());
            let pad = p.padding_bytes();
            wire::push_zeros(&mut bytes, pad);
            proof {
                assert(pview.take(i as int).push(pview[i as int]) =~= pview.take(i as int + 1));
                wire::lemma_entries_push(pview.take(i as int), pview[i as int]);
                assert(bytes@ =~= wire::spec_header_bytes(header) + wire::spec_entries_bytes(
                    pview.take(i as int + 1),
                ));
            }
            i = i + 1;
        }
        proof {
            assert(pview.take(n as int) =~= pview);
            assert(header == wire::spec_built_header(self.spec_vendor_id(), pview));
        }
        bytes
    }
}

} // verus!
