//! Table-level laws: the write path and the read path are inverses, entries
//! always start 8-byte aligned, a built table's declared size is exact, and
//! iteration over a truncated entry yields nothing.

use vstd::arithmetic::div_mod::lemma_add_mod_noop;
use vstd::arithmetic::div_mod::lemma_small_mod;
use vstd::prelude::*;

use crate::spec_compatible;
use crate::spec_sdk_version;
use crate::wire::HEADER_SIZE;
use crate::wire::PROGRAM_HEADER_SIZE;
use crate::wire::le_u32_at;
use crate::wire::lemma_align8;
use crate::wire::lemma_entries_push;
use crate::wire::lemma_entries_size_lower;
use crate::wire::lemma_entry_size_bounds;
use crate::wire::lemma_header_bytes_round_trip;
use crate::wire::lemma_u32_bytes_round_trip;
use crate::wire::spec_built_header;
use crate::wire::spec_entries_bytes;
use crate::wire::spec_entries_size;
use crate::wire::spec_entry_bytes;
use crate::wire::spec_entry_size;
use crate::wire::spec_iter_entries;
use crate::wire::spec_parse_header;
use crate::wire::spec_parse_program_header;
use crate::wire::spec_table_size;
use crate::wire::spec_u32_bytes;
use crate::wire::spec_validate;
use crate::wire::spec_vpt_bytes;
use crate::VptDefect;

verus! {

/// The byte offset, from the start of the table, at which entry `k` begins.
pub open spec fn spec_entry_offset(programs: Seq<(Seq<u8>, Seq<u8>)>, k: int) -> int {
    HEADER_SIZE + spec_entries_size(programs.take(k))
}

/// One serialized entry parses back to its name and payload, whatever
/// follows it: its program header holds the two lengths, its payload and
/// name sit where iteration looks for them, and stepping over its aligned
/// size lands exactly on what follows.
proof fn lemma_entry_bytes_parse(name: Seq<u8>, payload: Seq<u8>, rest: Seq<u8>)
    requires
        PROGRAM_HEADER_SIZE + name.len() + payload.len() + 7 <= u32::MAX,
    ensures
        ({
            let s = spec_entry_bytes(name, payload) + rest;
            let base = PROGRAM_HEADER_SIZE + payload.len() + name.len();
            &&& s.len() == spec_entry_size(name, payload) + rest.len()
            &&& spec_parse_program_header(s).name_len == name.len()
            &&& spec_parse_program_header(s).payload_len == payload.len()
            &&& s.subrange(PROGRAM_HEADER_SIZE as int, PROGRAM_HEADER_SIZE + payload.len())
                == payload
            &&& s.subrange(PROGRAM_HEADER_SIZE + payload.len(), base as int) == name
            &&& s.skip(spec_entry_size(name, payload)) == rest
        }),
{
    let e = spec_entry_bytes(name, payload);
    let s = e + rest;
    let base = PROGRAM_HEADER_SIZE + payload.len() + name.len();
    lemma_entry_size_bounds(name, payload);
    lemma_align8(base as int);
    let nb = spec_u32_bytes(name.len() as u32);
    let pb = spec_u32_bytes(payload.len() as u32);
    assert forall|j: int| 0 <= j < 4 implies s[j] == nb[j] && s[4 + j] == pb[j] by {
        assert(e[j] == nb[j]);
        assert(e[4 + j] == pb[j]);
    }
    lemma_u32_bytes_round_trip(name.len() as u32);
    lemma_u32_bytes_round_trip(payload.len() as u32);
    assert(le_u32_at(s, 0) == le_u32_at(nb, 0));
    assert(le_u32_at(s, 4) == le_u32_at(pb, 0));
    assert forall|j: int| 0 <= j < payload.len() implies s[PROGRAM_HEADER_SIZE + j]
        == payload[j] by {
        assert(e[PROGRAM_HEADER_SIZE + j] == payload[j]);
    }
    assert(s.subrange(PROGRAM_HEADER_SIZE as int, PROGRAM_HEADER_SIZE + payload.len())
        =~= payload);
    assert forall|j: int| 0 <= j < name.len() implies s[PROGRAM_HEADER_SIZE + payload.len() + j]
        == name[j] by {
        assert(e[PROGRAM_HEADER_SIZE + payload.len() + j] == name[j]);
    }
    assert(s.subrange(PROGRAM_HEADER_SIZE + payload.len(), base as int) =~= name);
    assert(s.skip(spec_entry_size(name, payload)) =~= rest);
}

/// Iterating over the serialized entries of `programs`, with as many
/// programs owed as there are, yields exactly `programs` back.
proof fn lemma_iter_entries_round_trip(programs: Seq<(Seq<u8>, Seq<u8>)>)
    requires
        forall|i: int|
            0 <= i < programs.len() ==> PROGRAM_HEADER_SIZE + (#[trigger] programs[i]).0.len()
                + programs[i].1.len() + 7 <= u32::MAX,
    ensures
        spec_iter_entries(spec_entries_bytes(programs), programs.len() as nat) == programs,
    decreases programs.len(),
{
    if programs.len() == 0 {
        assert(spec_iter_entries(spec_entries_bytes(programs), 0) =~= programs);
    } else {
        let name = programs[0].0;
        let payload = programs[0].1;
        let rest = programs.drop_first();
        let rest_bytes = spec_entries_bytes(rest);
        let s = spec_entry_bytes(name, payload) + rest_bytes;
        assert(spec_entries_bytes(programs) == s);
        lemma_entry_bytes_parse(name, payload, rest_bytes);
        lemma_entries_size_lower(rest);
        lemma_entry_size_bounds(name, payload);
        assert(s.len() >= PROGRAM_HEADER_SIZE);
        let step = spec_entry_size(name, payload);
        assert(step <= s.len());
        assert(forall|i: int|
            0 <= i < rest.len() ==> PROGRAM_HEADER_SIZE + (#[trigger] rest[i]).0.len()
                + rest[i].1.len() + 7 <= u32::MAX);
        lemma_iter_entries_round_trip(rest);
        assert(s.skip(step) == rest_bytes);
        assert(spec_iter_entries(s, programs.len() as nat) == seq![(name, payload)]
            + spec_iter_entries(rest_bytes, rest.len() as nat));
        assert(spec_iter_entries(s, programs.len() as nat) =~= programs);
    }
}

/// **Round trip.** A table built from any `(name, payload)` pairs for any
/// vendor ID validates under that same vendor ID (at an aligned address) to
/// a view of exactly the bytes written, whose header carries back the magic,
/// the SDK version, the vendor ID, the written size and the program count,
/// and iterating that view yields the original pairs, in order, byte for
/// byte. The declared size equals the number of bytes written.
pub proof fn lemma_round_trip(vendor_id: u32, programs: Seq<(Seq<u8>, Seq<u8>)>)
    requires
        spec_table_size(programs) <= u32::MAX,
    ensures
        ({
            let bytes = spec_vpt_bytes(vendor_id, programs);
            &&& bytes.len() == spec_table_size(programs)
            &&& spec_parse_header(bytes) == spec_built_header(vendor_id, programs)
            &&& spec_parse_header(bytes).size == bytes.len()
            &&& spec_validate(bytes, vendor_id, true) == Ok::<Seq<u8>, VptDefect>(bytes)
            &&& spec_iter_entries(bytes.skip(HEADER_SIZE as int), programs.len() as nat)
                == programs
        }),
{
    let h = spec_built_header(vendor_id, programs);
    let entries = spec_entries_bytes(programs);
    let bytes = spec_vpt_bytes(vendor_id, programs);
    lemma_header_bytes_round_trip(h, entries);
    lemma_entries_size_lower(programs);
    assert(bytes.len() == spec_table_size(programs));
    assert(spec_parse_header(bytes) == h);
    assert(h.size == bytes.len());
    assert(spec_compatible(spec_sdk_version(), spec_sdk_version()));
    assert(spec_validate(bytes, vendor_id, true) == Ok::<Seq<u8>, VptDefect>(
        bytes.subrange(0, h.size as int),
    ));
    assert(bytes.subrange(0, h.size as int) =~= bytes);
    assert forall|i: int| 0 <= i < programs.len() implies PROGRAM_HEADER_SIZE + (
    #[trigger] programs[i]).0.len() + programs[i].1.len() + 7 <= u32::MAX by {
        crate::wire::lemma_entry_in_bounds(programs, i);
    }
    lemma_iter_entries_round_trip(programs);
    assert(bytes.skip(HEADER_SIZE as int) =~= entries);
    assert(h.program_count == programs.len());
}

/// **Alignment.** In a built table every entry begins at an offset that is a
/// multiple of 8, the offset of the table header included.
pub proof fn lemma_entry_offsets_aligned(programs: Seq<(Seq<u8>, Seq<u8>)>, k: int)
    requires
        0 <= k <= programs.len(),
    ensures
        spec_entry_offset(programs, k) % 8 == 0,
    decreases k,
{
    if k == 0 {
        assert(programs.take(0) =~= Seq::<(Seq<u8>, Seq<u8>)>::empty());
    } else {
        lemma_entry_offsets_aligned(programs, k - 1);
        assert(programs.take(k - 1).push(programs[k - 1]) =~= programs.take(k));
        lemma_entries_push(programs.take(k - 1), programs[k - 1]);
        lemma_entry_size_bounds(programs[k - 1].0, programs[k - 1].1);
        lemma_add_mod_noop(
            spec_entry_offset(programs, k - 1),
            spec_entry_size(programs[k - 1].0, programs[k - 1].1),
            8,
        );
        lemma_small_mod(0, 8);
    }
}

/// **Empty table.** A table built with zero entries is just its header: 24
/// bytes, a program count of 0, a size of 24, and an iteration that yields
/// no entries.
pub proof fn lemma_empty_table(vendor_id: u32)
    ensures
        ({
            let bytes = spec_vpt_bytes(vendor_id, Seq::empty());
            &&& bytes.len() == HEADER_SIZE
            &&& spec_parse_header(bytes).program_count == 0
            &&& spec_parse_header(bytes).size == HEADER_SIZE
            &&& spec_iter_entries(bytes.skip(HEADER_SIZE as int), 0) == Seq::<
                (Seq<u8>, Seq<u8>),
            >::empty()
        }),
{
    lemma_round_trip(vendor_id, Seq::empty());
}

/// **Iterator truncation.** Where the entry at the cursor declares a payload
/// or name that would read past the end of the remaining bytes — or where
/// not even a program header remains — iteration yields nothing further,
/// however many programs are still owed.
pub proof fn lemma_truncated_entry_yields_nothing(s: Seq<u8>, remaining: nat)
    requires
        s.len() < PROGRAM_HEADER_SIZE || PROGRAM_HEADER_SIZE + spec_parse_program_header(
            s,
        ).payload_len + spec_parse_program_header(s).name_len > s.len(),
    ensures
        spec_iter_entries(s, remaining) == Seq::<(Seq<u8>, Seq<u8>)>::empty(),
{
}

} // verus!
