//! Byte-level wire format: little-endian `u32` fields, 8-byte alignment,
//! and the layouts of the table header, the program headers and the
//! program entries.

use vstd::arithmetic::div_mod::lemma_div_denominator;
use vstd::arithmetic::div_mod::lemma_div_is_ordered;
use vstd::arithmetic::div_mod::lemma_fundamental_div_mod;
use vstd::arithmetic::div_mod::lemma_fundamental_div_mod_converse;
use vstd::arithmetic::div_mod::lemma_small_mod;
use vstd::prelude::*;
use vstd::slice::slice_index_get;

use crate::ProgramHeader;
use crate::Version;
use crate::VptDefect;
use crate::VptHeader;

verus! {

/// Size in bytes of a serialized [`VptHeader`]: six `u32` fields.
pub const HEADER_SIZE: usize = 24;

/// Size in bytes of a serialized [`crate::ProgramHeader`]: two `u32` fields.
pub const PROGRAM_HEADER_SIZE: usize = 8;

/// `n` rounded up to the next multiple of 8.
pub open spec fn spec_align8(n: int) -> int {
    ((n + 7) / 8) * 8
}

/// Rounding up to a multiple of 8 moves a value forward by less than 8 and
/// lands on a multiple of 8; a multiple of 8 stays put.
pub proof fn lemma_align8(n: int)
    requires
        0 <= n,
    ensures
        n <= spec_align8(n) < n + 8,
        spec_align8(n) % 8 == 0,
        n % 8 == 0 ==> spec_align8(n) == n,
        spec_align8(n) == n + ((8 - n % 8) % 8),
{
    let q = n / 8;
    let r = n % 8;
    lemma_fundamental_div_mod(n, 8);
    if r == 0 {
        lemma_fundamental_div_mod_converse(n + 7, 8, q, 7);
        lemma_fundamental_div_mod_converse(spec_align8(n), 8, q, 0);
        lemma_small_mod(0, 8);
    } else {
        lemma_fundamental_div_mod_converse(n + 7, 8, q + 1, r - 1);
        lemma_fundamental_div_mod_converse(spec_align8(n), 8, q + 1, 0);
        lemma_small_mod((8 - r) as nat, 8);
    }
}

/// `n` rounded up to the next multiple of 8.
pub fn align8(n: usize) -> (r: usize)
    requires
        n + 7 <= usize::MAX,
    ensures
        r == spec_align8(n as int),
{
    ((n + 7) / 8) * 8
}

/// The value of the four little-endian bytes of `s` starting at `i`.
pub open spec fn le_u32_at(s: Seq<u8>, i: int) -> u32
    recommends
        0 <= i,
        i + 4 <= s.len(),
{
    (s[i] as int + s[i + 1] as int * 0x100 + s[i + 2] as int * 0x1_0000 + s[i + 3] as int
        * 0x100_0000) as u32
}

/// The four little-endian bytes of `x`.
pub open spec fn spec_u32_bytes(x: u32) -> Seq<u8> {
    seq![
        (x as int % 0x100) as u8,
        (x as int / 0x100 % 0x100) as u8,
        (x as int / 0x1_0000 % 0x100) as u8,
        (x as int / 0x100_0000 % 0x100) as u8,
    ]
}

/// Reading back the four little-endian bytes of `x` yields `x` again.
pub proof fn lemma_u32_bytes_round_trip(x: u32)
    ensures
        le_u32_at(spec_u32_bytes(x), 0) == x,
{
    let d = x as int;
    lemma_fundamental_div_mod(d, 0x100);
    lemma_fundamental_div_mod(d / 0x100, 0x100);
    lemma_div_denominator(d, 0x100, 0x100);
    lemma_fundamental_div_mod(d / 0x1_0000, 0x100);
    lemma_div_denominator(d, 0x1_0000, 0x100);
    lemma_div_is_ordered(d, 0xffff_ffff, 0x100_0000);
    lemma_small_mod((d / 0x100_0000) as nat, 0x100);
}

/// The four little-endian bytes starting at `offset`, as a `u32`.
pub fn read_u32_le(bytes: &[u8], offset: usize) -> (r: u32)
    requires
        offset + 4 <= bytes@.len(),
    ensures
        r == le_u32_at(bytes@, offset as int),
{
    assert(offset + 4 <= bytes.len());
    let b0 = *slice_index_get(bytes, offset) as u32;
    let b1 = *slice_index_get(bytes, offset + 1) as u32;
    let b2 = *slice_index_get(bytes, offset + 2) as u32;
    let b3 = *slice_index_get(bytes, offset + 3) as u32;
    b0 + b1 * 0x100 + b2 * 0x1_0000 + b3 * 0x100_0000
}

/// Appends the four little-endian bytes of `x` to `out`.
pub fn push_u32_le(out: &mut Vec<u8>, x: u32)
    ensures
        final(out)@ == old(out)@ + spec_u32_bytes(x),
{
    out.push((x % 0x100) as u8);
    out.push((x / 0x100 % 0x100) as u8);
    out.push((x / 0x1_0000 % 0x100) as u8);
    out.push((x / 0x100_0000 % 0x100) as u8);
    assert(out@ =~= old(out)@ + spec_u32_bytes(x));
}

/// The table header whose fields stand at the start of `s`.
pub open spec fn spec_parse_header(s: Seq<u8>) -> VptHeader
    recommends
        s.len() >= HEADER_SIZE,
{
    VptHeader {
        magic: le_u32_at(s, 0),
        version: Version { major: le_u32_at(s, 4), minor: le_u32_at(s, 8) },
        vendor_id: le_u32_at(s, 12),
        size: le_u32_at(s, 16),
        program_count: le_u32_at(s, 20),
    }
}

/// The 24 serialized bytes of a table header.
pub open spec fn spec_header_bytes(h: VptHeader) -> Seq<u8> {
    spec_u32_bytes(h.magic) + spec_u32_bytes(h.version.major) + spec_u32_bytes(h.version.minor)
        + spec_u32_bytes(h.vendor_id) + spec_u32_bytes(h.size) + spec_u32_bytes(h.program_count)
}

/// Parsing the serialized bytes of a table header yields the header back,
/// whatever follows them.
pub proof fn lemma_header_bytes_round_trip(h: VptHeader, rest: Seq<u8>)
    ensures
        spec_header_bytes(h).len() == HEADER_SIZE,
        spec_parse_header(spec_header_bytes(h) + rest) == h,
{
    let s = spec_header_bytes(h) + rest;
    let fields = seq![h.magic, h.version.major, h.version.minor, h.vendor_id, h.size,
        h.program_count];
    assert forall|k: int| 0 <= k < 6 implies le_u32_at(s, 4 * k) == fields[k] by {
        lemma_u32_bytes_round_trip(fields[k]);
        assert forall|j: int| 0 <= j < 4 implies s[4 * k + j] == spec_u32_bytes(fields[k])[j] by {
            assert(s[4 * k + j] == spec_header_bytes(h)[4 * k + j]);
        }
        assert(le_u32_at(s, 4 * k) == le_u32_at(spec_u32_bytes(fields[k]), 0));
    }
    assert(le_u32_at(s, 0) == h.magic);
    assert(le_u32_at(s, 4) == h.version.major);
    assert(le_u32_at(s, 8) == h.version.minor);
    assert(le_u32_at(s, 12) == h.vendor_id);
    assert(le_u32_at(s, 16) == h.size);
    assert(le_u32_at(s, 20) == h.program_count);
}

/// The table header read from the start of `bytes`.
pub fn read_header(bytes: &[u8]) -> (h: VptHeader)
    requires
        bytes@.len() >= HEADER_SIZE,
    ensures
        h == spec_parse_header(bytes@),
{
    VptHeader {
        magic: read_u32_le(bytes, 0),
        version: Version { major: read_u32_le(bytes, 4), minor: read_u32_le(bytes, 8) },
        vendor_id: read_u32_le(bytes, 12),
        size: read_u32_le(bytes, 16),
        program_count: read_u32_le(bytes, 20),
    }
}

/// The program header whose fields stand at the start of `s`.
pub open spec fn spec_parse_program_header(s: Seq<u8>) -> ProgramHeader
    recommends
        s.len() >= PROGRAM_HEADER_SIZE,
{
    ProgramHeader { name_len: le_u32_at(s, 0), payload_len: le_u32_at(s, 4) }
}

/// The program header read from the start of `bytes`.
pub fn read_program_header(bytes: &[u8]) -> (h: ProgramHeader)
    requires
        bytes@.len() >= PROGRAM_HEADER_SIZE,
    ensures
        h == spec_parse_program_header(bytes@),
{
    ProgramHeader { name_len: read_u32_le(bytes, 0), payload_len: read_u32_le(bytes, 4) }
}

/// The number of bytes an entry with this name and payload occupies on the
/// wire: its header, payload and name, rounded up to a multiple of 8.
pub open spec fn spec_entry_size(name: Seq<u8>, payload: Seq<u8>) -> int {
    spec_align8(PROGRAM_HEADER_SIZE + payload.len() + name.len())
}

/// The serialized bytes of one entry: program header, payload, name, then
/// zero padding up to the next multiple of 8.
pub open spec fn spec_entry_bytes(name: Seq<u8>, payload: Seq<u8>) -> Seq<u8> {
    let base = PROGRAM_HEADER_SIZE + payload.len() + name.len();
    spec_u32_bytes(name.len() as u32) + spec_u32_bytes(payload.len() as u32) + payload + name
        + Seq::new((spec_align8(base as int) - base) as nat, |i: int| 0u8)
}

/// The serialized bytes of a sequence of `(name, payload)` entries, in order.
pub open spec fn spec_entries_bytes(programs: Seq<(Seq<u8>, Seq<u8>)>) -> Seq<u8>
    decreases programs.len(),
{
    if programs.len() == 0 {
        Seq::empty()
    } else {
        spec_entry_bytes(programs[0].0, programs[0].1) + spec_entries_bytes(programs.drop_first())
    }
}

/// The number of bytes the entries of `programs` occupy on the wire.
pub open spec fn spec_entries_size(programs: Seq<(Seq<u8>, Seq<u8>)>) -> int
    decreases programs.len(),
{
    if programs.len() == 0 {
        0
    } else {
        spec_entry_size(programs[0].0, programs[0].1) + spec_entries_size(programs.drop_first())
    }
}

/// An entry's wire size covers its header, payload and name, and padding of
/// less than 8 bytes.
pub proof fn lemma_entry_size_bounds(name: Seq<u8>, payload: Seq<u8>)
    ensures
        PROGRAM_HEADER_SIZE + payload.len() + name.len() <= spec_entry_size(name, payload)
            < PROGRAM_HEADER_SIZE + payload.len() + name.len() + 8,
        spec_entry_size(name, payload) % 8 == 0,
        spec_entry_bytes(name, payload).len() == spec_entry_size(name, payload),
{
    lemma_align8(PROGRAM_HEADER_SIZE + payload.len() + name.len());
}

/// The entries of `programs` occupy at least 8 bytes each.
pub proof fn lemma_entries_size_lower(programs: Seq<(Seq<u8>, Seq<u8>)>)
    ensures
        spec_entries_size(programs) >= 8 * programs.len(),
        spec_entries_bytes(programs).len() == spec_entries_size(programs),
    decreases programs.len(),
{
    if programs.len() > 0 {
        lemma_entry_size_bounds(programs[0].0, programs[0].1);
        lemma_entries_size_lower(programs.drop_first());
    }
}

/// The entries' wire size splits at any index.
pub proof fn lemma_entries_size_split(programs: Seq<(Seq<u8>, Seq<u8>)>, i: int)
    requires
        0 <= i <= programs.len(),
    ensures
        spec_entries_size(programs) == spec_entries_size(programs.take(i)) + spec_entries_size(
            programs.skip(i),
        ),
    decreases i,
{
    if i == 0 {
        assert(programs.take(0) =~= Seq::empty());
        assert(programs.skip(0) =~= programs);
    } else {
        assert(programs.take(i).drop_first() =~= programs.drop_first().take(i - 1));
        assert(programs.skip(i) =~= programs.drop_first().skip(i - 1));
        assert(programs.take(i)[0] == programs[0]);
        lemma_entries_size_split(programs.drop_first(), i - 1);
    }
}

/// Within a table that fits the `u32` size field, every entry's name and
/// payload lengths fit comfortably too.
pub proof fn lemma_entry_in_bounds(programs: Seq<(Seq<u8>, Seq<u8>)>, i: int)
    requires
        0 <= i < programs.len(),
        spec_table_size(programs) <= u32::MAX,
    ensures
        PROGRAM_HEADER_SIZE + programs[i].0.len() + programs[i].1.len() + 7 <= u32::MAX,
        programs[i].0.len() <= u32::MAX,
        programs[i].1.len() <= u32::MAX,
        programs.len() <= u32::MAX,
{
    lemma_entries_size_split(programs, i);
    lemma_entries_size_lower(programs.take(i));
    lemma_entries_size_lower(programs.skip(i));
    assert(programs.skip(i)[0] == programs[i]);
    assert(programs.skip(i).drop_first() =~= programs.skip(i + 1));
    lemma_entries_size_lower(programs.skip(i + 1));
    lemma_entry_size_bounds(programs[i].0, programs[i].1);
    lemma_entries_size_lower(programs);
}

/// Appending one entry appends its bytes and adds its size.
pub proof fn lemma_entries_push(programs: Seq<(Seq<u8>, Seq<u8>)>, x: (Seq<u8>, Seq<u8>))
    ensures
        spec_entries_bytes(programs.push(x)) == spec_entries_bytes(programs) + spec_entry_bytes(
            x.0,
            x.1,
        ),
        spec_entries_size(programs.push(x)) == spec_entries_size(programs) + spec_entry_size(
            x.0,
            x.1,
        ),
    decreases programs.len(),
{
    let p = programs.push(x);
    if programs.len() == 0 {
        assert(p.drop_first() =~= Seq::<(Seq<u8>, Seq<u8>)>::empty());
        assert(p[0] == x);
        assert(spec_entries_bytes(p) == spec_entry_bytes(x.0, x.1) + spec_entries_bytes(
            p.drop_first(),
        ));
        assert(spec_entries_bytes(p.drop_first()) == Seq::<u8>::empty());
        assert(spec_entries_bytes(p) =~= spec_entries_bytes(programs) + spec_entry_bytes(
            x.0,
            x.1,
        ));
        assert(spec_entries_size(p.drop_first()) == 0);
    } else {
        assert(p.drop_first() =~= programs.drop_first().push(x));
        assert(p[0] == programs[0]);
        lemma_entries_push(programs.drop_first(), x);
        assert(spec_entries_bytes(p) == spec_entry_bytes(programs[0].0, programs[0].1) + (
        spec_entries_bytes(programs.drop_first()) + spec_entry_bytes(x.0, x.1)));
        assert(spec_entries_bytes(p) =~= spec_entries_bytes(programs) + spec_entry_bytes(
            x.0,
            x.1,
        ));
        assert(spec_entries_size(p) == spec_entry_size(programs[0].0, programs[0].1) + (
        spec_entries_size(programs.drop_first()) + spec_entry_size(x.0, x.1)));
    }
}

/// The total size of a serialized table holding `programs`.
pub open spec fn spec_table_size(programs: Seq<(Seq<u8>, Seq<u8>)>) -> int {
    HEADER_SIZE + spec_entries_size(programs)
}

/// The header a build of `programs` for `vendor_id` writes.
pub open spec fn spec_built_header(vendor_id: u32, programs: Seq<(Seq<u8>, Seq<u8>)>) -> VptHeader {
    VptHeader {
        magic: crate::VPT_MAGIC,
        version: crate::spec_sdk_version(),
        vendor_id: vendor_id,
        size: spec_table_size(programs) as u32,
        program_count: programs.len() as u32,
    }
}

/// The full serialized table holding `programs` for `vendor_id`.
pub open spec fn spec_vpt_bytes(vendor_id: u32, programs: Seq<(Seq<u8>, Seq<u8>)>) -> Seq<u8> {
    spec_header_bytes(spec_built_header(vendor_id, programs)) + spec_entries_bytes(programs)
}

/// The validation sequence over a buffer's bytes, given whether the buffer's
/// starting address is 8-byte aligned. On success the result holds the bytes
/// of the table view: the buffer truncated to exactly `header.size` bytes.
pub open spec fn spec_validate(s: Seq<u8>, vendor_id: u32, aligned: bool) -> Result<
    Seq<u8>,
    VptDefect,
> {
    if s.len() < HEADER_SIZE {
        Err(VptDefect::SizeMismatch)
    } else if !aligned {
        Err(VptDefect::AlignmentMismatch)
    } else {
        let h = spec_parse_header(s);
        if h.magic != crate::VPT_MAGIC {
            Err(VptDefect::MagicMismatch(h.magic))
        } else if !crate::spec_compatible(crate::spec_sdk_version(), h.version) {
            Err(VptDefect::VersionMismatch(h.version))
        } else if h.vendor_id != vendor_id {
            Err(VptDefect::VendorMismatch(h.vendor_id))
        } else if s.len() < h.size {
            Err(VptDefect::SizeMismatch)
        } else {
            Ok(s.subrange(0, h.size as int))
        }
    }
}

/// Appends the serialized bytes of `h` to `out`.
pub fn push_header(out: &mut Vec<u8>, h: VptHeader)
    ensures
        final(out)@ == old(out)@ + spec_header_bytes(h),
{
    push_u32_le(out, h.magic);
    push_u32_le(out, h.version.major);
    push_u32_le(out, h.version.minor);
    push_u32_le(out, h.vendor_id);
    push_u32_le(out, h.size);
    push_u32_le(out, h.program_count);
    assert(out@ =~= old(out)@ + spec_header_bytes(h));
}

/// Appends all of `src` to `out`.
pub fn push_bytes(out: &mut Vec<u8>, src: &[u8])
    ensures
        final(out)@ == old(out)@ + src@,
{
    let n = src.len();
    let mut i: usize = 0;
    while i < n
        invariant
            i <= n,
            n == src@.len(),
            out@ == old(out)@ + src@.take(i as int),
        decreases n - i,
    {
        out.push(*slice_index_get(src, i));
        proof {
            assert(out@ =~= old(out)@ + src@.take(i as int + 1));
        }
        i = i + 1;
    }
    assert(out@ =~= old(out)@ + src@);
}

/// Appends `count` zero bytes to `out`.
pub fn push_zeros(out: &mut Vec<u8>, count: usize)
    ensures
        final(out)@ == old(out)@ + Seq::new(count as nat, |i: int| 0u8),
{
    let mut i: usize = 0;
    while i < count
        invariant
            i <= count,
            out@ == old(out)@ + Seq::new(i as nat, |j: int| 0u8),
        decreases count - i,
    {
        out.push(0u8);
        proof {
            assert(out@ =~= old(out)@ + Seq::new((i + 1) as nat, |j: int| 0u8));
        }
        i = i + 1;
    }
}

/// The entries an iterator yields from the entry-region bytes `s` with
/// `remaining` programs still owed: it stops at `remaining`, at a missing
/// program header, and at a payload or name that would overrun `s`.
pub open spec fn spec_iter_entries(s: Seq<u8>, remaining: nat) -> Seq<(Seq<u8>, Seq<u8>)>
    decreases remaining,
{
    if remaining == 0 || s.len() < PROGRAM_HEADER_SIZE {
        Seq::empty()
    } else {
        let h = spec_parse_program_header(s);
        let name_len = h.name_len as int;
        let payload_len = h.payload_len as int;
        if PROGRAM_HEADER_SIZE + payload_len > s.len() || PROGRAM_HEADER_SIZE + payload_len
            + name_len > s.len() {
            Seq::empty()
        } else {
            let name = s.subrange(
                PROGRAM_HEADER_SIZE + payload_len,
                PROGRAM_HEADER_SIZE + payload_len + name_len,
            );
            let payload = s.subrange(PROGRAM_HEADER_SIZE as int, PROGRAM_HEADER_SIZE + payload_len);
            let step = spec_align8(PROGRAM_HEADER_SIZE + payload_len + name_len);
            let consumed = if step > s.len() {
                s.len() as int
            } else {
                step
            };
            seq![(name, payload)] + spec_iter_entries(s.skip(consumed), (remaining - 1) as nat)
        }
    }
}

} // verus!
