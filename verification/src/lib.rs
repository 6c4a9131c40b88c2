//! # Venice Program Table SDK
//!
//! The Venice Program Table (VPT) is a compact binary container that packs
//! zero or more named binary programs into a single contiguous blob.
//!
//! Two data-flow directions share one wire format:
//!
//! - **Read path**: [`Vpt::new`] validates a byte buffer (size, alignment,
//!   magic, version, vendor) into a zero-copy view; [`Vpt::program_iter`]
//!   then walks the entries, yielding each program's name and payload as
//!   borrowed slices without copying or allocating.
//! - **Write path**: [`VptBuilder`] accumulates [`ProgramBuilder`] entries and
//!   serializes them into an owned byte buffer laid out per the wire format.
//!
//! The two paths are proved to be inverses of each other: see
//! [`laws::lemma_round_trip`].

use vstd::prelude::*;
use vstd::slice::slice_subrange;

pub mod builder;
pub mod laws;
pub mod wire;

pub use crate::builder::ProgramBuilder;
pub use crate::builder::VptBuilder;

verus! {

/// Magic number used to identify VPTs.
pub const VPT_MAGIC: u32 = 0x675c3ed9;

/// A version of the VPT spec.
#[derive(Debug, Clone, Copy, PartialEq, Eq, PartialOrd, Ord, Structural)]
pub struct Version {
    /// Major version number.
    pub major: u32,
    /// Minor version number.
    pub minor: u32,
}

/// The version compatibility rule: major versions must match exactly; while
/// the major version is 0 (pre-stable) the minor versions must also match
/// exactly; from major version 1 on, a blob with a newer minor version than
/// the reader requested is still accepted, an older one is not.
pub open spec fn spec_compatible(requested: Version, found: Version) -> bool {
    requested.major == found.major && if requested.major == 0 {
        requested.minor == found.minor
    } else {
        requested.minor <= found.minor
    }
}

/// VPT version this SDK is built against.
pub open spec fn spec_sdk_version() -> Version {
    Version { major: 0, minor: 1 }
}

/// VPT version this SDK is built against.
pub fn sdk_version() -> (v: Version)
    ensures
        v == spec_sdk_version(),
{
    Version { major: 0, minor: 1 }
}

impl Version {
    /// Checks the compatibility of two versions, according to the VPT spec.
    pub fn compatible_with(&self, other: &Version) -> (r: bool)
        ensures
            r == spec_compatible(*self, *other),
    {
        self.major == other.major && if self.major == 0 {
            self.minor == other.minor
        } else {
            self.minor <= other.minor
        }
    }
}

/// An error encountered while validating a VPT.
#[derive(Debug, Clone, Copy, PartialEq, Eq, Structural)]
pub enum VptDefect {
    /// The blob is longer than the provided bytes.
    SizeMismatch,
    /// The blob is not 8-byte aligned.
    AlignmentMismatch,
    /// `header.magic` does not match [`VPT_MAGIC`]; carries the found value.
    MagicMismatch(u32),
    /// `header.version` is incompatible with this SDK's version.
    VersionMismatch(Version),
    /// `header.vendor_id` does not match the provided vendor ID.
    VendorMismatch(u32),
}

/// VPT Header: the fixed-size record at the start of every table.
#[derive(Debug, Clone, Copy, PartialEq, Eq, Structural)]
pub struct VptHeader {
    /// Magic number. Must be equal to [`VPT_MAGIC`], or 0x675c3ed9.
    pub magic: u32,
    /// VPT version.
    pub version: Version,
    /// Vendor ID.
    pub vendor_id: u32,
    /// VPT payload size, this header included.
    pub size: u32,
    /// Number of programs contained within the VPT.
    pub program_count: u32,
}

/// Program Header: the fixed-size record immediately preceding each
/// program's variable-length data.
#[derive(Debug, Clone, Copy, PartialEq, Eq, Structural)]
pub struct ProgramHeader {
    /// Length of the program's name in bytes.
    pub name_len: u32,
    /// Length of the program's payload in bytes.
    pub payload_len: u32,
}

/// A read-only view of a validated VPT.
///
/// This VPT has been verified to be version-compatible with the SDK,
/// well-aligned, and to contain a matching vendor ID. Its programs can be
/// iterated through by calling [`Vpt::program_iter`].
#[derive(Debug, Clone, Copy, PartialEq, Eq)]
pub struct Vpt<'a> {
    bytes: &'a [u8],
}

/// A read-only view of a program's name and payload. This view has the same
/// lifetime as the [`Vpt`] it originated from.
#[derive(Debug, Clone, Copy, PartialEq, Eq)]
pub struct Program<'a> {
    name: &'a [u8],
    payload: &'a [u8],
}

/// VPT program iterator obtained from [`Vpt::program_iter`]. It yields
/// programs until either `header.program_count` programs have been yielded
/// or the blob's bytes have been exhausted.
#[must_use]
#[derive(Debug, Clone, Copy, PartialEq, Eq)]
pub struct ProgramIter<'a> {
    program_count: u32,
    current_program: u32,
    bytes: &'a [u8],
}

impl<'a> View for Vpt<'a> {
    type V = Seq<u8>;

    closed spec fn view(&self) -> Seq<u8> {
        self.bytes@
    }
}

impl<'a> View for Program<'a> {
    type V = (Seq<u8>, Seq<u8>);

    closed spec fn view(&self) -> (Seq<u8>, Seq<u8>) {
        (self.name@, self.payload@)
    }
}

/// Relies on `<[u8]>::as_ptr`: tests whether the slice's starting address is
/// a multiple of 8. The result depends on where the buffer happens to sit in
/// memory, so nothing is promised of it.
#[verifier::external_body]
fn slice_addr_is_8_aligned(bytes: &[u8]) -> bool {
    bytes.as_ptr() as usize % 8 == 0
}

impl<'a> Vpt<'a> {
    /// A validated view: long enough for its header, bearing the right magic
    /// and a compatible version, and exactly `header.size` bytes long.
    pub open spec fn wf(self) -> bool {
        &&& self@.len() >= wire::HEADER_SIZE
        &&& wire::spec_parse_header(self@).magic == VPT_MAGIC
        &&& spec_compatible(spec_sdk_version(), wire::spec_parse_header(self@).version)
        &&& self@.len() == wire::spec_parse_header(self@).size
    }

    /// The header stored at the start of the view.
    pub open spec fn spec_header(self) -> VptHeader {
        wire::spec_parse_header(self@)
    }

    /// The entries stored in the view, in order, as `(name, payload)` pairs.
    pub open spec fn spec_entries(self) -> Seq<(Seq<u8>, Seq<u8>)> {
        wire::spec_iter_entries(
            self@.skip(wire::HEADER_SIZE as int),
            self.spec_header().program_count as nat,
        )
    }

    /// The validation sequence, given whether the buffer's starting address
    /// is 8-byte aligned: size, alignment, magic, version and vendor checks,
    /// in that order, truncating the view to `header.size` bytes on success.
    pub fn validate(bytes: &'a [u8], vendor_id: u32, aligned: bool) -> (r: Result<
        Vpt<'a>,
        VptDefect,
    >)
        ensures
            r matches Ok(v) ==> wire::spec_validate(bytes@, vendor_id, aligned) == Ok::<
                Seq<u8>,
                VptDefect,
            >(v@) && (wire::spec_parse_header(bytes@).size >= wire::HEADER_SIZE ==> v.wf()),
            r matches Err(e) ==> wire::spec_validate(bytes@, vendor_id, aligned) == Err::<
                Seq<u8>,
                VptDefect,
            >(e),
    {
        if bytes.len() < wire::HEADER_SIZE {
            return Err(VptDefect::SizeMismatch);
        }
        if !aligned {
            return Err(VptDefect::AlignmentMismatch);
        }
        let header = wire::read_header(bytes);
        if header.magic != VPT_MAGIC {
            return Err(VptDefect::MagicMismatch(header.magic));
        }
        let sdk = sdk_version();
        if !sdk.compatible_with(&header.version) {
            return Err(VptDefect::VersionMismatch(header.version));
        }
        if header.vendor_id != vendor_id {
            return Err(VptDefect::VendorMismatch(header.vendor_id));
        }
        if bytes.len() < header.size as usize {
            return Err(VptDefect::SizeMismatch);
        }
        let view = slice_subrange(bytes, 0, header.size as usize);
        proof {
            if header.size >= wire::HEADER_SIZE {
                assert(wire::spec_parse_header(view@) == wire::spec_parse_header(bytes@));
            }
        }
        Ok(Vpt { bytes: view })
    }

    /// Constructs a [`Vpt`] from a byte slice.
    ///
    /// # Errors
    ///
    /// - [`VptDefect::SizeMismatch`] if `bytes` could not contain the entire VPT.
    /// - [`VptDefect::AlignmentMismatch`] if `bytes` is not 8-byte aligned.
    /// - [`VptDefect::MagicMismatch`] if `header.magic` does not match [`VPT_MAGIC`].
    /// - [`VptDefect::VersionMismatch`] if `header.version` is not compatible with the SDK version.
    /// - [`VptDefect::VendorMismatch`] if `header.vendor_id` does not match `vendor_id`.
    pub fn new(bytes: &'a [u8], vendor_id: u32) -> (r: Result<Vpt<'a>, VptDefect>)
        ensures
            r matches Ok(v) ==> wire::spec_validate(bytes@, vendor_id, true) == Ok::<
                Seq<u8>,
                VptDefect,
            >(v@) && (wire::spec_parse_header(bytes@).size >= wire::HEADER_SIZE ==> v.wf()),
            r matches Err(e) ==> wire::spec_validate(bytes@, vendor_id, true) == Err::<
                Seq<u8>,
                VptDefect,
            >(e) || wire::spec_validate(bytes@, vendor_id, false) == Err::<Seq<u8>, VptDefect>(e),
    {
        let aligned = slice_addr_is_8_aligned(bytes);
        Self::validate(bytes, vendor_id, aligned)
    }

    /// Returns the [`VptHeader`] of the VPT.
    pub fn header(&self) -> (h: VptHeader)
        requires
            self.wf(),
        ensures
            h == self.spec_header(),
    {
        wire::read_header(self.bytes)
    }

    /// Returns a [`ProgramIter`] which can be used to iterate through the
    /// programs within the VPT.
    pub fn program_iter(&self) -> (it: ProgramIter<'a>)
        requires
            self.wf(),
        ensures
            it.remaining() == self.spec_entries(),
    {
        let header = self.header();
        let it = ProgramIter {
            program_count: header.program_count,
            current_program: 0,
            bytes: slice_subrange(self.bytes, wire::HEADER_SIZE, self.bytes.len()),
        };
        proof {
            assert(it.bytes@ =~= self@.skip(wire::HEADER_SIZE as int));
        }
        it
    }
}

impl<'a> ProgramIter<'a> {
    /// The entries this iterator will still yield, in order.
    pub closed spec fn remaining(self) -> Seq<(Seq<u8>, Seq<u8>)> {
        if self.current_program <= self.program_count {
            wire::spec_iter_entries(
                self.bytes@,
                (self.program_count - self.current_program) as nat,
            )
        } else {
            Seq::empty()
        }
    }

    /// Yields the next program, or `None` once the declared program count is
    /// reached or the remaining bytes cannot hold the next entry.
    pub fn next(&mut self) -> (r: Option<Program<'a>>)
        ensures
            r matches Some(p) ==> old(self).remaining().len() > 0 && p@ == old(
                self,
            ).remaining()[0] && final(self).remaining() == old(self).remaining().drop_first(),
            r is None ==> old(self).remaining().len() == 0 && final(self).remaining() == Seq::<
                (Seq<u8>, Seq<u8>),
            >::empty(),
    {
        if self.current_program >= self.program_count {
            return None;
        }
        let len: usize = self.bytes.len();
        if len < wire::PROGRAM_HEADER_SIZE {
            return None;
        }
        let header = wire::read_program_header(self.bytes);
        let payload_len = header.payload_len as usize;
        let name_len = header.name_len as usize;
        if payload_len > len - wire::PROGRAM_HEADER_SIZE {
            return None;
        }
        if name_len > len - wire::PROGRAM_HEADER_SIZE - payload_len {
            return None;
        }
        let payload = slice_subrange(
            self.bytes,
            wire::PROGRAM_HEADER_SIZE,
            wire::PROGRAM_HEADER_SIZE + payload_len,
        );
        let name = slice_subrange(
            self.bytes,
            wire::PROGRAM_HEADER_SIZE + payload_len,
            wire::PROGRAM_HEADER_SIZE + payload_len + name_len,
        );
        let base = wire::PROGRAM_HEADER_SIZE + payload_len + name_len;
        let pad = (8 - base % 8) % 8;
        let consumed = if pad <= len - base {
            base + pad
        } else {
            len
        };
        proof {
            wire::lemma_align8(base as int);
            assert(self.bytes@.subrange(consumed as int, len as int) =~= self.bytes@.skip(
                consumed as int,
            ));
        }
        let ghost prev = *self;
        self.bytes = slice_subrange(self.bytes, consumed, len);
        self.current_program = self.current_program + 1;
        proof {
            assert(prev.remaining() == seq![(name@, payload@)] + self.remaining());
        }
        Some(Program { name, payload })
    }
}

impl<'a> Program<'a> {
    /// Returns the name of the program.
    pub fn name(&self) -> (r: &'a [u8])
        ensures
            r@ == self@.0,
    {
        self.name
    }

    /// Returns the payload of the program.
    pub fn payload(&self) -> (r: &'a [u8])
        ensures
            r@ == self@.1,
    {
        self.payload
    }
}

} // verus!
