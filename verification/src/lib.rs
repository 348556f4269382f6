//! A verified parser for the Flattened Device Tree (FDT) binary format.
//!
//! Firmware hands an operating system one raw memory region holding a
//! serialized hardware description.  This crate validates the fixed
//! header of that region, extracts the memory-reservation table up to
//! its all-zero sentinel entry, and exposes bounds-checked views of the
//! structure and strings blocks together with offset-based lookup of
//! null-terminated strings.  Every offset and length is checked before
//! it is used, so a malformed blob is reported as an error value and is
//! never read out of bounds.

use vstd::prelude::*;

pub mod bytes;

use crate::bytes::be32_at;
use crate::bytes::be32_bytes;
use crate::bytes::be64_at;
use crate::bytes::lemma_be32_round_trip;
use crate::bytes::read_be32;
use crate::bytes::read_be64;
use vstd::string::StringSliceAdditionalSpecFns;

verus! {

/// The magic number every device-tree blob starts with.
pub const FDT_HDR_MAGIC: u32 = 0xd00dfeed;

/// Size in bytes of the on-wire header.
pub const FDT_HDR_SIZE: usize = 40;

/// Size in bytes of one on-wire memory-reservation entry.
pub const FDT_RSV_ENTRY_SIZE: usize = 16;

/// The fixed-layout FDT header, with every field already converted
/// from its big-endian wire form to a host value.
#[derive(Debug, Clone, Copy, PartialEq, Eq, Structural)]
pub struct FdtHeader {
    pub magic: u32,
    pub totalsize: u32,
    pub off_dt_struct: u32,
    pub off_dt_strings: u32,
    pub off_mem_rsvmap: u32,
    pub version: u32,
    pub last_comp_version: u32,
    pub boot_cpuid_phys: u32,
    pub size_dt_strings: u32,
    pub size_dt_struct: u32,
}

/// One memory-reservation entry: a range of physical memory the
/// operating system must leave untouched.
#[derive(Debug, Clone, Copy, PartialEq, Eq, Structural)]
pub struct FdtReserveEntry {
    pub address: u64,
    pub size: u64,
}

/// The on-wire layout of a property record inside the structure
/// block: payload length and an offset into the strings block naming
/// the property.  This crate keeps the structure block opaque; the
/// record layout is published for callers that walk the token stream.
#[derive(Debug, Clone, Copy, PartialEq, Eq, Structural)]
pub struct FdtProp {
    pub len: u32,
    pub nameoff: u32,
}

/// Every way construction or lookup can fail.
#[derive(Debug, Clone, Copy, PartialEq, Eq, Structural)]
pub enum FdtError {
    /// The blob's magic field is not `FDT_HDR_MAGIC`.
    InvalidMagic,
    /// The starting address handed in is null.
    InvalidPointer,
    /// No header record could be read, or a string offset lies past
    /// the end of the strings block.
    NotFound,
    /// A header-declared offset or size reaches outside the blob.
    OutOfBounds,
    /// No null terminator exists between a string offset and the end
    /// of the strings block.
    MalformedString,
    /// The bytes at a string offset are not valid UTF-8.
    InvalidUtf8,
}

/// The header value encoded big-endian in the first 40 bytes of `b`.
pub open spec fn header_of(b: Seq<u8>) -> FdtHeader
    recommends
        b.len() >= FDT_HDR_SIZE,
{
    FdtHeader {
        magic: be32_at(b, 0),
        totalsize: be32_at(b, 4),
        off_dt_struct: be32_at(b, 8),
        off_dt_strings: be32_at(b, 12),
        off_mem_rsvmap: be32_at(b, 16),
        version: be32_at(b, 20),
        last_comp_version: be32_at(b, 24),
        boot_cpuid_phys: be32_at(b, 28),
        size_dt_strings: be32_at(b, 32),
        size_dt_struct: be32_at(b, 36),
    }
}

/// The 40-byte big-endian encoding of a header value.
pub open spec fn header_bytes(h: FdtHeader) -> Seq<u8> {
    be32_bytes(h.magic) + be32_bytes(h.totalsize) + be32_bytes(h.off_dt_struct) + be32_bytes(
        h.off_dt_strings,
    ) + be32_bytes(h.off_mem_rsvmap) + be32_bytes(h.version) + be32_bytes(h.last_comp_version)
        + be32_bytes(h.boot_cpuid_phys) + be32_bytes(h.size_dt_strings) + be32_bytes(
        h.size_dt_struct,
    )
}

/// All header-declared regions stay inside the blob: the declared
/// total size fits in the supplied window, both blocks end within the
/// declared total size, and the reservation table starts no later
/// than the structure block that bounds its scan.
pub open spec fn header_bounds_ok(h: FdtHeader, blob_len: int) -> bool {
    &&& h.totalsize <= blob_len
    &&& h.off_dt_struct + h.size_dt_struct <= h.totalsize
    &&& h.off_dt_strings + h.size_dt_strings <= h.totalsize
    &&& h.off_mem_rsvmap <= h.off_dt_struct
}

/// Reads and validates the header at the start of `blob`, converting
/// every field from big-endian.  Fails with `NotFound` when no full
/// header record is present and with `InvalidMagic` when the first
/// field is not the FDT magic number.
fn parse_header(blob: &[u8]) -> (r: Result<FdtHeader, FdtError>)
    ensures
        match r {
            Ok(h) => blob@.len() >= FDT_HDR_SIZE && h == header_of(blob@) && h.magic
                == FDT_HDR_MAGIC,
            Err(FdtError::NotFound) => blob@.len() < FDT_HDR_SIZE,
            Err(FdtError::InvalidMagic) => blob@.len() >= FDT_HDR_SIZE && header_of(blob@).magic
                != FDT_HDR_MAGIC,
            Err(_) => false,
        },
{
    if blob.len() < FDT_HDR_SIZE {
        return Err(FdtError::NotFound);
    }
    let magic = read_be32(blob, 0);
    if magic != FDT_HDR_MAGIC {
        return Err(FdtError::InvalidMagic);
    }
    Ok(
        FdtHeader {
            magic,
            totalsize: read_be32(blob, 4),
            off_dt_struct: read_be32(blob, 8),
            off_dt_strings: read_be32(blob, 12),
            off_mem_rsvmap: read_be32(blob, 16),
            version: read_be32(blob, 20),
            last_comp_version: read_be32(blob, 24),
            boot_cpuid_phys: read_be32(blob, 28),
            size_dt_strings: read_be32(blob, 32),
            size_dt_struct: read_be32(blob, 36),
        },
    )
}

/// Checks every header-declared offset and size against the blob,
/// deciding exactly `header_bounds_ok`.
fn check_header_bounds(h: &FdtHeader, blob_len: usize) -> (ok: bool)
    ensures
        ok == header_bounds_ok(*h, blob_len as int),
{
    (h.totalsize as u64) <= (blob_len as u64) && (h.off_dt_struct as u64) + (h.size_dt_struct
        as u64) <= (h.totalsize as u64) && (h.off_dt_strings as u64) + (h.size_dt_strings as u64)
        <= (h.totalsize as u64) && h.off_mem_rsvmap <= h.off_dt_struct
}

/// Decoding the 40-byte big-endian encoding of a header gives the
/// header back: the wire format loses nothing.
pub proof fn lemma_header_round_trip(h: FdtHeader)
    ensures
        header_of(header_bytes(h)) == h,
{
    let b = header_bytes(h);
    assert(b.len() == 40);
    lemma_be32_round_trip(h.magic);
    lemma_be32_round_trip(h.totalsize);
    lemma_be32_round_trip(h.off_dt_struct);
    lemma_be32_round_trip(h.off_dt_strings);
    lemma_be32_round_trip(h.off_mem_rsvmap);
    lemma_be32_round_trip(h.version);
    lemma_be32_round_trip(h.last_comp_version);
    lemma_be32_round_trip(h.boot_cpuid_phys);
    lemma_be32_round_trip(h.size_dt_strings);
    lemma_be32_round_trip(h.size_dt_struct);
}

/// The reservation entry encoded at index `k` of the table whose
/// first entry starts at byte `base` of `b`, fields still big-endian
/// on the wire and read here as host values.
pub open spec fn rsv_entry_at(b: Seq<u8>, base: int, k: int) -> FdtReserveEntry
    recommends
        0 <= base,
        0 <= k,
        base + FDT_RSV_ENTRY_SIZE * (k + 1) <= b.len(),
{
    FdtReserveEntry {
        address: be64_at(b, base + FDT_RSV_ENTRY_SIZE * k),
        size: be64_at(b, base + FDT_RSV_ENTRY_SIZE * k + 8),
    }
}

/// True when entry `k` of the table at `base` is the all-zero
/// sentinel that terminates the reservation table.
pub open spec fn is_rsv_sentinel(b: Seq<u8>, base: int, k: int) -> bool {
    rsv_entry_at(b, base, k) == (FdtReserveEntry { address: 0, size: 0 })
}

/// Exactly characterizes the length of the extracted reservation
/// table: `n` entries are extracted from the table at `base` scanned
/// up to `bound` entries when no entry before `n` is the sentinel and
/// either the sentinel stands at `n` or the scan ran out at the
/// bound.  For fixed `b`, `base` and `bound` exactly one `n`
/// satisfies this.
pub open spec fn rsv_count_ok(b: Seq<u8>, base: int, bound: int, n: int) -> bool {
    &&& 0 <= n <= bound
    &&& forall|k: int| 0 <= k < n ==> !is_rsv_sentinel(b, base, k)
    &&& n < bound ==> is_rsv_sentinel(b, base, n)
}

/// The number of whole reservation entries between the table start
/// and the structure block, the hard upper bound of the sentinel
/// scan.
pub open spec fn rsv_scan_bound(h: FdtHeader) -> int {
    (h.off_dt_struct - h.off_mem_rsvmap) / (FDT_RSV_ENTRY_SIZE as int)
}

/// The host-endian (address, size) pairs of all entries stored in a
/// reservation-table byte region.
pub open spec fn rsv_regions(b: Seq<u8>) -> Seq<(u64, u64)> {
    Seq::new(
        ((b.len() as int) / (FDT_RSV_ENTRY_SIZE as int)) as nat,
        |i: int| (rsv_entry_at(b, 0, i).address, rsv_entry_at(b, 0, i).size),
    )
}

/// Scans the reservation table declared by `h` and returns the bytes
/// of every entry before the first all-zero sentinel, or of the whole
/// bound-limited table when no sentinel exists.
fn parse_mem_reserve<'a>(blob: &'a [u8], h: &FdtHeader) -> (r: &'a [u8])
    requires
        h.off_mem_rsvmap <= h.off_dt_struct,
        h.off_dt_struct <= blob@.len(),
    ensures
        (r@.len() as int) % (FDT_RSV_ENTRY_SIZE as int) == 0,
        r@ == blob@.subrange(h.off_mem_rsvmap as int, h.off_mem_rsvmap + r@.len()),
        rsv_count_ok(
            blob@,
            h.off_mem_rsvmap as int,
            rsv_scan_bound(*h),
            (r@.len() as int) / (FDT_RSV_ENTRY_SIZE as int),
        ),
{
    proof {
        vstd::slice::axiom_spec_len(blob);
    }
    let base = h.off_mem_rsvmap as usize;
    let bound = ((h.off_dt_struct - h.off_mem_rsvmap) as usize) / FDT_RSV_ENTRY_SIZE;
    proof {
        vstd::arithmetic::div_mod::lemma_fundamental_div_mod(
            (h.off_dt_struct - h.off_mem_rsvmap) as int,
            FDT_RSV_ENTRY_SIZE as int,
        );
        vstd::arithmetic::div_mod::lemma_mod_bound(
            (h.off_dt_struct - h.off_mem_rsvmap) as int,
            FDT_RSV_ENTRY_SIZE as int,
        );
    }
    assert(base + FDT_RSV_ENTRY_SIZE * bound <= blob@.len());
    let mut n: usize = 0;
    let mut found = false;
    while n < bound && !found
        invariant
            0 <= n <= bound,
            base + FDT_RSV_ENTRY_SIZE * bound <= blob@.len(),
            base == h.off_mem_rsvmap,
            bound == rsv_scan_bound(*h),
            forall|k: int| 0 <= k < n ==> !is_rsv_sentinel(blob@, base as int, k),
            found ==> n < bound && is_rsv_sentinel(blob@, base as int, n as int),
        decreases bound - n, (if found { 0int } else { 1int }),
    {
        assert(FDT_RSV_ENTRY_SIZE * (n + 1) <= FDT_RSV_ENTRY_SIZE * bound) by (nonlinear_arith)
            requires
                n + 1 <= bound,
        ;
        let address = read_be64(blob, base + FDT_RSV_ENTRY_SIZE * n);
        let size = read_be64(blob, base + FDT_RSV_ENTRY_SIZE * n + 8);
        if address == 0 && size == 0 {
            found = true;
        } else {
            n = n + 1;
        }
    }
    assert(rsv_count_ok(blob@, base as int, bound as int, n as int));
    assert(FDT_RSV_ENTRY_SIZE * n <= FDT_RSV_ENTRY_SIZE * bound) by (nonlinear_arith)
        requires
            n <= bound,
    ;
    let r = vstd::slice::slice_subrange(blob, base, base + FDT_RSV_ENTRY_SIZE * n);
    proof {
        vstd::arithmetic::div_mod::lemma_div_multiples_vanish(
            n as int,
            FDT_RSV_ENTRY_SIZE as int,
        );
        vstd::arithmetic::div_mod::lemma_mod_multiples_basic(
            n as int,
            FDT_RSV_ENTRY_SIZE as int,
        );
    }
    r
}

/// For a well-formed reservation table that ends in an all-zero
/// sentinel within the scan bound, the extracted sequence length is
/// exactly the sentinel's zero-based index `s`; that no extracted
/// entry is the sentinel itself is part of `rsv_count_ok` (and of
/// `Fdt::wf`).
pub proof fn lemma_rsv_count_is_sentinel_index(b: Seq<u8>, base: int, bound: int, n: int, s: int)
    requires
        rsv_count_ok(b, base, bound, n),
        0 <= s < bound,
        is_rsv_sentinel(b, base, s),
        forall|k: int| 0 <= k < s ==> !is_rsv_sentinel(b, base, k),
    ensures
        n == s,
{
    if n < s {
        assert(is_rsv_sentinel(b, base, n));
    }
    if s < n {
        assert(!is_rsv_sentinel(b, base, s));
    }
}

/// A reservation table whose very first entry is the sentinel (or
/// whose scan bound is zero) extracts an empty sequence.
pub proof fn lemma_rsv_empty_table(b: Seq<u8>, base: int, bound: int, n: int)
    requires
        rsv_count_ok(b, base, bound, n),
        bound == 0 || is_rsv_sentinel(b, base, 0),
    ensures
        n == 0,
{
    if n > 0 {
        assert(!is_rsv_sentinel(b, base, 0));
    }
}

/// An entry of a reservation table read out of the table's own byte
/// region equals the same entry read in place inside the whole blob.
pub proof fn lemma_rsv_entry_subrange(b: Seq<u8>, base: int, len: int, k: int)
    requires
        0 <= base,
        0 <= k,
        FDT_RSV_ENTRY_SIZE * (k + 1) <= len,
        base + len <= b.len(),
    ensures
        rsv_entry_at(b.subrange(base, base + len), 0, k) == rsv_entry_at(b, base, k),
{
    assert(FDT_RSV_ENTRY_SIZE * k + FDT_RSV_ENTRY_SIZE == FDT_RSV_ENTRY_SIZE * (k + 1))
        by (nonlinear_arith);
    assert(0 <= FDT_RSV_ENTRY_SIZE * k) by (nonlinear_arith)
        requires
            0 <= k,
    ;
}

/// Borrows the `size` bytes of `blob` starting at `off`, the view of
/// one header-declared block.
fn slice_region<'a>(blob: &'a [u8], off: u32, size: u32) -> (r: &'a [u8])
    requires
        off + size <= blob@.len(),
    ensures
        r@ == blob@.subrange(off as int, off + size),
{
    proof {
        vstd::slice::axiom_spec_len(blob);
    }
    vstd::slice::slice_subrange(blob, off as usize, off as usize + size as usize)
}

/// A parsed, read-only view of one device-tree blob: the validated
/// header by value, and borrowed views of the reservation table (wire
/// bytes), the structure block and the strings block.
#[derive(Debug)]
pub struct Fdt<'a> {
    pub header: FdtHeader,
    pub reserved_memory: &'a [u8],
    pub dt_struct: &'a [u8],
    pub dt_strings: &'a [u8],
}

impl<'a> Fdt<'a> {
    /// Every handle this crate constructs satisfies this: the magic
    /// is validated, each block view has exactly its header-declared
    /// length, and the reservation bytes hold whole entries none of
    /// which is the sentinel.
    pub open spec fn wf(self) -> bool {
        &&& self.header.magic == FDT_HDR_MAGIC
        &&& self.dt_struct@.len() == self.header.size_dt_struct
        &&& self.dt_strings@.len() == self.header.size_dt_strings
        &&& (self.reserved_memory@.len() as int) % (FDT_RSV_ENTRY_SIZE as int) == 0
        &&& forall|k: int|
            0 <= k < (self.reserved_memory@.len() as int) / (FDT_RSV_ENTRY_SIZE as int)
                ==> !is_rsv_sentinel(self.reserved_memory@, 0, k)
    }

    /// Parses the blob that firmware placed at `fdt_addr`, handed in
    /// as the byte window `blob` starting at that address.  Returns a
    /// fully validated handle, or the error naming exactly what was
    /// wrong: a null address, a window too small to hold a header, a
    /// bad magic number, or a header-declared region reaching outside
    /// the blob.
    #[verifier::rlimit(50)]
    pub fn new(fdt_addr: usize, blob: &'a [u8]) -> (r: Result<Fdt<'a>, FdtError>)
        ensures
            match r {
                Ok(fdt) => {
                    &&& fdt_addr != 0
                    &&& blob@.len() >= FDT_HDR_SIZE
                    &&& fdt.header == header_of(blob@)
                    &&& header_bounds_ok(fdt.header, blob@.len() as int)
                    &&& fdt.wf()
                    &&& fdt.dt_struct@ == blob@.subrange(
                        fdt.header.off_dt_struct as int,
                        fdt.header.off_dt_struct + fdt.header.size_dt_struct,
                    )
                    &&& fdt.dt_strings@ == blob@.subrange(
                        fdt.header.off_dt_strings as int,
                        fdt.header.off_dt_strings + fdt.header.size_dt_strings,
                    )
                    &&& fdt.reserved_memory@ == blob@.subrange(
                        fdt.header.off_mem_rsvmap as int,
                        fdt.header.off_mem_rsvmap + fdt.reserved_memory@.len(),
                    )
                    &&& rsv_count_ok(
                        blob@,
                        fdt.header.off_mem_rsvmap as int,
                        rsv_scan_bound(fdt.header),
                        (fdt.reserved_memory@.len() as int) / (FDT_RSV_ENTRY_SIZE as int),
                    )
                },
                Err(FdtError::InvalidPointer) => fdt_addr == 0,
                Err(FdtError::NotFound) => fdt_addr != 0 && blob@.len() < FDT_HDR_SIZE,
                Err(FdtError::InvalidMagic) => fdt_addr != 0 && blob@.len() >= FDT_HDR_SIZE
                    && header_of(blob@).magic != FDT_HDR_MAGIC,
                Err(FdtError::OutOfBounds) => fdt_addr != 0 && blob@.len() >= FDT_HDR_SIZE
                    && header_of(blob@).magic == FDT_HDR_MAGIC && !header_bounds_ok(
                    header_of(blob@),
                    blob@.len() as int,
                ),
                Err(_) => false,
            },
    {
        if fdt_addr == 0 {
            return Err(FdtError::InvalidPointer);
        }
        let hdr = match parse_header(blob) {
            Ok(h) => h,
            Err(e) => { return Err(e) },
        };
        if !check_header_bounds(&hdr, blob.len()) {
            return Err(FdtError::OutOfBounds);
        }
        let mem_reserve = parse_mem_reserve(blob, &hdr);
        let dt_struct = slice_region(blob, hdr.off_dt_struct, hdr.size_dt_struct);
        let dt_strings = slice_region(blob, hdr.off_dt_strings, hdr.size_dt_strings);
        proof {
            let base = hdr.off_mem_rsvmap as int;
            let len = mem_reserve@.len() as int;
            assert forall|k: int|
                0 <= k < len / (FDT_RSV_ENTRY_SIZE as int) implies !is_rsv_sentinel(
                mem_reserve@,
                0,
                k,
            ) by {
                assert(FDT_RSV_ENTRY_SIZE * (k + 1) <= FDT_RSV_ENTRY_SIZE * (len / (
                FDT_RSV_ENTRY_SIZE as int))) by (nonlinear_arith)
                    requires
                        k + 1 <= len / (FDT_RSV_ENTRY_SIZE as int),
                ;
                vstd::arithmetic::div_mod::lemma_fundamental_div_mod(
                    len,
                    FDT_RSV_ENTRY_SIZE as int,
                );
                vstd::arithmetic::div_mod::lemma_mod_bound(len, FDT_RSV_ENTRY_SIZE as int);
                lemma_rsv_entry_subrange(blob@, base, len, k);
                assert(!is_rsv_sentinel(blob@, base, k));
            }
        }
        Ok(Fdt { header: hdr, reserved_memory: mem_reserve, dt_struct, dt_strings })
    }

    /// Returns every extracted reservation entry as a host-endian
    /// (address, size) pair, converting from the stored wire bytes on
    /// read.
    pub fn get_reserved_memory_regions(&self) -> (r: Vec<(u64, u64)>)
        ensures
            r@ == rsv_regions(self.reserved_memory@),
    {
        proof {
            vstd::slice::axiom_spec_len(self.reserved_memory);
        }
        let n = self.reserved_memory.len() / FDT_RSV_ENTRY_SIZE;
        proof {
            vstd::arithmetic::div_mod::lemma_fundamental_div_mod(
                self.reserved_memory@.len() as int,
                FDT_RSV_ENTRY_SIZE as int,
            );
            vstd::arithmetic::div_mod::lemma_mod_bound(
                self.reserved_memory@.len() as int,
                FDT_RSV_ENTRY_SIZE as int,
            );
        }
        let mut r: Vec<(u64, u64)> = Vec::new();
        let mut i: usize = 0;
        while i < n
            invariant
                0 <= i <= n,
                self.reserved_memory@.len() <= usize::MAX,
                FDT_RSV_ENTRY_SIZE * n <= self.reserved_memory@.len(),
                n == (self.reserved_memory@.len() as int) / (FDT_RSV_ENTRY_SIZE as int),
                r@.len() == i,
                forall|j: int| 0 <= j < i ==> r@[j] == rsv_regions(self.reserved_memory@)[j],
            decreases n - i,
        {
            assert(FDT_RSV_ENTRY_SIZE * (i + 1) <= FDT_RSV_ENTRY_SIZE * n) by (nonlinear_arith)
                requires
                    i + 1 <= n,
            ;
            let address = read_be64(self.reserved_memory, FDT_RSV_ENTRY_SIZE * i);
            let size = read_be64(self.reserved_memory, FDT_RSV_ENTRY_SIZE * i + 8);
            r.push((address, size));
            i = i + 1;
        }
        proof {
            assert(r@ =~= rsv_regions(self.reserved_memory@));
        }
        r
    }

    /// Returns the raw bytes of the strings block.
    pub fn st(&self) -> (r: &[u8])
        ensures
            r@ == self.dt_strings@,
    {
        self.dt_strings
    }

    /// Returns the bytes of the null-terminated string starting at
    /// byte `offset` of the strings block, up to and excluding the
    /// first null byte.  An offset at or past the end of the block is
    /// `NotFound`; an in-range offset with no null terminator before
    /// the end of the block is `MalformedString`.  No byte outside
    /// the strings block is ever read.
    pub fn get_string_bytes(&self, offset: usize) -> (r: Result<&[u8], FdtError>)
        ensures
            match r {
                Ok(bs) => offset < self.dt_strings@.len() && has_nul_from(
                    self.dt_strings@,
                    offset as int,
                ) && bs@ == nul_run(self.dt_strings@, offset as int),
                Err(FdtError::NotFound) => offset >= self.dt_strings@.len(),
                Err(FdtError::MalformedString) => offset < self.dt_strings@.len() && !has_nul_from(
                    self.dt_strings@,
                    offset as int,
                ),
                Err(_) => false,
            },
    {
        proof {
            vstd::slice::axiom_spec_len(self.dt_strings);
        }
        let end = self.dt_strings.len();
        if offset >= end {
            return Err(FdtError::NotFound);
        }
        let mut j = offset;
        while j < end && *vstd::slice::slice_index_get(self.dt_strings, j) != 0
            invariant
                offset <= j <= end,
                end == self.dt_strings@.len(),
                forall|k: int| offset <= k < j ==> self.dt_strings@[k] != 0,
            decreases end - j,
        {
            j = j + 1;
        }
        if j == end {
            assert(forall|p: int| !first_nul_at(self.dt_strings@, offset as int, p));
            return Err(FdtError::MalformedString);
        }
        let r = vstd::slice::slice_subrange(self.dt_strings, offset, j);
        proof {
            assert(first_nul_at(self.dt_strings@, offset as int, j as int));
            lemma_nul_run(self.dt_strings@, offset as int, j as int);
        }
        Ok(r)
    }

    /// Returns the null-terminated string starting at byte `offset`
    /// of the strings block, decoded as UTF-8.  Beyond the failures
    /// of `get_string_bytes`, a string whose bytes are not valid
    /// UTF-8 is `InvalidUtf8`.
    pub fn get_string(&self, offset: usize) -> (r: Result<&str, FdtError>)
        ensures
            match r {
                Ok(s) => offset < self.dt_strings@.len() && has_nul_from(
                    self.dt_strings@,
                    offset as int,
                ) && s.spec_bytes() == nul_run(self.dt_strings@, offset as int),
                Err(FdtError::NotFound) => offset >= self.dt_strings@.len(),
                Err(FdtError::MalformedString) => offset < self.dt_strings@.len() && !has_nul_from(
                    self.dt_strings@,
                    offset as int,
                ),
                Err(FdtError::InvalidUtf8) => offset < self.dt_strings@.len() && has_nul_from(
                    self.dt_strings@,
                    offset as int,
                ) && !vstd::utf8::valid_utf8(nul_run(self.dt_strings@, offset as int)),
                Err(_) => false,
            },
    {
        let bs = match self.get_string_bytes(offset) {
            Ok(bs) => bs,
            Err(e) => { return Err(e) },
        };
        match str_from_utf8(bs) {
            Some(s) => Ok(s),
            None => Err(FdtError::InvalidUtf8),
        }
    }
}

/// True when `j` is the position of the first null byte at or after
/// `off` in `b`.
pub open spec fn first_nul_at(b: Seq<u8>, off: int, j: int) -> bool {
    &&& off <= j < b.len()
    &&& b[j] == 0
    &&& forall|k: int| off <= k < j ==> b[k] != 0
}

/// True when some null byte stands at or after `off` in `b`.
pub open spec fn has_nul_from(b: Seq<u8>, off: int) -> bool {
    exists|j: int| first_nul_at(b, off, j)
}

/// The bytes of `b` from `off` up to and excluding the first null
/// byte at or after `off`.
pub open spec fn nul_run(b: Seq<u8>, off: int) -> Seq<u8>
    recommends
        has_nul_from(b, off),
{
    b.subrange(off, choose|j: int| first_nul_at(b, off, j))
}

/// At most one position is the first null at or after `off`.
pub proof fn lemma_first_nul_unique(b: Seq<u8>, off: int, j1: int, j2: int)
    requires
        first_nul_at(b, off, j1),
        first_nul_at(b, off, j2),
    ensures
        j1 == j2,
{
    if j1 < j2 {
        assert(b[j1] != 0);
    }
    if j2 < j1 {
        assert(b[j2] != 0);
    }
}

/// When the first null at or after `off` stands at `j`, the run at
/// `off` is exactly the bytes from `off` up to `j`.
pub proof fn lemma_nul_run(b: Seq<u8>, off: int, j: int)
    requires
        first_nul_at(b, off, j),
    ensures
        has_nul_from(b, off),
        nul_run(b, off) == b.subrange(off, j),
{
    let jc = choose|p: int| first_nul_at(b, off, p);
    lemma_first_nul_unique(b, off, j, jc);
}

/// Relies on `core::str::from_utf8`: conversion succeeds exactly on
/// valid UTF-8 input, and the resulting string views exactly the
/// input bytes.
#[verifier::external_body]
fn str_from_utf8(b: &[u8]) -> (r: Option<&str>)
    ensures
        r is Some <==> vstd::utf8::valid_utf8(b@),
        r is Some ==> r.unwrap().spec_bytes() == b@,
{
    core::str::from_utf8(b).ok()
}

} // verus!
