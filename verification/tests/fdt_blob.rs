use fdt::Fdt;
use fdt::FdtError;

const ADDR: usize = 0x4000_0000;

fn push_be32(v: &mut Vec<u8>, x: u32) {
    v.extend_from_slice(&x.to_be_bytes());
}

fn push_be64(v: &mut Vec<u8>, x: u64) {
    v.extend_from_slice(&x.to_be_bytes());
}

fn push_header(
    v: &mut Vec<u8>,
    magic: u32,
    totalsize: u32,
    off_dt_struct: u32,
    off_dt_strings: u32,
    off_mem_rsvmap: u32,
    size_dt_strings: u32,
    size_dt_struct: u32,
) {
    push_be32(v, magic);
    push_be32(v, totalsize);
    push_be32(v, off_dt_struct);
    push_be32(v, off_dt_strings);
    push_be32(v, off_mem_rsvmap);
    push_be32(v, 17);
    push_be32(v, 16);
    push_be32(v, 0);
    push_be32(v, size_dt_strings);
    push_be32(v, size_dt_struct);
}

/// A consistent blob: 40-byte header, then at offset 40 a reservation
/// table of four real entries and the all-zero sentinel, then an
/// 8-byte structure block at 120 and the strings block at 128.
fn good_blob(strings: &[u8]) -> Vec<u8> {
    let mut v = Vec::new();
    let size_strings = strings.len() as u32;
    push_header(&mut v, 0xd00dfeed, 128 + size_strings, 120, 128, 40, size_strings, 8);
    push_be64(&mut v, 0x100);
    push_be64(&mut v, 0x600);
    push_be64(&mut v, 0x200);
    push_be64(&mut v, 0x700);
    push_be64(&mut v, 0x300);
    push_be64(&mut v, 0x800);
    push_be64(&mut v, 0x400);
    push_be64(&mut v, 0x900);
    push_be64(&mut v, 0);
    push_be64(&mut v, 0);
    push_be32(&mut v, 9);
    push_be32(&mut v, 0);
    v.extend_from_slice(strings);
    v
}

#[test]
fn header_fields_round_trip() {
    let blob = good_blob(b"foo\0bar\0");
    let fdt = Fdt::new(ADDR, &blob).unwrap();
    assert_eq!(fdt.header.magic, 0xd00dfeed);
    assert_eq!(fdt.header.totalsize, 136);
    assert_eq!(fdt.header.off_dt_struct, 120);
    assert_eq!(fdt.header.off_dt_strings, 128);
    assert_eq!(fdt.header.off_mem_rsvmap, 40);
    assert_eq!(fdt.header.version, 17);
    assert_eq!(fdt.header.last_comp_version, 16);
    assert_eq!(fdt.header.boot_cpuid_phys, 0);
    assert_eq!(fdt.header.size_dt_strings, 8);
    assert_eq!(fdt.header.size_dt_struct, 8);
    // One explicit re-encode to big-endian reproduces the wire bytes.
    assert_eq!(&fdt.header.magic.to_be_bytes(), &blob[0..4]);
    assert_eq!(&fdt.header.totalsize.to_be_bytes(), &blob[4..8]);
    assert_eq!(&fdt.header.off_dt_struct.to_be_bytes(), &blob[8..12]);
    assert_eq!(&fdt.header.off_dt_strings.to_be_bytes(), &blob[12..16]);
    assert_eq!(&fdt.header.off_mem_rsvmap.to_be_bytes(), &blob[16..20]);
    assert_eq!(&fdt.header.size_dt_strings.to_be_bytes(), &blob[32..36]);
    assert_eq!(&fdt.header.size_dt_struct.to_be_bytes(), &blob[36..40]);
}

#[test]
fn magic_is_validated() {
    let mut blob = good_blob(b"foo\0bar\0");
    blob[0] = 0xd0;
    blob[1] = 0x0d;
    blob[2] = 0xfe;
    blob[3] = 0xee;
    assert!(matches!(Fdt::new(ADDR, &blob), Err(FdtError::InvalidMagic)));
    blob[0] = 0;
    blob[1] = 0;
    blob[2] = 0;
    blob[3] = 0;
    assert!(matches!(Fdt::new(ADDR, &blob), Err(FdtError::InvalidMagic)));
}

#[test]
fn null_address_is_invalid_pointer() {
    let blob = good_blob(b"foo\0bar\0");
    assert!(matches!(Fdt::new(0, &blob), Err(FdtError::InvalidPointer)));
    // The address check comes before any look at the blob.
    assert!(matches!(Fdt::new(0, &[]), Err(FdtError::InvalidPointer)));
    assert!(matches!(Fdt::new(0, &blob[0..3]), Err(FdtError::InvalidPointer)));
}

#[test]
fn short_window_is_not_found() {
    let blob = good_blob(b"foo\0bar\0");
    assert!(matches!(Fdt::new(ADDR, &blob[0..39]), Err(FdtError::NotFound)));
    assert!(matches!(Fdt::new(ADDR, &[]), Err(FdtError::NotFound)));
}

#[test]
fn declared_regions_are_bounds_checked() {
    // Window shorter than the declared total size.
    let blob = good_blob(b"foo\0bar\0");
    assert!(matches!(Fdt::new(ADDR, &blob[0..100]), Err(FdtError::OutOfBounds)));

    // Structure block reaching past the declared total size.
    let mut v = Vec::new();
    push_header(&mut v, 0xd00dfeed, 64, 40, 60, 40, 4, 100);
    v.resize(64, 0);
    assert!(matches!(Fdt::new(ADDR, &v), Err(FdtError::OutOfBounds)));

    // Strings block reaching past the declared total size.
    let mut v = Vec::new();
    push_header(&mut v, 0xd00dfeed, 64, 40, 60, 40, 100, 4);
    v.resize(64, 0);
    assert!(matches!(Fdt::new(ADDR, &v), Err(FdtError::OutOfBounds)));

    // Reservation table starting after the structure block.
    let mut v = Vec::new();
    push_header(&mut v, 0xd00dfeed, 64, 40, 60, 48, 4, 4);
    v.resize(64, 0);
    assert!(matches!(Fdt::new(ADDR, &v), Err(FdtError::OutOfBounds)));
}

#[test]
fn four_reserved_regions_before_sentinel() {
    let blob = good_blob(b"foo\0bar\0");
    let fdt = Fdt::new(ADDR, &blob).unwrap();
    let regions = fdt.get_reserved_memory_regions();
    assert_eq!(regions, vec![(0x100, 0x600), (0x200, 0x700), (0x300, 0x800), (0x400, 0x900)]);
}

#[test]
fn sentinel_at_index_zero_gives_empty_table() {
    let mut v = Vec::new();
    push_header(&mut v, 0xd00dfeed, 64, 56, 60, 40, 4, 4);
    push_be64(&mut v, 0);
    push_be64(&mut v, 0);
    v.resize(64, 0);
    let fdt = Fdt::new(ADDR, &v).unwrap();
    assert_eq!(fdt.get_reserved_memory_regions(), vec![]);
}

#[test]
fn missing_sentinel_returns_bound_limited_table() {
    let mut v = Vec::new();
    push_header(&mut v, 0xd00dfeed, 72, 72, 72, 40, 0, 0);
    push_be64(&mut v, 0xa);
    push_be64(&mut v, 0xb);
    push_be64(&mut v, 0xc);
    push_be64(&mut v, 0xd);
    let fdt = Fdt::new(ADDR, &v).unwrap();
    assert_eq!(fdt.get_reserved_memory_regions(), vec![(0xa, 0xb), (0xc, 0xd)]);
}

#[test]
fn strings_lookup() {
    let blob = good_blob(b"foo\0bar\0");
    let fdt = Fdt::new(ADDR, &blob).unwrap();
    assert_eq!(fdt.get_string(0), Ok("foo"));
    assert_eq!(fdt.get_string(1), Ok("oo"));
    assert_eq!(fdt.get_string(3), Ok(""));
    assert_eq!(fdt.get_string(4), Ok("bar"));
    assert_eq!(fdt.get_string(8), Err(FdtError::NotFound));
    assert_eq!(fdt.get_string(9), Err(FdtError::NotFound));
    assert_eq!(fdt.get_string(usize::MAX), Err(FdtError::NotFound));
}

#[test]
fn string_without_terminator_is_malformed() {
    let blob = good_blob(b"foo\0barX");
    let fdt = Fdt::new(ADDR, &blob).unwrap();
    assert_eq!(fdt.get_string(0), Ok("foo"));
    assert_eq!(fdt.get_string(4), Err(FdtError::MalformedString));
    assert_eq!(fdt.get_string(7), Err(FdtError::MalformedString));
}

#[test]
fn string_bytes_that_are_not_utf8() {
    let blob = good_blob(b"fo\xff\0bar\0");
    let fdt = Fdt::new(ADDR, &blob).unwrap();
    assert_eq!(fdt.get_string(0), Err(FdtError::InvalidUtf8));
    assert_eq!(fdt.get_string(4), Ok("bar"));
    let bytes = fdt.get_string_bytes(0).unwrap();
    assert_eq!(bytes, b"fo\xff");
}

#[test]
fn block_views_and_strings_iterator() {
    let strings = b"foo\0bar\0";
    let blob = good_blob(strings);
    let fdt = Fdt::new(ADDR, &blob).unwrap();
    assert_eq!(fdt.st(), strings);
    assert_eq!(fdt.dt_strings, strings);
    assert_eq!(fdt.dt_struct, &blob[120..128]);
    assert_eq!(fdt.dt_struct.len(), 8);
}

#[test]
fn end_to_end_scenario() {
    // Header fields pointing at a five-entry reservation table (four
    // real entries plus the sentinel), an 8-byte structure block and
    // a strings block holding "foo\0bar\0".
    let blob = good_blob(b"foo\0bar\0");
    let fdt = Fdt::new(ADDR, &blob).unwrap();
    assert_eq!(fdt.get_reserved_memory_regions().len(), 4);
    assert_eq!(fdt.get_string(0), Ok("foo"));
    assert_eq!(fdt.get_string(4), Ok("bar"));
    assert!(fdt.get_string(9).is_err());
    assert_eq!(fdt.get_string(9), Err(FdtError::NotFound));
}
