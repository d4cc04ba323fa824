use rpf::archive::{has_invalid_offset, stored_exceeds_uncompressed};
use rpf::entry::{decode_slot, parse_entries};
use rpf::header::{COMPACT_TABLE_START, RPF7_MAGIC, STANDARD_TABLE_START};
use rpf::names::{decode_name, read_name};
use rpf::tree::{build_directory_structure, populate_directory};
use rpf::{
    count_directories, count_entries, matches_pattern, resolve_table_start, stored_span, RpfArchive,
    RpfEntry, RpfError, RpfFileEntry, RpfHeader,
};
use std::io::Write;

fn le32(v: u32) -> [u8; 4] {
    v.to_le_bytes()
}

fn dir_slot(name_offset: u32, index: u32, count: u32) -> Vec<u8> {
    let mut s = Vec::new();
    s.extend_from_slice(&le32(name_offset));
    s.extend_from_slice(&le32(0x7FFFFF00));
    s.extend_from_slice(&le32(index));
    s.extend_from_slice(&le32(count));
    s
}

fn binary_slot(name_offset: u16, size: u32, sector: u32, uncompressed: u32) -> Vec<u8> {
    let packed: u64 = (name_offset as u64) | ((size as u64) << 16) | ((sector as u64) << 40);
    let mut s = Vec::new();
    s.extend_from_slice(&packed.to_le_bytes());
    s.extend_from_slice(&le32(uncompressed));
    s.extend_from_slice(&le32(0));
    s
}

fn resource_slot(name_offset: u16, size: u32, sector: u32) -> Vec<u8> {
    let mut s = Vec::new();
    s.extend_from_slice(&name_offset.to_le_bytes());
    s.extend_from_slice(&size.to_le_bytes()[..3]);
    s.extend_from_slice(&(sector | 0x80_0000).to_le_bytes()[..3]);
    s.extend_from_slice(&le32(0x9000_0000));
    s.extend_from_slice(&le32(0x8000_0000));
    s
}

fn header(count: u32, names_len: u32) -> RpfHeader {
    RpfHeader { version: RPF7_MAGIC, entry_count: count, names_length: names_len, encryption: 0 }
}

fn archive_of(slots: &[Vec<u8>], names: &[u8]) -> Result<RpfArchive, RpfError> {
    let table: Vec<u8> = slots.concat();
    RpfArchive::from_tables(
        "test.rpf".to_string(),
        header(slots.len() as u32, names.len() as u32),
        &table,
        names,
    )
}

/// root/ { a.txt, sub/ { b.bin, deeper/ { c.xml } }, d.dat }
fn nested() -> RpfArchive {
    let names = b"\0a.txt\0sub\0b.bin\0deeper\0c.xml\0d.dat\0";
    let slots = vec![
        dir_slot(0, 1, 3),
        binary_slot(1, 0, 1, 10),
        dir_slot(7, 4, 2),
        binary_slot(30, 0, 2, 20),
        binary_slot(11, 0, 3, 30),
        dir_slot(17, 6, 1),
        binary_slot(24, 0, 4, 40),
    ];
    archive_of(&slots, names).unwrap()
}

fn zlib(data: &[u8]) -> Vec<u8> {
    let mut e = flate2::write::ZlibEncoder::new(Vec::new(), flate2::Compression::default());
    e.write_all(data).unwrap();
    e.finish().unwrap()
}

fn raw_deflate(data: &[u8]) -> Vec<u8> {
    let mut e = flate2::write::DeflateEncoder::new(Vec::new(), flate2::Compression::default());
    e.write_all(data).unwrap();
    e.finish().unwrap()
}

fn file(size: u32, uncompressed: u32) -> RpfFileEntry {
    RpfFileEntry {
        name: "f".to_string(),
        path: "f".to_string(),
        offset: 4,
        size,
        uncompressed_size: uncompressed,
        is_resource: false,
    }
}

fn paths(files: &[&RpfFileEntry]) -> Vec<String> {
    files.iter().map(|f| f.path.clone()).collect()
}

#[test]
fn header_parses_four_words() {
    let mut b = Vec::new();
    b.extend_from_slice(&le32(RPF7_MAGIC));
    b.extend_from_slice(&le32(3));
    b.extend_from_slice(&le32(40));
    b.extend_from_slice(&le32(0x4E45504F));
    let h = RpfHeader::parse(&b).unwrap();
    assert_eq!(h, RpfHeader { version: RPF7_MAGIC, entry_count: 3, names_length: 40, encryption: 0x4E45504F });
    assert!(h.is_unencrypted());
    assert_eq!(h.encryption_name(), "OPEN (No encryption)");
    assert_eq!(&b[..4], b"7FPR");
}

#[test]
fn header_rejects_bad_magic() {
    let b = [b'R', b'P', b'F', b'8', 0, 0, 0, 0, 0, 0, 0, 0, 0, 0, 0, 0];
    assert_eq!(RpfHeader::parse(&b), Err(RpfError::BadMagic(0x38465052)));
    assert!(RpfError::BadMagic(0).is_format_error());
    assert!(!RpfError::EmptyFile.is_format_error());
}

#[test]
fn header_needs_sixteen_bytes() {
    assert_eq!(RpfHeader::parse(&[1, 2]), Err(RpfError::ShortInput));
    let mut b = le32(RPF7_MAGIC).to_vec();
    b.extend_from_slice(&[0; 8]);
    assert_eq!(RpfHeader::parse(&b), Err(RpfError::ShortInput));
}

#[test]
fn encryption_markers() {
    let mut h = header(1, 0);
    assert_eq!(h.encryption_name(), "NONE");
    assert!(h.is_unencrypted());
    h.encryption = 0x0FFFFFF9;
    assert_eq!(h.encryption_name(), "AES");
    assert!(!h.is_unencrypted());
    h.encryption = 0x0FEFFFFF;
    assert_eq!(h.encryption_name(), "NG");
    h.encryption = 7;
    assert_eq!(h.encryption_name(), "Unknown");
}

#[test]
fn table_start_probe_outcomes() {
    let small = header(5, 0);
    assert!(small.needs_table_probe());
    assert_eq!(resolve_table_start(&small, &[0u8; 16]), COMPACT_TABLE_START);
    let mut probe = [0u8; 16];
    probe[15] = 1;
    assert_eq!(resolve_table_start(&small, &probe), STANDARD_TABLE_START);
    let large = header(100, 0);
    assert!(!large.needs_table_probe());
    assert_eq!(resolve_table_start(&large, &[0u8; 16]), STANDARD_TABLE_START);
    assert_eq!(large.entry_table_len(), 1600);
}

#[test]
fn root_directory_only_archive() {
    let a = archive_of(&[dir_slot(0, 0, 0)], b"root\0\0\0\0").unwrap();
    assert!(a.list_files().is_empty());
    assert_eq!(a.root.name, "root");
    assert_eq!(a.root.path, "");
    assert_eq!(count_directories(&a.root), 1);
}

#[test]
fn binary_slot_extracts_compressed_data() {
    let names = b"data.bin\0";
    let a = archive_of(&[dir_slot(0x00FF_FFFF, 1, 1), binary_slot(0, 100, 4, 200)], names).unwrap();
    let files = a.list_files();
    assert_eq!(files.len(), 1);
    let f = files[0];
    assert_eq!((f.offset, f.size, f.uncompressed_size, f.is_resource), (4, 100, 200, false));
    assert_eq!(f.name, "data.bin");
    assert_eq!(stored_span(f), Ok((2048, 100)));
    let content: Vec<u8> = (0..200u32).map(|i| (i % 7) as u8 + b'a').collect();
    let mut stored = zlib(&content);
    assert!(stored.len() <= 100);
    stored.resize(100, 0);
    let out = a.extract_file(f, &stored).unwrap();
    assert_eq!(out.len(), 200);
    assert_eq!(out, content);
}

#[test]
fn raw_deflate_is_second_choice() {
    let content = b"hello hello hello hello hello hello hello hello".to_vec();
    let stored = raw_deflate(&content);
    let f = file(stored.len() as u32, content.len() as u32);
    let a = nested();
    assert_eq!(a.extract_file(&f, &stored).unwrap(), content);
}

#[test]
fn undecodable_compressed_data_is_returned_raw() {
    let stored = vec![0xFFu8; 10];
    let f = file(10, 50);
    assert_eq!(nested().extract_file(&f, &stored).unwrap(), stored);
}

#[test]
fn uncompressed_data_is_returned_as_stored() {
    let a = nested();
    let f = file(0, 5);
    assert_eq!(a.extract_file(&f, b"abcdefgh").unwrap(), b"abcde".to_vec());
    let g = file(6, 6);
    assert_eq!(a.extract_file(&g, b"abcdefgh").unwrap(), b"abcdef".to_vec());
}

#[test]
fn empty_entry_is_an_error() {
    let f = file(0, 0);
    assert_eq!(stored_span(&f), Err(RpfError::EmptyFile));
    assert_eq!(nested().extract_file(&f, &[]), Err(RpfError::EmptyFile));
    assert_eq!(nested().extract_file(&f, &[1, 2, 3]), Err(RpfError::EmptyFile));
}

#[test]
fn short_data_is_a_truncated_read() {
    let f = file(0, 10);
    assert_eq!(nested().extract_file(&f, &[1, 2, 3]), Err(RpfError::TruncatedRead));
}

#[test]
fn extraction_twice_is_identical() {
    let content: Vec<u8> = (0..300u32).map(|i| (i % 13) as u8).collect();
    let stored = zlib(&content);
    let f = file(stored.len() as u32, 300);
    let a = nested();
    let first = a.extract_file(&f, &stored).unwrap();
    let second = a.extract_file(&f, &stored).unwrap();
    assert_eq!(first, second);
    assert_eq!(first, content);
}

#[test]
fn names_decode_utf8_and_latin1() {
    assert_eq!(decode_name("Grüße/ü.xml".as_bytes()), "Grüße/ü.xml");
    assert_eq!(decode_name(&[0x63, 0x61, 0x66, 0xE9]), "caf\u{e9}");
    assert_eq!(decode_name(&[0xFF, 0x41]), "\u{ff}A");
    assert_eq!(decode_name(&[]), "");
}

#[test]
fn read_name_stops_at_nul() {
    let names = b"alpha\0beta\0gam";
    assert_eq!(read_name(names, 0), Some("alpha".to_string()));
    assert_eq!(read_name(names, 6), Some("beta".to_string()));
    assert_eq!(read_name(names, 11), Some("gam".to_string()));
    assert_eq!(read_name(names, 5), Some(String::new()));
    assert_eq!(read_name(names, 14), None);
}

#[test]
fn placeholder_names() {
    let names = b"x\0";
    let d = decode_slot(&dir_slot(0x0012_3456, 0, 0), names, 0);
    match d {
        RpfEntry::Directory(d) => assert_eq!(d.name, "hash_00123456"),
        RpfEntry::File(_) => panic!("expected a directory"),
    }
    let mut table = vec![0u8; 16 * 12];
    table.extend_from_slice(&binary_slot(9, 1, 1, 1));
    match decode_slot(&table, names, 12) {
        RpfEntry::File(f) => assert_eq!(f.name, "binary_entry_12"),
        RpfEntry::Directory(_) => panic!("expected a file"),
    }
    match decode_slot(&resource_slot(9, 1, 1), names, 0) {
        RpfEntry::File(f) => assert_eq!(f.name, "resource_entry_0"),
        RpfEntry::Directory(_) => panic!("expected a file"),
    }
    let big = decode_slot(&dir_slot(0xAB0F_4241, 0, 0), &vec![b'n'; 2_000_000], 0);
    match big {
        RpfEntry::Directory(d) => assert_eq!(d.name, "hash_ab0f4241"),
        RpfEntry::File(_) => panic!("expected a directory"),
    }
}

#[test]
fn resource_slot_fields() {
    let names = b"model.ydr\0";
    match decode_slot(&resource_slot(0, 0x012345, 0xFF_FFFF), names, 0) {
        RpfEntry::File(f) => {
            assert_eq!(f.name, "model.ydr");
            assert_eq!(f.size, 0x012345);
            assert_eq!(f.offset, 0x7F_FFFF);
            assert_eq!(f.uncompressed_size, 0);
            assert!(f.is_resource);
        }
        RpfEntry::Directory(_) => panic!("expected a file"),
    }
}

#[test]
fn parse_entries_needs_whole_table() {
    let table = dir_slot(0, 0, 0);
    assert!(matches!(parse_entries(&table, b"r\0", 2), Err(RpfError::ShortInput)));
    assert_eq!(parse_entries(&table, b"r\0", 1).unwrap().len(), 1);
    assert!(matches!(
        RpfArchive::from_tables("x".to_string(), header(2, 2), &table, b"r\0"),
        Err(RpfError::ShortInput)
    ));
}

#[test]
fn nested_tree_paths_and_order() {
    let a = nested();
    assert_eq!(paths(&a.list_files()), vec!["a.txt", "d.dat", "sub/b.bin", "sub/deeper/c.xml"]);
    assert_eq!(a.root.directories.len(), 1);
    assert_eq!(a.root.directories[0].path, "sub");
    assert_eq!(a.root.directories[0].directories[0].path, "sub/deeper");
    assert_eq!(count_directories(&a.root), 3);
    assert_eq!(count_entries(&a), (4, 3));
    for f in a.list_files() {
        assert!(!f.path.is_empty());
        assert!(!f.path.starts_with('/'));
        assert!(f.path.ends_with(&f.name));
    }
}

#[test]
fn listing_counts_match_records() {
    let a = nested();
    let (files, dirs) = count_entries(&a);
    assert_eq!(a.list_files().len(), files);
    assert_eq!(count_directories(&a.root), dirs);
}

#[test]
fn find_file_by_path_name_and_backslash() {
    let a = nested();
    assert_eq!(a.find_file("sub/deeper/c.xml").unwrap().offset, 4);
    assert_eq!(a.find_file("sub\\deeper\\c.xml").unwrap().offset, 4);
    assert_eq!(a.find_file("b.bin").unwrap().path, "sub/b.bin");
    assert!(a.find_file("missing.txt").is_none());
    assert!(a.find_file("sub").is_none());
}

#[test]
fn synthetic_root_takes_every_file() {
    let names = b"one\0two\0dir\0";
    let slots = vec![binary_slot(0, 0, 1, 1), dir_slot(8, 0, 0), binary_slot(4, 0, 2, 2)];
    let a = archive_of(&slots, names).unwrap();
    assert_eq!(a.root.name, "");
    assert_eq!(a.root.entries_count, 3);
    assert!(a.root.directories.is_empty());
    assert_eq!(paths(&a.list_files()), vec!["one", "two"]);
}

#[test]
fn tree_errors() {
    let out_of_range = archive_of(&[dir_slot(0, 1, 5), binary_slot(0, 0, 1, 1)], b"r\0");
    assert!(matches!(out_of_range, Err(RpfError::EntryRangeOutOfBounds)));
    let cycle = archive_of(&[dir_slot(0, 1, 1), dir_slot(0, 1, 1)], b"r\0");
    assert!(matches!(cycle, Err(RpfError::DirectoryCycle)));
}

#[test]
fn pattern_wildcards() {
    let p = "common/data/handling.xml";
    assert!(matches_pattern(p, "*.xml"));
    assert!(!matches_pattern(p, "data/*"));
    assert!(matches_pattern(p, "common/*"));
    assert!(matches_pattern(p, "common/*.xml"));
    assert!(!matches_pattern(p, "common/*.meta"));
    assert!(matches_pattern(p, "handling.xml"));
    assert!(matches_pattern(p, p));
    assert!(!matches_pattern(p, "handling.meta"));
    assert!(matches_pattern(p, "*"));
    assert!(matches_pattern(p, "*data*"));
    assert!(matches_pattern(p, "da*ta/h*and"));
    assert!(!matches_pattern(p, "*xml*meta*"));
    assert!(matches_pattern("aba", "ab*ba"));
}

#[test]
fn files_matching_filters_in_order() {
    let a = nested();
    assert_eq!(paths(&a.files_matching("*.xml")), vec!["sub/deeper/c.xml"]);
    assert_eq!(paths(&a.files_matching("sub/*")), vec!["sub/b.bin", "sub/deeper/c.xml"]);
    assert!(a.files_matching("nothing").is_empty());
}

#[test]
fn entry_checks() {
    let mut f = file(10, 5);
    assert!(stored_exceeds_uncompressed(&f));
    assert!(!has_invalid_offset(&f));
    f.offset = 0;
    assert!(has_invalid_offset(&f));
    f.size = 0;
    assert!(!has_invalid_offset(&f));
    assert!(!stored_exceeds_uncompressed(&f));
}

#[test]
fn zero_entries_open_as_empty_archive() {
    let a = archive_of(&[], b"").unwrap();
    assert!(a.entries.is_empty());
    assert!(a.list_files().is_empty());
    assert_eq!(a.root.name, "");
    assert_eq!(a.root.path, "");
    assert_eq!((a.root.entries_index, a.root.entries_count), (0, 0));
    assert!(a.root.directories.is_empty());
    assert!(a.find_file("x").is_none());
    let root = build_directory_structure(&[]).unwrap();
    assert!(root.files.is_empty());
}

#[test]
fn find_file_searches_subdirectories_first() {
    // root/ { x.bin (sector 1), sub/ { x.bin (sector 2) } }
    let names = b"\0x.bin\0sub\0";
    let slots = vec![dir_slot(0, 1, 2), binary_slot(1, 0, 1, 1), dir_slot(7, 3, 1), binary_slot(1, 0, 2, 2)];
    let a = archive_of(&slots, names).unwrap();
    assert_eq!(a.find_file("x.bin").unwrap().offset, 2);
    assert_eq!(a.find_file("x.bin").unwrap().path, "sub/x.bin");
    assert_eq!(a.find_file("sub/x.bin").unwrap().offset, 2);
    assert_eq!(paths(&a.list_files()), vec!["x.bin", "sub/x.bin"]);
}

#[test]
fn populate_appends_after_existing_children() {
    let names = b"r\0new.txt\0";
    let entries = parse_entries(&[dir_slot(0, 1, 1), binary_slot(2, 0, 1, 3)].concat(), names, 2).unwrap();
    let mut dir = match parse_entries(&dir_slot(0, 1, 1), names, 1).unwrap().pop().unwrap() {
        RpfEntry::Directory(d) => d,
        RpfEntry::File(_) => panic!("expected a directory"),
    };
    dir.files.push(file(1, 1));
    assert!(populate_directory(&mut dir, &entries, 2).is_ok());
    assert_eq!(dir.files.len(), 2);
    assert_eq!(dir.files[0].name, "f");
    assert_eq!(dir.files[1].path, "new.txt");
}

#[test]
fn invalid_utf8_name_reads_as_latin1() {
    let names = [b'a', 0xE9, 0xFF, 0, b'z'];
    assert_eq!(read_name(&names, 0), Some("a\u{e9}\u{ff}".to_string()));
    let s = read_name(&names, 1).unwrap();
    assert_eq!(s.chars().map(|c| c as u32).collect::<Vec<_>>(), vec![0xE9, 0xFF]);
}
