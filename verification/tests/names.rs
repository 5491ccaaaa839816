//! Names of imported files, paths, numbers, identifiers and checksums.
use sst_importer::checksum::Digest;
use sst_importer::error::{Corruption, Error};
use sst_importer::identity::UuidError;
use sst_importer::import_file::{check_crc32, check_length};
use sst_importer::meta::{
    meta_from_fields, path_to_sst_meta, sst_meta_to_path, RegionEpoch, SSTMeta,
};
use sst_importer::path::FilePath;
use sst_importer::text::{decimal_string, parse_u64, split_fields, ParseIntError};
use std::path::Path;
use uuid::Uuid;

type Failure = Error<()>;

const BYTES: [u8; 16] = [
    0x00, 0x11, 0x22, 0x33, 0x44, 0x55, 0x66, 0x77, 0x88, 0x99, 0xaa, 0xbb, 0xcc, 0xdd, 0xee, 0xff,
];

const TEXT: &str = "00112233-4455-6677-8899-aabbccddeeff";

fn meta(region_id: u64, conf_ver: u64, version: u64) -> SSTMeta {
    let mut meta = SSTMeta::new();
    meta.uuid = BYTES.to_vec();
    meta.region_id = region_id;
    meta.region_epoch = RegionEpoch { conf_ver, version };
    meta
}

fn read(path: &str) -> Result<SSTMeta, Failure> {
    path_to_sst_meta(&FilePath::from_text(path))
}

fn read_name(stem: &str) -> Result<SSTMeta, Failure> {
    read(&format!("{}.sst", stem))
}

fn invalid(path: &str) -> Result<SSTMeta, Failure> {
    Err(Error::InvalidSSTPath(FilePath::from_text(path)))
}

#[test]
fn test_sst_meta_to_path() {
    let mut meta = SSTMeta::new();
    let uuid = Uuid::new_v4();
    meta.uuid = uuid.as_bytes().to_vec();
    meta.region_id = 1;
    meta.region_epoch.conf_ver = 2;
    meta.region_epoch.version = 3;

    let path: FilePath = sst_meta_to_path::<()>(&meta).unwrap();
    let expected_path = format!("{}_1_2_3.sst", uuid);
    assert_eq!(path.to_str().unwrap(), &expected_path);

    let new_meta = path_to_sst_meta::<()>(&path).unwrap();
    assert_eq!(meta, new_meta);
}

#[test]
fn a_name_has_the_identifier_and_three_numbers() {
    let path = sst_meta_to_path::<()>(&meta(7, 0, u64::MAX)).unwrap();
    assert_eq!(
        path.to_str(),
        Some("00112233-4455-6677-8899-aabbccddeeff_7_0_18446744073709551615.sst")
    );
}

#[test]
fn a_name_carries_only_the_identity() {
    let mut full = meta(1, 2, 3);
    full.crc32 = 77;
    full.length = 88;
    full.cf_name = "write".to_string();
    let path = sst_meta_to_path::<()>(&full).unwrap();
    assert_eq!(path_to_sst_meta::<()>(&path), Ok(meta(1, 2, 3)));
}

#[test]
fn names_of_different_files_differ() {
    let name = |m: &SSTMeta| sst_meta_to_path::<()>(m).unwrap();
    let first = meta(1, 2, 3);
    let mut other = first.clone();
    other.uuid[15] = 0xfe;
    assert_ne!(name(&first), name(&other));
    assert_ne!(name(&first), name(&meta(12, 2, 3)));
    assert_ne!(name(&first), name(&meta(1, 22, 3)));
    assert_ne!(name(&first), name(&meta(1, 2, 33)));
    assert_ne!(name(&meta(1, 23, 4)), name(&meta(12, 3, 4)));
}

#[test]
fn an_identifier_has_sixteen_bytes() {
    let mut short = meta(1, 2, 3);
    short.uuid.pop();
    assert_eq!(
        sst_meta_to_path::<()>(&short),
        Err(Error::Uuid(UuidError::InvalidLength(15)))
    );
    let mut long = meta(1, 2, 3);
    long.uuid.push(0);
    assert_eq!(
        sst_meta_to_path::<()>(&long),
        Err(Error::Uuid(UuidError::InvalidLength(17)))
    );
    assert_eq!(
        sst_meta_to_path::<()>(&SSTMeta::new()),
        Err(Error::Uuid(UuidError::InvalidLength(0)))
    );
}

#[test]
fn a_path_is_read_by_its_file_name() {
    let name = format!("{}_1_2_3.sst", TEXT);
    assert_eq!(read(&name), Ok(meta(1, 2, 3)));
    assert_eq!(read(&format!("/data/import/{}", name)), Ok(meta(1, 2, 3)));
    assert_eq!(read(&format!("a_b/{}", name)), Ok(meta(1, 2, 3)));
    assert_eq!(read(&format!("{}/", name)), Ok(meta(1, 2, 3)));
    assert_eq!(read(&format!("{}/.", name)), Ok(meta(1, 2, 3)));
    let up = format!("{}/..", name);
    assert_eq!(read(&up), invalid(&up));
}

#[test]
fn an_identifier_is_read_in_each_of_its_forms() {
    let expected = Ok(meta(1, 2, 3));
    assert_eq!(read_name(&format!("{}_1_2_3", TEXT)), expected);
    assert_eq!(read_name(&format!("{}_1_2_3", TEXT.to_uppercase())), expected);
    assert_eq!(read_name(&format!("{}_1_2_3", TEXT.replace('-', ""))), expected);
    assert_eq!(read_name(&format!("urn:uuid:{}_1_2_3", TEXT)), expected);
}

#[test]
fn a_wrong_identifier_is_refused() {
    let refused = |id: &str, e: UuidError| {
        assert_eq!(read_name(&format!("{}_1_2_3", id)), Err(Error::Uuid(e)));
    };
    refused("", UuidError::InvalidLength(0));
    refused("0011", UuidError::InvalidLength(4));
    refused(
        "g0112233-4455-6677-8899-aabbccddeeff",
        UuidError::InvalidCharacter('g', 0),
    );
    refused(
        "00112233-4455-6677-8899-aabbccddeef\u{e9}",
        UuidError::InvalidLength(37),
    );
    refused(
        "00112233-4455-6677-8899-aabbccddee\u{e9}",
        UuidError::InvalidCharacter('\u{e9}', 34),
    );
    refused(
        "0011223-34455-6677-8899-aabbccddeeff",
        UuidError::InvalidGroupLength(0, 7, 8),
    );
    refused(
        "00112233-4455-6677-8899aabbccddeeff0",
        UuidError::InvalidGroups(4),
    );
    refused(
        "00112233-445566778899aabbccddeef",
        UuidError::InvalidGroupLength(1, 11, 12),
    );
}

#[test]
fn a_number_is_read_as_the_standard_library_reads_it() {
    assert_eq!(read_name(&format!("{}_+1_02_003", TEXT)), Ok(meta(1, 2, 3)));
    assert_eq!(
        read_name(&format!("{}__2_3", TEXT)),
        Err(Error::ParseInt(ParseIntError::Empty))
    );
    assert_eq!(
        read_name(&format!("{}_1_-2_3", TEXT)),
        Err(Error::ParseInt(ParseIntError::InvalidDigit))
    );
    assert_eq!(
        read_name(&format!("{}_1_2_18446744073709551616", TEXT)),
        Err(Error::ParseInt(ParseIntError::PosOverflow))
    );
}

#[test]
fn the_first_wrong_field_decides_the_error() {
    assert_eq!(
        read_name("0011_x__"),
        Err(Error::Uuid(UuidError::InvalidLength(4)))
    );
    assert_eq!(
        read_name(&format!("{}_x__99999999999999999999", TEXT)),
        Err(Error::ParseInt(ParseIntError::InvalidDigit))
    );
    assert_eq!(
        read_name(&format!("{}_1__99999999999999999999", TEXT)),
        Err(Error::ParseInt(ParseIntError::Empty))
    );
}

#[test]
fn metadata_is_put_together_from_fields() {
    assert_eq!(
        meta_from_fields::<()>(Ok(BYTES.to_vec()), "1", "2", "3"),
        Ok(meta(1, 2, 3))
    );
    assert_eq!(
        meta_from_fields::<()>(Err(UuidError::InvalidGroups(3)), "", "", ""),
        Err(Error::Uuid(UuidError::InvalidGroups(3)))
    );
    assert_eq!(
        meta_from_fields::<()>(Ok(BYTES.to_vec()), "1", "2", "three"),
        Err(Error::ParseInt(ParseIntError::InvalidDigit))
    );
}

#[test]
fn a_name_has_the_suffix_once() {
    assert_eq!(
        read(&format!("{}_1_2_3.sst.sst", TEXT)),
        Err(Error::ParseInt(ParseIntError::InvalidDigit))
    );
    for path in ["", ".sst", ".sst.sst", "sst", "_1_2_3.ss", "1_2_3.sst", "a_1_2_3_4.sst"] {
        assert_eq!(read(path), invalid(path), "{}", path);
    }
    let bare = format!("{}_1_2_3", TEXT);
    assert_eq!(read(&bare), invalid(&bare));
    let tail = format!("{}_1_2_3.sst.tmp", TEXT);
    assert_eq!(read(&tail), invalid(&tail));
}

#[test]
fn a_path_without_a_name_that_is_text_is_refused() {
    for path in ["/", ".", "..", "a/..", "//"] {
        assert_eq!(read(path), invalid(path), "{}", path);
    }
    let mut bytes = format!("{}_1_2_3", TEXT).into_bytes();
    bytes.push(0xff);
    bytes.extend_from_slice(b".sst");
    let path = FilePath::new(bytes);
    assert_eq!(path.to_str(), None);
    assert_eq!(
        path_to_sst_meta::<()>(&path),
        Err(Error::InvalidSSTPath(path.clone()))
    );
    // Bytes that are no text may stand in a directory's name.
    let name = sst_meta_to_path::<()>(&meta(1, 2, 3)).unwrap();
    let path = FilePath::new(vec![0xff]).join(&name);
    assert_eq!(path_to_sst_meta::<()>(&path), Ok(meta(1, 2, 3)));
}

#[test]
fn file_names_are_those_of_the_standard_library() {
    for text in [
        "", ".", "..", "/", "//", "a", "/a", "a/", "a//", "a/b", "a/b/", "a/.", "a/./", "a/./.",
        "a/..", "a/../", "./", "./a", "/.", "/..", ".a", "..a", "a.", "...", "a/...", "a/b.c",
        "a/\u{e9}", ".temp", "/x/.clone/y_z.sst",
    ] {
        let ours = FilePath::from_text(text).file_name().map(|n| n.to_vec());
        let expected = Path::new(text)
            .file_name()
            .and_then(|n| n.to_str())
            .map(|n| n.as_bytes().to_vec());
        assert_eq!(ours, expected, "{:?}", text);
    }
}

#[test]
fn paths_are_joined_as_in_the_standard_library() {
    for dir in ["", "/", "a", "a/", "/a/b", "a//", "."] {
        for name in ["", "x", ".temp", "/x", "x/y", "..", "x/"] {
            let ours = FilePath::from_text(dir).join(&FilePath::from_text(name));
            let expected = Path::new(dir).join(name);
            assert_eq!(ours.to_str(), expected.to_str(), "{:?} {:?}", dir, name);
        }
    }
}

#[test]
fn a_joined_path_has_the_name_it_was_joined_with() {
    let name = sst_meta_to_path::<()>(&meta(1, 2, 3)).unwrap();
    for dir in ["", "/", "/data", "data/"] {
        let path = FilePath::from_text(dir).join(&name);
        assert_eq!(path.file_name(), Some(name.as_bytes()));
    }
}

#[test]
fn numbers_are_written_in_decimal_and_read_back() {
    for n in [0, 1, 9, 10, 99, 100, 1234567890, u64::MAX - 1, u64::MAX] {
        let text = decimal_string(n);
        assert_eq!(text, n.to_string());
        assert_eq!(parse_u64(&text), Ok(n));
    }
}

#[test]
fn texts_that_are_no_numbers_are_refused() {
    for (text, e) in [
        ("", ParseIntError::Empty),
        ("+", ParseIntError::InvalidDigit),
        ("-", ParseIntError::InvalidDigit),
        ("-1", ParseIntError::InvalidDigit),
        ("++1", ParseIntError::InvalidDigit),
        (" 1", ParseIntError::InvalidDigit),
        ("1a", ParseIntError::InvalidDigit),
        ("\u{661}", ParseIntError::InvalidDigit),
        ("18446744073709551616", ParseIntError::PosOverflow),
        ("184467440737095516150", ParseIntError::PosOverflow),
    ] {
        assert_eq!(parse_u64(text), Err(e), "{:?}", text);
        assert!(text.parse::<u64>().is_err(), "{:?}", text);
    }
    assert_eq!(parse_u64("+18446744073709551615"), Ok(u64::MAX));
    assert_eq!(parse_u64("000000000000000000000000000001"), Ok(1));
}

#[test]
fn texts_are_split_at_each_separator() {
    for text in ["", "_", "a", "a_", "_a", "a_b", "a__b", "\u{e9}_\u{1f600}_x"] {
        let expected: Vec<&str> = text.split('_').collect();
        assert_eq!(split_fields(text, '_'), expected, "{:?}", text);
    }
}

#[test]
fn a_digest_sums_up_all_that_was_written() {
    assert_eq!(Digest::new().sum32(), 0);
    assert_eq!(Digest::new().write(b"").sum32(), 0);
    assert_eq!(Digest::new().write(b"123456789").sum32(), 0xcbf4_3926);
    let pieces = Digest::new().write(b"12").write(b"").write(b"3456").write(b"789");
    assert_eq!(pieces.sum32(), 0xcbf4_3926);
    let data = b"test_data";
    assert_eq!(
        Digest::new().write(data).sum32(),
        crc::crc32::checksum_ieee(data)
    );
}

#[test]
fn a_corruption_is_told_in_words() {
    assert_eq!(Corruption::Crc32(0, 4294967295).reason(), "crc32 0, expect 4294967295");
    assert_eq!(
        Corruption::Length(18446744073709551615, 9).reason(),
        "length 18446744073709551615, expect 9"
    );
}

#[test]
fn checks_compare_what_was_found_with_what_was_announced() {
    let path = FilePath::from_text("temp");
    assert_eq!(check_crc32::<()>(&path, 5, 5), Ok(()));
    assert_eq!(
        check_crc32::<()>(&path, 5, 6),
        Err(Error::FileCorrupted(path.clone(), Corruption::Crc32(5, 6)))
    );
    assert_eq!(check_length::<()>(&path, 5, 5), Ok(()));
    assert_eq!(
        check_length::<()>(&path, 5, 6),
        Err(Error::FileCorrupted(path.clone(), Corruption::Length(5, 6)))
    );
}
