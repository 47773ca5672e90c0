use std::io::Write;

use nevc_mtr1_gui::firmware::archive::{
    entry_has_file_name, entry_is_dir, find_in_archive, read_archive, sanitize_entry_path,
};

fn build_zip(entries: &[(&str, Option<&[u8]>)]) -> Vec<u8> {
    let mut w = zip::ZipWriter::new(std::io::Cursor::new(Vec::new()));
    let opts = zip::write::SimpleFileOptions::default()
        .compression_method(zip::CompressionMethod::Deflated);
    for (name, data) in entries {
        match data {
            Some(d) => {
                w.start_file(name.to_string(), opts).unwrap();
                w.write_all(d).unwrap();
            }
            None => {
                w.add_directory(name.to_string(), opts).unwrap();
            }
        }
    }
    w.finish().unwrap().into_inner()
}

#[test]
fn entry_directories() {
    assert!(entry_is_dir("NEVC-MTR1-t01-main/"));
    assert!(entry_is_dir("a\\b\\"));
    assert!(!entry_is_dir("a/b.h"));
    assert!(!entry_is_dir(""));
}

#[test]
fn sanitized_paths_stay_inside() {
    assert_eq!(sanitize_entry_path("NEVC-MTR1-t01-main/src/config.h", '\\'), "NEVC-MTR1-t01-main\\src\\config.h");
    assert_eq!(sanitize_entry_path("../../etc/passwd", '/'), "etc/passwd");
    assert_eq!(sanitize_entry_path("/abs/./x//y", '/'), "abs/x/y");
    assert_eq!(sanitize_entry_path("dir/", '/'), "dir");
    assert_eq!(sanitize_entry_path("..", '/'), "");
}

#[test]
fn sanitized_paths_cut_at_both_separators() {
    assert_eq!(sanitize_entry_path("..\\evil", '\\'), "evil");
    assert_eq!(sanitize_entry_path("a\\..\\..\\b", '\\'), "a\\b");
    assert_eq!(sanitize_entry_path("a\\b/c", '/'), "a/b/c");
    assert_eq!(sanitize_entry_path("C:/Windows/x.dll", '\\'), "Windows\\x.dll");
    assert_eq!(sanitize_entry_path("../C:evil/x", '\\'), "x");
    assert_eq!(sanitize_entry_path("ab:c/y", '/'), "ab:c/y");
    assert_eq!(sanitize_entry_path("d/ab:c\\y", '\\'), "d\\ab:c\\y");
    assert_eq!(sanitize_entry_path("\\\\server\\share\\f", '\\'), "server\\share\\f");
}

#[test]
fn entry_file_names_after_drive_prefix() {
    assert!(entry_has_file_name("C:x", "x"));
    assert!(entry_has_file_name("C:\\dir\\arduino-cli.exe", "arduino-cli.exe"));
    assert!(entry_has_file_name("C:", ""));
    assert!(!entry_has_file_name("C:", "C:"));
    assert!(entry_has_file_name("1:x", "1:x"));
}

#[test]
fn entry_file_names() {
    assert!(entry_has_file_name("arduino-cli_1.1/arduino-cli.exe", "arduino-cli.exe"));
    assert!(entry_has_file_name("a\\b\\arduino-cli.exe", "arduino-cli.exe"));
    assert!(entry_has_file_name("arduino-cli.exe", "arduino-cli.exe"));
    assert!(entry_has_file_name("x/arduino-cli.exe/", "arduino-cli.exe"));
    assert!(!entry_has_file_name("x/arduino-cli.exe.bak", "arduino-cli.exe"));
    assert!(!entry_has_file_name("x/..", ".."));
    assert!(entry_has_file_name("x/..", ""));
    assert!(entry_has_file_name("", ""));
    assert!(!entry_has_file_name("a/b", ""));
}

#[test]
fn read_archive_places_every_entry() {
    let bytes = build_zip(&[
        ("root/", None),
        ("root/src/config.h", Some(b"#define X 1\n")),
        ("root/../evil.txt", Some(b"no")),
    ]);
    let (entries, stop) = read_archive(&bytes, '/').unwrap();
    assert!(stop.is_none());
    assert_eq!(entries.len(), 3);
    assert_eq!(entries[0].path, "root");
    assert!(entries[0].is_dir);
    assert_eq!(entries[1].path, "root/src/config.h");
    assert!(!entries[1].is_dir);
    assert_eq!(entries[1].data, b"#define X 1\n".to_vec());
    assert_eq!(entries[2].path, "root/evil.txt");
}

#[test]
fn read_archive_refuses_non_zip() {
    let err = match read_archive(b"this is not a zip archive", '/') {
        Err(e) => e,
        Ok(_) => panic!("accepted"),
    };
    assert!(err.starts_with("Could not open zip: "));
}

#[test]
fn find_in_archive_first_match() {
    let bytes = build_zip(&[
        ("cli/readme.txt", Some(b"hello")),
        ("cli/arduino-cli.exe", Some(b"MZ1")),
        ("other/arduino-cli.exe", Some(b"MZ2")),
    ]);
    assert_eq!(find_in_archive(&bytes, "arduino-cli.exe"), Ok(b"MZ1".to_vec()));
    assert_eq!(find_in_archive(&bytes, "readme.txt"), Ok(b"hello".to_vec()));
    assert_eq!(
        find_in_archive(&bytes, "missing.exe"),
        Err("'missing.exe' not found in zip archive".to_string())
    );
    let err = find_in_archive(b"", "arduino-cli.exe").unwrap_err();
    assert!(err.starts_with("Could not open zip: "));
}

fn zip_with_corrupt_middle() -> Vec<u8> {
    let mut w = zip::ZipWriter::new(std::io::Cursor::new(Vec::new()));
    let opts = zip::write::SimpleFileOptions::default()
        .compression_method(zip::CompressionMethod::Stored);
    for (name, data) in [("a.txt", b"AAAA".as_slice()), ("b.txt", b"BQBQBQBQ"), ("c.txt", b"CCCC")] {
        w.start_file(name, opts).unwrap();
        w.write_all(data).unwrap();
    }
    let mut bytes = w.finish().unwrap().into_inner();
    let at = bytes.windows(8).position(|x| x == b"BQBQBQBQ").unwrap();
    bytes[at + 3] = b'X';
    bytes
}

#[test]
fn read_archive_keeps_entries_before_an_unreadable_one() {
    let bytes = zip_with_corrupt_middle();
    let (entries, stop) = read_archive(&bytes, '/').unwrap();
    assert_eq!(entries.len(), 1);
    assert_eq!(entries[0].path, "a.txt");
    assert_eq!(entries[0].data, b"AAAA".to_vec());
    assert!(stop.is_some());
}

#[test]
fn find_in_archive_reads_only_names_before_the_match() {
    let bytes = zip_with_corrupt_middle();
    assert_eq!(find_in_archive(&bytes, "c.txt"), Ok(b"CCCC".to_vec()));
    assert!(find_in_archive(&bytes, "b.txt").is_err());
}
