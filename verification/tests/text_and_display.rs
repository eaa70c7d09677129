use lss::display::{ColumnWidths, Logger, Spinner};
use lss::fileinfo::{FileInfo, FileMetadata, SizeFormat};
use lss::options::{parse_ignore_patterns, parse_size_format};
use lss::text::{str_eq, trim_end_matches_char, trim_str, u64_to_string};

fn meta(mode: u32) -> FileMetadata {
    FileMetadata { mode, nlink: 2, uid: 1000, gid: 100 }
}

#[test]
fn decimal_rendering_is_exact() {
    assert_eq!(u64_to_string(0), "0");
    assert_eq!(u64_to_string(7), "7");
    assert_eq!(u64_to_string(1234), "1234");
    assert_eq!(u64_to_string(u64::MAX), "18446744073709551615");
}

#[test]
fn str_eq_compares_characters() {
    assert!(str_eq("", ""));
    assert!(str_eq("abc", "abc"));
    assert!(str_eq("héllo", "héllo"));
    assert!(!str_eq("abc", "abd"));
    assert!(!str_eq("abc", "ab"));
}

#[test]
fn trimming_matches_rust() {
    assert_eq!(trim_str("  a b\t\n"), "a b");
    assert_eq!(trim_str(""), "");
    assert_eq!(trim_str("   "), "");
    assert_eq!(trim_str("x"), "x");
    assert_eq!(trim_str("\u{3000}wide\u{2028}"), "wide");
    assert_eq!(trim_str("  a b\t\n"), "  a b\t\n".trim());
}

#[test]
fn trailing_separators_are_stripped() {
    assert_eq!(trim_end_matches_char("abc//", '/'), "abc");
    assert_eq!(trim_end_matches_char("abc", '/'), "abc");
    assert_eq!(trim_end_matches_char("///", '/'), "");
    assert_eq!(trim_end_matches_char("a/b/", '/'), "a/b");
    assert_eq!(trim_end_matches_char("abc//", '/'), "abc//".trim_end_matches('/'));
}

#[test]
fn ignore_patterns_match_names_and_directories() {
    let pats = vec![String::from("node_modules"), String::from("build/"), String::from(" doc\\")];
    assert!(FileInfo::should_ignore(Some("node_modules"), false, &pats));
    assert!(FileInfo::should_ignore(Some("node_modules"), true, &pats));
    assert!(!FileInfo::should_ignore(Some("build"), false, &pats));
    assert!(FileInfo::should_ignore(Some("build"), true, &pats));
    assert!(FileInfo::should_ignore(Some("doc"), true, &pats));
    assert!(!FileInfo::should_ignore(Some("other"), true, &pats));
    assert!(!FileInfo::should_ignore(None, true, &pats));
}

#[test]
fn empty_and_whitespace_patterns_never_match() {
    let pats = vec![String::from(""), String::from("   ")];
    assert!(!FileInfo::should_ignore(Some(""), false, &pats));
    assert!(!FileInfo::should_ignore(Some("x"), true, &pats));
}

#[test]
fn patterns_are_trimmed_before_matching() {
    let pats = vec![String::from("  target  ")];
    assert!(FileInfo::should_ignore(Some("target"), false, &pats));
    assert!(!FileInfo::should_ignore(Some("  target  "), false, &pats));
}

#[test]
fn ignore_list_splits_on_commas() {
    let pats = parse_ignore_patterns(".config/, myfile, mydir/, dir3/innerfile");
    assert_eq!(pats, vec![".config/", "myfile", "mydir/", "dir3/innerfile"]);
}

#[test]
fn ignore_list_drops_empty_pieces() {
    assert_eq!(parse_ignore_patterns(""), Vec::<String>::new());
    assert_eq!(parse_ignore_patterns(" , ,"), Vec::<String>::new());
    assert_eq!(parse_ignore_patterns("a,,b"), vec!["a", "b"]);
}

#[test]
fn size_format_words_parse_case_insensitively() {
    assert!(matches!(parse_size_format("By"), Ok(SizeFormat::Bytes)));
    assert!(matches!(parse_size_format("BYTES"), Ok(SizeFormat::Bytes)));
    assert!(matches!(parse_size_format("bi"), Ok(SizeFormat::Binary)));
    assert!(matches!(parse_size_format("Binary"), Ok(SizeFormat::Binary)));
    assert!(matches!(parse_size_format("Kb"), Ok(SizeFormat::Decimal)));
    assert!(matches!(parse_size_format("tb"), Ok(SizeFormat::Decimal)));
    assert!(matches!(parse_size_format("decimal"), Ok(SizeFormat::Decimal)));
}

#[test]
fn unknown_size_format_reports_the_word() {
    match parse_size_format("zzz") {
        Err(m) => assert_eq!(m, "Unknown size format: zzz"),
        Ok(_) => panic!("parsed an unknown word"),
    }
}

#[test]
fn permissions_render_like_ls() {
    let dir = FileInfo::new(
        String::from("d"),
        String::from("/d"),
        0,
        1,
        true,
        false,
        false,
        meta(0o755),
    );
    assert_eq!(dir.format_permissions(), "drwxr-xr-x");
    let file = FileInfo::new(
        String::from("f"),
        String::from("/f"),
        0,
        2,
        false,
        false,
        true,
        meta(0o644),
    );
    assert_eq!(file.format_permissions(), "-rw-r--r--");
    let link = FileInfo::new(
        String::from("l"),
        String::from("/l"),
        0,
        3,
        false,
        true,
        false,
        meta(0o777),
    );
    assert_eq!(link.format_permissions(), "lrwxrwxrwx");
    let other = FileInfo::new(
        String::from("o"),
        String::from("/o"),
        0,
        4,
        false,
        false,
        false,
        meta(0),
    );
    assert_eq!(other.format_permissions(), "?---------");
}

#[test]
fn entry_kinds_follow_the_metadata_flags() {
    let dir =
        FileInfo::new(String::from("d"), String::from("/d"), 0, 1, true, true, true, meta(0));
    assert_eq!(dir.file_type, "directory");
    let link =
        FileInfo::new(String::from("l"), String::from("/l"), 0, 2, false, true, true, meta(0));
    assert_eq!(link.file_type, "symlink");
    let file =
        FileInfo::new(String::from("f"), String::from("/f"), 0, 3, false, false, true, meta(0));
    assert_eq!(file.file_type, "file");
    let other =
        FileInfo::new(String::from("o"), String::from("/o"), 0, 4, false, false, false, meta(0));
    assert_eq!(other.file_type, "other");
}

#[test]
fn display_fields_render_each_column() {
    let f = FileInfo::new(
        String::from("notes.txt"),
        String::from("/home/notes.txt"),
        4096,
        77,
        false,
        false,
        true,
        meta(0o640),
    );
    let (inode, perms, links, uid, gid, size, time, kind) =
        f.get_display_fields(String::from("4.1 KB"));
    assert_eq!(inode, "77");
    assert_eq!(perms, "-rw-r-----");
    assert_eq!(links, "2");
    assert_eq!(uid, "1000");
    assert_eq!(gid, "100");
    assert_eq!(size, "4.1 KB");
    assert_eq!(time, "1");
    assert_eq!(kind, "file");
}

#[test]
fn spinner_cycles_through_its_frames() {
    let mut spinner = Spinner::new();
    let first = spinner.next();
    assert_eq!(first, '⠋');
    for _ in 0..9 {
        spinner.next();
    }
    // back at the start after a full revolution
    assert_eq!(spinner.current, 0);
    assert_eq!(spinner.next(), '⠋');
}

#[test]
fn logger_keeps_its_verbosity() {
    assert!(Logger::new(true).verbose);
    assert!(!Logger::new(false).verbose);
}

#[test]
fn column_widths_start_at_their_defaults() {
    let w = ColumnWidths::new();
    assert_eq!(
        (w.inode, w.permissions, w.links, w.uid, w.gid, w.size, w.time, w.file_type, w.name),
        (8, 10, 4, 8, 8, 10, 12, 10, 20)
    );
}

#[test]
fn column_widths_grow_to_fit_and_pad() {
    let f = FileInfo::new(
        String::from("a-rather-long-file-name.tar.gz"),
        String::from("/x"),
        1,
        123456789,
        false,
        false,
        true,
        meta(0o644),
    );
    let mut w = ColumnWidths::new();
    w.calculate_from_files(&[f], &[String::from("123456789 bytes")]);
    // the nine-digit inode outgrows its default width of eight
    assert_eq!(w.inode, 9 + 2);
    // short fields keep the default width, plus two spaces of padding
    assert_eq!(w.permissions, 10 + 2);
    assert_eq!(w.links, 4 + 2);
    // long fields widen to their text, plus padding
    assert_eq!(w.size, "123456789 bytes".len() + 2);
    assert_eq!(w.name, "a-rather-long-file-name.tar.gz".len() + 2);
}

#[test]
fn stub_time_helpers_answer_constantly() {
    let f = FileInfo::new(String::from("f"), String::from("/f"), 0, 1, false, false, true, meta(0));
    let now = std::time::SystemTime::now();
    assert!(f.times_equal(&now));
    assert_eq!(f.system_time_to_secs(&now), 1);
    assert_eq!(f.format_time(), "1");
}
