//! One scanned filesystem entry and its metadata bundle.

use crate::text::{
    ascii_to_string, spec_dec_chars, spec_trim, spec_trim_end_matches, str_eq,
    trim_end_matches_char, trim_str, u64_to_string,
};
use vstd::prelude::*;
use vstd::string::StrSliceExecFns;

verus! {

#[verifier::external_type_specification]
#[verifier::external_body]
pub struct ExSystemTime(std::time::SystemTime);

/// Whether one trimmed ignore pattern rejects a path whose final name
/// component is `file_name` (absent for paths without one).  A pattern
/// ending in a path separator only matches directories, by the name left
/// after the separators are stripped; any other pattern matches the name
/// exactly.
pub open spec fn spec_pattern_matches(
    file_name: Option<Seq<char>>,
    is_dir: bool,
    pattern: Seq<char>,
) -> bool {
    let q = spec_trim(pattern);
    if q.len() == 0 {
        false
    } else if q.last() == '/' || q.last() == '\\' {
        let d = spec_trim_end_matches(spec_trim_end_matches(q, '/'), '\\');
        is_dir && (file_name matches Some(f) && f == d)
    } else {
        file_name matches Some(f) && f == q
    }
}

/// Whether any of the ignore patterns rejects the path.
pub open spec fn spec_should_ignore(
    file_name: Option<Seq<char>>,
    is_dir: bool,
    patterns: Seq<Seq<char>>,
) -> bool {
    exists|k: int|
        0 <= k < patterns.len() && spec_pattern_matches(file_name, is_dir, #[trigger] patterns[k])
}

/// How sizes are rendered in the final listing.
#[derive(Debug, Clone)]
pub enum SizeFormat {
    Bytes,
    Binary,
    Decimal,
}

/// Permission bits, link count and owner identifiers of one entry.
#[derive(Debug, Clone, Copy, PartialEq, Eq, Structural)]
pub struct FileMetadata {
    pub mode: u32,
    pub nlink: u64,
    pub uid: u32,
    pub gid: u32,
}

/// One scanned directory entry.  `size` is authoritative for files; for
/// directories it holds the traversal's resolved total once that has been
/// computed.  All other fields are set once at discovery.
#[derive(Debug)]
pub struct FileInfo {
    pub inode: u64,
    pub size: u64,
    pub name: String,
    pub file_type: String,
    pub metadata: FileMetadata,
    pub is_directory: bool,
    pub full_path: String,
}

/// The kind label stored in `FileInfo::file_type`, derived from the entry's
/// metadata flags: directory wins, then symlink, then regular file.
pub open spec fn spec_file_type(is_directory: bool, is_symlink: bool, is_file: bool) -> Seq<char> {
    if is_directory {
        "directory"@
    } else if is_symlink {
        "symlink"@
    } else if is_file {
        "file"@
    } else {
        "other"@
    }
}

/// The ten ASCII bytes of the permission column: a kind character followed by
/// the nine `rwx` bits of `mode`.
pub open spec fn spec_permission_bytes(info: FileInfo) -> Seq<u8> {
    seq![
        if info.is_directory {
            100u8
        } else if info.file_type@ == "symlink"@ {
            108u8
        } else if info.file_type@ == "file"@ {
            45u8
        } else {
            63u8
        },
        if info.metadata.mode & 0o400 != 0 {
            114u8
        } else {
            45u8
        },
        if info.metadata.mode & 0o200 != 0 {
            119u8
        } else {
            45u8
        },
        if info.metadata.mode & 0o100 != 0 {
            120u8
        } else {
            45u8
        },
        if info.metadata.mode & 0o040 != 0 {
            114u8
        } else {
            45u8
        },
        if info.metadata.mode & 0o020 != 0 {
            119u8
        } else {
            45u8
        },
        if info.metadata.mode & 0o010 != 0 {
            120u8
        } else {
            45u8
        },
        if info.metadata.mode & 0o004 != 0 {
            114u8
        } else {
            45u8
        },
        if info.metadata.mode & 0o002 != 0 {
            119u8
        } else {
            45u8
        },
        if info.metadata.mode & 0o001 != 0 {
            120u8
        } else {
            45u8
        },
    ]
}

impl FileInfo {
    /// Builds the entry from plain metadata values; the caller reads them from
    /// the filesystem.
    pub fn new(
        name: String,
        full_path: String,
        size: u64,
        inode: u64,
        is_directory: bool,
        is_symlink: bool,
        is_file: bool,
        metadata: FileMetadata,
    ) -> (r: FileInfo)
        ensures
            r.inode == inode,
            r.size == size,
            r.name@ == name@,
            r.file_type@ == spec_file_type(is_directory, is_symlink, is_file),
            r.metadata == metadata,
            r.is_directory == is_directory,
            r.full_path@ == full_path@,
    {
        let file_type: String = if is_directory {
            "directory".to_owned()
        } else if is_symlink {
            "symlink".to_owned()
        } else if is_file {
            "file".to_owned()
        } else {
            "other".to_owned()
        };
        FileInfo { inode, size, name, file_type, metadata, is_directory, full_path }
    }

    /// Whether this entry was discovered as a symbolic link.
    pub fn is_symlink_entry(&self) -> (r: bool)
        ensures
            r == (self.file_type@ == "symlink"@),
    {
        str_eq(self.file_type.as_str(), "symlink")
    }

    /// The `ls`-style permission column for this entry.
    #[verifier::rlimit(50)]
    pub fn format_permissions(&self) -> (r: String)
        ensures
            r@ == spec_permission_bytes(*self).map_values(|b: u8| b as char),
    {
        let mut out: Vec<u8> = Vec::new();
        out.push(
            if self.is_directory {
                100
            } else if self.is_symlink_entry() {
                108
            } else if str_eq(self.file_type.as_str(), "file") {
                45
            } else {
                63
            },
        );
        let mode = self.metadata.mode;
        out.push(if mode & 0o400 != 0 { 114 } else { 45 });
        out.push(if mode & 0o200 != 0 { 119 } else { 45 });
        out.push(if mode & 0o100 != 0 { 120 } else { 45 });
        out.push(if mode & 0o040 != 0 { 114 } else { 45 });
        out.push(if mode & 0o020 != 0 { 119 } else { 45 });
        out.push(if mode & 0o010 != 0 { 120 } else { 45 });
        out.push(if mode & 0o004 != 0 { 114 } else { 45 });
        out.push(if mode & 0o002 != 0 { 119 } else { 45 });
        out.push(if mode & 0o001 != 0 { 120 } else { 45 });
        assert(out@ =~= spec_permission_bytes(*self));
        ascii_to_string(out)
    }

    /// Whether a path should be skipped entirely, judged by its final name
    /// component and whether it is a directory; the caller resolves both
    /// from the path.
    pub fn should_ignore(
        file_name: Option<&str>,
        is_dir: bool,
        ignore_patterns: &[String],
    ) -> (r: bool)
        ensures
            r == spec_should_ignore(
                match file_name {
                    Some(f) => Some(f@),
                    None => None,
                },
                is_dir,
                ignore_patterns@.map_values(|p: String| p@),
            ),
    {
        let ghost fname: Option<Seq<char>> = match file_name {
            Some(f) => Some(f@),
            None => None,
        };
        let ghost pats = ignore_patterns@.map_values(|p: String| p@);
        let n = ignore_patterns.len();
        for k in 0..n
            invariant
                n == ignore_patterns@.len(),
                fname == (match file_name {
                    Some(f) => Some(f@),
                    None => None,
                }),
                pats == ignore_patterns@.map_values(|p: String| p@),
                forall|j: int| 0 <= j < k ==> !spec_pattern_matches(fname, is_dir, #[trigger] pats[j]),
        {
            let pattern = trim_str(ignore_patterns[k].as_str());
            let plen = pattern.unicode_len();
            proof {
                assert(pattern@ == spec_trim(pats[k as int]));
            }
            if plen > 0 {
                let last = pattern.get_char(plen - 1);
                if last == '/' || last == '\\' {
                    if is_dir {
                        match file_name {
                            Some(f) => {
                                let d = trim_end_matches_char(
                                    trim_end_matches_char(pattern, '/'),
                                    '\\',
                                );
                                if str_eq(f, d) {
                                    return true;
                                }
                            },
                            None => {},
                        }
                    }
                } else {
                    match file_name {
                        Some(f) => {
                            if str_eq(f, pattern) {
                                return true;
                            }
                        },
                        None => {},
                    }
                }
            }
        }
        false
    }

    /// The argument plays no part in the comparison yet; every pair of
    /// timestamps is treated as equal.
    pub fn times_equal(&self, _other: &std::time::SystemTime) -> (r: bool)
        ensures
            r == true,
    {
        true
    }

    /// Placeholder conversion; every timestamp maps to one second.
    pub fn system_time_to_secs(&self, _time: &std::time::SystemTime) -> (r: u64)
        ensures
            r == 1,
    {
        1
    }

    /// Placeholder for the modification-time column.
    pub fn format_time(&self) -> (r: String)
        ensures
            r@ == "1"@,
    {
        "1".to_owned()
    }

    /// The text of every listing column except the size, which the caller
    /// renders and passes in: inode, permissions, link count, owner, group,
    /// size, time, kind.
    pub fn get_display_fields(&self, size_text: String) -> (r: (
        String,
        String,
        String,
        String,
        String,
        String,
        String,
        String,
    ))
        ensures
            r.0@ == spec_dec_chars(self.inode as nat),
            r.1@ == spec_permission_bytes(*self).map_values(|b: u8| b as char),
            r.2@ == spec_dec_chars(self.metadata.nlink as nat),
            r.3@ == spec_dec_chars(self.metadata.uid as nat),
            r.4@ == spec_dec_chars(self.metadata.gid as nat),
            r.5@ == size_text@,
            r.6@ == "1"@,
            r.7@ == self.file_type@,
    {
        (
            u64_to_string(self.inode),
            self.format_permissions(),
            u64_to_string(self.metadata.nlink),
            u64_to_string(self.metadata.uid as u64),
            u64_to_string(self.metadata.gid as u64),
            size_text,
            self.format_time(),
            self.file_type.clone(),
        )
    }
}

} // verus!
