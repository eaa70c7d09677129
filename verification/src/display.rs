//! Presentation-side helpers: the progress spinner's frame cycling, the
//! logger's configuration, and the column-width computation for the final
//! listing.  Rendering itself (terminal output) is left to the caller.

use crate::fileinfo::{spec_permission_bytes, FileInfo};
use crate::text::spec_dec_chars;
use vstd::prelude::*;
use vstd::utf8::encode_utf8;

verus! {

/// The spinner shown while scanning: a ring of frames and the index of the
/// next one.
pub struct Spinner {
    pub frames: Vec<char>,
    pub current: usize,
}

impl Spinner {
    pub fn new() -> (r: Spinner)
        ensures
            r.frames@ == seq!['⠋', '⠙', '⠹', '⠸', '⠼', '⠴', '⠦', '⠧', '⠇', '⠏'],
            r.current == 0,
    {
        let r = Spinner {
            frames: vec!['⠋', '⠙', '⠹', '⠸', '⠼', '⠴', '⠦', '⠧', '⠇', '⠏'],
            current: 0,
        };
        proof {
            assert(r.frames@ =~= seq!['⠋', '⠙', '⠹', '⠸', '⠼', '⠴', '⠦', '⠧', '⠇', '⠏']);
        }
        r
    }

    /// The next frame, advancing the ring.
    pub fn next(&mut self) -> (frame: char)
        requires
            old(self).current < old(self).frames@.len(),
        ensures
            frame == old(self).frames@[old(self).current as int],
            final(self).frames == old(self).frames,
            final(self).current == (old(self).current + 1) % (old(self).frames@.len() as int),
    {
        let n = self.frames.len();
        let frame = self.frames[self.current];
        self.current = (self.current + 1) % n;
        frame
    }
}

/// The logging configuration handed through the scan; whether messages are
/// printed never affects what is computed.
pub struct Logger {
    pub verbose: bool,
}

impl Logger {
    pub fn new(verbose: bool) -> (r: Logger)
        ensures
            r.verbose == verbose,
    {
        Logger { verbose }
    }
}

/// The byte width a piece of text occupies in a column.
pub open spec fn spec_text_width(s: Seq<char>) -> int {
    encode_utf8(s).len() as int
}

/// A left fold of `greatest so far` over a sequence of widths.
pub open spec fn spec_width_fold(init: int, ws: Seq<int>) -> int
    decreases ws.len(),
{
    if ws.len() == 0 {
        init
    } else {
        spec_width_fold(
            if ws[0] > init {
                ws[0]
            } else {
                init
            },
            ws.drop_first(),
        )
    }
}

proof fn lemma_width_fold_snoc(init: int, ws: Seq<int>, x: int)
    ensures
        spec_width_fold(init, ws.push(x)) == (if x > spec_width_fold(init, ws) {
            x
        } else {
            spec_width_fold(init, ws)
        }),
    decreases ws.len(),
{
    if ws.len() == 0 {
        reveal_with_fuel(spec_width_fold, 2);
        assert(ws.push(x)[0] == x);
        assert(ws.push(x).drop_first() =~= ws);
        assert(spec_width_fold(init, ws) == init);
        assert(spec_width_fold(init, ws.push(x)) == (if x > init {
            x
        } else {
            init
        }));
    } else {
        let init2 = if ws[0] > init {
            ws[0]
        } else {
            init
        };
        assert(ws.push(x)[0] == ws[0]);
        assert(ws.push(x).drop_first() =~= ws.drop_first().push(x));
        lemma_width_fold_snoc(init2, ws.drop_first(), x);
        assert(spec_width_fold(init, ws.push(x)) == spec_width_fold(
            init2,
            ws.drop_first().push(x),
        ));
        assert(spec_width_fold(init, ws) == spec_width_fold(init2, ws.drop_first()));
    }
}

/// The width of each listing column.
pub struct ColumnWidths {
    pub inode: usize,
    pub permissions: usize,
    pub links: usize,
    pub uid: usize,
    pub gid: usize,
    pub size: usize,
    pub time: usize,
    pub file_type: usize,
    pub name: usize,
}

/// The widths each entry asks of the columns: its rendered inode,
/// permissions, link count, owner and group, the caller-rendered size text,
/// the time placeholder, its kind label and its display name.
pub open spec fn spec_entry_widths(f: FileInfo, size_text: Seq<char>) -> Seq<int> {
    seq![
        spec_text_width(spec_dec_chars(f.inode as nat)),
        spec_text_width(spec_permission_bytes(f).map_values(|b: u8| b as char)),
        spec_text_width(spec_dec_chars(f.metadata.nlink as nat)),
        spec_text_width(spec_dec_chars(f.metadata.uid as nat)),
        spec_text_width(spec_dec_chars(f.metadata.gid as nat)),
        spec_text_width(size_text),
        spec_text_width("1"@),
        spec_text_width(f.file_type@),
        spec_text_width(f.name@),
    ]
}

/// The widths column `col` needs over a file list.
pub open spec fn spec_column_asks(files: Seq<FileInfo>, size_texts: Seq<Seq<char>>, col: int) -> Seq<
    int,
> {
    Seq::new(files.len(), |i: int| spec_entry_widths(files[i], size_texts[i])[col])
}

impl ColumnWidths {
    /// The default widths each column starts from.
    pub fn new() -> (r: ColumnWidths)
        ensures
            r.inode == 8,
            r.permissions == 10,
            r.links == 4,
            r.uid == 8,
            r.gid == 8,
            r.size == 10,
            r.time == 12,
            r.file_type == 10,
            r.name == 20,
    {
        ColumnWidths {
            inode: 8,
            permissions: 10,
            links: 4,
            uid: 8,
            gid: 8,
            size: 10,
            time: 12,
            file_type: 10,
            name: 20,
        }
    }

    /// Widens every column to fit each file's rendered fields (the size
    /// text, which may involve unit scaling, is rendered by the caller and
    /// handed in per file), then adds two spaces of padding.
    #[verifier::rlimit(100)]
    pub fn calculate_from_files(&mut self, files: &[FileInfo], size_texts: &[String])
        requires
            files@.len() == size_texts@.len(),
            old(self).inode + 2 <= usize::MAX,
            old(self).permissions + 2 <= usize::MAX,
            old(self).links + 2 <= usize::MAX,
            old(self).uid + 2 <= usize::MAX,
            old(self).gid + 2 <= usize::MAX,
            old(self).size + 2 <= usize::MAX,
            old(self).time + 2 <= usize::MAX,
            old(self).file_type + 2 <= usize::MAX,
            old(self).name + 2 <= usize::MAX,
            forall|i: int, c: int|
                0 <= i < files@.len() && 0 <= c < 9 ==> #[trigger] spec_entry_widths(
                    files@[i],
                    size_texts@[i]@,
                )[c] + 2 <= usize::MAX,
        ensures
            ({
                let texts = size_texts@.map_values(|s: String| s@);
                &&& final(self).inode == spec_width_fold(
                    old(self).inode as int,
                    spec_column_asks(files@, texts, 0),
                ) + 2
                &&& final(self).permissions == spec_width_fold(
                    old(self).permissions as int,
                    spec_column_asks(files@, texts, 1),
                ) + 2
                &&& final(self).links == spec_width_fold(
                    old(self).links as int,
                    spec_column_asks(files@, texts, 2),
                ) + 2
                &&& final(self).uid == spec_width_fold(
                    old(self).uid as int,
                    spec_column_asks(files@, texts, 3),
                ) + 2
                &&& final(self).gid == spec_width_fold(
                    old(self).gid as int,
                    spec_column_asks(files@, texts, 4),
                ) + 2
                &&& final(self).size == spec_width_fold(
                    old(self).size as int,
                    spec_column_asks(files@, texts, 5),
                ) + 2
                &&& final(self).time == spec_width_fold(
                    old(self).time as int,
                    spec_column_asks(files@, texts, 6),
                ) + 2
                &&& final(self).file_type == spec_width_fold(
                    old(self).file_type as int,
                    spec_column_asks(files@, texts, 7),
                ) + 2
                &&& final(self).name == spec_width_fold(
                    old(self).name as int,
                    spec_column_asks(files@, texts, 8),
                ) + 2
            }),
    {
        let ghost texts = size_texts@.map_values(|s: String| s@);
        let n = files.len();
        for i in 0..n
            invariant
                n == files@.len(),
                files@.len() == size_texts@.len(),
                texts == size_texts@.map_values(|s: String| s@),
                forall|k: int, c: int|
                    0 <= k < files@.len() && 0 <= c < 9 ==> #[trigger] spec_entry_widths(
                        files@[k],
                        size_texts@[k]@,
                    )[c] + 2 <= usize::MAX,
                self.inode + 2 <= usize::MAX,
                self.permissions + 2 <= usize::MAX,
                self.links + 2 <= usize::MAX,
                self.uid + 2 <= usize::MAX,
                self.gid + 2 <= usize::MAX,
                self.size + 2 <= usize::MAX,
                self.time + 2 <= usize::MAX,
                self.file_type + 2 <= usize::MAX,
                self.name + 2 <= usize::MAX,
                self.inode == spec_width_fold(
                    old(self).inode as int,
                    spec_column_asks(files@, texts, 0).take(i as int),
                ),
                self.permissions == spec_width_fold(
                    old(self).permissions as int,
                    spec_column_asks(files@, texts, 1).take(i as int),
                ),
                self.links == spec_width_fold(
                    old(self).links as int,
                    spec_column_asks(files@, texts, 2).take(i as int),
                ),
                self.uid == spec_width_fold(
                    old(self).uid as int,
                    spec_column_asks(files@, texts, 3).take(i as int),
                ),
                self.gid == spec_width_fold(
                    old(self).gid as int,
                    spec_column_asks(files@, texts, 4).take(i as int),
                ),
                self.size == spec_width_fold(
                    old(self).size as int,
                    spec_column_asks(files@, texts, 5).take(i as int),
                ),
                self.time == spec_width_fold(
                    old(self).time as int,
                    spec_column_asks(files@, texts, 6).take(i as int),
                ),
                self.file_type == spec_width_fold(
                    old(self).file_type as int,
                    spec_column_asks(files@, texts, 7).take(i as int),
                ),
                self.name == spec_width_fold(
                    old(self).name as int,
                    spec_column_asks(files@, texts, 8).take(i as int),
                ),
        {
            let file = &files[i];
            let (f_inode, f_perm, f_links, f_uid, f_gid, f_size, f_time, f_type) =
                file.get_display_fields(size_texts[i].clone());
            let w_inode = f_inode.as_str().len();
            let w_perm = f_perm.as_str().len();
            let w_links = f_links.as_str().len();
            let w_uid = f_uid.as_str().len();
            let w_gid = f_gid.as_str().len();
            let w_size = f_size.as_str().len();
            let w_time = f_time.as_str().len();
            let w_type = f_type.as_str().len();
            let w_name = file.name.as_str().len();
            proof {
                let ws = spec_entry_widths(files@[i as int], size_texts@[i as int]@);
                assert(w_inode == ws[0]);
                assert(w_perm == ws[1]);
                assert(w_links == ws[2]);
                assert(w_uid == ws[3]);
                assert(w_gid == ws[4]);
                assert(w_size == ws[5]);
                assert(w_time == ws[6]);
                assert(w_type == ws[7]);
                assert(w_name == ws[8]);
            }
            if w_inode > self.inode {
                self.inode = w_inode;
            }
            if w_perm > self.permissions {
                self.permissions = w_perm;
            }
            if w_links > self.links {
                self.links = w_links;
            }
            if w_uid > self.uid {
                self.uid = w_uid;
            }
            if w_gid > self.gid {
                self.gid = w_gid;
            }
            if w_size > self.size {
                self.size = w_size;
            }
            if w_time > self.time {
                self.time = w_time;
            }
            if w_type > self.file_type {
                self.file_type = w_type;
            }
            if w_name > self.name {
                self.name = w_name;
            }
            proof {
                let k: int = i as int;
                assert forall|c: int| 0 <= c < 9 implies spec_column_asks(
                    files@,
                    texts,
                    c,
                ).take(k).push(spec_column_asks(files@, texts, c)[k]) =~= spec_column_asks(
                    files@,
                    texts,
                    c,
                ).take(k + 1) by {}
                lemma_width_fold_snoc(
                    old(self).inode as int,
                    spec_column_asks(files@, texts, 0).take(k),
                    spec_column_asks(files@, texts, 0)[k],
                );
                lemma_width_fold_snoc(
                    old(self).permissions as int,
                    spec_column_asks(files@, texts, 1).take(k),
                    spec_column_asks(files@, texts, 1)[k],
                );
                lemma_width_fold_snoc(
                    old(self).links as int,
                    spec_column_asks(files@, texts, 2).take(k),
                    spec_column_asks(files@, texts, 2)[k],
                );
                lemma_width_fold_snoc(
                    old(self).uid as int,
                    spec_column_asks(files@, texts, 3).take(k),
                    spec_column_asks(files@, texts, 3)[k],
                );
                lemma_width_fold_snoc(
                    old(self).gid as int,
                    spec_column_asks(files@, texts, 4).take(k),
                    spec_column_asks(files@, texts, 4)[k],
                );
                lemma_width_fold_snoc(
                    old(self).size as int,
                    spec_column_asks(files@, texts, 5).take(k),
                    spec_column_asks(files@, texts, 5)[k],
                );
                lemma_width_fold_snoc(
                    old(self).time as int,
                    spec_column_asks(files@, texts, 6).take(k),
                    spec_column_asks(files@, texts, 6)[k],
                );
                lemma_width_fold_snoc(
                    old(self).file_type as int,
                    spec_column_asks(files@, texts, 7).take(k),
                    spec_column_asks(files@, texts, 7)[k],
                );
                lemma_width_fold_snoc(
                    old(self).name as int,
                    spec_column_asks(files@, texts, 8).take(k),
                    spec_column_asks(files@, texts, 8)[k],
                );
            }
        }
        proof {
            assert forall|c: int| 0 <= c < 9 implies spec_column_asks(files@, texts, c).take(
                n as int,
            ) =~= spec_column_asks(files@, texts, c) by {}
        }
        self.inode = self.inode + 2;
        self.permissions = self.permissions + 2;
        self.links = self.links + 2;
        self.uid = self.uid + 2;
        self.gid = self.gid + 2;
        self.size = self.size + 2;
        self.time = self.time + 2;
        self.file_type = self.file_type + 2;
        self.name = self.name + 2;
    }
}

} // verus!
