//! Building file diffs from the callbacks of a diff walk: a file starts, a
//! hunk starts, a line comes. The walk itself (libgit2's `Diff::foreach`)
//! drives the builder from outside; the builder decides what each event does.
//!
//! At most [`MAX_DIFF_LINES_PER_FILE`] lines per file are kept; past that the
//! file is marked truncated, so that no unbounded amount of data leaves the
//! engine.

use vstd::prelude::*;

use crate::domain::{DiffHunk, DiffLine, FileDiff, LineKind};
use crate::status_fast::opt_string_view;
use crate::text::{chars_of, string_from_range, trim_end, trim_end_len};

verus! {

/// Upper bound of diff lines kept per file.
pub const MAX_DIFF_LINES_PER_FILE: usize = 5000;

/// A diff line as plain values.
pub struct LineModel {
    pub kind: LineKind,
    pub old_lineno: Option<u32>,
    pub new_lineno: Option<u32>,
    pub content: Seq<char>,
}

/// A hunk as plain values.
pub struct HunkModel {
    pub header: Seq<char>,
    pub lines: Seq<LineModel>,
}

/// A file diff as plain values.
pub struct FileModel {
    pub path: Seq<char>,
    pub old_path: Option<Seq<char>>,
    pub is_binary: bool,
    pub hunks: Seq<HunkModel>,
    pub truncated: bool,
    pub old_size: Option<u64>,
    pub new_size: Option<u64>,
}

pub open spec fn line_view(l: DiffLine) -> LineModel {
    LineModel {
        kind: l.kind,
        old_lineno: l.old_lineno,
        new_lineno: l.new_lineno,
        content: l.content@,
    }
}

pub open spec fn lines_view(v: Seq<DiffLine>) -> Seq<LineModel> {
    Seq::new(v.len(), |i: int| line_view(v[i]))
}

pub open spec fn hunk_view(h: DiffHunk) -> HunkModel {
    HunkModel { header: h.header@, lines: lines_view(h.lines@) }
}

pub open spec fn hunks_view(v: Seq<DiffHunk>) -> Seq<HunkModel> {
    Seq::new(v.len(), |i: int| hunk_view(v[i]))
}

pub open spec fn file_view(f: FileDiff) -> FileModel {
    FileModel {
        path: f.path@,
        old_path: opt_string_view(f.old_path),
        is_binary: f.is_binary,
        hunks: hunks_view(f.hunks@),
        truncated: f.truncated,
        old_size: f.old_size,
        new_size: f.new_size,
    }
}

pub open spec fn opt_file_view(f: Option<FileDiff>) -> Option<FileModel> {
    match f {
        Some(x) => Some(file_view(x)),
        None => None,
    }
}

/// The builder as plain values: the file being built, and how many lines
/// it holds.
pub struct BuilderModel {
    pub file: Option<FileModel>,
    pub count: nat,
}

/// `s` without the line ends (`\n`, `\r`) at its end.
pub open spec fn strip_line_end(s: Seq<char>) -> Seq<char>
    decreases s.len(),
{
    if s.len() > 0 && (s.last() == '\n' || s.last() == '\r') {
        strip_line_end(s.drop_last())
    } else {
        s
    }
}

/// The kind of a line by the origin character libgit2 gives it; other
/// origins (file headers, "no newline" notes) carry no line.
pub open spec fn origin_kind(origin: char) -> Option<LineKind> {
    if origin == '+' {
        Some(LineKind::Addition)
    } else if origin == '-' {
        Some(LineKind::Deletion)
    } else if origin == ' ' {
        Some(LineKind::Context)
    } else {
        None
    }
}

/// A hunk starts: a new hunk with the header (trailing whitespace removed),
/// or, once the file is full, the file marked truncated.
pub open spec fn hunk_step(b: BuilderModel, header: Seq<char>) -> BuilderModel {
    match b.file {
        None => b,
        Some(f) => if b.count >= MAX_DIFF_LINES_PER_FILE {
            BuilderModel { file: Some(FileModel { truncated: true, ..f }), count: b.count }
        } else {
            BuilderModel {
                file: Some(
                    FileModel {
                        hunks: f.hunks.push(HunkModel { header: trim_end(header), lines: Seq::empty() }),
                        ..f
                    },
                ),
                count: b.count,
            }
        },
    }
}

/// A line comes: a `B` origin marks the file binary; a line of a known
/// kind is added to the last hunk (its line end removed) or, once the file
/// is full, the file is marked truncated; anything else is ignored.
pub open spec fn line_step(
    b: BuilderModel,
    origin: char,
    old_lineno: Option<u32>,
    new_lineno: Option<u32>,
    content: Seq<char>,
) -> BuilderModel {
    match b.file {
        None => b,
        Some(f) => if origin == 'B' {
            BuilderModel { file: Some(FileModel { is_binary: true, ..f }), count: b.count }
        } else {
            match origin_kind(origin) {
                None => b,
                Some(kind) => if b.count >= MAX_DIFF_LINES_PER_FILE {
                    BuilderModel { file: Some(FileModel { truncated: true, ..f }), count: b.count }
                } else if f.hunks.len() == 0 {
                    b
                } else {
                    let h = f.hunks.last();
                    let l = LineModel {
                        kind,
                        old_lineno,
                        new_lineno,
                        content: strip_line_end(content),
                    };
                    BuilderModel {
                        file: Some(
                            FileModel {
                                hunks: f.hunks.drop_last().push(
                                    HunkModel { lines: h.lines.push(l), ..h },
                                ),
                                ..f
                            },
                        ),
                        count: b.count + 1,
                    }
                },
            }
        },
    }
}

/// A diff line is kept with the kind its origin says: `-` a deletion, `+`
/// an addition, ` ` context. While the file has room and a hunk is open, the
/// line goes to the end of the last hunk with its line numbers and its
/// content without the line end, and nothing else changes.
pub proof fn lemma_line_kind_follows_origin(
    b: BuilderModel,
    origin: char,
    old_lineno: Option<u32>,
    new_lineno: Option<u32>,
    content: Seq<char>,
)
    requires
        b.file is Some,
        b.count < MAX_DIFF_LINES_PER_FILE,
        b.file->0.hunks.len() > 0,
        origin == '-' || origin == '+' || origin == ' ',
    ensures
        ({
            let f = b.file->0;
            let a = line_step(b, origin, old_lineno, new_lineno, content);
            &&& a.count == b.count + 1
            &&& a.file matches Some(g) && g.path == f.path && g.old_path == f.old_path
                && g.is_binary == f.is_binary && g.truncated == f.truncated
                && g.hunks.len() == f.hunks.len()
                && g.hunks.drop_last() == f.hunks.drop_last()
                && g.hunks.last().header == f.hunks.last().header
                && g.hunks.last().lines.drop_last() == f.hunks.last().lines
                && g.hunks.last().lines.last().old_lineno == old_lineno
                && g.hunks.last().lines.last().new_lineno == new_lineno
                && g.hunks.last().lines.last().content == strip_line_end(content)
                && (origin == '-' ==> g.hunks.last().lines.last().kind == LineKind::Deletion)
                && (origin == '+' ==> g.hunks.last().lines.last().kind == LineKind::Addition)
                && (origin == ' ' ==> g.hunks.last().lines.last().kind == LineKind::Context)
        }),
{
    let f = b.file->0;
    let a = line_step(b, origin, old_lineno, new_lineno, content);
    let g = a.file->0;
    let h = f.hunks.last();
    assert(g.hunks.drop_last() =~= f.hunks.drop_last());
    assert(g.hunks.last().lines.drop_last() =~= h.lines);
}

/// The number of lines in `hunks`.
pub open spec fn total_lines(hunks: Seq<HunkModel>) -> nat
    decreases hunks.len(),
{
    if hunks.len() == 0 {
        0
    } else {
        total_lines(hunks.drop_last()) + hunks.last().lines.len()
    }
}

/// The file diffs under construction.
pub struct DiffBuilder {
    file: Option<FileDiff>,
    count: usize,
}

impl DiffBuilder {
    pub closed spec fn model(&self) -> BuilderModel {
        BuilderModel { file: opt_file_view(self.file), count: self.count as nat }
    }

    pub closed spec fn wf(&self) -> bool {
        &&& self.count <= MAX_DIFF_LINES_PER_FILE
        &&& self.file matches Some(f) ==> total_lines(hunks_view(f.hunks@)) == self.count
    }

    /// A builder without a file.
    pub fn new() -> (b: Self)
        ensures
            b.wf(),
            b.model() == (BuilderModel { file: None, count: 0 }),
    {
        DiffBuilder { file: None, count: 0 }
    }

    /// A file starts, with its paths (the old one on a rename), whether
    /// libgit2 found it binary, and the sizes of its sides that exist: the
    /// file before it is complete and handed back, with at most
    /// [`MAX_DIFF_LINES_PER_FILE`] lines.
    pub fn start_file(
        &mut self,
        path: String,
        old_path: Option<String>,
        is_binary: bool,
        old_size: Option<u64>,
        new_size: Option<u64>,
    ) -> (done: Option<FileDiff>)
        requires
            old(self).wf(),
        ensures
            final(self).wf(),
            opt_file_view(done) == old(self).model().file,
            done matches Some(d) ==> total_lines(hunks_view(d.hunks@)) <= MAX_DIFF_LINES_PER_FILE,
            final(self).model() == (BuilderModel {
                file: Some(
                    FileModel {
                        path: path@,
                        old_path: opt_string_view(old_path),
                        is_binary,
                        hunks: Seq::empty(),
                        truncated: false,
                        old_size,
                        new_size,
                    },
                ),
                count: 0,
            }),
    {
        let done = self.file.take();
        let f = FileDiff {
            path,
            old_path,
            is_binary,
            hunks: Vec::new(),
            truncated: false,
            old_size,
            new_size,
        };
        assert(hunks_view(f.hunks@) =~= Seq::<HunkModel>::empty());
        self.file = Some(f);
        self.count = 0;
        done
    }

    /// A hunk starts (see [`hunk_step`]).
    pub fn hunk(&mut self, header: &str)
        requires
            old(self).wf(),
        ensures
            final(self).wf(),
            final(self).model() == hunk_step(old(self).model(), header@),
    {
        let ghost before = self.model();
        let mut f = match self.file.take() {
            Some(f) => f,
            None => {
                return;
            },
        };
        if self.count >= MAX_DIFF_LINES_PER_FILE {
            f.truncated = true;
        } else {
            let cs = chars_of(header);
            let n = trim_end_len(cs.as_slice());
            let h = DiffHunk { header: string_from_range(cs.as_slice(), 0, n), lines: Vec::new() };
            let ghost hs = f.hunks@;
            f.hunks.push(h);
            assert(lines_view(h.lines@) =~= Seq::<LineModel>::empty());
            assert(hunks_view(f.hunks@) =~= hunks_view(hs).push(
                HunkModel { header: trim_end(header@), lines: Seq::empty() },
            ));
            assert(hunks_view(f.hunks@).drop_last() =~= hunks_view(hs));
        }
        self.file = Some(f);
        assert(self.model().file == hunk_step(before, header@).file);
    }

    /// A line comes (see [`line_step`]).
    pub fn line(&mut self, origin: char, old_lineno: Option<u32>, new_lineno: Option<u32>, content: &str)
        requires
            old(self).wf(),
        ensures
            final(self).wf(),
            final(self).model() == line_step(
                old(self).model(),
                origin,
                old_lineno,
                new_lineno,
                content@,
            ),
    {
        let ghost before = self.model();
        let mut f = match self.file.take() {
            Some(f) => f,
            None => {
                return;
            },
        };
        let kind = match origin {
            '+' => LineKind::Addition,
            '-' => LineKind::Deletion,
            ' ' => LineKind::Context,
            'B' => {
                f.is_binary = true;
                self.file = Some(f);
                return;
            },
            _ => {
                self.file = Some(f);
                return;
            },
        };
        if self.count >= MAX_DIFF_LINES_PER_FILE {
            f.truncated = true;
            self.file = Some(f);
            return;
        }
        if f.hunks.len() == 0 {
            self.file = Some(f);
            return;
        }
        let cs = chars_of(content);
        let n = strip_line_end_len(cs.as_slice());
        let l = DiffLine {
            kind,
            old_lineno,
            new_lineno,
            content: string_from_range(cs.as_slice(), 0, n),
        };
        let ghost hs = f.hunks@;
        let mut h = f.hunks.pop().unwrap();
        let ghost ls = h.lines@;
        h.lines.push(l);
        assert(lines_view(h.lines@) =~= lines_view(ls).push(line_view(l)));
        f.hunks.push(h);
        assert(hunks_view(f.hunks@) =~= hunks_view(hs).drop_last().push(hunk_view(h)));
        assert(hunks_view(f.hunks@).drop_last() =~= hunks_view(hs).drop_last());
        self.file = Some(f);
        self.count = self.count + 1;
    }

    /// The walk is over: the last file, if any, with at most
    /// [`MAX_DIFF_LINES_PER_FILE`] lines.
    pub fn finish(self) -> (done: Option<FileDiff>)
        requires
            self.wf(),
        ensures
            opt_file_view(done) == self.model().file,
            done matches Some(d) ==> total_lines(hunks_view(d.hunks@)) <= MAX_DIFF_LINES_PER_FILE,
    {
        self.file
    }
}

/// The length of `s` without the line ends at its end.
fn strip_line_end_len(s: &[char]) -> (r: usize)
    ensures
        r <= s@.len(),
        strip_line_end(s@) == s@.take(r as int),
{
    let mut b: usize = s.len();
    assert(s@.take(s@.len() as int) =~= s@);
    while b > 0 && (s[b - 1] == '\n' || s[b - 1] == '\r')
        invariant
            b <= s@.len(),
            strip_line_end(s@) == strip_line_end(s@.take(b as int)),
        decreases b,
    {
        assert(s@.take(b as int).drop_last() =~= s@.take(b - 1));
        b = b - 1;
    }
    b
}

} // verus!
