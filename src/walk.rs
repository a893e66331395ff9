use vstd::prelude::*;

use crate::content::{block, render_block};
use crate::label::{add_label, labeled};
use crate::matches::{
    category_index, initialise_matches_capacities, insert_entry_in_matches, NUM_FILE_CATEGORIES,
};
use crate::paths::{
    base_name, base_name_of, dir_record, dir_record_of, join, join_path, is_hidden_path,
    lemma_dir_record_hidden, lemma_join_hidden, path_hidden, starts_with_dot, valid_name,
};
use crate::pattern::{line_hits, PatternMatcher};

verus! {

/// What a directory entry is.
#[derive(Debug, Clone, Copy, PartialEq, Eq, Structural)]
pub enum EntryKind {
    File,
    Symlink,
    Directory,
}

/// One entry of a directory listing: its name within the directory and its kind.
#[derive(Debug)]
pub struct DirEntryInfo {
    pub name: String,
    pub kind: EntryKind,
}

/// A file or symlink found in a directory: its path, whether it is a symlink,
/// and whether it is hidden.
#[derive(Debug)]
pub struct FoundFile {
    pub p: String,
    pub is_sym: bool,
    pub is_hidden: bool,
}

impl FoundFile {
    /// The record of entry `name` of directory `dir`, whose own visibility is
    /// `dir_hidden`: hidden when the directory is or the name starts with a dot.
    pub fn of_entry(dir: &String, dir_hidden: bool, name: &String, is_sym: bool) -> (r: FoundFile)
        ensures
            r.p@ == join(dir@, name@),
            r.is_sym == is_sym,
            r.is_hidden == (dir_hidden || (name@.len() > 0 && name@[0] == '.')),
    {
        FoundFile { p: join_path(dir, name), is_sym, is_hidden: dir_hidden || starts_with_dot(name) }
    }
}

/// The character sequences of a list of strings.
pub open spec fn views(v: Seq<String>) -> Seq<Seq<char>> {
    v.map_values(|s: String| s@)
}

/// Whether an entry named `name` in directory `dir` is hidden.
pub open spec fn entry_hidden(dir: Seq<char>, name: Seq<char>) -> bool {
    path_hidden(dir) || (name.len() > 0 && name[0] == '.')
}

/// Paths of the subdirectories among the first `n` entries of `dir`, in order.
pub open spec fn subdirs(dir: Seq<char>, entries: Seq<DirEntryInfo>, n: int) -> Seq<Seq<char>>
    decreases n,
{
    if n <= 0 {
        seq![]
    } else if entries[n - 1].kind == EntryKind::Directory {
        subdirs(dir, entries, n - 1).push(join(dir, entries[n - 1].name@))
    } else {
        subdirs(dir, entries, n - 1)
    }
}

/// Whether a listed file or symlink matches and belongs in bucket `i`.
pub open spec fn file_found(m: PatternMatcher, dir: Seq<char>, e: DirEntryInfo, i: int) -> bool {
    &&& e.kind != EntryKind::Directory
    &&& m.accepts(e.name@)
    &&& category_index(entry_hidden(dir, e.name@), true, e.kind == EntryKind::Symlink) == i
}

/// Paths of the matching files and symlinks among the first `n` entries of `dir`
/// that belong in bucket `i`, in order.
pub open spec fn found(m: PatternMatcher, dir: Seq<char>, entries: Seq<DirEntryInfo>, n: int, i: int) -> Seq<
    Seq<char>,
>
    decreases n,
{
    if n <= 0 {
        seq![]
    } else if file_found(m, dir, entries[n - 1], i) {
        found(m, dir, entries, n - 1, i).push(join(dir, entries[n - 1].name@))
    } else {
        found(m, dir, entries, n - 1, i)
    }
}

/// Whether a listed file or symlink, read as `contents`, has matching lines and
/// belongs in bucket `i`.
pub open spec fn grep_hit(
    m: PatternMatcher,
    dir: Seq<char>,
    e: DirEntryInfo,
    contents: Option<Vec<Option<String>>>,
    i: int,
) -> bool {
    &&& e.kind != EntryKind::Directory
    &&& contents is Some
    &&& line_hits(m, contents->0@, contents->0@.len() as int).len() > 0
    &&& category_index(entry_hidden(dir, e.name@), true, e.kind == EntryKind::Symlink) == i
}

/// Paths of the files among the first `n` entries of `dir` whose contents have
/// matching lines and that belong in bucket `i`, in order.
pub open spec fn grep_found(
    m: PatternMatcher,
    dir: Seq<char>,
    entries: Seq<DirEntryInfo>,
    contents: Seq<Option<Vec<Option<String>>>>,
    n: int,
    i: int,
) -> Seq<Seq<char>>
    decreases n,
{
    if n <= 0 {
        seq![]
    } else if grep_hit(m, dir, entries[n - 1], contents[n - 1], i) {
        grep_found(m, dir, entries, contents, n - 1, i).push(join(dir, entries[n - 1].name@))
    } else {
        grep_found(m, dir, entries, contents, n - 1, i)
    }
}

/// The matching lines of those same files, in the same order.
pub open spec fn grep_lines_found(
    m: PatternMatcher,
    dir: Seq<char>,
    entries: Seq<DirEntryInfo>,
    contents: Seq<Option<Vec<Option<String>>>>,
    n: int,
    i: int,
) -> Seq<Seq<(usize, String)>>
    decreases n,
{
    if n <= 0 {
        seq![]
    } else if grep_hit(m, dir, entries[n - 1], contents[n - 1], i) {
        let lines = contents[n - 1]->0@;
        grep_lines_found(m, dir, entries, contents, n - 1, i).push(line_hits(m, lines, lines.len() as int))
    } else {
        grep_lines_found(m, dir, entries, contents, n - 1, i)
    }
}

/// The sequences of a list of hit lists.
pub open spec fn hit_views(v: Seq<Vec<(usize, String)>>) -> Seq<Seq<(usize, String)>> {
    v.map_values(|h: Vec<(usize, String)>| h@)
}

/// One budget-bounded breadth-first walk over a slice of directories.
///
/// `queue` holds the assigned directories followed by those found below them, in
/// discovery order; the first `visited` have been read. `processed` counts the
/// listed entries, and the walk stops once entries plus directories reach `limit`.
pub struct Walker {
    pub queue: Vec<String>,
    pub visited: usize,
    pub processed: usize,
    pub limit: usize,
    /// Number of directories the walk was given.
    pub assigned: usize,
    /// Whether the names of the given directories are tested too.
    pub report_assigned: bool,
    pub matches: [Vec<String>; NUM_FILE_CATEGORIES],
    /// The matching lines of each record, in step with `matches`; empty for
    /// records found by name.
    pub hits: [Vec<Vec<(usize, String)>>; NUM_FILE_CATEGORIES],
}

impl Walker {
    /// Paths are not empty, and a record sits among the hidden buckets exactly
    /// when its path is hidden.
    pub open spec fn wf(&self) -> bool {
        &&& self.visited <= self.queue@.len()
        &&& self.assigned <= self.queue@.len()
        &&& forall|k: int| 0 <= k < self.queue@.len() ==> (#[trigger] self.queue@[k])@.len() > 0
        &&& forall|i: int, k: int|
            0 <= i < NUM_FILE_CATEGORIES && 0 <= k < self.matches[i]@.len() ==> (i >= 3)
                == path_hidden((#[trigger] self.matches[i]@[k])@)
        &&& forall|i: int|
            0 <= i < NUM_FILE_CATEGORIES ==> (#[trigger] self.hits[i])@.len() == self.matches[i]@.len()
    }

    /// Whether the name of the directory at queue position `d` is tested.
    pub open spec fn tests_name(&self, d: int) -> bool {
        self.report_assigned || d >= self.assigned
    }

    /// Whether one more directory is to be read: every directory the walk was
    /// given is read; a directory found below them only while budget remains.
    pub open spec fn pending(&self) -> bool {
        self.visited < self.queue@.len() && (self.visited < self.assigned || self.processed
            + self.visited < self.limit)
    }

    /// The directories read so far.
    pub open spec fn traversed(&self) -> Seq<String> {
        self.queue@.subrange(0, self.visited as int)
    }

    /// The directories left for a later walk.
    pub open spec fn overflow(&self) -> Seq<String> {
        self.queue@.subrange(self.visited as int, self.queue@.len() as int)
    }

    /// The record that reading the next directory adds to bucket `i` for the
    /// directory itself: its path, when its name is tested and matches.
    pub open spec fn own_record(&self, m: PatternMatcher, i: int) -> Seq<Seq<char>> {
        let dir = self.queue@[self.visited as int]@;
        if self.tests_name(self.visited as int) && m.accepts(base_name(dir)) && i == category_index(
            path_hidden(dir),
            false,
            false,
        ) {
            seq![dir_record(dir)]
        } else {
            seq![]
        }
    }

    /// Starts a walk over `initial_dirs`; its budget is at least one entry per
    /// directory given.
    pub fn new(initial_dirs: Vec<String>, limit: usize, report_assigned: bool) -> (w: Walker)
        requires
            forall|k: int| 0 <= k < initial_dirs@.len() ==> (#[trigger] initial_dirs@[k])@.len() > 0,
        ensures
            w.wf(),
            w.queue@ == initial_dirs@,
            w.visited == 0,
            w.processed == 0,
            w.limit == if limit < initial_dirs@.len() { initial_dirs@.len() as usize } else { limit },
            w.assigned == initial_dirs@.len(),
            w.report_assigned == report_assigned,
            forall|i: int| 0 <= i < NUM_FILE_CATEGORIES ==> (#[trigger] w.matches[i])@.len() == 0,
            forall|i: int| 0 <= i < NUM_FILE_CATEGORIES ==> (#[trigger] w.hits[i])@.len() == 0,
    {
        let n = initial_dirs.len();
        let fd_limit = if limit < n { n } else { limit };
        let matches = initialise_matches_capacities(fd_limit);
        Walker {
            queue: initial_dirs,
            visited: 0,
            processed: 0,
            limit: fd_limit,
            assigned: n,
            report_assigned,
            matches,
            hits: [Vec::new(), Vec::new(), Vec::new(), Vec::new(), Vec::new(), Vec::new()],
        }
    }

    /// The next directory to read: each directory the walk was given, then those
    /// found below them while budget remains.
    pub fn next_dir(&self) -> (r: Option<String>)
        requires
            self.wf(),
        ensures
            r is Some <==> self.pending(),
            self.visited < self.assigned ==> r is Some,
            r matches Some(d) ==> d == self.queue@[self.visited as int],
    {
        if self.visited < self.queue.len() && (self.visited < self.assigned || (self.processed
            < self.limit && self.visited < self.limit - self.processed)) {
            Some(self.queue[self.visited].clone())
        } else {
            None
        }
    }

    /// Takes in the listing of the next directory: tests the directory's own
    /// name, then each file and symlink by name, and queues each subdirectory.
    pub fn visit(&mut self, matcher: &PatternMatcher, entries: &Vec<DirEntryInfo>)
        requires
            old(self).wf(),
            old(self).visited < old(self).queue@.len(),
            matcher.wf(),
            forall|k: int| 0 <= k < entries@.len() ==> valid_name((#[trigger] entries@[k]).name@),
            old(self).processed + entries@.len() <= usize::MAX,
        ensures
            final(self).wf(),
            final(self).visited == old(self).visited + 1,
            final(self).processed == old(self).processed + entries@.len(),
            final(self).limit == old(self).limit,
            final(self).assigned == old(self).assigned,
            final(self).report_assigned == old(self).report_assigned,
            final(self).queue@.subrange(0, old(self).queue@.len() as int) == old(self).queue@,
            views(final(self).queue@) == views(old(self).queue@) + subdirs(
                old(self).queue@[old(self).visited as int]@,
                entries@,
                entries@.len() as int,
            ),
            forall|i: int|
                0 <= i < NUM_FILE_CATEGORIES ==> views((#[trigger] final(self).matches[i])@) == views(
                    old(self).matches[i]@,
                ) + old(self).own_record(*matcher, i) + found(
                    *matcher,
                    old(self).queue@[old(self).visited as int]@,
                    entries@,
                    entries@.len() as int,
                    i,
                ),
            forall|i: int|
                0 <= i < NUM_FILE_CATEGORIES ==> (#[trigger] final(self).hits[i])@.subrange(
                    0,
                    old(self).hits[i]@.len() as int,
                ) == old(self).hits[i]@,
            forall|i: int, k: int|
                0 <= i < NUM_FILE_CATEGORIES && old(self).hits[i]@.len() <= k < final(self).hits[i]@.len()
                    ==> (#[trigger] final(self).hits[i]@[k])@.len() == 0,
    {
        let ghost w0 = *self;
        let queued = self.queue.len();
        let dir = self.queue[self.visited].clone();
        let dir_hidden = is_hidden_path(&dir);
        if self.report_assigned || self.visited >= self.assigned {
            let name = base_name_of(&dir);
            if matcher.is_match(name.as_str()) {
                let rec = dir_record_of(&dir);
                let ghost before = self.matches;
                proof {
                    lemma_dir_record_hidden(dir@);
                }
                insert_entry_in_matches(&mut self.matches, rec, dir_hidden, false, false);
                let ghost hits_before = self.hits;
                insert_hits(&mut self.hits, Vec::new(), dir_hidden, false, false);
                proof {
                    let idx = category_index(dir_hidden, false, false);
                    assert forall|i: int, k: int|
                        0 <= i < NUM_FILE_CATEGORIES && 0 <= k < self.matches[i]@.len() implies (i >= 3)
                            == path_hidden((#[trigger] self.matches[i]@[k])@) by {
                        if i != idx || k < before[i]@.len() {
                            assert(self.matches[i]@[k] == before[i]@[k]);
                        }
                    }
                    assert forall|i: int| 0 <= i < NUM_FILE_CATEGORIES implies views(
                        (#[trigger] self.matches[i])@,
                    ) == views(before[i]@) + w0.own_record(*matcher, i) by {
                        assert(views(self.matches[i]@) =~= views(before[i]@) + w0.own_record(
                            *matcher,
                            i,
                        ));
                    }
                }
            } else {
                assert forall|i: int| 0 <= i < NUM_FILE_CATEGORIES implies views(
                    (#[trigger] self.matches[i])@,
                ) == views(w0.matches[i]@) + w0.own_record(*matcher, i) by {
                    assert(views(self.matches[i]@) =~= views(w0.matches[i]@) + w0.own_record(
                        *matcher,
                        i,
                    ));
                }
            }
        } else {
            assert forall|i: int| 0 <= i < NUM_FILE_CATEGORIES implies views(
                (#[trigger] self.matches[i])@,
            ) == views(w0.matches[i]@) + w0.own_record(*matcher, i) by {
                assert(views(self.matches[i]@) =~= views(w0.matches[i]@) + w0.own_record(*matcher, i));
            }
        }
        assert forall|i: int| 0 <= i < NUM_FILE_CATEGORIES implies (#[trigger] self.hits[i])@.subrange(
            0,
            w0.hits[i]@.len() as int,
        ) == w0.hits[i]@ by {
            assert(self.hits[i]@.subrange(0, w0.hits[i]@.len() as int) =~= w0.hits[i]@);
        }
        assert(self.visited < queued);
        self.visited = self.visited + 1;
        let ghost mid = self.matches;
        let mut k: usize = 0;
        assert(views(self.queue@) =~= views(w0.queue@) + subdirs(dir@, entries@, 0));
        while k < entries.len()
            invariant
                self.wf(),
                matcher.wf(),
                dir@ == w0.queue@[w0.visited as int]@,
                dir@.len() > 0,
                dir_hidden == path_hidden(dir@),
                forall|j: int| 0 <= j < entries@.len() ==> valid_name((#[trigger] entries@[j]).name@),
                k <= entries@.len(),
                w0.processed + entries@.len() <= usize::MAX,
                self.visited == w0.visited + 1,
                self.processed == w0.processed + k,
                self.limit == w0.limit,
                self.assigned == w0.assigned,
                self.report_assigned == w0.report_assigned,
                self.queue@.len() >= w0.queue@.len(),
                self.queue@.subrange(0, w0.queue@.len() as int) == w0.queue@,
                views(self.queue@) == views(w0.queue@) + subdirs(dir@, entries@, k as int),
                forall|i: int|
                    0 <= i < NUM_FILE_CATEGORIES ==> views((#[trigger] self.matches[i])@) == views(
                        mid[i]@,
                    ) + found(*matcher, dir@, entries@, k as int, i),
                forall|i: int|
                    0 <= i < NUM_FILE_CATEGORIES ==> views((#[trigger] mid[i])@) == views(
                        w0.matches[i]@,
                    ) + w0.own_record(*matcher, i),
                forall|i: int|
                    0 <= i < NUM_FILE_CATEGORIES ==> (#[trigger] self.hits[i])@.len() >= w0.hits[i]@.len(),
                forall|i: int|
                    0 <= i < NUM_FILE_CATEGORIES ==> (#[trigger] self.hits[i])@.subrange(
                        0,
                        w0.hits[i]@.len() as int,
                    ) == w0.hits[i]@,
                forall|i: int, j: int|
                    0 <= i < NUM_FILE_CATEGORIES && w0.hits[i]@.len() <= j < self.hits[i]@.len()
                        ==> (#[trigger] self.hits[i]@[j])@.len() == 0,
            decreases entries@.len() - k,
        {
            self.processed = self.processed + 1;
            let e = &entries[k];
            proof {
                assert(valid_name(entries@[k as int].name@));
            }
            match e.kind {
                EntryKind::Directory => {
                    let ghost q0 = self.queue@;
                    let p = join_path(&dir, &e.name);
                    self.queue.push(p);
                    proof {
                        assert(self.queue@.subrange(0, w0.queue@.len() as int) =~= q0.subrange(
                            0,
                            w0.queue@.len() as int,
                        ));
                        assert(views(self.queue@) =~= views(q0).push(p@));
                        assert forall|i: int| 0 <= i < NUM_FILE_CATEGORIES implies views(
                            (#[trigger] self.matches[i])@,
                        ) == views(mid[i]@) + found(*matcher, dir@, entries@, k + 1, i) by {
                            assert(!file_found(*matcher, dir@, entries@[k as int], i));
                        }
                    }
                },
                _ => {
                    let hit = matcher.is_match(e.name.as_str());
                    if hit {
                        let is_link = match e.kind {
                            EntryKind::Symlink => true,
                            _ => false,
                        };
                        let FoundFile { p, is_sym, is_hidden: hidden } = FoundFile::of_entry(
                            &dir,
                            dir_hidden,
                            &e.name,
                            is_link,
                        );
                        let ghost before = self.matches;
                        proof {
                            lemma_join_hidden(dir@, e.name@);
                        }
                        insert_entry_in_matches(&mut self.matches, p, hidden, true, is_sym);
                        let ghost hits_before = self.hits;
                        insert_hits(&mut self.hits, Vec::new(), hidden, true, is_sym);
                        proof {
                            let idx = category_index(hidden, true, is_sym);
                            assert forall|i: int| 0 <= i < NUM_FILE_CATEGORIES implies (#[trigger] self.hits[i])@.subrange(
                                0,
                                w0.hits[i]@.len() as int,
                            ) == w0.hits[i]@ by {
                                assert(hits_before[i]@.subrange(0, w0.hits[i]@.len() as int) == w0.hits[i]@);
                                assert(self.hits[i]@.subrange(0, w0.hits[i]@.len() as int) =~= hits_before[i]@.subrange(
                                    0,
                                    w0.hits[i]@.len() as int,
                                ));
                            }
                            assert forall|i: int, j: int|
                                0 <= i < NUM_FILE_CATEGORIES && 0 <= j < self.matches[i]@.len() implies (i
                                    >= 3) == path_hidden((#[trigger] self.matches[i]@[j])@) by {
                                if i != idx || j < before[i]@.len() {
                                    assert(self.matches[i]@[j] == before[i]@[j]);
                                }
                            }
                            assert forall|i: int| 0 <= i < NUM_FILE_CATEGORIES implies views(
                                (#[trigger] self.matches[i])@,
                            ) == views(mid[i]@) + found(*matcher, dir@, entries@, k + 1, i) by {
                                if i == idx {
                                    assert(file_found(*matcher, dir@, entries@[k as int], i));
                                    assert(views(self.matches[i]@) =~= views(before[i]@).push(p@));
                                } else {
                                    assert(!file_found(*matcher, dir@, entries@[k as int], i));
                                    assert(views(self.matches[i]@) =~= views(before[i]@));
                                }
                            }
                        }
                    } else {
                        assert forall|i: int| 0 <= i < NUM_FILE_CATEGORIES implies views(
                            (#[trigger] self.matches[i])@,
                        ) == views(mid[i]@) + found(*matcher, dir@, entries@, k + 1, i) by {
                            assert(!file_found(*matcher, dir@, entries@[k as int], i));
                        }
                    }
                },
            }
            k = k + 1;
        }
    }

    /// Takes in the listing of the next directory in content mode: each file
    /// or symlink read as `contents` (`None` when it could not be read) is
    /// recorded with its matching lines when it has any; each subdirectory is
    /// queued.
    pub fn visit_content(
        &mut self,
        matcher: &PatternMatcher,
        entries: &Vec<DirEntryInfo>,
        contents: &Vec<Option<Vec<Option<String>>>>,
    )
        requires
            old(self).wf(),
            old(self).visited < old(self).queue@.len(),
            matcher.wf(),
            forall|k: int| 0 <= k < entries@.len() ==> valid_name((#[trigger] entries@[k]).name@),
            old(self).processed + entries@.len() <= usize::MAX,
            contents@.len() == entries@.len(),
            forall|k: int|
                0 <= k < contents@.len() ==> (#[trigger] contents@[k] matches Some(lines) ==> lines@.len()
                    < usize::MAX),
        ensures
            final(self).wf(),
            final(self).visited == old(self).visited + 1,
            final(self).processed == old(self).processed + entries@.len(),
            final(self).limit == old(self).limit,
            final(self).assigned == old(self).assigned,
            final(self).report_assigned == old(self).report_assigned,
            final(self).queue@.subrange(0, old(self).queue@.len() as int) == old(self).queue@,
            views(final(self).queue@) == views(old(self).queue@) + subdirs(
                old(self).queue@[old(self).visited as int]@,
                entries@,
                entries@.len() as int,
            ),
            forall|i: int|
                0 <= i < NUM_FILE_CATEGORIES ==> views((#[trigger] final(self).matches[i])@) == views(
                    old(self).matches[i]@,
                ) + grep_found(
                    *matcher,
                    old(self).queue@[old(self).visited as int]@,
                    entries@,
                    contents@,
                    entries@.len() as int,
                    i,
                ),
            forall|i: int|
                0 <= i < NUM_FILE_CATEGORIES ==> hit_views((#[trigger] final(self).hits[i])@) == hit_views(
                    old(self).hits[i]@,
                ) + grep_lines_found(
                    *matcher,
                    old(self).queue@[old(self).visited as int]@,
                    entries@,
                    contents@,
                    entries@.len() as int,
                    i,
                ),
    {
        let ghost w0 = *self;
        let queued = self.queue.len();
        let dir = self.queue[self.visited].clone();
        let dir_hidden = is_hidden_path(&dir);
        assert(self.visited < queued);
        self.visited = self.visited + 1;
        let mut k: usize = 0;
        assert(views(self.queue@) =~= views(w0.queue@) + subdirs(dir@, entries@, 0));
        assert forall|i: int| 0 <= i < NUM_FILE_CATEGORIES implies views((#[trigger] self.matches[i])@)
            == views(w0.matches[i]@) + grep_found(*matcher, dir@, entries@, contents@, 0, i) by {
            assert(views(self.matches[i]@) =~= views(w0.matches[i]@) + grep_found(
                *matcher,
                dir@,
                entries@,
                contents@,
                0,
                i,
            ));
        }
        assert forall|i: int| 0 <= i < NUM_FILE_CATEGORIES implies hit_views((#[trigger] self.hits[i])@)
            == hit_views(w0.hits[i]@) + grep_lines_found(*matcher, dir@, entries@, contents@, 0, i) by {
            assert(hit_views(self.hits[i]@) =~= hit_views(w0.hits[i]@) + grep_lines_found(
                *matcher,
                dir@,
                entries@,
                contents@,
                0,
                i,
            ));
        }
        while k < entries.len()
            invariant
                self.wf(),
                matcher.wf(),
                dir@ == w0.queue@[w0.visited as int]@,
                dir@.len() > 0,
                dir_hidden == path_hidden(dir@),
                forall|j: int| 0 <= j < entries@.len() ==> valid_name((#[trigger] entries@[j]).name@),
                contents@.len() == entries@.len(),
                forall|j: int|
                    0 <= j < contents@.len() ==> (#[trigger] contents@[j] matches Some(lines)
                        ==> lines@.len() < usize::MAX),
                k <= entries@.len(),
                w0.processed + entries@.len() <= usize::MAX,
                self.visited == w0.visited + 1,
                self.processed == w0.processed + k,
                self.limit == w0.limit,
                self.assigned == w0.assigned,
                self.report_assigned == w0.report_assigned,
                self.queue@.len() >= w0.queue@.len(),
                self.queue@.subrange(0, w0.queue@.len() as int) == w0.queue@,
                views(self.queue@) == views(w0.queue@) + subdirs(dir@, entries@, k as int),
                forall|i: int|
                    0 <= i < NUM_FILE_CATEGORIES ==> views((#[trigger] self.matches[i])@) == views(
                        w0.matches[i]@,
                    ) + grep_found(*matcher, dir@, entries@, contents@, k as int, i),
                forall|i: int|
                    0 <= i < NUM_FILE_CATEGORIES ==> hit_views((#[trigger] self.hits[i])@) == hit_views(
                        w0.hits[i]@,
                    ) + grep_lines_found(*matcher, dir@, entries@, contents@, k as int, i),
            decreases entries@.len() - k,
        {
            self.processed = self.processed + 1;
            let e = &entries[k];
            proof {
                assert(valid_name(entries@[k as int].name@));
            }
            match e.kind {
                EntryKind::Directory => {
                    let ghost q0 = self.queue@;
                    let p = join_path(&dir, &e.name);
                    self.queue.push(p);
                    proof {
                        assert(self.queue@.subrange(0, w0.queue@.len() as int) =~= q0.subrange(
                            0,
                            w0.queue@.len() as int,
                        ));
                        assert(views(self.queue@) =~= views(q0).push(p@));
                        assert forall|i: int| 0 <= i < NUM_FILE_CATEGORIES implies !grep_hit(
                            *matcher,
                            dir@,
                            entries@[k as int],
                            #[trigger] contents@[k as int],
                            i,
                        ) by {}
                    }
                },
                _ => {
                    let found = match &contents[k] {
                        Some(lines) => matcher.grep_lines(lines),
                        None => Vec::new(),
                    };
                    if found.len() > 0 {
                        let is_link = match e.kind {
                            EntryKind::Symlink => true,
                            _ => false,
                        };
                        let FoundFile { p, is_sym, is_hidden: hidden } = FoundFile::of_entry(
                            &dir,
                            dir_hidden,
                            &e.name,
                            is_link,
                        );
                        let ghost before = self.matches;
                        let ghost hits_before = self.hits;
                        let ghost found_v = found@;
                        proof {
                            lemma_join_hidden(dir@, e.name@);
                        }
                        insert_entry_in_matches(&mut self.matches, p, hidden, true, is_sym);
                        insert_hits(&mut self.hits, found, hidden, true, is_sym);
                        proof {
                            let idx = category_index(hidden, true, is_sym);
                            assert forall|i: int, j: int|
                                0 <= i < NUM_FILE_CATEGORIES && 0 <= j < self.matches[i]@.len() implies (i
                                    >= 3) == path_hidden((#[trigger] self.matches[i]@[j])@) by {
                                if i != idx || j < before[i]@.len() {
                                    assert(self.matches[i]@[j] == before[i]@[j]);
                                }
                            }
                            assert forall|i: int| 0 <= i < NUM_FILE_CATEGORIES implies views(
                                (#[trigger] self.matches[i])@,
                            ) == views(w0.matches[i]@) + grep_found(
                                *matcher,
                                dir@,
                                entries@,
                                contents@,
                                k + 1,
                                i,
                            ) by {
                                if i == idx {
                                    assert(grep_hit(*matcher, dir@, entries@[k as int], contents@[k as int], i));
                                    assert(views(self.matches[i]@) =~= views(before[i]@).push(p@));
                                } else {
                                    assert(!grep_hit(*matcher, dir@, entries@[k as int], contents@[k as int], i));
                                    assert(views(self.matches[i]@) =~= views(before[i]@));
                                }
                            }
                            assert forall|i: int| 0 <= i < NUM_FILE_CATEGORIES implies hit_views(
                                (#[trigger] self.hits[i])@,
                            ) == hit_views(w0.hits[i]@) + grep_lines_found(
                                *matcher,
                                dir@,
                                entries@,
                                contents@,
                                k + 1,
                                i,
                            ) by {
                                if i == idx {
                                    assert(grep_hit(*matcher, dir@, entries@[k as int], contents@[k as int], i));
                                    assert(hit_views(self.hits[i]@) =~= hit_views(hits_before[i]@).push(found_v));
                                } else {
                                    assert(!grep_hit(*matcher, dir@, entries@[k as int], contents@[k as int], i));
                                    assert(hit_views(self.hits[i]@) =~= hit_views(hits_before[i]@));
                                }
                            }
                        }
                    } else {
                        assert forall|i: int| 0 <= i < NUM_FILE_CATEGORIES implies !grep_hit(
                            *matcher,
                            dir@,
                            entries@[k as int],
                            #[trigger] contents@[k as int],
                            i,
                        ) by {}
                    }
                },
            }
            k = k + 1;
        }
    }

    /// Ends the walk: hands back the directories not read, and the six buckets
    /// with each record rendered (its path, then its matching lines) and
    /// decorated per `label_pos` after its bucket's properties.
    pub fn finish(self, label_pos: i8) -> (r: (Vec<String>, [Vec<String>; NUM_FILE_CATEGORIES]))
        requires
            self.wf(),
        ensures
            r.0@ == self.overflow(),
            forall|i: int|
                0 <= i < NUM_FILE_CATEGORIES ==> views((#[trigger] r.1[i])@) == labeled_all(
                    blocks(self.matches[i]@, self.hits[i]@),
                    label_pos,
                    i,
                ),
    {
        let mut queue = self.queue;
        let overflow = queue.split_off(self.visited);
        let m = self.matches;
        let h = self.hits;
        let r: [Vec<String>; NUM_FILE_CATEGORIES] = [
            label_bucket(&m[0], &h[0], label_pos, false, true, false),
            label_bucket(&m[1], &h[1], label_pos, false, true, true),
            label_bucket(&m[2], &h[2], label_pos, false, false, false),
            label_bucket(&m[3], &h[3], label_pos, true, true, false),
            label_bucket(&m[4], &h[4], label_pos, true, true, true),
            label_bucket(&m[5], &h[5], label_pos, true, false, false),
        ];
        (overflow, r)
    }
}

/// The rendered records of a bucket: each path followed by its matching lines.
pub open spec fn blocks(paths: Seq<String>, hits: Seq<Vec<(usize, String)>>) -> Seq<Seq<char>> {
    Seq::new(paths.len(), |k: int| block(paths[k]@, hits[k]@))
}

/// Appends `h` to the hit lists of the category of its properties.
fn insert_hits(
    hits: &mut [Vec<Vec<(usize, String)>>; NUM_FILE_CATEGORIES],
    h: Vec<(usize, String)>,
    hidden: bool,
    file: bool,
    symlink: bool,
)
    ensures
        forall|i: int|
            0 <= i < NUM_FILE_CATEGORIES ==> (#[trigger] final(hits)[i])@ == if i == category_index(
                hidden,
                file,
                symlink,
            ) {
                old(hits)[i]@.push(h)
            } else {
                old(hits)[i]@
            },
{
    let offset: usize = if !file { 2 } else if symlink { 1 } else { 0 };
    let idx: usize = if hidden { 3 + offset } else { offset };
    hits[idx].push(h);
}

/// Records of bucket `i` decorated per `label_pos` after the bucket's
/// properties (hidden from 3 on; file unless a directory bucket; symlink in 1 and 4).
pub open spec fn labeled_all(v: Seq<Seq<char>>, label_pos: i8, i: int) -> Seq<Seq<char>> {
    v.map_values(|p: Seq<char>| labeled(p, label_pos, i >= 3, i % 3 != 2, i % 3 == 1))
}

/// Renders and decorates each record of a bucket.
fn label_bucket(
    v: &Vec<String>,
    h: &Vec<Vec<(usize, String)>>,
    label_pos: i8,
    hidden: bool,
    file: bool,
    symlink: bool,
) -> (r: Vec<String>)
    requires
        h@.len() == v@.len(),
    ensures
        views(r@) == blocks(v@, h@).map_values(|p: Seq<char>| labeled(p, label_pos, hidden, file, symlink)),
{
    let mut out: Vec<String> = Vec::new();
    let mut k: usize = 0;
    while k < v.len()
        invariant
            h@.len() == v@.len(),
            k <= v@.len(),
            out@.len() == k,
            forall|j: int|
                0 <= j < k ==> (#[trigger] out@[j])@ == labeled(
                    block(v@[j]@, h@[j]@),
                    label_pos,
                    hidden,
                    file,
                    symlink,
                ),
        decreases v@.len() - k,
    {
        let text = render_block(&v[k], &h[k]);
        let l = add_label(&text, label_pos, hidden, file, symlink);
        out.push(l);
        k = k + 1;
    }
    assert(views(out@) =~= blocks(v@, h@).map_values(
        |p: Seq<char>| labeled(p, label_pos, hidden, file, symlink),
    ));
    out
}

/// Each record of a walk lies among the hidden buckets exactly when some
/// component of its path, the first one included, is a name starting with a dot
/// (`.` and `..` are steps, not names); with
/// `lemma_join_hidden`, an entry is hidden when its directory is or its own name
/// starts with a dot.
pub proof fn lemma_records_hidden(w: Walker, i: int, k: int)
    requires
        w.wf(),
        0 <= i < NUM_FILE_CATEGORIES,
        0 <= k < w.matches[i]@.len(),
    ensures
        (i >= 3) == path_hidden(w.matches[i]@[k]@),
{
}

/// No directory of a walk is lost or read twice: the directories read, followed by
/// those handed back, are exactly the queue (which starts with the directories
/// the walk was given), and when no directory was queued twice none is both read
/// and handed back.
pub proof fn lemma_walk_partition(w: Walker)
    requires
        w.wf(),
    ensures
        w.traversed() + w.overflow() == w.queue@,
        w.traversed().to_multiset().add(w.overflow().to_multiset()) == w.queue@.to_multiset(),
        w.queue@.no_duplicates() ==> forall|x: String|
            w.traversed().contains(x) ==> !#[trigger] w.overflow().contains(x),
{
    assert(w.traversed() + w.overflow() =~= w.queue@);
    vstd::seq_lib::lemma_multiset_commutative(w.traversed(), w.overflow());
    if w.queue@.no_duplicates() {
        assert forall|x: String| w.traversed().contains(x) implies !#[trigger] w.overflow().contains(x) by {
            if w.overflow().contains(x) {
                let i = choose|i: int| 0 <= i < w.traversed().len() && w.traversed()[i] == x;
                let j = choose|j: int| 0 <= j < w.overflow().len() && w.overflow()[j] == x;
                assert(w.queue@[i] == x);
                assert(w.queue@[w.visited + j] == x);
            }
        }
    }
}

} // verus!
