//! The files and directories that a run works on, held in memory, with a
//! journal of every change made to them.

use vstd::prelude::*;
use vstd::string::*;
use crate::util::paths::{inside, is_inside};

verus! {

/// One change to the disk.
#[derive(Clone, Debug, PartialEq, Eq)]
pub enum Change {
    /// The directory `path` is created.
    CreateDir { path: String },
    /// The file `path` is created empty; one that is there is emptied.
    CreateFile { path: String },
    /// `text` becomes the whole content of the file `path`.
    Overwrite { path: String, text: String },
    /// `text` is added behind the content of the file `path`; a file that is
    /// not there is created.
    Append { path: String, text: String },
    /// The directory `path` goes, with everything below it.
    RemoveDirAll { path: String },
}

/// A change, with its texts as sequences of characters.
pub enum ChangeView {
    CreateDir { path: Seq<char> },
    CreateFile { path: Seq<char> },
    Overwrite { path: Seq<char>, text: Seq<char> },
    Append { path: Seq<char>, text: Seq<char> },
    RemoveDirAll { path: Seq<char> },
}

impl View for Change {
    type V = ChangeView;

    open spec fn view(&self) -> ChangeView {
        match *self {
            Change::CreateDir { path } => ChangeView::CreateDir { path: path@ },
            Change::CreateFile { path } => ChangeView::CreateFile { path: path@ },
            Change::Overwrite { path, text } => ChangeView::Overwrite { path: path@, text: text@ },
            Change::Append { path, text } => ChangeView::Append { path: path@, text: text@ },
            Change::RemoveDirAll { path } => ChangeView::RemoveDirAll { path: path@ },
        }
    }
}

/// The changes of a journal, each by its view.
pub open spec fn changes_view(changes: Seq<Change>) -> Seq<ChangeView> {
    Seq::new(changes.len(), |i: int| changes[i]@)
}

/// The directories left of `dirs` once `dir` and everything below it is gone.
pub open spec fn dirs_outside(dirs: Set<Seq<char>>, dir: Seq<char>) -> Set<Seq<char>> {
    Set::new(|d: Seq<char>| dirs.contains(d) && d != dir && !is_inside(dir, d))
}

/// The files left of `files` once everything below `dir` is gone.
pub open spec fn files_outside(files: Map<Seq<char>, Seq<char>>, dir: Seq<char>) -> Map<
    Seq<char>,
    Seq<char>,
> {
    Map::new(|f: Seq<char>| files.contains_key(f) && !is_inside(dir, f), |f: Seq<char>| files[f])
}

/// What a disk holds: its directories, the content of each file by its path,
/// and the changes made so far, oldest first. A directory stands for all
/// that is there without a text to read.
#[verifier::ext_equal]
pub struct DiskView {
    pub dirs: Set<Seq<char>>,
    pub files: Map<Seq<char>, Seq<char>>,
    pub journal: Seq<ChangeView>,
}

impl DiskView {
    /// Whether `path` names a file or a directory.
    pub open spec fn present(self, path: Seq<char>) -> bool {
        self.dirs.contains(path) || self.files.contains_key(path)
    }

    /// The content of the file `path`, if there is such a file.
    pub open spec fn contents(self, path: Seq<char>) -> Option<Seq<char>> {
        if self.files.contains_key(path) {
            Some(self.files[path])
        } else {
            None
        }
    }

    /// The directories and files after `change`; the journal is left as it is.
    pub open spec fn changed(self, change: ChangeView) -> DiskView {
        match change {
            ChangeView::CreateDir { path } => DiskView { dirs: self.dirs.insert(path), ..self },
            ChangeView::CreateFile { path } => DiskView {
                files: self.files.insert(path, Seq::empty()),
                ..self
            },
            ChangeView::Overwrite { path, text } => DiskView {
                files: self.files.insert(path, text),
                ..self
            },
            ChangeView::Append { path, text } => DiskView {
                files: self.files.insert(
                    path,
                    if self.files.contains_key(path) {
                        self.files[path] + text
                    } else {
                        text
                    },
                ),
                ..self
            },
            ChangeView::RemoveDirAll { path } => DiskView {
                dirs: dirs_outside(self.dirs, path),
                files: files_outside(self.files, path),
                ..self
            },
        }
    }

    /// The disk after `change`, which the journal now ends with.
    pub open spec fn apply(self, change: ChangeView) -> DiskView {
        DiskView { journal: self.journal.push(change), ..self.changed(change) }
    }

    /// The directories and files after all of `changes`, in their order.
    pub open spec fn replay(self, changes: Seq<ChangeView>) -> DiskView
        decreases changes.len(),
    {
        if changes.len() == 0 {
            self
        } else {
            self.replay(changes.drop_last()).changed(changes.last())
        }
    }

    /// Whether `self` is `before` with more changes made: the journal of
    /// `before` goes on to that of `self`, and its further changes, made to
    /// the directories and files of `before`, give those of `self`.
    pub open spec fn follows(self, before: DiskView) -> bool {
        let added = self.journal.skip(before.journal.len() as int);
        &&& before.journal.is_prefix_of(self.journal)
        &&& before.replay(added).dirs == self.dirs
        &&& before.replay(added).files == self.files
    }
}

/// A disk follows itself, and what follows a disk still does after one more
/// change.
pub proof fn lemma_follows(before: DiskView, after: DiskView, change: ChangeView)
    ensures
        before.follows(before),
        after.follows(before) ==> after.apply(change).follows(before),
{
    assert(before.journal.skip(before.journal.len() as int) =~= Seq::<ChangeView>::empty());
    if after.follows(before) {
        let n = before.journal.len() as int;
        let next = after.apply(change);
        assert(next.journal.skip(n) =~= after.journal.skip(n).push(change));
        assert(next.journal.skip(n).drop_last() =~= after.journal.skip(n));
    }
}

struct FileEntry {
    path: String,
    text: String,
}

/// The content of each file by its path; of two entries with one path the
/// later one counts.
spec fn file_map(entries: Seq<FileEntry>) -> Map<Seq<char>, Seq<char>>
    decreases entries.len(),
{
    if entries.len() == 0 {
        Map::empty()
    } else {
        file_map(entries.drop_last()).insert(entries.last().path@, entries.last().text@)
    }
}

/// The position of the last entry for `path`, or -1.
spec fn last_entry(entries: Seq<FileEntry>, path: Seq<char>) -> int
    decreases entries.len(),
{
    if entries.len() == 0 {
        -1
    } else if entries.last().path@ == path {
        entries.len() - 1
    } else {
        last_entry(entries.drop_last(), path)
    }
}

proof fn lemma_last_entry(entries: Seq<FileEntry>, path: Seq<char>)
    ensures
        -1 <= last_entry(entries, path) < entries.len(),
        last_entry(entries, path) >= 0 ==> {
            &&& entries[last_entry(entries, path)].path@ == path
            &&& file_map(entries).contains_key(path)
            &&& file_map(entries)[path] == entries[last_entry(entries, path)].text@
        },
        last_entry(entries, path) < 0 ==> !file_map(entries).contains_key(path),
    decreases entries.len(),
{
    if entries.len() > 0 {
        lemma_last_entry(entries.drop_last(), path);
    }
}

proof fn lemma_file_map_update(entries: Seq<FileEntry>, k: int, entry: FileEntry)
    requires
        0 <= k < entries.len(),
        k == last_entry(entries, entry.path@),
    ensures
        file_map(entries.update(k, entry)) == file_map(entries).insert(entry.path@, entry.text@),
    decreases entries.len(),
{
    let after = entries.update(k, entry);
    lemma_last_entry(entries, entry.path@);
    if k == entries.len() - 1 {
        assert(after.drop_last() =~= entries.drop_last());
        assert(file_map(after) =~= file_map(entries).insert(entry.path@, entry.text@));
    } else {
        lemma_file_map_update(entries.drop_last(), k, entry);
        assert(after.drop_last() =~= entries.drop_last().update(k, entry));
        assert(after.last() == entries.last());
        assert(file_map(after) =~= file_map(entries).insert(entry.path@, entry.text@));
    }
}

/// The paths of a list of directories.
spec fn dir_set(dirs: Seq<String>) -> Set<Seq<char>>
    decreases dirs.len(),
{
    if dirs.len() == 0 {
        Set::empty()
    } else {
        dir_set(dirs.drop_last()).insert(dirs.last()@)
    }
}

proof fn lemma_dir_set(dirs: Seq<String>, path: Seq<char>)
    ensures
        dir_set(dirs).contains(path) <==> exists|i: int|
            0 <= i < dirs.len() && (#[trigger] dirs[i])@ == path,
    decreases dirs.len(),
{
    if dirs.len() > 0 {
        lemma_dir_set(dirs.drop_last(), path);
        if dir_set(dirs.drop_last()).contains(path) {
            let i = choose|i: int|
                0 <= i < dirs.drop_last().len() && (#[trigger] dirs.drop_last()[i])@ == path;
            assert(dirs[i]@ == path);
        }
        if exists|i: int| 0 <= i < dirs.len() && (#[trigger] dirs[i])@ == path {
            let i = choose|i: int| 0 <= i < dirs.len() && (#[trigger] dirs[i])@ == path;
            if i < dirs.len() - 1 {
                assert(dirs.drop_last()[i]@ == path);
            }
        }
    }
}

/// An in-memory disk.
pub struct Disk {
    dirs: Vec<String>,
    files: Vec<FileEntry>,
    journal: Vec<Change>,
}

impl View for Disk {
    type V = DiskView;

    closed spec fn view(&self) -> DiskView {
        DiskView {
            dirs: dir_set(self.dirs@),
            files: file_map(self.files@),
            journal: changes_view(self.journal@),
        }
    }
}

impl Disk {
    /// A disk without files or directories, and with an empty journal.
    pub fn new() -> (disk: Disk)
        ensures
            disk@ == (DiskView { dirs: Set::empty(), files: Map::empty(), journal: Seq::empty() }),
    {
        let disk = Disk { dirs: Vec::new(), files: Vec::new(), journal: Vec::new() };
        assert(disk@.dirs =~= Set::empty());
        assert(disk@.journal =~= Seq::empty());
        disk
    }

    /// Notes that the directory `path` is there; whatever else is there and
    /// has no text to read is noted in the same way. Nothing is written to
    /// the journal: this is how a disk is filled before a run.
    pub fn add_dir(&mut self, path: &str)
        ensures
            final(self)@ == (DiskView { dirs: old(self)@.dirs.insert(path@), ..old(self)@ }),
    {
        self.dirs.push(path.to_owned());
        assert(self.dirs@.drop_last() =~= old(self).dirs@);
    }

    /// Notes that the file `path` is there and holds `text`. Nothing is
    /// written to the journal: this is how a disk is filled before a run.
    pub fn add_file(&mut self, path: &str, text: &str)
        ensures
            final(self)@ == (DiskView { files: old(self)@.files.insert(path@, text@), ..old(self)@ }),
    {
        self.put(path, text.to_owned());
    }

    /// The changes made since the disk was filled, oldest first.
    pub fn changes(&self) -> (journal: &Vec<Change>)
        ensures
            changes_view(journal@) == self@.journal,
    {
        &self.journal
    }

    fn find(&self, path: &str) -> (at: Option<usize>)
        ensures
            match at {
                Some(k) => k < self.files.len() && k == last_entry(self.files@, path@),
                None => last_entry(self.files@, path@) == -1,
            },
    {
        let wanted: String = path.to_owned();
        let mut at: Option<usize> = None;
        let mut i: usize = 0;
        while i < self.files.len()
            invariant
                i <= self.files.len(),
                wanted@ == path@,
                match at {
                    Some(k) => k < i && k == last_entry(self.files@.take(i as int), path@),
                    None => last_entry(self.files@.take(i as int), path@) == -1,
                },
            decreases self.files.len() - i,
        {
            proof {
                let now = self.files@.take(i + 1);
                assert(now.drop_last() =~= self.files@.take(i as int));
                assert(now.last() == self.files@[i as int]);
            }
            if self.files[i].path == wanted {
                at = Some(i);
            }
            i = i + 1;
        }
        assert(self.files@.take(i as int) =~= self.files@);
        at
    }

    fn put(&mut self, path: &str, text: String)
        ensures
            final(self)@ == (DiskView { files: old(self)@.files.insert(path@, text@), ..old(self)@ }),
    {
        let entry = FileEntry { path: path.to_owned(), text };
        match self.find(path) {
            Some(k) => {
                proof {
                    lemma_file_map_update(self.files@, k as int, entry);
                }
                self.files.set(k, entry);
            },
            None => {
                self.files.push(entry);
                assert(self.files@.drop_last() =~= old(self).files@);
            },
        }
    }

    fn record(&mut self, change: Change)
        ensures
            final(self)@ == (DiskView { journal: old(self)@.journal.push(change@), ..old(self)@ }),
    {
        self.journal.push(change);
        assert(changes_view(self.journal@) =~= changes_view(old(self).journal@).push(change@));
    }

    /// Whether `path` names a directory.
    pub fn is_dir(&self, path: &str) -> (r: bool)
        ensures
            r == self@.dirs.contains(path@),
    {
        let wanted: String = path.to_owned();
        let mut i: usize = 0;
        while i < self.dirs.len()
            invariant
                i <= self.dirs.len(),
                wanted@ == path@,
                forall|j: int| 0 <= j < i ==> (#[trigger] self.dirs@[j])@ != path@,
            decreases self.dirs.len() - i,
        {
            if self.dirs[i] == wanted {
                proof {
                    lemma_dir_set(self.dirs@, path@);
                }
                return true;
            }
            i = i + 1;
        }
        proof {
            lemma_dir_set(self.dirs@, path@);
        }
        false
    }

    /// Whether `path` names a file or a directory.
    pub fn present(&self, path: &str) -> (r: bool)
        ensures
            r == self@.present(path@),
    {
        if self.is_dir(path) {
            return true;
        }
        proof {
            lemma_last_entry(self.files@, path@);
        }
        self.find(path).is_some()
    }

    /// The content of the file `path`; `None` where there is no such file.
    pub fn file_contents(&self, path: &str) -> (text: Option<String>)
        ensures
            text.deep_view() == self@.contents(path@),
    {
        proof {
            lemma_last_entry(self.files@, path@);
        }
        match self.find(path) {
            Some(k) => Some(self.files[k].text.clone()),
            None => None,
        }
    }

    /// Creates the directory `path`.
    pub fn create_dir(&mut self, path: &str)
        ensures
            final(self)@ == old(self)@.apply(ChangeView::CreateDir { path: path@ }),
    {
        self.add_dir(path);
        self.record(Change::CreateDir { path: path.to_owned() });
    }

    /// Creates the file `path`, empty.
    pub fn create_file(&mut self, path: &str)
        ensures
            final(self)@ == old(self)@.apply(ChangeView::CreateFile { path: path@ }),
    {
        self.put(path, String::new());
        self.record(Change::CreateFile { path: path.to_owned() });
    }

    /// Makes `text` the whole content of the file `path`.
    pub fn overwrite_file(&mut self, path: &str, text: &str)
        ensures
            final(self)@ == old(self)@.apply(ChangeView::Overwrite { path: path@, text: text@ }),
    {
        self.put(path, text.to_owned());
        self.record(Change::Overwrite { path: path.to_owned(), text: text.to_owned() });
    }

    /// Adds `text` behind the content of the file `path`.
    pub fn append_file(&mut self, path: &str, text: &str)
        ensures
            final(self)@ == old(self)@.apply(ChangeView::Append { path: path@, text: text@ }),
    {
        let whole: String = match self.file_contents(path) {
            Some(mut held) => {
                held.append(text);
                held
            },
            None => text.to_owned(),
        };
        self.put(path, whole);
        self.record(Change::Append { path: path.to_owned(), text: text.to_owned() });
    }

    /// Removes the directory `path` and everything below it.
    pub fn remove_dir_all(&mut self, path: &str)
        ensures
            final(self)@ == old(self)@.apply(ChangeView::RemoveDirAll { path: path@ }),
    {
        let gone: String = path.to_owned();
        let mut dirs: Vec<String> = Vec::new();
        let mut i: usize = 0;
        assert(self.dirs@.take(0) =~= Seq::<String>::empty());
        assert(dir_set(dirs@) =~= dirs_outside(dir_set(self.dirs@.take(0)), path@));
        while i < self.dirs.len()
            invariant
                i <= self.dirs.len(),
                gone@ == path@,
                dir_set(dirs@) == dirs_outside(dir_set(self.dirs@.take(i as int)), path@),
            decreases self.dirs.len() - i,
        {
            let ghost seen = self.dirs@.take(i as int);
            let ghost now = self.dirs@.take(i + 1);
            assert(now.drop_last() =~= seen);
            assert(now.last() == self.dirs@[i as int]);
            let stays: bool = self.dirs[i] != gone && !inside(path, self.dirs[i].as_str());
            if stays {
                let ghost kept = dirs@;
                dirs.push(self.dirs[i].clone());
                assert(dirs@.drop_last() =~= kept);
            }
            assert(dir_set(dirs@) =~= dirs_outside(dir_set(now), path@));
            i = i + 1;
        }
        assert(self.dirs@.take(i as int) =~= self.dirs@);
        let mut files: Vec<FileEntry> = Vec::new();
        let mut j: usize = 0;
        assert(self.files@.take(0) =~= Seq::<FileEntry>::empty());
        assert(file_map(files@) =~= files_outside(file_map(self.files@.take(0)), path@));
        while j < self.files.len()
            invariant
                j <= self.files.len(),
                file_map(files@) == files_outside(file_map(self.files@.take(j as int)), path@),
            decreases self.files.len() - j,
        {
            let ghost seen = self.files@.take(j as int);
            let ghost now = self.files@.take(j + 1);
            assert(now.drop_last() =~= seen);
            assert(now.last() == self.files@[j as int]);
            if !inside(path, self.files[j].path.as_str()) {
                let ghost kept = files@;
                files.push(
                    FileEntry { path: self.files[j].path.clone(), text: self.files[j].text.clone() },
                );
                assert(files@.drop_last() =~= kept);
            }
            assert(file_map(files@) =~= files_outside(file_map(now), path@));
            j = j + 1;
        }
        assert(self.files@.take(j as int) =~= self.files@);
        self.dirs = dirs;
        self.files = files;
        self.record(Change::RemoveDirAll { path: path.to_owned() });
    }
}

} // verus!
