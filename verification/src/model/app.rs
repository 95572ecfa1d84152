//! The application: a stack of temporary files that text is piped through.

use vstd::prelude::*;
use vstd::string::*;
use crate::model::disk::{ChangeView, Disk, DiskView};
use crate::model::error::{done_view, printed_view, AppError, AppErrorView};
use crate::model::opts::{requested, Maintenance, Options, OptionsView, Streams, StreamsView};
use crate::model::state::{StateView, TempState};
use crate::util::consts::{FILE_LIST_FILE, TEMPFILE_PREFIX, TEMP_DIR};
use crate::util::decimal::{decimal, decimal_text, index_value, parse_index};
use crate::util::paths::{join, joined, parent, parent_of};
use crate::util::utils::{ends_lines, lines, paths_from_text, paths_to_text, registry_text};

verus! {

/// The slot that an index text selects. Slots are counted from 1, oldest
/// first; text that is no number, and a number that is no index of the stack,
/// select nothing.
pub open spec fn resolve_slot(stack: Seq<Seq<char>>, index: Seq<char>) -> Option<Seq<char>> {
    match index_value(index) {
        Some(n) => if 1 <= n <= stack.len() {
            Some(stack[n - 1])
        } else {
            None
        },
        None => None,
    }
}

/// The line that introduces a slot in a listing: its index and its path.
pub open spec fn slot_heading(index: nat, path: Seq<char>) -> Seq<char> {
    decimal(index) + seq![':', ' '] + path + seq!['\n']
}

/// The listing of a stack: the heading of each slot, oldest first.
pub open spec fn listing(stack: Seq<Seq<char>>) -> Seq<char>
    decreases stack.len(),
{
    if stack.len() == 0 {
        Seq::empty()
    } else {
        listing(stack.drop_last()) + slot_heading(stack.len(), stack.last())
    }
}

/// The content of a file for a listing: nothing where the file cannot be read.
pub open spec fn shown(content: Option<Seq<char>>) -> Seq<char> {
    match content {
        Some(text) => text,
        None => Seq::empty(),
    }
}

/// The listing of a stack with contents: below the heading of each slot the
/// content of its file, and a newline.
pub open spec fn listing_with_contents(stack: Seq<Seq<char>>, disk: DiskView) -> Seq<char>
    decreases stack.len(),
{
    if stack.len() == 0 {
        Seq::empty()
    } else {
        listing_with_contents(stack.drop_last(), disk) + slot_heading(stack.len(), stack.last())
            + shown(disk.contents(stack.last())) + seq!['\n']
    }
}

/// The text that enters the new slot of `state` in the registry: the path of
/// the slot and a newline. Where the registry holds text that does not end
/// where a line ends, a newline comes first, so that the path stands on a
/// line of its own.
pub open spec fn registry_line(state: StateView, disk: DiskView) -> Seq<char> {
    let line = state.new_temp_file + seq!['\n'];
    match disk.contents(state.master_record_file) {
        Some(held) => if ends_lines(held) {
            line
        } else {
            seq!['\n'] + line
        },
        None => line,
    }
}

/// The disk after the new slot of `state` is entered in the registry: its
/// path is added behind the text of the registry file, on a line of its own.
pub open spec fn registered(state: StateView, disk: DiskView) -> DiskView {
    disk.apply(
        ChangeView::Append { path: state.master_record_file, text: registry_line(state, disk) },
    )
}

/// The disk after all stored state is cleared: the directory of the registry
/// file is removed with everything below it. Where the path of the registry
/// names no directory, nothing is removed.
pub open spec fn cleared(state: StateView, disk: DiskView) -> DiskView {
    match parent_of(state.master_record_file) {
        Some(dir) => disk.apply(ChangeView::RemoveDirAll { path: dir }),
        None => disk,
    }
}

/// `state` after the options are taken over: silence is set where asked for,
/// and each of the file and the two selectors is replaced where one is given.
pub open spec fn with_options(state: StateView, opts: OptionsView) -> StateView {
    StateView {
        silent: state.silent || opts.silent,
        arg_file: if opts.file is Some {
            opts.file
        } else {
            state.arg_file
        },
        input_temp_file: if opts.input is Some {
            opts.input
        } else {
            state.input_temp_file
        },
        output_temp_file: if opts.output is Some {
            opts.output
        } else {
            state.output_temp_file
        },
        ..state
    }
}

/// What a maintenance action prints.
pub open spec fn maintenance_output(action: Maintenance, state: StateView, disk: DiskView) -> Seq<
    char,
> {
    match action {
        Maintenance::ListFiles => listing(state.temp_file_stack),
        Maintenance::ListContents => listing_with_contents(state.temp_file_stack, disk),
        Maintenance::Clear => Seq::empty(),
    }
}

/// The disk after a maintenance action. Only clearing changes it.
pub open spec fn maintained(action: Maintenance, state: StateView, disk: DiskView) -> DiskView {
    match action {
        Maintenance::Clear => cleared(state, disk),
        _ => disk,
    }
}

/// How taking in the input ends: the state and the disk after it, and
/// whether it failed.
pub struct Taken {
    pub state: StateView,
    pub disk: DiskView,
    pub result: Result<(), AppErrorView>,
}

/// How a run ends: the state and the disk after it, and what it printed or
/// how it failed.
pub struct Ran {
    pub state: StateView,
    pub disk: DiskView,
    pub result: Result<Seq<char>, AppErrorView>,
}

/// The disk after the buffer of `state` is captured in a new slot: the slot
/// is entered in the registry and the buffer is added to the slot's file.
pub open spec fn captured(state: StateView, disk: DiskView) -> DiskView {
    registered(state, disk).apply(
        ChangeView::Append { path: state.new_temp_file, text: state.buffer },
    )
}

/// Writing the buffer to where the input selector points. A selector that
/// resolves has its slot's file overwritten with the buffer; one that does not
/// is an error, and the disk is left alone. Without a selector the buffer is
/// captured in a new slot.
pub open spec fn stored(state: StateView, disk: DiskView) -> Taken {
    match state.input_temp_file {
        Some(index) => match resolve_slot(state.temp_file_stack, index) {
            Some(path) => Taken {
                state,
                disk: disk.apply(ChangeView::Overwrite { path, text: state.buffer }),
                result: Ok(()),
            },
            None => Taken { state, disk, result: Err(AppErrorView::InvalidInfile { index }) },
        },
        None => Taken { state, disk: captured(state, disk), result: Ok(()) },
    }
}

/// Taking in piped text: it becomes the buffer, and the buffer is stored.
pub open spec fn piped(state: StateView, text: Seq<char>, disk: DiskView) -> Taken {
    stored(StateView { buffer: text, ..state }, disk)
}

/// Taking in the input at a terminal. With a file named on the command line,
/// its content becomes the buffer and is stored. Without one the buffer is
/// filled from the newest slot, if the stack has any, and nothing is written.
/// A file that cannot be read is an error, and nothing changes.
pub open spec fn at_terminal(state: StateView, disk: DiskView) -> Taken {
    match state.arg_file {
        Some(file) => match disk.contents(file) {
            Some(text) => stored(StateView { buffer: text, ..state }, disk),
            None => Taken { state, disk, result: Err(AppErrorView::Unreadable { path: file }) },
        },
        None => if state.temp_file_stack.len() > 0 {
            let top = state.temp_file_stack.last();
            match disk.contents(top) {
                Some(text) => Taken {
                    state: StateView { buffer: text, ..state },
                    disk,
                    result: Ok(()),
                },
                None => Taken { state, disk, result: Err(AppErrorView::Unreadable { path: top }) },
            }
        } else {
            Taken { state, disk, result: Ok(()) }
        },
    }
}

/// Taking in the input: piped text where standard input is a pipe, else as
/// at a terminal.
pub open spec fn taken_in(state: StateView, streams: StreamsView, disk: DiskView) -> Taken {
    match streams.stdin {
        Some(text) => piped(state, text, disk),
        None => at_terminal(state, disk),
    }
}

/// What a run prints at its end. With an output selector that resolves, the
/// content of that slot's file, whatever the buffer holds; a selector that
/// does not resolve is an error, and so is a slot whose file cannot be read.
/// Without a selector the buffer, or nothing where the run is silent.
pub open spec fn emitted(state: StateView, disk: DiskView) -> Result<Seq<char>, AppErrorView> {
    match state.output_temp_file {
        Some(index) => match resolve_slot(state.temp_file_stack, index) {
            Some(path) => match disk.contents(path) {
                Some(text) => Ok(text),
                None => Err(AppErrorView::Unreadable { path }),
            },
            None => Err(AppErrorView::InvalidOutfile { index }),
        },
        None => if state.silent {
            Ok(Seq::empty())
        } else {
            Ok(state.buffer)
        },
    }
}

/// A whole run. A maintenance action, where the options ask for one, is all
/// that happens. Else the options are taken over, the input is taken in, and
/// unless that failed the output is printed.
pub open spec fn ran(state: StateView, opts: OptionsView, streams: StreamsView, disk: DiskView) -> Ran {
    match requested(opts) {
        Some(action) => Ran {
            state,
            disk: maintained(action, state, disk),
            result: Ok(maintenance_output(action, state, disk)),
        },
        None => {
            let taken = taken_in(with_options(state, opts), streams, disk);
            Ran {
                state: taken.state,
                disk: taken.disk,
                result: match taken.result {
                    Ok(_) => emitted(taken.state, taken.disk),
                    Err(e) => Err(e),
                },
            }
        },
    }
}

/// Path of the storage directory, below the system's temporary directory.
pub open spec fn storage_dir(temp_dir: Seq<char>) -> Seq<char> {
    joined(temp_dir, TEMP_DIR@)
}

/// Path of the registry file, in the storage directory.
pub open spec fn registry_path(temp_dir: Seq<char>) -> Seq<char> {
    joined(storage_dir(temp_dir), FILE_LIST_FILE@)
}

/// Path of the slot file of a run that starts at `now_ms`, in the storage
/// directory.
pub open spec fn slot_path(temp_dir: Seq<char>, now_ms: nat) -> Seq<char> {
    joined(storage_dir(temp_dir), TEMPFILE_PREFIX@ + decimal(now_ms))
}

/// Computes the path of the storage directory.
pub fn storage_dir_path(temp_dir: &str) -> (path: String)
    ensures
        path@ == storage_dir(temp_dir@),
{
    join(temp_dir, TEMP_DIR)
}

/// Computes the path of the registry file.
pub fn registry_file_path(temp_dir: &str) -> (path: String)
    ensures
        path@ == registry_path(temp_dir@),
{
    join(storage_dir_path(temp_dir).as_str(), FILE_LIST_FILE)
}

/// Computes the path of the slot file of a run that starts at `now_ms`.
pub fn slot_file_path(temp_dir: &str, now_ms: u128) -> (path: String)
    ensures
        path@ == slot_path(temp_dir@, now_ms as nat),
{
    let mut name: String = TEMPFILE_PREFIX.to_owned();
    name.append(decimal_text(now_ms).as_str());
    join(storage_dir_path(temp_dir).as_str(), name.as_str())
}

/// The paths that a run started below `temp_dir` looks at, given the text of
/// the registry, if there is one, and the file named on the command line, if
/// one is: the storage directory, the registry, the entries of the registry,
/// and that file.
pub open spec fn watch_list(
    temp_dir: Seq<char>,
    registry: Option<Seq<char>>,
    file: Option<Seq<char>>,
) -> Seq<Seq<char>> {
    seq![storage_dir(temp_dir), registry_path(temp_dir)] + (match registry {
        Some(text) => lines(text),
        None => Seq::empty(),
    }) + (match file {
        Some(path) => seq![path],
        None => Seq::empty(),
    })
}

/// Lists the paths that a run started below `temp_dir` looks at.
pub fn watched_paths(temp_dir: &str, registry: Option<&str>, file: Option<&str>) -> (paths: Vec<
    String,
>)
    ensures
        paths.deep_view() == watch_list(temp_dir@, registry.deep_view(), file.deep_view()),
{
    let mut paths: Vec<String> = Vec::new();
    paths.push(storage_dir_path(temp_dir));
    paths.push(registry_file_path(temp_dir));
    assert(paths.deep_view() =~= seq![storage_dir(temp_dir@), registry_path(temp_dir@)]);
    let ghost head = paths.deep_view();
    let ghost entries = match registry.deep_view() {
        Some(text) => lines(text),
        None => Seq::empty(),
    };
    match registry {
        Some(text) => {
            let mut listed: Vec<String> = paths_from_text(text);
            assert(listed.deep_view() == entries);
            paths.append(&mut listed);
        },
        None => {},
    }
    assert(paths.deep_view() =~= head + entries);
    match file {
        Some(path) => {
            paths.push(path.to_owned());
            assert(paths.deep_view() =~= head + entries + seq![path@]);
        },
        None => {
            assert(paths.deep_view() =~= head + entries + Seq::<Seq<char>>::empty());
        },
    }
    paths
}

/// The entries of the registry file `master`, in their order. Where there is
/// no such file, there are none.
pub open spec fn registry_entries(disk: DiskView, master: Seq<char>) -> Seq<Seq<char>> {
    match disk.contents(master) {
        Some(text) => lines(text),
        None => Seq::empty(),
    }
}

/// Those of `paths` that name something on the disk, in their order.
pub open spec fn surviving(disk: DiskView, paths: Seq<Seq<char>>) -> Seq<Seq<char>> {
    paths.filter(|p: Seq<char>| disk.present(p))
}

/// The disk with the storage directory: it is created where nothing has its
/// path.
pub open spec fn with_storage(disk: DiskView, temp_dir: Seq<char>) -> DiskView {
    if disk.present(storage_dir(temp_dir)) {
        disk
    } else {
        disk.apply(ChangeView::CreateDir { path: storage_dir(temp_dir) })
    }
}

/// The stack that a run loads: the entries of the registry that still name
/// something on the disk. Without a registry the stack is empty.
pub open spec fn loaded_stack(disk: DiskView, temp_dir: Seq<char>) -> Seq<Seq<char>> {
    let found = with_storage(disk, temp_dir);
    let master = registry_path(temp_dir);
    if found.present(master) {
        surviving(found, registry_entries(found, master))
    } else {
        Seq::empty()
    }
}

/// The disk after a run has loaded its stack. The storage directory and the
/// registry file are created where they are missing. A registry with entries
/// that name nothing any more is written anew with those that are left; one
/// without such entries is not touched.
pub open spec fn loaded_disk(disk: DiskView, temp_dir: Seq<char>) -> DiskView {
    let found = with_storage(disk, temp_dir);
    let master = registry_path(temp_dir);
    if found.present(master) {
        let entries = registry_entries(found, master);
        let kept = surviving(found, entries);
        if kept == entries {
            found
        } else {
            found.apply(ChangeView::Overwrite { path: master, text: registry_text(kept) })
        }
    } else {
        found.apply(ChangeView::CreateFile { path: master })
    }
}

/// The state that a run starts in at the time `now_ms`, with its storage
/// below `temp_dir`: the stack as loaded, an empty buffer, nothing selected.
pub open spec fn started(disk: DiskView, temp_dir: Seq<char>, now_ms: nat) -> StateView {
    StateView::initial(
        slot_path(temp_dir, now_ms),
        registry_path(temp_dir),
        loaded_stack(disk, temp_dir),
        None,
        Seq::empty(),
    )
}

/// Keeps those of `paths` that name something on the disk, and says whether
/// that is all of them.
fn existing(paths: &Vec<String>, disk: &Disk) -> (found: (Vec<String>, bool))
    ensures
        found.0.deep_view() == surviving(disk@, paths.deep_view()),
        found.1 == (found.0.deep_view() == paths.deep_view()),
{
    let ghost all = paths.deep_view();
    let ghost there = |p: Seq<char>| disk@.present(p);
    let mut kept: Vec<String> = Vec::new();
    let mut complete: bool = true;
    let mut i: usize = 0;
    proof {
        reveal(Seq::filter);
        assert(all.take(0) =~= Seq::<Seq<char>>::empty());
        assert(kept.deep_view() =~= Seq::<Seq<char>>::empty());
    }
    while i < paths.len()
        invariant
            i <= paths.len(),
            all == paths.deep_view(),
            there == |p: Seq<char>| disk@.present(p),
            kept.deep_view() == all.take(i as int).filter(there),
            complete == (kept.deep_view() == all.take(i as int)),
        decreases paths.len() - i,
    {
        let ghost before = kept.deep_view();
        proof {
            reveal(Seq::filter);
            let now = all.take(i + 1);
            assert(now.drop_last() =~= all.take(i as int));
            assert(now.last() == paths[i as int]@);
            all.take(i as int).lemma_filter_len(there);
        }
        if disk.present(paths[i].as_str()) {
            kept.push(paths[i].clone());
            proof {
                assert(kept.deep_view() =~= before.push(paths[i as int]@));
                if kept.deep_view() == all.take(i + 1) {
                    assert(before =~= all.take(i + 1).drop_last());
                }
                if before == all.take(i as int) {
                    assert(kept.deep_view() =~= all.take(i + 1));
                }
            }
        } else {
            complete = false;
        }
        i = i + 1;
    }
    assert(all.take(i as int) =~= all);
    (kept, complete)
}

/// The application.
pub struct TempApp {
    state: TempState,
}

impl View for TempApp {
    type V = StateView;

    closed spec fn view(&self) -> StateView {
        self.state@
    }
}

impl TempApp {
    /// Starts a run at the time `now_ms`, with its storage below `temp_dir`:
    /// makes sure that the storage directory and the registry are there, and
    /// loads the stack from the registry, which loses the entries that name
    /// nothing any more.
    pub fn new(temp_dir: &str, now_ms: u128, disk: &mut Disk) -> (app: TempApp)
        ensures
            app@ == started(old(disk)@, temp_dir@, now_ms as nat),
            final(disk)@ == loaded_disk(old(disk)@, temp_dir@),
    {
        let our_temp_dir: String = storage_dir_path(temp_dir);
        let out_file: String = slot_file_path(temp_dir, now_ms);
        let master_file: String = registry_file_path(temp_dir);
        if !disk.present(our_temp_dir.as_str()) {
            disk.create_dir(our_temp_dir.as_str());
        }
        let ghost found = disk@;
        assert(found == with_storage(old(disk)@, temp_dir@));
        let temp_file_stack: Vec<String> = if disk.present(master_file.as_str()) {
            let paths: Vec<String> = match disk.file_contents(master_file.as_str()) {
                Some(text) => paths_from_text(text.as_str()),
                None => Vec::new(),
            };
            assert(paths.deep_view() =~= registry_entries(found, master_file@));
            let (exist, complete) = existing(&paths, disk);
            if !complete {
                disk.overwrite_file(master_file.as_str(), paths_to_text(&exist).as_str());
            }
            exist
        } else {
            disk.create_file(master_file.as_str());
            let empty: Vec<String> = Vec::new();
            assert(empty.deep_view() =~= Seq::<Seq<char>>::empty());
            empty
        };
        let state = TempState::new(out_file, master_file, temp_file_stack, None, String::new());
        assert(None::<String>.deep_view() == None::<Seq<char>>);
        TempApp { state }
    }

    /// The state of the run, to read and to change.
    pub fn state(&mut self) -> (state: &mut TempState)
        ensures
            state@ == old(self)@,
            final(self)@ == final(state)@,
    {
        &mut self.state
    }

    /// The path of the slot that the index text `f` selects, counted from 1
    /// at the oldest slot. Text that is no number selects no slot, just as a
    /// number does that is 0 or larger than the stack is long.
    pub fn stack_file_from_idx(&self, f: &str) -> (path: Option<&String>)
        ensures
            path.deep_view() == resolve_slot(self@.temp_file_stack, f@),
    {
        let stack: &Vec<String> = self.state.temp_file_stack();
        assert(stack.deep_view().len() == stack.len());
        match parse_index(f) {
            Some(idx) => {
                if idx < 1 || idx > stack.len() {
                    None
                } else {
                    let slot: &String = &stack[idx - 1];
                    assert(stack.deep_view()[idx - 1] == slot@);
                    Some(slot)
                }
            },
            None => None,
        }
    }

    /// Enters the new slot in the registry: adds its path behind the text
    /// of the registry, on a line of its own. A registry whose last line
    /// lacks its newline gets that newline first.
    pub fn append_temp_file_list(&self, disk: &mut Disk)
        ensures
            final(disk)@ == registered(self@, old(disk)@),
    {
        proof {
            reveal_strlit("\n");
        }
        let mut buffer: String = String::new();
        match disk.file_contents(self.state.master_record_file().as_str()) {
            Some(held) => {
                let n: usize = held.as_str().unicode_len();
                if n > 0 && held.as_str().get_char(n - 1) != '\n' {
                    buffer.append("\n");
                }
            },
            None => {},
        }
        let ghost start = buffer@;
        buffer.append(self.state.out_file_path_str().as_str());
        buffer.append("\n");
        assert(buffer@ =~= start + (self@.new_temp_file + seq!['\n']));
        assert(buffer@ =~= registry_line(self@, disk@));
        disk.append_file(self.state.master_record_file().as_str(), buffer.as_str());
    }

    /// The listing of the stack.
    pub fn list_files(&self) -> (text: String)
        ensures
            text@ == listing(self@.temp_file_stack),
    {
        let stack: &Vec<String> = self.state.temp_file_stack();
        let mut text: String = String::new();
        let mut i: usize = 0;
        assert(stack.deep_view().take(0) =~= Seq::<Seq<char>>::empty());
        while i < stack.len()
            invariant
                i <= stack.len(),
                text@ == listing(stack.deep_view().take(i as int)),
            decreases stack.len() - i,
        {
            let ghost before = text@;
            proof {
                reveal_strlit(": ");
                reveal_strlit("\n");
                let now = stack.deep_view().take(i + 1);
                assert(now.drop_last() =~= stack.deep_view().take(i as int));
                assert(now.last() == stack[i as int]@);
            }
            text.append(decimal_text((i + 1) as u128).as_str());
            text.append(": ");
            text.append(stack[i].as_str());
            text.append("\n");
            assert(text@ =~= before + slot_heading((i + 1) as nat, stack[i as int]@));
            i = i + 1;
        }
        assert(stack.deep_view().take(i as int) =~= stack.deep_view());
        text
    }

    /// The listing of the stack with the content of each slot.
    pub fn list_contents(&self, disk: &Disk) -> (text: String)
        ensures
            text@ == listing_with_contents(self@.temp_file_stack, disk@),
    {
        let stack: &Vec<String> = self.state.temp_file_stack();
        let mut text: String = String::new();
        let mut i: usize = 0;
        assert(stack.deep_view().take(0) =~= Seq::<Seq<char>>::empty());
        while i < stack.len()
            invariant
                i <= stack.len(),
                text@ == listing_with_contents(stack.deep_view().take(i as int), disk@),
            decreases stack.len() - i,
        {
            let ghost before = text@;
            proof {
                reveal_strlit(": ");
                reveal_strlit("\n");
                let now = stack.deep_view().take(i + 1);
                assert(now.drop_last() =~= stack.deep_view().take(i as int));
                assert(now.last() == stack[i as int]@);
            }
            text.append(decimal_text((i + 1) as u128).as_str());
            text.append(": ");
            text.append(stack[i].as_str());
            text.append("\n");
            match disk.file_contents(stack[i].as_str()) {
                Some(content) => {
                    text.append(content.as_str());
                },
                None => {},
            }
            text.append("\n");
            assert(text@ =~= before + slot_heading((i + 1) as nat, stack[i as int]@) + shown(
                disk@.contents(stack[i as int]@),
            ) + seq!['\n']);
            i = i + 1;
        }
        assert(stack.deep_view().take(i as int) =~= stack.deep_view());
        text
    }

    /// Clears all stored state.
    pub fn clear_all(&self, disk: &mut Disk)
        ensures
            final(disk)@ == cleared(self@, old(disk)@),
    {
        match parent(self.state.master_record_file().as_str()) {
            Some(dir) => {
                disk.remove_dir_all(dir.as_str());
            },
            None => {},
        }
    }

    /// Takes the options over. Where they ask for a maintenance action, that
    /// action is carried out instead, the state stays as it is, and what the
    /// action printed is returned: the run is over.
    pub fn parse_opts(&mut self, opts: &Options, disk: &mut Disk) -> (done: Option<String>)
        ensures
            match requested(opts@) {
                Some(action) => {
                    &&& final(self)@ == old(self)@
                    &&& final(disk)@ == maintained(action, old(self)@, old(disk)@)
                    &&& done.deep_view() == Some(
                        maintenance_output(action, old(self)@, old(disk)@),
                    )
                },
                None => {
                    &&& final(self)@ == with_options(old(self)@, opts@)
                    &&& final(disk)@ == old(disk)@
                    &&& done is None
                },
            },
    {
        if opts.list_files {
            return Some(self.list_files());
        }
        if opts.list_contents {
            return Some(self.list_contents(disk));
        }
        if opts.clear {
            self.clear_all(disk);
            return Some(String::new());
        }
        if opts.silent {
            self.state.set_silent(true);
        }
        match &opts.file {
            Some(f) => self.state.set_arg_file(Some(f.clone())),
            None => {},
        }
        match &opts.input {
            Some(f) => self.state.set_input_temp_file(Some(f.clone())),
            None => {},
        }
        match &opts.output {
            Some(f) => self.state.set_output_temp_file(Some(f.clone())),
            None => {},
        }
        None
    }

    /// Writes the buffer to where the input selector points.
    fn store_buffer(&self, disk: &mut Disk) -> (result: Result<(), AppError>)
        ensures
            final(disk)@ == stored(self@, old(disk)@).disk,
            done_view(result) == stored(self@, old(disk)@).result,
    {
        match self.state.input_temp_file() {
            Some(stk_idx) => match self.stack_file_from_idx(stk_idx.as_str()) {
                Some(f) => {
                    disk.overwrite_file(f.as_str(), self.state.buffer().as_str());
                    Ok(())
                },
                None => Err(AppError::InvalidInfile { index: stk_idx.clone() }),
            },
            None => {
                self.append_temp_file_list(disk);
                disk.append_file(
                    self.state.new_temp_file().as_str(),
                    self.state.buffer().as_str(),
                );
                Ok(())
            },
        }
    }

    /// Takes in text that was piped to standard input.
    pub fn if_stdin_pipe(&mut self, text: &str, disk: &mut Disk) -> (result: Result<(), AppError>)
        ensures
            final(self)@ == piped(old(self)@, text@, old(disk)@).state,
            final(disk)@ == piped(old(self)@, text@, old(disk)@).disk,
            done_view(result) == piped(old(self)@, text@, old(disk)@).result,
    {
        self.state.set_buffer(text.to_owned());
        self.store_buffer(disk)
    }

    /// Takes in the input where standard input is a terminal.
    pub fn if_stdin_terminal(&mut self, disk: &mut Disk) -> (result: Result<(), AppError>)
        ensures
            final(self)@ == at_terminal(old(self)@, old(disk)@).state,
            final(disk)@ == at_terminal(old(self)@, old(disk)@).disk,
            done_view(result) == at_terminal(old(self)@, old(disk)@).result,
    {
        match self.state.arg_file() {
            Some(arg_file) => match disk.file_contents(arg_file.as_str()) {
                Some(text) => {
                    self.state.set_buffer(text);
                    self.store_buffer(disk)
                },
                None => Err(AppError::Unreadable { path: arg_file.clone() }),
            },
            None => {
                let stack: &Vec<String> = self.state.temp_file_stack();
                let n: usize = stack.len();
                if n > 0 {
                    assert(stack.deep_view().last() == stack[n - 1]@);
                    match disk.file_contents(stack[n - 1].as_str()) {
                        Some(text) => {
                            self.state.set_buffer(text);
                            Ok(())
                        },
                        None => Err(AppError::Unreadable { path: stack[n - 1].clone() }),
                    }
                } else {
                    Ok(())
                }
            },
        }
    }

    /// Takes in the input of the run.
    pub fn input(&mut self, streams: &Streams, disk: &mut Disk) -> (result: Result<(), AppError>)
        ensures
            final(self)@ == taken_in(old(self)@, streams@, old(disk)@).state,
            final(disk)@ == taken_in(old(self)@, streams@, old(disk)@).disk,
            done_view(result) == taken_in(old(self)@, streams@, old(disk)@).result,
    {
        match &streams.stdin {
            Some(text) => self.if_stdin_pipe(text.as_str(), disk),
            None => self.if_stdin_terminal(disk),
        }
    }

    /// What the run prints: the content of the selected slot, or the buffer.
    pub fn print_buffer_or_stack_file(&self, disk: &Disk) -> (result: Result<String, AppError>)
        ensures
            printed_view(result) == emitted(self@, disk@),
    {
        match self.state.output_temp_file() {
            Some(stk_idx) => match self.stack_file_from_idx(stk_idx.as_str()) {
                Some(f) => match disk.file_contents(f.as_str()) {
                    Some(text) => Ok(text),
                    None => Err(AppError::Unreadable { path: f.clone() }),
                },
                None => Err(AppError::InvalidOutfile { index: stk_idx.clone() }),
            },
            None => {
                if !self.state.silent() {
                    Ok(self.state.buffer().clone())
                } else {
                    Ok(String::new())
                }
            },
        }
    }

    /// What the run prints where standard output is a terminal.
    pub fn if_stdout_terminal(&self, disk: &Disk) -> (result: Result<String, AppError>)
        ensures
            printed_view(result) == emitted(self@, disk@),
    {
        self.print_buffer_or_stack_file(disk)
    }

    /// What the run prints where standard output is a pipe.
    pub fn if_stdout_pipe(&self, disk: &Disk) -> (result: Result<String, AppError>)
        ensures
            printed_view(result) == emitted(self@, disk@),
    {
        self.print_buffer_or_stack_file(disk)
    }

    /// What the run prints. A pipe and a terminal are served alike.
    pub fn output(&self, streams: &Streams, disk: &Disk) -> (result: Result<String, AppError>)
        ensures
            printed_view(result) == emitted(self@, disk@),
    {
        if streams.stdout_is_pipe {
            self.if_stdout_pipe(disk)
        } else {
            self.if_stdout_terminal(disk)
        }
    }

    /// One run: the options, then the input, then the output. Returns what
    /// the run printed.
    pub fn run(&mut self, opts: &Options, streams: &Streams, disk: &mut Disk) -> (result: Result<
        String,
        AppError,
    >)
        ensures
            final(self)@ == ran(old(self)@, opts@, streams@, old(disk)@).state,
            final(disk)@ == ran(old(self)@, opts@, streams@, old(disk)@).disk,
            printed_view(result) == ran(old(self)@, opts@, streams@, old(disk)@).result,
    {
        match self.parse_opts(opts, disk) {
            Some(printed) => {
                return Ok(printed);
            },
            None => {},
        }
        match self.input(streams, disk) {
            Ok(_) => {},
            Err(e) => {
                return Err(e);
            },
        }
        self.output(streams, disk)
    }
}

} // verus!
