//! What holds of the application, whatever the stack, the disk and the input.

use vstd::prelude::*;
use vstd::string::*;
use crate::model::app::{
    captured, loaded_disk, loaded_stack, ran, registered, registry_entries, registry_line,
    registry_path,
    resolve_slot, slot_path, started, storage_dir, stored, surviving, taken_in, with_options,
    with_storage, Ran,
};
use crate::model::disk::{lemma_follows, ChangeView, DiskView};
use crate::model::error::{exit_status, AppErrorView};
use crate::model::opts::{requested, Maintenance, OptionsView, StreamsView};
use crate::model::state::StateView;
use crate::util::consts::{FILE_LIST_FILE, TEMPFILE_PREFIX, TEMP_DIR};
use crate::util::decimal::{
    decimal, index_value, is_digit, lemma_decimal_digits, lemma_index_value_of_decimal,
};
use crate::util::paths::{
    is_inside, lemma_joined_component, lemma_joined_ends_in_component, parent_of,
};
use crate::util::utils::{
    ends_lines, is_line, lemma_lines_are_lines, lemma_lines_closed,
    lemma_lines_of_registry_text, lemma_lines_push, lines, registry_text,
};

verus! {

/// The positions in `paths` of the entries that name something on the disk,
/// in rising order.
pub open spec fn present_positions(disk: DiskView, paths: Seq<Seq<char>>) -> Seq<int>
    decreases paths.len(),
{
    if paths.len() == 0 {
        Seq::empty()
    } else {
        let rest = present_positions(disk, paths.drop_last());
        if disk.present(paths.last()) {
            rest.push(paths.len() - 1)
        } else {
            rest
        }
    }
}

/// Pruning keeps exactly the entries that name something on the disk, each
/// once, in the order they stand in: the kept entries are the entries at the
/// positions of the present ones, which rise.
pub proof fn law_pruning_keeps_the_present_in_order(disk: DiskView, paths: Seq<Seq<char>>)
    ensures
        surviving(disk, paths).len() == present_positions(disk, paths).len(),
        forall|k: int|
            0 <= k < present_positions(disk, paths).len() ==> {
                let at = #[trigger] present_positions(disk, paths)[k];
                &&& 0 <= at < paths.len()
                &&& disk.present(paths[at])
                &&& surviving(disk, paths)[k] == paths[at]
            },
        forall|j: int, k: int|
            0 <= j < k < present_positions(disk, paths).len() ==> present_positions(disk, paths)[j]
                < present_positions(disk, paths)[k],
        forall|i: int|
            0 <= i < paths.len() && disk.present(#[trigger] paths[i]) ==> present_positions(
                disk,
                paths,
            ).contains(i),
    decreases paths.len(),
{
    reveal(Seq::filter);
    if paths.len() > 0 {
        let init = paths.drop_last();
        law_pruning_keeps_the_present_in_order(disk, init);
        let rest = present_positions(disk, init);
        let all = present_positions(disk, paths);
        assert forall|i: int| 0 <= i < paths.len() && disk.present(#[trigger] paths[i]) implies all.contains(
            i,
        ) by {
            if i < init.len() {
                assert(init[i] == paths[i]);
                let k = choose|k: int| 0 <= k < rest.len() && rest[k] == i;
                assert(all[k] == i);
            } else {
                assert(all[all.len() - 1] == i);
            }
        }
        assert forall|k: int| 0 <= k < all.len() implies {
            let at = #[trigger] all[k];
            &&& 0 <= at < paths.len()
            &&& disk.present(paths[at])
            &&& surviving(disk, paths)[k] == paths[at]
        } by {
            if k < rest.len() {
                assert(all[k] == rest[k]);
                assert(init[rest[k]] == paths[rest[k]]);
            }
        }
        assert forall|j: int, k: int| 0 <= j < k < all.len() implies all[j] < all[k] by {
            assert(all[j] == rest[j]);
            if k < rest.len() {
                assert(all[k] == rest[k]);
            }
        }
    }
}

/// Every entry that pruning keeps is one line.
proof fn lemma_surviving_lines(disk: DiskView, paths: Seq<Seq<char>>)
    requires
        forall|i: int| 0 <= i < paths.len() ==> is_line(#[trigger] paths[i]),
    ensures
        forall|i: int|
            0 <= i < surviving(disk, paths).len() ==> is_line(#[trigger] surviving(disk, paths)[i]),
{
    law_pruning_keeps_the_present_in_order(disk, paths);
    let kept = surviving(disk, paths);
    let at = present_positions(disk, paths);
    assert forall|i: int| 0 <= i < kept.len() implies is_line(#[trigger] kept[i]) by {
        assert(kept[i] == paths[at[i]]);
    }
}

/// After a run has loaded its stack, the registry lists exactly the stack:
/// the entries that named nothing are gone from both, and those that are
/// left stand in both in the order they had.
pub proof fn law_loading_leaves_registry_and_stack_alike(disk: DiskView, temp_dir: Seq<char>)
    ensures
        registry_entries(loaded_disk(disk, temp_dir), registry_path(temp_dir)) == loaded_stack(
            disk,
            temp_dir,
        ),
        loaded_stack(disk, temp_dir) == surviving(
            with_storage(disk, temp_dir),
            registry_entries(with_storage(disk, temp_dir), registry_path(temp_dir)),
        ),
{
    let found = with_storage(disk, temp_dir);
    let master = registry_path(temp_dir);
    let entries = registry_entries(found, master);
    let kept = surviving(found, entries);
    if found.present(master) {
        if kept != entries {
            if found.contents(master) is Some {
                lemma_lines_are_lines(found.contents(master)->0);
            }
            lemma_surviving_lines(found, entries);
            lemma_lines_of_registry_text(kept);
        }
    } else {
        reveal(Seq::filter);
        assert(lines(Seq::<char>::empty()) =~= Seq::<Seq<char>>::empty());
    }
}

/// Every slot of the stack that a run loads names something that was on the
/// disk when the stack was loaded, and still is when loading is done.
pub proof fn law_loaded_slots_are_present(disk: DiskView, temp_dir: Seq<char>)
    ensures
        forall|i: int|
            0 <= i < loaded_stack(disk, temp_dir).len() ==> {
                &&& with_storage(disk, temp_dir).present(#[trigger] loaded_stack(disk, temp_dir)[i])
                &&& loaded_disk(disk, temp_dir).present(loaded_stack(disk, temp_dir)[i])
            },
{
    let found = with_storage(disk, temp_dir);
    let master = registry_path(temp_dir);
    let entries = registry_entries(found, master);
    law_pruning_keeps_the_present_in_order(found, entries);
    let at = present_positions(found, entries);
    assert forall|i: int| 0 <= i < loaded_stack(disk, temp_dir).len() implies {
        &&& found.present(#[trigger] loaded_stack(disk, temp_dir)[i])
        &&& loaded_disk(disk, temp_dir).present(loaded_stack(disk, temp_dir)[i])
    } by {
        assert(loaded_stack(disk, temp_dir)[i] == entries[at[i]]);
    }
}

/// The slot that an index selects: index 1 selects the oldest slot and the
/// length of the stack the newest; 0 and the length plus one select nothing.
pub proof fn law_valid_indices(stack: Seq<Seq<char>>)
    ensures
        stack.len() > 0 ==> resolve_slot(stack, decimal(1)) == Some(stack.first()),
        stack.len() > 0 ==> resolve_slot(stack, decimal(stack.len())) == Some(stack.last()),
        resolve_slot(stack, decimal(0)) is None,
        resolve_slot(stack, decimal(stack.len() + 1)) is None,
{
    lemma_index_value_of_decimal(0);
    lemma_index_value_of_decimal(1);
    lemma_index_value_of_decimal(stack.len());
    lemma_index_value_of_decimal(stack.len() + 1);
}

/// The index `k`, written in decimal, selects the `k`th slot, counted from
/// the oldest, and an index that is written so selects a slot only if it
/// lies between 1 and the length of the stack.
pub proof fn law_index_selects_its_slot(stack: Seq<Seq<char>>, k: nat)
    ensures
        1 <= k <= stack.len() ==> resolve_slot(stack, decimal(k)) == Some(stack[k - 1]),
        !(1 <= k <= stack.len()) ==> resolve_slot(stack, decimal(k)) is None,
{
    lemma_index_value_of_decimal(k);
}

/// Two texts without `c`, one behind the other, are a text without `c`.
proof fn lemma_concat_lacks(a: Seq<char>, b: Seq<char>, c: char)
    requires
        !a.contains(c),
        !b.contains(c),
    ensures
        !(a + b).contains(c),
{
    if (a + b).contains(c) {
        let i = choose|i: int| 0 <= i < (a + b).len() && (a + b)[i] == c;
        if i < a.len() {
            assert(a[i] == c);
        } else {
            assert(b[i - a.len()] == c);
        }
    }
}

/// The decimal text of a number holds neither a separator nor a newline.
proof fn lemma_decimal_is_plain(n: nat)
    ensures
        !decimal(n).contains('/'),
        !decimal(n).contains('\n'),
{
    lemma_decimal_digits(n);
    let s = decimal(n);
    if s.contains('/') {
        let i = choose|i: int| 0 <= i < s.len() && s[i] == '/';
        assert(is_digit(s[i]));
    }
    if s.contains('\n') {
        let i = choose|i: int| 0 <= i < s.len() && s[i] == '\n';
        assert(is_digit(s[i]));
    }
}

/// Where the storage lies. The storage directory has a name of its own; the
/// registry and the slot file of every run lie directly in it, under
/// different names; and none of the three paths holds a newline unless the
/// temporary directory does.
pub proof fn law_storage_layout(temp_dir: Seq<char>, now_ms: nat)
    ensures
        storage_dir(temp_dir).len() > 0,
        storage_dir(temp_dir).last() != '/',
        parent_of(registry_path(temp_dir)) == Some(storage_dir(temp_dir)),
        parent_of(slot_path(temp_dir, now_ms)) == Some(storage_dir(temp_dir)),
        is_inside(storage_dir(temp_dir), registry_path(temp_dir)),
        is_inside(storage_dir(temp_dir), slot_path(temp_dir, now_ms)),
        slot_path(temp_dir, now_ms) != registry_path(temp_dir),
        slot_path(temp_dir, now_ms) != storage_dir(temp_dir),
        registry_path(temp_dir) != storage_dir(temp_dir),
        is_line(temp_dir) ==> is_line(storage_dir(temp_dir)) && is_line(registry_path(temp_dir))
            && is_line(slot_path(temp_dir, now_ms)),
{
    reveal_strlit("temp");
    reveal_strlit("temp_files");
    reveal_strlit("tempfile_");
    let dir_name = TEMP_DIR@;
    let list_name = FILE_LIST_FILE@;
    let prefix = TEMPFILE_PREFIX@;
    let slot_name = prefix + decimal(now_ms);
    lemma_decimal_is_plain(now_ms);
    assert(!dir_name.contains('/') && !dir_name.contains('\n')) by {
        assert forall|i: int| 0 <= i < dir_name.len() implies dir_name[i] != '/' && dir_name[i]
            != '\n' by {}
    }
    assert(!list_name.contains('/') && !list_name.contains('\n')) by {
        assert forall|i: int| 0 <= i < list_name.len() implies list_name[i] != '/' && list_name[i]
            != '\n' by {}
    }
    assert(!prefix.contains('/') && !prefix.contains('\n')) by {
        assert forall|i: int| 0 <= i < prefix.len() implies prefix[i] != '/' && prefix[i]
            != '\n' by {}
    }
    lemma_concat_lacks(prefix, decimal(now_ms), '/');
    lemma_concat_lacks(prefix, decimal(now_ms), '\n');
    assert(slot_name[4] == 'f');
    assert(list_name[4] == '_');
    let dir = storage_dir(temp_dir);
    lemma_joined_ends_in_component(temp_dir, dir_name);
    lemma_joined_component(dir, list_name);
    lemma_joined_component(dir, slot_name);
    let master = registry_path(temp_dir);
    let slot = slot_path(temp_dir, now_ms);
    if slot == master {
        assert(slot[dir.len() as int + 5] == slot_name[4]);
        assert(master[dir.len() as int + 5] == list_name[4]);
    }
    if is_line(temp_dir) {
        let sep = seq!['/'];
        assert(!sep.contains('\n'));
        lemma_concat_lacks(temp_dir, dir_name, '\n');
        lemma_concat_lacks(temp_dir, sep, '\n');
        lemma_concat_lacks(temp_dir + sep, dir_name, '\n');
        assert(dir_name.contains(dir_name[0]));
        lemma_concat_lacks(dir, sep, '\n');
        lemma_concat_lacks(dir + sep, list_name, '\n');
        lemma_concat_lacks(dir + sep, slot_name, '\n');
    }
}

/// What the journal says is what happened: the disk after a run has loaded
/// its stack, and the disk after the run, are the disk before with the
/// changes that the journal has gained.
pub proof fn law_journal_tells_all(
    state: StateView,
    opts: OptionsView,
    streams: StreamsView,
    disk: DiskView,
    temp_dir: Seq<char>,
)
    ensures
        loaded_disk(disk, temp_dir).follows(disk),
        ran(state, opts, streams, disk).disk.follows(disk),
{
    let dir = storage_dir(temp_dir);
    let master = registry_path(temp_dir);
    let found = with_storage(disk, temp_dir);
    lemma_follows(disk, disk, ChangeView::CreateDir { path: dir });
    lemma_follows(disk, found, ChangeView::CreateFile { path: master });
    lemma_follows(
        disk,
        found,
        ChangeView::Overwrite {
            path: master,
            text: registry_text(surviving(found, registry_entries(found, master))),
        },
    );
    lemma_stored_follows(with_options(state, opts), disk);
    if streams.stdin is Some {
        lemma_stored_follows(
            StateView { buffer: streams.stdin->0, ..with_options(state, opts) },
            disk,
        );
    }
    let settled = with_options(state, opts);
    if settled.arg_file is Some && disk.contents(settled.arg_file->0) is Some {
        lemma_stored_follows(
            StateView { buffer: disk.contents(settled.arg_file->0)->0, ..settled },
            disk,
        );
    }
    if parent_of(state.master_record_file) is Some {
        lemma_follows(
            disk,
            disk,
            ChangeView::RemoveDirAll { path: parent_of(state.master_record_file)->0 },
        );
    }
}

/// A run changes little. It makes no change, or one: it removes a
/// directory, or overwrites a slot of the stack. Or it makes two: it adds one
/// line to the registry, the path of its new slot, and then adds to the new
/// slot's file. So the registry grows by at most one entry in a run, and no
/// run both captures a new slot and overwrites an old one.
pub proof fn law_run_changes_little(
    state: StateView,
    opts: OptionsView,
    streams: StreamsView,
    disk: DiskView,
)
    ensures
        ({
            let gained = ran(state, opts, streams, disk).disk.journal.skip(
                disk.journal.len() as int,
            );
            ||| gained.len() == 0
            ||| gained.len() == 1 && gained[0] is RemoveDirAll
            ||| gained.len() == 1 && gained[0] is Overwrite && state.temp_file_stack.contains(
                gained[0]->Overwrite_path,
            )
            ||| gained.len() == 2 && gained[0] == (ChangeView::Append {
                path: state.master_record_file,
                text: registry_line(with_options(state, opts), disk),
            }) && gained[1] is Append && gained[1]->Append_path == state.new_temp_file
        }),
{
    let gained = ran(state, opts, streams, disk).disk.journal.skip(disk.journal.len() as int);
    let after = ran(state, opts, streams, disk).disk;
    let n = disk.journal.len() as int;
    if after.journal.len() == n + 1 {
        assert(gained[0] == after.journal[n]);
        if gained[0] is Overwrite {
            let settled = with_options(state, opts);
            let index = settled.input_temp_file->0;
            let k = index_value(index)->0;
            assert(resolve_slot(state.temp_file_stack, index) == Some(state.temp_file_stack[k - 1]));
        }
    }
    if after.journal.len() == n + 2 {
        assert(gained[0] == after.journal[n]);
        assert(gained[1] == after.journal[n + 1]);
    }
}

/// The disk after the buffer is stored is the disk before with the changes
/// that the journal has gained.
proof fn lemma_stored_follows(state: StateView, disk: DiskView)
    ensures
        stored(state, disk).disk.follows(disk),
{
    lemma_follows(
        disk,
        disk,
        ChangeView::Append { path: state.master_record_file, text: registry_line(state, disk) },
    );
    lemma_follows(
        disk,
        registered(state, disk),
        ChangeView::Append { path: state.new_temp_file, text: state.buffer },
    );
    if state.input_temp_file is Some {
        let slot = resolve_slot(state.temp_file_stack, state.input_temp_file->0);
        if slot is Some {
            lemma_follows(disk, disk, ChangeView::Overwrite { path: slot->0, text: state.buffer });
        }
    }
}

/// Capturing piped text. Where the options ask for no maintenance action,
/// no input selector is set and `text` is piped in, the run enters its new
/// slot in the registry, behind the entries that are there, whatever text
/// the registry holds; the new slot's file holds exactly `text`, and so does
/// the buffer. This is said of a run whose new slot file is not on the disk
/// yet and is not the registry, and whose path holds no newline.
pub proof fn law_capture(
    state: StateView,
    opts: OptionsView,
    streams: StreamsView,
    disk: DiskView,
    text: Seq<char>,
)
    requires
        requested(opts) is None,
        opts.input is None,
        state.input_temp_file is None,
        streams.stdin == Some(text),
        !disk.files.contains_key(state.new_temp_file),
        state.new_temp_file != state.master_record_file,
        is_line(state.new_temp_file),
    ensures
        ran(state, opts, streams, disk).state.buffer == text,
        ran(state, opts, streams, disk).disk.contents(state.new_temp_file) == Some(text),
        registry_entries(ran(state, opts, streams, disk).disk, state.master_record_file)
            == registry_entries(disk, state.master_record_file).push(state.new_temp_file),
        ran(state, opts, streams, disk).disk.dirs == disk.dirs,
        ran(state, opts, streams, disk).disk.files.dom() == disk.files.dom().insert(
            state.master_record_file,
        ).insert(state.new_temp_file),
        forall|path: Seq<char>|
            path != state.master_record_file && path != state.new_temp_file ==> ran(
                state,
                opts,
                streams,
                disk,
            ).disk.contents(path) == disk.contents(path),
{
    let master = state.master_record_file;
    let slot = state.new_temp_file;
    let line = slot + seq!['\n'];
    let after = ran(state, opts, streams, disk).disk;
    assert(after == captured(StateView { buffer: text, ..with_options(state, opts) }, disk));
    match disk.contents(master) {
        Some(held) => {
            if ends_lines(held) {
                lemma_lines_push(held, slot);
                assert(held + line =~= held + slot + seq!['\n']);
            } else {
                let closed = held + seq!['\n'];
                lemma_lines_closed(held);
                lemma_lines_push(closed, slot);
                assert(held + (seq!['\n'] + line) =~= closed + slot + seq!['\n']);
            }
        },
        None => {
            lemma_lines_push(Seq::empty(), slot);
            assert(line =~= Seq::<char>::empty() + slot + seq!['\n']);
            assert(lines(Seq::<char>::empty()) =~= Seq::<Seq<char>>::empty());
        },
    }
    assert(after.files.dom() =~= disk.files.dom().insert(master).insert(slot));
}

/// Overwriting a slot. Where the options ask for no maintenance action, the
/// input selector is the index `k` of a slot and `text` is piped in, the run
/// makes `text` the whole content of that slot's file and changes nothing
/// else on the disk: no file is added where the slot's file was there, and
/// the registry stays as it is unless it is that slot itself. The stack is
/// left as it was, and the buffer holds `text`.
pub proof fn law_overwrite(
    state: StateView,
    opts: OptionsView,
    streams: StreamsView,
    disk: DiskView,
    text: Seq<char>,
    k: nat,
)
    requires
        requested(opts) is None,
        with_options(state, opts).input_temp_file == Some(decimal(k)),
        1 <= k <= state.temp_file_stack.len(),
        streams.stdin == Some(text),
    ensures
        ran(state, opts, streams, disk).disk == disk.apply(
            ChangeView::Overwrite { path: state.temp_file_stack[k - 1], text },
        ),
        ran(state, opts, streams, disk).disk.contents(state.temp_file_stack[k - 1]) == Some(text),
        ran(state, opts, streams, disk).disk.dirs == disk.dirs,
        disk.files.contains_key(state.temp_file_stack[k - 1]) ==> ran(
            state,
            opts,
            streams,
            disk,
        ).disk.files.dom() == disk.files.dom(),
        state.temp_file_stack[k - 1] != state.master_record_file ==> registry_entries(
            ran(state, opts, streams, disk).disk,
            state.master_record_file,
        ) == registry_entries(disk, state.master_record_file),
        ran(state, opts, streams, disk).state.temp_file_stack == state.temp_file_stack,
        ran(state, opts, streams, disk).state.buffer == text,
{
    law_index_selects_its_slot(state.temp_file_stack, k);
    let slot = state.temp_file_stack[k - 1];
    let after = ran(state, opts, streams, disk).disk;
    if disk.files.contains_key(slot) {
        assert(after.files.dom() =~= disk.files.dom());
    }
}

/// Printing a slot. Where the options ask for no maintenance action, the
/// output selector is the index `k` of a slot and taking in the input does
/// not fail, the run prints exactly what that slot's file holds at the end
/// of the run, whatever the buffer holds and whether or not the run is
/// silent; if there is no such file, it fails for that reason.
pub proof fn law_output_slot(
    state: StateView,
    opts: OptionsView,
    streams: StreamsView,
    disk: DiskView,
    k: nat,
)
    requires
        requested(opts) is None,
        with_options(state, opts).output_temp_file == Some(decimal(k)),
        1 <= k <= state.temp_file_stack.len(),
        taken_in(with_options(state, opts), streams, disk).result is Ok,
    ensures
        ran(state, opts, streams, disk).result == (match ran(
            state,
            opts,
            streams,
            disk,
        ).disk.contents(state.temp_file_stack[k - 1]) {
            Some(held) => Ok::<Seq<char>, AppErrorView>(held),
            None => Err(AppErrorView::Unreadable { path: state.temp_file_stack[k - 1] }),
        }),
{
    law_index_selects_its_slot(state.temp_file_stack, k);
}

/// Listing an empty stack prints nothing, changes nothing, and ends with
/// status 0.
pub proof fn law_listing_nothing(
    state: StateView,
    opts: OptionsView,
    streams: StreamsView,
    disk: DiskView,
)
    requires
        opts.list_files,
        state.temp_file_stack.len() == 0,
    ensures
        ran(state, opts, streams, disk).result == Ok::<Seq<char>, AppErrorView>(Seq::empty()),
        ran(state, opts, streams, disk).disk == disk,
        ran(state, opts, streams, disk).state == state,
        exit_status(ran(state, opts, streams, disk).result) == 0,
{
}

/// Every maintenance action ends with status 0 and leaves the state of the
/// run as it was.
pub proof fn law_maintenance_succeeds(
    state: StateView,
    opts: OptionsView,
    streams: StreamsView,
    disk: DiskView,
)
    requires
        requested(opts) is Some,
    ensures
        exit_status(ran(state, opts, streams, disk).result) == 0,
        ran(state, opts, streams, disk).state == state,
{
}

/// A run ends with status 1 exactly when it fails, and a selector that
/// names no slot makes it fail without any change to the disk.
pub proof fn law_invalid_selector(
    state: StateView,
    opts: OptionsView,
    streams: StreamsView,
    disk: DiskView,
)
    requires
        requested(opts) is None,
    ensures
        exit_status(ran(state, opts, streams, disk).result) == 1 <==> ran(
            state,
            opts,
            streams,
            disk,
        ).result is Err,
        ran(state, opts, streams, disk).result matches Err(AppErrorView::InvalidInfile { index })
            ==> {
            &&& with_options(state, opts).input_temp_file == Some(index)
            &&& resolve_slot(state.temp_file_stack, index) is None
            &&& ran(state, opts, streams, disk).disk == disk
        },
        ran(state, opts, streams, disk).result matches Err(AppErrorView::InvalidOutfile { index })
            ==> {
            &&& with_options(state, opts).output_temp_file == Some(index)
            &&& resolve_slot(state.temp_file_stack, index) is None
        },
{
}

/// A run from its start: the stack is loaded, then the run goes its way.
pub open spec fn fresh_run(
    disk: DiskView,
    temp_dir: Seq<char>,
    now_ms: nat,
    opts: OptionsView,
    streams: StreamsView,
) -> Ran {
    ran(started(disk, temp_dir, now_ms), opts, streams, loaded_disk(disk, temp_dir))
}

/// Loading the stack touches no file but the registry, takes no directory
/// away, and leaves the storage directory and the registry in place.
proof fn lemma_loading(disk: DiskView, temp_dir: Seq<char>)
    ensures
        forall|path: Seq<char>|
            path != registry_path(temp_dir) ==> loaded_disk(disk, temp_dir).contents(path)
                == disk.contents(path),
        forall|path: Seq<char>|
            disk.dirs.contains(path) ==> loaded_disk(disk, temp_dir).dirs.contains(path),
        loaded_disk(disk, temp_dir).present(storage_dir(temp_dir)),
        loaded_disk(disk, temp_dir).present(registry_path(temp_dir)),
{
}

/// An entry that names something on the disk, added behind others, is the
/// last of those that pruning keeps.
proof fn lemma_surviving_push(disk: DiskView, paths: Seq<Seq<char>>, path: Seq<char>)
    requires
        disk.present(path),
    ensures
        surviving(disk, paths.push(path)) == surviving(disk, paths).push(path),
{
    reveal(Seq::filter);
    assert(paths.push(path).drop_last() =~= paths);
}

/// Round trip. Text that one run captures from a pipe, with no input
/// selector set, is what a later run prints that starts afresh at a
/// terminal, without a file or an input selector, and selects for output
/// the index of the newest slot: the number of slots it has loaded. It is so
/// whatever text the registry holds. This is said of a temporary directory
/// whose path holds no newline and of a first run whose new slot file is not
/// on the disk yet.
pub proof fn law_round_trip(
    disk: DiskView,
    temp_dir: Seq<char>,
    first_ms: nat,
    second_ms: nat,
    text: Seq<char>,
    opts: OptionsView,
    streams: StreamsView,
    again: OptionsView,
    later: StreamsView,
)
    requires
        requested(opts) is None,
        opts.input is None,
        streams.stdin == Some(text),
        requested(again) is None,
        again.input is None,
        again.file is None,
        later.stdin is None,
        again.output == Some(
            decimal(
                loaded_stack(
                    fresh_run(disk, temp_dir, first_ms, opts, streams).disk,
                    temp_dir,
                ).len(),
            ),
        ),
        is_line(temp_dir),
        !disk.files.contains_key(slot_path(temp_dir, first_ms)),
    ensures
        loaded_stack(fresh_run(disk, temp_dir, first_ms, opts, streams).disk, temp_dir).len() > 0,
        loaded_stack(fresh_run(disk, temp_dir, first_ms, opts, streams).disk, temp_dir).last()
            == slot_path(temp_dir, first_ms),
        fresh_run(
            fresh_run(disk, temp_dir, first_ms, opts, streams).disk,
            temp_dir,
            second_ms,
            again,
            later,
        ).result == Ok::<Seq<char>, AppErrorView>(text),
{
    let master = registry_path(temp_dir);
    let slot = slot_path(temp_dir, first_ms);
    law_storage_layout(temp_dir, first_ms);
    lemma_loading(disk, temp_dir);
    let opened = loaded_disk(disk, temp_dir);
    let first = started(disk, temp_dir, first_ms);
    assert(opened.contents(slot) == disk.contents(slot));
    law_capture(first, opts, streams, opened, text);
    let kept = fresh_run(disk, temp_dir, first_ms, opts, streams).disk;
    assert(kept.present(storage_dir(temp_dir)));
    assert(kept.contents(master) is Some);
    assert(kept.contents(slot) == Some(text));
    lemma_surviving_push(kept, registry_entries(opened, master), slot);
    let stack = loaded_stack(kept, temp_dir);
    assert(stack == surviving(kept, registry_entries(opened, master)).push(slot));
    lemma_loading(kept, temp_dir);
    let reopened = loaded_disk(kept, temp_dir);
    assert(reopened.contents(slot) == Some(text));
    law_valid_indices(stack);
}

/// Clearing starts afresh. A run that is asked to clear, and for no listing,
/// prints nothing, ends with status 0 and leaves nothing of the storage
/// directory nor below it. The next run finds what a first run finds: it
/// loads an empty stack, has the storage directory in place and the
/// registry as an empty file, and if it is asked to list the slots it
/// prints nothing.
pub proof fn law_clear_starts_afresh(
    disk: DiskView,
    temp_dir: Seq<char>,
    first_ms: nat,
    second_ms: nat,
    opts: OptionsView,
    streams: StreamsView,
    again: OptionsView,
    later: StreamsView,
)
    requires
        requested(opts) == Some(Maintenance::Clear),
    ensures
        fresh_run(disk, temp_dir, first_ms, opts, streams).result == Ok::<
            Seq<char>,
            AppErrorView,
        >(Seq::empty()),
        exit_status(fresh_run(disk, temp_dir, first_ms, opts, streams).result) == 0,
        !fresh_run(disk, temp_dir, first_ms, opts, streams).disk.dirs.contains(
            storage_dir(temp_dir),
        ),
        forall|path: Seq<char>|
            is_inside(storage_dir(temp_dir), path) ==> !fresh_run(
                disk,
                temp_dir,
                first_ms,
                opts,
                streams,
            ).disk.present(path),
        loaded_stack(fresh_run(disk, temp_dir, first_ms, opts, streams).disk, temp_dir).len()
            == 0,
        loaded_disk(
            fresh_run(disk, temp_dir, first_ms, opts, streams).disk,
            temp_dir,
        ).present(storage_dir(temp_dir)),
        loaded_disk(
            fresh_run(disk, temp_dir, first_ms, opts, streams).disk,
            temp_dir,
        ).contents(registry_path(temp_dir)) == Some(Seq::<char>::empty()),
        again.list_files ==> fresh_run(
            fresh_run(disk, temp_dir, first_ms, opts, streams).disk,
            temp_dir,
            second_ms,
            again,
            later,
        ).result == Ok::<Seq<char>, AppErrorView>(Seq::empty()),
{
    law_storage_layout(temp_dir, first_ms);
    let dir = storage_dir(temp_dir);
    let master = registry_path(temp_dir);
    let opened = loaded_disk(disk, temp_dir);
    let first = started(disk, temp_dir, first_ms);
    let wiped = fresh_run(disk, temp_dir, first_ms, opts, streams).disk;
    assert(wiped == opened.apply(ChangeView::RemoveDirAll { path: dir }));
    assert(!wiped.present(master));
    assert(!with_storage(wiped, temp_dir).present(master));
}

} // verus!
