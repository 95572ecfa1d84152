//! A run looks at few paths. Two disks that show the same at those paths take
//! a run the same way: that is why a run may work on a disk that holds no
//! more than these paths, and its journal be carried out on another.

use vstd::prelude::*;
use crate::model::app::{
    emitted, listing_with_contents, loaded_disk, registry_entries, registry_line, registry_path,
    resolve_slot, started, storage_dir, stored, surviving, taken_in, watch_list, with_options, with_storage,
};
use crate::model::disk::{ChangeView, DiskView};
use crate::model::laws::fresh_run;
use crate::model::opts::{requested, Maintenance, OptionsView, StreamsView};
use crate::model::state::StateView;
use crate::util::decimal::index_value;
use crate::util::paths::parent_of;
use crate::util::utils::registry_text;

verus! {

/// Whether two disks show the same at `path`: both hold something there or
/// neither does, and a file there has the same content on both.
pub open spec fn alike_at(a: DiskView, b: DiskView, path: Seq<char>) -> bool {
    a.present(path) == b.present(path) && a.contents(path) == b.contents(path)
}

/// Whether two disks show the same at each of `paths`.
pub open spec fn alike_on(a: DiskView, b: DiskView, paths: Seq<Seq<char>>) -> bool {
    forall|i: int| 0 <= i < paths.len() ==> alike_at(a, b, #[trigger] paths[i])
}

/// The changes that the journal of `after` holds behind those of `before`.
pub open spec fn added(before: DiskView, after: DiskView) -> Seq<ChangeView> {
    after.journal.skip(before.journal.len() as int)
}

/// Whether `a` and `b` have gone the same way since they were `a0` and `b0`:
/// they show the same at each of `paths`, and their journals have gained the
/// same changes.
spec fn in_step(
    a0: DiskView,
    a: DiskView,
    b0: DiskView,
    b: DiskView,
    paths: Seq<Seq<char>>,
) -> bool {
    &&& alike_on(a, b, paths)
    &&& a0.journal.len() <= a.journal.len()
    &&& b0.journal.len() <= b.journal.len()
    &&& added(a0, a) == added(b0, b)
}

proof fn lemma_in_step_start(a: DiskView, b: DiskView, paths: Seq<Seq<char>>)
    requires
        alike_on(a, b, paths),
    ensures
        in_step(a, a, b, b, paths),
{
    assert(added(a, a) =~= Seq::<ChangeView>::empty());
    assert(added(b, b) =~= Seq::<ChangeView>::empty());
}

proof fn lemma_in_step_apply(
    a0: DiskView,
    a: DiskView,
    b0: DiskView,
    b: DiskView,
    paths: Seq<Seq<char>>,
    change: ChangeView,
)
    requires
        in_step(a0, a, b0, b, paths),
    ensures
        in_step(a0, a.apply(change), b0, b.apply(change), paths),
{
    assert(added(a0, a.apply(change)) =~= added(a0, a).push(change));
    assert(added(b0, b.apply(change)) =~= added(b0, b).push(change));
    assert forall|i: int| 0 <= i < paths.len() implies alike_at(
        a.apply(change),
        b.apply(change),
        #[trigger] paths[i],
    ) by {
        assert(alike_at(a, b, paths[i]));
    }
}

/// Whether each of `stack` is one of `paths`.
spec fn covers(paths: Seq<Seq<char>>, stack: Seq<Seq<char>>) -> bool {
    forall|i: int| 0 <= i < stack.len() ==> paths.contains(#[trigger] stack[i])
}

proof fn lemma_alike_where_covered(a: DiskView, b: DiskView, paths: Seq<Seq<char>>, path: Seq<char>)
    requires
        alike_on(a, b, paths),
        paths.contains(path),
    ensures
        alike_at(a, b, path),
{
    let i = choose|i: int| 0 <= i < paths.len() && paths[i] == path;
    assert(alike_at(a, b, paths[i]));
}

proof fn lemma_surviving_alike(a: DiskView, b: DiskView, paths: Seq<Seq<char>>, entries: Seq<Seq<char>>)
    requires
        alike_on(a, b, paths),
        covers(paths, entries),
    ensures
        surviving(a, entries) == surviving(b, entries),
        covers(paths, surviving(a, entries)),
    decreases entries.len(),
{
    reveal(Seq::filter);
    if entries.len() > 0 {
        let init = entries.drop_last();
        assert forall|i: int| 0 <= i < init.len() implies paths.contains(#[trigger] init[i]) by {
            assert(init[i] == entries[i]);
        }
        lemma_surviving_alike(a, b, paths, init);
        assert(paths.contains(entries[entries.len() - 1]));
        lemma_alike_where_covered(a, b, paths, entries.last());
    }
}

proof fn lemma_listing_alike(a: DiskView, b: DiskView, paths: Seq<Seq<char>>, stack: Seq<Seq<char>>)
    requires
        alike_on(a, b, paths),
        covers(paths, stack),
    ensures
        listing_with_contents(stack, a) == listing_with_contents(stack, b),
    decreases stack.len(),
{
    if stack.len() > 0 {
        let init = stack.drop_last();
        assert forall|i: int| 0 <= i < init.len() implies paths.contains(#[trigger] init[i]) by {
            assert(init[i] == stack[i]);
        }
        lemma_listing_alike(a, b, paths, init);
        assert(paths.contains(stack[stack.len() - 1]));
        lemma_alike_where_covered(a, b, paths, stack.last());
    }
}

proof fn lemma_stored_in_step(
    state: StateView,
    a0: DiskView,
    a: DiskView,
    b0: DiskView,
    b: DiskView,
    paths: Seq<Seq<char>>,
)
    requires
        in_step(a0, a, b0, b, paths),
        paths.contains(state.master_record_file),
    ensures
        in_step(a0, stored(state, a).disk, b0, stored(state, b).disk, paths),
        stored(state, a).state == stored(state, b).state,
        stored(state, a).result == stored(state, b).result,
{
    match state.input_temp_file {
        Some(index) => {
            match resolve_slot(state.temp_file_stack, index) {
                Some(path) => {
                    lemma_in_step_apply(
                        a0,
                        a,
                        b0,
                        b,
                        paths,
                        ChangeView::Overwrite { path, text: state.buffer },
                    );
                },
                None => {},
            }
        },
        None => {
            lemma_alike_where_covered(a, b, paths, state.master_record_file);
            let entry = ChangeView::Append {
                path: state.master_record_file,
                text: registry_line(state, a),
            };
            lemma_in_step_apply(a0, a, b0, b, paths, entry);
            lemma_in_step_apply(
                a0,
                a.apply(entry),
                b0,
                b.apply(entry),
                paths,
                ChangeView::Append { path: state.new_temp_file, text: state.buffer },
            );
        },
    }
}

proof fn lemma_taken_in_step(
    state: StateView,
    streams: StreamsView,
    a0: DiskView,
    a: DiskView,
    b0: DiskView,
    b: DiskView,
    paths: Seq<Seq<char>>,
)
    requires
        in_step(a0, a, b0, b, paths),
        covers(paths, state.temp_file_stack),
        paths.contains(state.master_record_file),
        state.arg_file matches Some(file) ==> paths.contains(file),
    ensures
        in_step(
            a0,
            taken_in(state, streams, a).disk,
            b0,
            taken_in(state, streams, b).disk,
            paths,
        ),
        taken_in(state, streams, a).state == taken_in(state, streams, b).state,
        taken_in(state, streams, a).result == taken_in(state, streams, b).result,
{
    match streams.stdin {
        Some(text) => {
            lemma_stored_in_step(StateView { buffer: text, ..state }, a0, a, b0, b, paths);
        },
        None => {
            match state.arg_file {
                Some(file) => {
                    lemma_alike_where_covered(a, b, paths, file);
                    match a.contents(file) {
                        Some(text) => {
                            lemma_stored_in_step(
                                StateView { buffer: text, ..state },
                                a0,
                                a,
                                b0,
                                b,
                                paths,
                            );
                        },
                        None => {},
                    }
                },
                None => {
                    if state.temp_file_stack.len() > 0 {
                        assert(paths.contains(
                            state.temp_file_stack[state.temp_file_stack.len() - 1],
                        ));
                        lemma_alike_where_covered(a, b, paths, state.temp_file_stack.last());
                    }
                },
            }
        },
    }
}

proof fn lemma_emitted_alike(state: StateView, a: DiskView, b: DiskView, paths: Seq<Seq<char>>)
    requires
        alike_on(a, b, paths),
        covers(paths, state.temp_file_stack),
    ensures
        emitted(state, a) == emitted(state, b),
{
    match state.output_temp_file {
        Some(index) => {
            match resolve_slot(state.temp_file_stack, index) {
                Some(path) => {
                    let n = index_value(index)->0;
                    assert(path == state.temp_file_stack[n - 1]);
                    lemma_alike_where_covered(a, b, paths, path);
                },
                None => {},
            }
        },
        None => {},
    }
}

/// A run sees of the disk only what stands at the paths it looks at. Two
/// disks that show the same at the storage directory, at the registry, at
/// each entry of the registry and at the file named on the command line
/// take a run, from its start, the same way: it loads the same stack, ends
/// in the same state with the same output or the same error, and adds the
/// same changes to both journals, those of loading and those of the run.
pub proof fn law_run_sees_only_what_it_watches(
    actual: DiskView,
    noted: DiskView,
    temp_dir: Seq<char>,
    now_ms: nat,
    opts: OptionsView,
    streams: StreamsView,
)
    requires
        alike_on(
            actual,
            noted,
            watch_list(temp_dir, actual.contents(registry_path(temp_dir)), opts.file),
        ),
    ensures
        started(actual, temp_dir, now_ms) == started(noted, temp_dir, now_ms),
        added(actual, loaded_disk(actual, temp_dir)) == added(noted, loaded_disk(noted, temp_dir)),
        fresh_run(actual, temp_dir, now_ms, opts, streams).state == fresh_run(
            noted,
            temp_dir,
            now_ms,
            opts,
            streams,
        ).state,
        fresh_run(actual, temp_dir, now_ms, opts, streams).result == fresh_run(
            noted,
            temp_dir,
            now_ms,
            opts,
            streams,
        ).result,
        added(actual, fresh_run(actual, temp_dir, now_ms, opts, streams).disk) == added(
            noted,
            fresh_run(noted, temp_dir, now_ms, opts, streams).disk,
        ),
{
    let dir = storage_dir(temp_dir);
    let master = registry_path(temp_dir);
    let paths = watch_list(temp_dir, actual.contents(master), opts.file);
    let entries = registry_entries(actual, master);
    assert(paths[0] == dir);
    assert(paths[1] == master);
    assert(alike_at(actual, noted, paths[0]));
    assert(alike_at(actual, noted, paths[1]));
    assert forall|i: int| 0 <= i < entries.len() implies paths.contains(#[trigger] entries[i]) by {
        assert(paths[2 + i] == entries[i]);
    }
    if opts.file is Some {
        assert(paths[2 + entries.len() as int] == opts.file->0);
    }
    lemma_in_step_start(actual, noted, paths);
    lemma_in_step_apply(actual, actual, noted, noted, paths, ChangeView::CreateDir { path: dir });
    let found_actual = with_storage(actual, temp_dir);
    let found_noted = with_storage(noted, temp_dir);
    assert(in_step(actual, found_actual, noted, found_noted, paths));
    assert(alike_at(found_actual, found_noted, paths[1]));
    assert(registry_entries(found_actual, master) == registry_entries(found_noted, master));
    let listed = registry_entries(found_actual, master);
    assert(covers(paths, listed)) by {
        if found_actual.contents(master) == actual.contents(master) {
        } else {
            assert(found_actual.contents(master) == actual.apply(
                ChangeView::CreateDir { path: dir },
            ).contents(master));
        }
    }
    lemma_surviving_alike(found_actual, found_noted, paths, listed);
    let kept = surviving(found_actual, listed);
    lemma_in_step_apply(
        actual,
        found_actual,
        noted,
        found_noted,
        paths,
        ChangeView::CreateFile { path: master },
    );
    lemma_in_step_apply(
        actual,
        found_actual,
        noted,
        found_noted,
        paths,
        ChangeView::Overwrite { path: master, text: registry_text(kept) },
    );
    let opened_actual = loaded_disk(actual, temp_dir);
    let opened_noted = loaded_disk(noted, temp_dir);
    assert(in_step(actual, opened_actual, noted, opened_noted, paths));
    let first = started(actual, temp_dir, now_ms);
    assert(first == started(noted, temp_dir, now_ms));
    assert(covers(paths, first.temp_file_stack));
    match requested(opts) {
        Some(Maintenance::ListFiles) => {},
        Some(Maintenance::ListContents) => {
            lemma_listing_alike(opened_actual, opened_noted, paths, first.temp_file_stack);
        },
        Some(Maintenance::Clear) => {
            if parent_of(first.master_record_file) is Some {
                lemma_in_step_apply(
                    actual,
                    opened_actual,
                    noted,
                    opened_noted,
                    paths,
                    ChangeView::RemoveDirAll { path: parent_of(first.master_record_file)->0 },
                );
            }
        },
        None => {
            let settled = with_options(first, opts);
            lemma_taken_in_step(settled, streams, actual, opened_actual, noted, opened_noted, paths);
            let taken_actual = taken_in(settled, streams, opened_actual);
            let taken_noted = taken_in(settled, streams, opened_noted);
            assert(taken_actual.state.temp_file_stack == first.temp_file_stack);
            lemma_emitted_alike(taken_actual.state, taken_actual.disk, taken_noted.disk, paths);
        },
    }
}

} // verus!
