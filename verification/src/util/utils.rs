//! Text of the registry file and of paths.

use vstd::prelude::*;
use vstd::string::*;

verus! {

/// The position of the last `c` in `s`, or -1 where `s` holds none.
pub open spec fn last_index_of(s: Seq<char>, c: char) -> int
    decreases s.len(),
{
    if s.len() == 0 {
        -1
    } else if s.last() == c {
        s.len() - 1
    } else {
        last_index_of(s.drop_last(), c)
    }
}

/// `last_index_of` names a position of `c` after which no `c` follows.
pub proof fn lemma_last_index_of(s: Seq<char>, c: char)
    ensures
        -1 <= last_index_of(s, c) < s.len(),
        last_index_of(s, c) >= 0 ==> s[last_index_of(s, c)] == c,
        forall|i: int| last_index_of(s, c) < i < s.len() ==> s[i] != c,
    decreases s.len(),
{
    if s.len() > 0 && s.last() != c {
        lemma_last_index_of(s.drop_last(), c);
        assert forall|i: int| last_index_of(s, c) < i < s.len() implies s[i] != c by {
            if i < s.len() - 1 {
                assert(s.drop_last()[i] == s[i]);
            }
        }
    }
}

/// Text without `c` that follows `head` does not move the last `c`.
pub proof fn lemma_last_index_of_append(head: Seq<char>, tail: Seq<char>, c: char)
    requires
        !tail.contains(c),
    ensures
        last_index_of(head + tail, c) == last_index_of(head, c),
    decreases tail.len(),
{
    if tail.len() == 0 {
        assert(head + tail =~= head);
    } else {
        let whole = head + tail;
        assert(tail.contains(tail.last()));
        assert(whole.last() == tail.last());
        assert(whole.drop_last() =~= head + tail.drop_last());
        assert forall|x: char| tail.drop_last().contains(x) implies tail.contains(x) by {
            let i = choose|i: int| 0 <= i < tail.drop_last().len() && tail.drop_last()[i] == x;
            assert(tail[i] == x);
        }
        lemma_last_index_of_append(head, tail.drop_last(), c);
    }
}

/// `s` without its final newline, if it ends in one.
pub open spec fn without_final_newline(s: Seq<char>) -> Seq<char> {
    if s.len() > 0 && s.last() == '\n' {
        s.drop_last()
    } else {
        s
    }
}

/// The lines of a text. Each newline ends a line; text after the last newline
/// is a line too, unless it is empty.
pub open spec fn lines(s: Seq<char>) -> Seq<Seq<char>>
    decreases s.len(),
    via lines_decreases
{
    if s.len() == 0 {
        Seq::empty()
    } else {
        let t = without_final_newline(s);
        let k = last_index_of(t, '\n');
        lines(t.subrange(0, k + 1)).push(t.subrange(k + 1, t.len() as int))
    }
}

#[via_fn]
proof fn lines_decreases(s: Seq<char>) {
    if s.len() > 0 {
        lemma_last_index_of(without_final_newline(s), '\n');
    }
}

/// Whether a text can stand on a line of its own: it holds no newline.
pub open spec fn is_line(s: Seq<char>) -> bool {
    !s.contains('\n')
}

/// Whether a text ends where a line ends: it is empty or its last character is
/// a newline.
pub open spec fn ends_lines(s: Seq<char>) -> bool {
    s.len() == 0 || s.last() == '\n'
}

/// A line added after complete lines is the last line of the new text, with
/// or without a newline behind it.
pub proof fn lemma_lines_push(head: Seq<char>, line: Seq<char>)
    requires
        ends_lines(head),
        is_line(line),
    ensures
        lines(head + line + seq!['\n']) == lines(head).push(line),
        line.len() > 0 ==> lines(head + line) == lines(head).push(line),
{
    let t = head + line;
    lemma_last_index_of_append(head, line, '\n');
    lemma_last_index_of(head, '\n');
    let k = last_index_of(t, '\n');
    assert(k == head.len() - 1);
    assert(t.subrange(0, k + 1) =~= head);
    assert(t.subrange(k + 1, t.len() as int) =~= line);
    let s = t + seq!['\n'];
    assert(s.last() == '\n');
    assert(s.drop_last() =~= t);
    assert(without_final_newline(s) == t);
    if line.len() > 0 {
        assert(line.contains(line.last()));
        assert(t.last() == line.last());
        assert(without_final_newline(t) == t);
    }
}

/// The text of a registry that lists `paths`: each path on a line of its own.
pub open spec fn registry_text(paths: Seq<Seq<char>>) -> Seq<char>
    decreases paths.len(),
{
    if paths.len() == 0 {
        Seq::empty()
    } else {
        registry_text(paths.drop_last()) + paths.last() + seq!['\n']
    }
}

/// Reading the text of a registry gives back the paths it was written from,
/// in their order, as long as no path holds a newline.
pub proof fn lemma_lines_of_registry_text(paths: Seq<Seq<char>>)
    requires
        forall|i: int| 0 <= i < paths.len() ==> is_line(#[trigger] paths[i]),
    ensures
        lines(registry_text(paths)) == paths,
        ends_lines(registry_text(paths)),
    decreases paths.len(),
{
    if paths.len() > 0 {
        let init = paths.drop_last();
        assert forall|i: int| 0 <= i < init.len() implies is_line(#[trigger] init[i]) by {
            assert(init[i] == paths[i]);
        }
        lemma_lines_of_registry_text(init);
        lemma_lines_push(registry_text(init), paths.last());
        assert(init.push(paths.last()) =~= paths);
    }
}

/// A newline behind a text that does not end where a line ends closes its
/// last line and adds none.
pub proof fn lemma_lines_closed(s: Seq<char>)
    requires
        !ends_lines(s),
    ensures
        lines(s + seq!['\n']) == lines(s),
        ends_lines(s + seq!['\n']),
{
    let closed = s + seq!['\n'];
    assert(closed.last() == '\n');
    assert(closed.drop_last() =~= s);
    assert(without_final_newline(closed) == s);
    assert(without_final_newline(s) == s);
}

/// Every line of a text is free of newlines.
pub proof fn lemma_lines_are_lines(s: Seq<char>)
    ensures
        forall|i: int| 0 <= i < lines(s).len() ==> is_line(#[trigger] lines(s)[i]),
    decreases s.len(),
{
    if s.len() > 0 {
        let t = without_final_newline(s);
        let k = last_index_of(t, '\n');
        lemma_last_index_of(t, '\n');
        let head = t.subrange(0, k + 1);
        let line = t.subrange(k + 1, t.len() as int);
        lemma_lines_are_lines(head);
        assert(is_line(line)) by {
            if line.contains('\n') {
                let i = choose|i: int| 0 <= i < line.len() && line[i] == '\n';
                assert(t[k + 1 + i] == '\n');
            }
        }
        assert forall|i: int| 0 <= i < lines(s).len() implies is_line(#[trigger] lines(s)[i]) by {
            if i < lines(head).len() {
                assert(lines(s)[i] == lines(head)[i]);
            } else {
                assert(lines(s)[i] == line);
            }
        }
    }
}

/// Splits a text into its lines.
pub fn paths_from_text(text: &str) -> (paths: Vec<String>)
    ensures
        paths.deep_view() == lines(text@),
{
    let len: usize = text.unicode_len();
    let mut paths: Vec<String> = Vec::new();
    let mut start: usize = 0;
    let mut i: usize = 0;
    assert(text@.take(0) =~= Seq::<char>::empty());
    assert(paths.deep_view() =~= lines(text@.take(0)));
    for c in it: text.chars()
        invariant
            it.seq() == text@,
            len == text@.len(),
            i == it.index(),
            start <= i <= len,
            ends_lines(text@.take(start as int)),
            is_line(text@.subrange(start as int, i as int)),
            paths.deep_view() == lines(text@.take(start as int)),
    {
        assert(c == text@[i as int]);
        let ghost head = text@.take(start as int);
        let ghost line = text@.subrange(start as int, i as int);
        if c == '\n' {
            let piece: String = text.substring_char(start, i).to_owned();
            let ghost before = paths.deep_view();
            paths.push(piece);
            proof {
                lemma_lines_push(head, line);
                assert(text@.take(i + 1) =~= head + line + seq!['\n']);
                assert(paths.deep_view() =~= before.push(line));
                assert(text@.subrange(i + 1, i + 1) =~= Seq::<char>::empty());
            }
            start = i + 1;
        } else {
            proof {
                let longer = text@.subrange(start as int, i + 1);
                assert(longer =~= line.push(c));
                if longer.contains('\n') {
                    let j = choose|j: int| 0 <= j < longer.len() && longer[j] == '\n';
                    assert(line[j] == '\n');
                }
            }
        }
        i = i + 1;
    }
    if start < len {
        let piece: String = text.substring_char(start, len).to_owned();
        let ghost head = text@.take(start as int);
        let ghost line = text@.subrange(start as int, len as int);
        let ghost before = paths.deep_view();
        paths.push(piece);
        proof {
            lemma_lines_push(head, line);
            assert(text@ =~= head + line);
            assert(paths.deep_view() =~= before.push(line));
        }
    } else {
        assert(text@.take(start as int) =~= text@);
    }
    paths
}

/// Writes the text of a registry that lists `paths`.
pub fn paths_to_text(paths: &Vec<String>) -> (text: String)
    ensures
        text@ == registry_text(paths.deep_view()),
{
    let mut text: String = String::new();
    let mut i: usize = 0;
    assert(paths.deep_view().take(0) =~= Seq::<Seq<char>>::empty());
    while i < paths.len()
        invariant
            i <= paths.len(),
            text@ == registry_text(paths.deep_view().take(i as int)),
        decreases paths.len() - i,
    {
        proof {
            reveal_strlit("\n");
            let now = paths.deep_view().take(i + 1);
            assert(now.drop_last() =~= paths.deep_view().take(i as int));
            assert(now.last() == paths[i as int]@);
        }
        text.append(paths[i].as_str());
        text.append("\n");
        assert(text@ =~= registry_text(paths.deep_view().take(i as int)) + paths[i as int]@
            + seq!['\n']);
        i = i + 1;
    }
    assert(paths.deep_view().take(i as int) =~= paths.deep_view());
    text
}

} // verus!
