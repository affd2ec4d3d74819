//! The classifier: which lines of a shell's state open a function, and which
//! may define an alias.

use crate::text::chars_of;
use crate::text::find_char;
use crate::text::find_in;
use crate::text::lemma_find_char;
use crate::text::slice_of;
use crate::text::trim;
use crate::text::trim_in;
use vstd::prelude::*;

verus! {

/// What opens a function's body, after its name: ` () {`.
pub open spec fn function_opening() -> Seq<char> {
    seq![' ', '(', ')', ' ', '{']
}

/// The name of the function that `line` opens: a line that ends, once
/// trimmed, with ` () {` opens the function named by what stands before,
/// trimmed again.
pub open spec fn function_name(line: Seq<char>) -> Option<Seq<char>> {
    let t = trim(line);
    if function_opening().is_suffix_of(t) {
        Some(trim(t.take(t.len() - function_opening().len())))
    } else {
        None
    }
}

/// The line, trimmed, where it may define an alias: it opens no function and
/// holds a `=`.
pub open spec fn alias_candidate(line: Seq<char>) -> Option<Seq<char>> {
    if function_name(line) is None && trim(line).contains('=') {
        Some(trim(line))
    } else {
        None
    }
}

/// The names of the functions that `lines` open, in the order of the lines.
pub open spec fn function_names(lines: Seq<Seq<char>>) -> Seq<Seq<char>>
    decreases lines.len(),
{
    if lines.len() == 0 {
        Seq::empty()
    } else {
        let before = function_names(lines.drop_last());
        match function_name(lines.last()) {
            Some(name) => before.push(name),
            None => before,
        }
    }
}

/// The lines of `lines` that may define an alias, trimmed, in their order.
pub open spec fn alias_candidates(lines: Seq<Seq<char>>) -> Seq<Seq<char>>
    decreases lines.len(),
{
    if lines.len() == 0 {
        Seq::empty()
    } else {
        let before = alias_candidates(lines.drop_last());
        match alias_candidate(lines.last()) {
            Some(line) => before.push(line),
            None => before,
        }
    }
}

/// What a line is to the classifier.
pub enum LineKind {
    /// The line opens the function of this name.
    Function(String),
    /// The line, here trimmed, may define an alias.
    Candidate(String),
    /// Neither.
    Other,
}

/// What `line` is to the classifier.
pub fn classify_line(line: &str) -> (kind: LineKind)
    ensures
        match kind {
            LineKind::Function(name) => function_name(line@) == Some(name@),
            LineKind::Candidate(text) => alias_candidate(line@) == Some(text@),
            LineKind::Other => function_name(line@) is None && alias_candidate(line@) is None,
        },
{
    let v = chars_of(line);
    let n = v.len();
    assert(v@.subrange(0, n as int) =~= v@);
    let (a, b) = trim_in(v.as_slice(), 0, n);
    let ghost t = trim(line@);
    if b - a >= 5 && v[b - 5] == ' ' && v[b - 4] == '(' && v[b - 3] == ')' && v[b - 2] == ' ' && v[b
        - 1] == '{' {
        assert(function_opening() =~= t.subrange(t.len() - 5, t.len() as int));
        assert(t.take(t.len() - 5) =~= v@.subrange(a as int, b - 5));
        let (c, d) = trim_in(v.as_slice(), a, b - 5);
        return LineKind::Function(slice_of(line, c, d));
    }
    proof {
        if function_opening().is_suffix_of(t) {
            let tail = t.subrange(t.len() - 5, t.len() as int);
            assert(tail[0] == v[b - 5] && tail[1] == v[b - 4] && tail[2] == v[b - 3] && tail[3]
                == v[b - 2] && tail[4] == v[b - 1]);
        }
        lemma_find_char(t, '=');
    }
    if find_in(v.as_slice(), a, b, '=') < b {
        LineKind::Candidate(slice_of(line, a, b))
    } else {
        LineKind::Other
    }
}

/// The lines that may define an alias, trimmed, and the names of the
/// functions that lines open; each in the order of the lines.
pub fn split_input(input: &[String]) -> (parts: (Vec<String>, Vec<String>))
    ensures
        parts.0.deep_view() == alias_candidates(input.deep_view()),
        parts.1.deep_view() == function_names(input.deep_view()),
{
    let ghost lines = input.deep_view();
    let mut aliases: Vec<String> = Vec::new();
    let mut functions: Vec<String> = Vec::new();
    let mut i: usize = 0;
    assert(lines.take(0) =~= Seq::<Seq<char>>::empty());
    assert(aliases.deep_view() =~= Seq::<Seq<char>>::empty());
    assert(functions.deep_view() =~= Seq::<Seq<char>>::empty());
    while i < input.len()
        invariant
            i <= input.len(),
            lines == input.deep_view(),
            aliases.deep_view() == alias_candidates(lines.take(i as int)),
            functions.deep_view() == function_names(lines.take(i as int)),
        decreases input.len() - i,
    {
        let ghost aliases_before = aliases.deep_view();
        let ghost functions_before = functions.deep_view();
        proof {
            let seen = lines.take(i + 1);
            assert(seen.drop_last() =~= lines.take(i as int));
            assert(seen.last() == input[i as int]@);
        }
        match classify_line(input[i].as_str()) {
            LineKind::Function(name) => {
                functions.push(name);
                assert(functions.deep_view() =~= functions_before.push(name@));
            },
            LineKind::Candidate(line) => {
                aliases.push(line);
                assert(aliases.deep_view() =~= aliases_before.push(line@));
            },
            LineKind::Other => {},
        }
        i += 1;
    }
    assert(lines.take(i as int) =~= lines);
    (aliases, functions)
}

} // verus!
