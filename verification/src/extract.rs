//! Extraction of alias records from definition lines of the shape
//! `name=expansion`.

use crate::alias::Alias;
use crate::alias::AliasView;
use crate::text::chars_of;
use crate::text::find_char;
use crate::text::find_in;
use crate::text::is_space;
use crate::text::lemma_find_char;
use crate::text::lemma_find_char_at;
use crate::text::lemma_trim_of_trimmed;
use crate::text::slice_of;
use crate::text::trim;
use crate::text::trim_in;
use crate::text::unquote;
use crate::text::unquote_in;
use vstd::prelude::*;

verus! {

/// The name that `line` defines: what stands before its first `=`, trimmed
/// and then unquoted. The whole line where it holds no `=`.
pub open spec fn name_side(line: Seq<char>) -> Seq<char> {
    unquote(trim(line.take(find_char(line, '=') as int)))
}

/// The expansion that `line` gives: what stands after its first `=`, trimmed
/// and then unquoted. It may hold further `=`.
pub open spec fn expansion_side(line: Seq<char>) -> Seq<char> {
    unquote(trim(line.skip(find_char(line, '=') as int + 1)))
}

/// The record that `line` defines: none where the line holds no `=` or where
/// a side of its first `=` is empty.
pub open spec fn record_of(line: Seq<char>) -> Option<AliasView> {
    if line.contains('=') && name_side(line).len() > 0 && expansion_side(line).len() > 0 {
        Some(AliasView { name: name_side(line), expanded: expansion_side(line) })
    } else {
        None
    }
}

/// The records that `lines` define, in the order of the lines. Lines that
/// define the same record give it once each.
pub open spec fn records_of(lines: Seq<Seq<char>>) -> Seq<AliasView>
    decreases lines.len(),
{
    if lines.len() == 0 {
        Seq::empty()
    } else {
        let before = records_of(lines.drop_last());
        match record_of(lines.last()) {
            Some(record) => before.push(record),
            None => before,
        }
    }
}

/// `s` is not empty and has neither white space nor a single quote at either
/// end: trimming and unquoting leave it as it is.
pub open spec fn is_plain(s: Seq<char>) -> bool {
    &&& s.len() > 0
    &&& !is_space(s[0]) && !is_space(s.last())
    &&& s[0] != '\'' && s.last() != '\''
}

/// `s` between single quotes.
pub open spec fn quoted(s: Seq<char>) -> Seq<char> {
    seq!['\''] + s + seq!['\'']
}

/// The definition line for a name and an expansion.
pub open spec fn definition(name: Seq<char>, expansion: Seq<char>) -> Seq<char> {
    name + seq!['='] + expansion
}

proof fn lemma_sides(left: Seq<char>, right: Seq<char>)
    requires
        !left.contains('='),
    ensures
        definition(left, right).contains('='),
        definition(left, right).take(find_char(definition(left, right), '=') as int) == left,
        definition(left, right).skip(find_char(definition(left, right), '=') as int + 1) == right,
{
    let line = definition(left, right);
    assert(line[left.len() as int] == '=');
    assert forall|j: int| 0 <= j < left.len() implies line[j] != '=' by {
        assert(line[j] == left[j]);
        assert(left.contains(left[j]));
    }
    lemma_find_char_at(line, '=', left.len() as int);
    assert(line.take(left.len() as int) =~= left);
    assert(line.skip(left.len() as int + 1) =~= right);
}

proof fn lemma_unquote_quoted(s: Seq<char>)
    ensures
        unquote(trim(quoted(s))) == s,
{
    let q = quoted(s);
    assert(q[0] == '\'' && q.last() == '\'');
    lemma_trim_of_trimmed(q);
    assert(q.drop_first().drop_last() =~= s);
    assert(q.drop_first().last() == '\'');
}

/// A line `name=expansion` whose two texts are plain and whose name holds no
/// `=` defines the record of that name and expansion, and so does the line
/// with either text or both between single quotes. The line alone gives
/// exactly this one record.
pub proof fn lemma_definition_gives_record(name: Seq<char>, expansion: Seq<char>)
    requires
        is_plain(name),
        is_plain(expansion),
        !name.contains('='),
    ensures
        record_of(definition(name, expansion)) == Some(AliasView { name, expanded: expansion }),
        record_of(definition(quoted(name), quoted(expansion))) == Some(
            AliasView { name, expanded: expansion },
        ),
        record_of(definition(quoted(name), expansion)) == Some(
            AliasView { name, expanded: expansion },
        ),
        record_of(definition(name, quoted(expansion))) == Some(
            AliasView { name, expanded: expansion },
        ),
        records_of(seq![definition(name, expansion)]) == seq![
            AliasView { name, expanded: expansion },
        ],
        records_of(seq![definition(quoted(name), quoted(expansion))]) == seq![
            AliasView { name, expanded: expansion },
        ],
{
    let q = quoted(name);
    assert(!q.contains('=')) by {
        if q.contains('=') {
            let j = choose|j: int| 0 <= j < q.len() && q[j] == '=';
            assert(q[j] == name[j - 1]);
            assert(name.contains(name[j - 1]));
        }
    }
    lemma_sides(name, expansion);
    lemma_sides(q, quoted(expansion));
    lemma_sides(q, expansion);
    lemma_sides(name, quoted(expansion));
    lemma_trim_of_trimmed(name);
    lemma_trim_of_trimmed(expansion);
    lemma_unquote_quoted(name);
    lemma_unquote_quoted(expansion);
    lemma_records_of_one(definition(name, expansion));
    lemma_records_of_one(definition(q, quoted(expansion)));
}

/// What a single line gives: its record, or nothing.
pub proof fn lemma_records_of_one(line: Seq<char>)
    ensures
        records_of(seq![line]) == match record_of(line) {
            Some(record) => seq![record],
            None => Seq::<AliasView>::empty(),
        },
{
    let lines = seq![line];
    assert(lines.drop_last() =~= Seq::<Seq<char>>::empty());
    assert(records_of(lines.drop_last()) =~= Seq::<AliasView>::empty());
    assert(lines.last() == line);
    match record_of(line) {
        Some(record) => {
            assert(Seq::<AliasView>::empty().push(record) =~= seq![record]);
        },
        None => {},
    }
}

/// A line without `=` gives no record, nor does a line of which one side of
/// the first `=` is empty once trimmed and unquoted; and no other line fails.
pub proof fn lemma_no_record(line: Seq<char>)
    ensures
        record_of(line) is None <==> !line.contains('=') || name_side(line).len() == 0
            || expansion_side(line).len() == 0,
        record_of(line) is None ==> records_of(seq![line]).len() == 0,
        record_of(line) is Some ==> record_of(line).unwrap().is_valid(),
{
    lemma_records_of_one(line);
}

/// The records that a list of lines gives are valid, and no more than the lines.
pub proof fn lemma_records_valid(lines: Seq<Seq<char>>)
    ensures
        records_of(lines).len() <= lines.len(),
        forall|i: int| 0 <= i < records_of(lines).len() ==> (#[trigger] records_of(lines)[i]).is_valid(),
    decreases lines.len(),
{
    if lines.len() > 0 {
        lemma_records_valid(lines.drop_last());
    }
}

/// The record that `line` defines, if it defines one.
pub fn parse_alias(line: &str) -> (alias: Option<Alias>)
    ensures
        alias.deep_view() == record_of(line@),
{
    let v = chars_of(line);
    let n = v.len();
    assert(v@.subrange(0, n as int) =~= v@);
    let at = find_in(v.as_slice(), 0, n, '=');
    proof {
        lemma_find_char(v@, '=');
    }
    if at == n {
        return None;
    }
    assert(v@.subrange(0, at as int) =~= line@.take(at as int));
    assert(v@.subrange(at + 1, n as int) =~= line@.skip(at + 1));
    let (a, b) = trim_in(v.as_slice(), 0, at);
    let (a, b) = unquote_in(v.as_slice(), a, b);
    let (c, d) = trim_in(v.as_slice(), at + 1, n);
    let (c, d) = unquote_in(v.as_slice(), c, d);
    if a == b || c == d {
        return None;
    }
    Some(Alias { name: slice_of(line, a, b), expanded: slice_of(line, c, d) })
}

/// The records that the lines define, in the order of the lines.
pub fn parse_aliases(raw_aliases: &[String]) -> (aliases: Vec<Alias>)
    ensures
        aliases.deep_view() == records_of(raw_aliases.deep_view()),
        forall|i: int| 0 <= i < aliases.len() ==> (#[trigger] aliases[i])@.is_valid(),
{
    let ghost lines = raw_aliases.deep_view();
    let mut aliases: Vec<Alias> = Vec::new();
    let mut i: usize = 0;
    assert(lines.take(0) =~= Seq::<Seq<char>>::empty());
    assert(aliases.deep_view() =~= Seq::<AliasView>::empty());
    while i < raw_aliases.len()
        invariant
            i <= raw_aliases.len(),
            lines == raw_aliases.deep_view(),
            aliases.deep_view() == records_of(lines.take(i as int)),
            forall|j: int| 0 <= j < aliases.len() ==> (#[trigger] aliases[j])@.is_valid(),
        decreases raw_aliases.len() - i,
    {
        let ghost before = aliases.deep_view();
        proof {
            let seen = lines.take(i + 1);
            assert(seen.drop_last() =~= lines.take(i as int));
            assert(seen.last() == raw_aliases[i as int]@);
        }
        match parse_alias(raw_aliases[i].as_str()) {
            Some(alias) => {
                aliases.push(alias);
                assert(aliases.deep_view() =~= before.push(alias@));
            },
            None => {},
        }
        i += 1;
    }
    assert(lines.take(i as int) =~= lines);
    aliases
}

} // verus!
