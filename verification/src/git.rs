//! The aliases that git holds in its configuration, brought into the shape of
//! the shell's own alias lines.
//!
//! `git config --get-regexp ^alias\.` prints one entry to a line: the key
//! `alias.` and the alias's name, a space, and the command. An entry `alias.co
//! checkout` becomes the line `git co = checkout`; a command that git marks as
//! a shell command with a leading `!` loses that one mark. Which lines are
//! entries is decided by a regular expression, and matching is left to the
//! `regex` crate: the contracts below name its answer and say what is made of
//! it.

use crate::text::chars_of;
use crate::text::joined;
use crate::text::lines_of;
use crate::text::slice_of;
use crate::text::split_lines;
use vstd::prelude::*;
use vstd::string::StringExecFns;

verus! {

/// The error with which `regex` refuses a pattern.
#[verifier::external_type_specification]
#[verifier::external_body]
pub struct ExRegexError(regex::Error);

/// The compiled regular expression of `regex`.
#[verifier::external_type_specification]
#[verifier::external_body]
pub struct ExRegex(regex::Regex);

/// Whether `regex::Regex::new` accepts `pattern`.
pub uninterp spec fn regex_accepts(pattern: Seq<char>) -> bool;

/// What `regex::Regex::captures` finds in `text` for the regular expression
/// `pattern`: nothing, or the text of each capture group by its number, a
/// group that took no part in the match being `None`.
pub uninterp spec fn regex_captures(pattern: Seq<char>, text: Seq<char>) -> Option<
    Seq<Option<Seq<char>>>,
>;

/// A regular expression together with its compiled form. Only `compile`
/// makes one, so the compiled form is always that of the text beside it.
pub struct Pattern {
    source: String,
    compiled: regex::Regex,
}

impl View for Pattern {
    type V = Seq<char>;

    /// The text of the regular expression.
    closed spec fn view(&self) -> Seq<char> {
        self.source@
    }
}

/// Compiles `pattern` with `regex::Regex::new`.
///
/// Trusted: the result is an error exactly where the crate refuses the
/// pattern, and else holds the compiled form beside the pattern's own text.
#[verifier::external_body]
fn compile(pattern: &str) -> (made: Result<Pattern, regex::Error>)
    ensures
        made is Ok <==> regex_accepts(pattern@),
        made matches Ok(compiled) ==> compiled@ == pattern@,
{
    let compiled = regex::Regex::new(pattern)?;
    Ok(Pattern { source: pattern.to_string(), compiled })
}

/// Searches `text` with `regex::Regex::captures`.
///
/// Trusted: the result is what the crate finds for the compiled pattern,
/// group by group. Nothing is claimed of what it finds but that the same
/// pattern and text give the same answer.
#[verifier::external_body]
fn search(pattern: &Pattern, text: &str) -> (found: Option<Vec<Option<String>>>)
    ensures
        found.deep_view() == regex_captures(pattern@, text@),
{
    let found = pattern.compiled.captures(text);
    found.map(|caps| caps.iter().map(|m| m.map(|m| m.as_str().to_string())).collect())
}

/// Why the aliases of git could not be read.
#[derive(Debug, Clone, Copy, PartialEq, Eq)]
pub enum GitAliasError {
    /// The pattern for an entry was refused as a regular expression.
    Pattern,
}

/// The pattern of an entry: `alias.`, a name without a space, a space, and a
/// command of at least one character.
pub const ENTRY_PATTERN: &'static str = "^alias\\.([^ ]+) (.+)$";

/// The text before the name in an alias line: `git ` with its space.
pub open spec fn tool_prefix() -> Seq<char> {
    seq!['g', 'i', 't', ' ']
}

/// What stands between name and command in an alias line: ` = `.
pub open spec fn separator() -> Seq<char> {
    seq![' ', '=', ' ']
}

/// `command` without the `!` that marks a shell command: without its first
/// character where that is `!`, and no more than that one.
pub open spec fn without_marker(command: Seq<char>) -> Seq<char> {
    if command.len() > 0 && command[0] == '!' {
        command.drop_first()
    } else {
        command
    }
}

/// The alias line for the capture groups of an entry: `git `, the name in
/// group 1, ` = `, and the command in group 2 without its marker. `None`
/// where either group is missing.
pub open spec fn entry_of(groups: Seq<Option<Seq<char>>>) -> Option<Seq<char>> {
    if groups.len() > 2 && groups[1] is Some && groups[2] is Some {
        Some(tool_prefix() + groups[1].unwrap() + separator() + without_marker(groups[2].unwrap()))
    } else {
        None
    }
}

/// The alias line for a line of output, if `pattern` finds an entry in it.
pub open spec fn line_entry(pattern: Seq<char>, line: Seq<char>) -> Option<Seq<char>> {
    match regex_captures(pattern, line) {
        Some(groups) => entry_of(groups),
        None => None,
    }
}

/// The alias lines for the lines in which `pattern` finds an entry, in their
/// order.
pub open spec fn entries_of(pattern: Seq<char>, lines: Seq<Seq<char>>) -> Seq<Seq<char>>
    decreases lines.len(),
{
    if lines.len() == 0 {
        Seq::empty()
    } else {
        let before = entries_of(pattern, lines.drop_last());
        match line_entry(pattern, lines.last()) {
            Some(entry) => before.push(entry),
            None => before,
        }
    }
}

/// `command` without its marker.
fn strip_marker(command: &str) -> (r: String)
    ensures
        r@ == without_marker(command@),
{
    let v = chars_of(command);
    if v.len() > 0 && v[0] == '!' {
        assert(v@.drop_first() =~= v@.subrange(1, v.len() as int));
        slice_of(command, 1, v.len())
    } else {
        String::from_str(command)
    }
}

/// The alias line for the capture groups of an entry.
pub fn git_alias_entry(groups: &Vec<Option<String>>) -> (entry: Option<String>)
    ensures
        entry.deep_view() == entry_of(groups.deep_view()),
{
    if groups.len() < 3 {
        return None;
    }
    match (&groups[1], &groups[2]) {
        (Some(name), Some(command)) => {
            let command = strip_marker(command.as_str());
            let named = joined("git ", name.as_str());
            let opened = joined(named.as_str(), " = ");
            let entry = joined(opened.as_str(), command.as_str());
            proof {
                reveal_strlit("git ");
                reveal_strlit(" = ");
                assert("git "@ =~= tool_prefix());
                assert(" = "@ =~= separator());
            }
            Some(entry)
        },
        _ => None,
    }
}

/// The alias lines for the output `output` of a tool, one for each line in
/// which `pattern` finds an entry, in the order of the lines.
///
/// The pattern is compiled once, before any line is looked at; the error
/// comes where it is refused.
pub fn entries_with(pattern: &str, output: &str) -> (lines: Result<Vec<String>, GitAliasError>)
    ensures
        lines is Err <==> !regex_accepts(pattern@),
        lines matches Ok(entries) ==> entries.deep_view() == entries_of(
            pattern@,
            lines_of(output@),
        ),
{
    let compiled = match compile(pattern) {
        Ok(compiled) => compiled,
        Err(_) => {
            return Err(GitAliasError::Pattern);
        },
    };
    let raw = split_lines(output);
    let mut entries: Vec<String> = Vec::new();
    let mut i: usize = 0;
    assert(raw.deep_view().take(0) =~= Seq::<Seq<char>>::empty());
    assert(entries.deep_view() =~= Seq::<Seq<char>>::empty());
    while i < raw.len()
        invariant
            i <= raw.len(),
            raw.deep_view() == lines_of(output@),
            compiled@ == pattern@,
            entries.deep_view() == entries_of(pattern@, raw.deep_view().take(i as int)),
        decreases raw.len() - i,
    {
        let ghost before = entries.deep_view();
        proof {
            let seen = raw.deep_view().take(i + 1);
            assert(seen.drop_last() =~= raw.deep_view().take(i as int));
            assert(seen.last() == raw[i as int]@);
        }
        match search(&compiled, raw[i].as_str()) {
            None => {},
            Some(groups) => {
                match git_alias_entry(&groups) {
                    Some(entry) => {
                        entries.push(entry);
                        assert(entries.deep_view() =~= before.push(entry@));
                    },
                    None => {},
                }
            },
        }
        i += 1;
    }
    assert(raw.deep_view().take(i as int) =~= raw.deep_view());
    Ok(entries)
}

/// The alias lines for git's output `output`: those that `ENTRY_PATTERN`
/// finds.
pub fn git_alias_lines(output: &str) -> (lines: Result<Vec<String>, GitAliasError>)
    ensures
        lines is Err <==> !regex_accepts(ENTRY_PATTERN@),
        lines matches Ok(entries) ==> entries.deep_view() == entries_of(
            ENTRY_PATTERN@,
            lines_of(output@),
        ),
{
    entries_with(ENTRY_PATTERN, output)
}

} // verus!
