//! The expander: where a command begins with an alias, put the alias's
//! expansion in place of its name, once.
//!
//! Of the aliases that could be expanded, the one with the longest expansion is
//! taken; of several with expansions of that length, the one that comes first
//! in the list.

use crate::alias::Alias;
use crate::alias::AliasView;
use crate::text::byte_len;
use crate::text::byte_length;
use crate::text::chars_of;
use crate::text::has_word_before_space;
use crate::text::is_word_before_space;
use crate::text::joined;
use crate::text::replace_prefix;
use crate::text::slice_of;
use vstd::prelude::*;
use vstd::string::StringExecFns;

verus! {

/// The alias can be expanded in `input`: `input` begins with its name and a
/// space, and its expansion has more bytes than its name.
pub open spec fn is_expandable(a: AliasView, input: Seq<char>) -> bool {
    is_word_before_space(a.name, input) && byte_len(a.expanded) > byte_len(a.name)
}

/// The index of the alias to expand, among the first `n`: the expandable one
/// with the longest expansion, and the first such.
pub open spec fn choice_upto(aliases: Seq<AliasView>, input: Seq<char>, n: nat) -> Option<int>
    decreases n,
{
    if n == 0 {
        None
    } else {
        let before = choice_upto(aliases, input, (n - 1) as nat);
        let i = n - 1;
        if is_expandable(aliases[i], input) && (before is None || byte_len(aliases[i].expanded)
            > byte_len(aliases[before.unwrap()].expanded)) {
            Some(i)
        } else {
            before
        }
    }
}

/// The index of the alias to expand in `input`, if any can be.
pub open spec fn choice(aliases: Seq<AliasView>, input: Seq<char>) -> Option<int> {
    choice_upto(aliases, input, aliases.len())
}

/// `i` is the index below `n` of an expandable alias; no expandable alias
/// below `n` has a longer expansion, and none before `i` one as long.
pub open spec fn is_choice(aliases: Seq<AliasView>, input: Seq<char>, n: nat, i: int) -> bool {
    &&& 0 <= i < n
    &&& is_expandable(aliases[i], input)
    &&& forall|j: int|
        0 <= j < n && is_expandable(#[trigger] aliases[j], input) ==> byte_len(aliases[j].expanded)
            < byte_len(aliases[i].expanded) || (byte_len(aliases[j].expanded) == byte_len(
            aliases[i].expanded,
        ) && i <= j)
}

/// `input` with the chosen alias expanded, or `input` itself where no alias
/// can be expanded.
pub open spec fn expansion_of(aliases: Seq<AliasView>, input: Seq<char>) -> Seq<char> {
    match choice(aliases, input) {
        Some(i) => replace_prefix(input, aliases[i].name.len(), aliases[i].expanded),
        None => input,
    }
}

/// The choice among the first `n` aliases is the expandable alias with the
/// longest expansion, the first such; there is none exactly where no alias
/// can be expanded.
pub proof fn lemma_choice(aliases: Seq<AliasView>, input: Seq<char>, n: nat)
    requires
        n <= aliases.len(),
    ensures
        match choice_upto(aliases, input, n) {
            Some(i) => is_choice(aliases, input, n, i),
            None => forall|j: int| 0 <= j < n ==> !is_expandable(#[trigger] aliases[j], input),
        },
    decreases n,
{
    if n > 0 {
        lemma_choice(aliases, input, (n - 1) as nat);
    }
}

/// The name of an alias that can be expanded is a whole token of the
/// command: where the command goes on after the name with anything but a
/// space, or ends with it, the alias is not expanded.
pub proof fn lemma_expandable_at_token_boundary(a: AliasView, input: Seq<char>)
    requires
        a.name.is_prefix_of(input),
        input.len() == a.name.len() || input[a.name.len() as int] != ' ',
    ensures
        !is_expandable(a, input),
{
}

/// Where no alias can be expanded, the command stays as it is.
pub proof fn lemma_nothing_to_expand(aliases: Seq<AliasView>, input: Seq<char>)
    requires
        forall|j: int| 0 <= j < aliases.len() ==> !is_expandable(#[trigger] aliases[j], input),
    ensures
        expansion_of(aliases, input) == input,
{
    lemma_choice(aliases, input, aliases.len());
}

/// `input` with the alias that it begins with expanded, once.
pub fn expand_input(input: &str, aliases: &[Alias]) -> (expanded: String)
    ensures
        expanded@ == expansion_of(aliases.deep_view(), input@),
{
    let ghost views = aliases.deep_view();
    let chars = chars_of(input);
    let mut best: Option<usize> = None;
    let mut longest: usize = 0;
    let mut i: usize = 0;
    while i < aliases.len()
        invariant
            i <= aliases.len(),
            views == aliases.deep_view(),
            chars@ == input@,
            match best {
                Some(b) => choice_upto(views, input@, i as nat) == Some(b as int) && b < i
                    && longest == byte_len(views[b as int].expanded),
                None => choice_upto(views, input@, i as nat) is None,
            },
        decreases aliases.len() - i,
    {
        let alias = &aliases[i];
        assert(views[i as int] == alias@);
        let name = chars_of(alias.name.as_str());
        if has_word_before_space(chars.as_slice(), name.as_slice()) {
            let length = byte_length(alias.expanded.as_str());
            if length > byte_length(alias.name.as_str()) && (best.is_none() || length > longest) {
                best = Some(i);
                longest = length;
            }
        }
        i += 1;
    }
    match best {
        Some(b) => {
            let alias = &aliases[b];
            proof {
                lemma_choice(views, input@, views.len());
                assert(views[b as int] == alias@);
            }
            let name = chars_of(alias.name.as_str());
            let rest = slice_of(input, name.len(), chars.len());
            assert(rest@ =~= input@.skip(name@.len() as int));
            joined(alias.expanded.as_str(), rest.as_str())
        },
        None => String::from_str(input),
    }
}

} // verus!
