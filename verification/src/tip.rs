//! The tip finder: rewrite a command with the aliases, longest expansion
//! first, pass after pass, until a pass changes nothing.
//!
//! One pass tries every alias once, in the order of matching, each on what the
//! aliases before it have left. The passes need not come to rest: with the
//! aliases `a` for `c`, `c` for `b` and `b` for `a`, the command `b` turns into
//! `c` and back for ever. `find_alias` is for the commands on which they do
//! come to rest, `find_alias_within` for every command.

use crate::alias::Alias;
use crate::alias::AliasView;
use crate::order::indices;
use crate::order::lemma_match_order;
use crate::order::match_order;
use crate::order::order_of;
use crate::text::byte_len;
use crate::text::byte_length;
use crate::text::chars_of;
use crate::text::has_token_prefix;
use crate::text::is_token_prefix;
use crate::text::joined;
use crate::text::lemma_byte_len_replace_prefix;
use crate::text::replace_prefix;
use crate::text::slice_of;
use vstd::prelude::*;
use vstd::string::StringExecFns;

verus! {

/// What one alias makes of `s`: where the expansion is a whole-token prefix
/// of `s`, the name takes its place and the rest of `s` stays as it is.
pub open spec fn rewrite(a: AliasView, s: Seq<char>) -> Seq<char> {
    if is_token_prefix(a.expanded, s) {
        replace_prefix(s, a.expanded.len(), a.name)
    } else {
        s
    }
}

/// What the aliases at the indices `order` make of `s`, one after the other.
pub open spec fn rewrite_each(aliases: Seq<AliasView>, order: Seq<int>, s: Seq<char>) -> Seq<char>
    decreases order.len(),
{
    if order.len() == 0 {
        s
    } else {
        rewrite(aliases[order.last()], rewrite_each(aliases, order.drop_last(), s))
    }
}

/// One pass: every alias once, in the order of matching.
pub open spec fn pass(aliases: Seq<AliasView>, s: Seq<char>) -> Seq<char> {
    rewrite_each(aliases, match_order(aliases), s)
}

/// A pass leaves `s` as it is.
pub open spec fn is_settled(aliases: Seq<AliasView>, s: Seq<char>) -> bool {
    pass(aliases, s) == s
}

/// At most `n` passes take `s` to a text that a pass leaves as it is.
pub open spec fn settles_within(aliases: Seq<AliasView>, s: Seq<char>, n: nat) -> bool
    decreases n,
{
    is_settled(aliases, s) || (n > 0 && settles_within(aliases, pass(aliases, s), (n - 1) as nat))
}

/// Some number of passes takes `s` to a text that a pass leaves as it is.
pub open spec fn settles(aliases: Seq<AliasView>, s: Seq<char>) -> bool {
    exists|n: nat| settles_within(aliases, s, n)
}

/// `s` after passes that stop at the first settled text, and after `n` of them
/// at the latest.
pub open spec fn tip_within(aliases: Seq<AliasView>, s: Seq<char>, n: nat) -> Seq<char>
    decreases n,
{
    if n == 0 || is_settled(aliases, s) {
        s
    } else {
        tip_within(aliases, pass(aliases, s), (n - 1) as nat)
    }
}

/// The settled text that the passes take `s` to, where there is one.
pub open spec fn tip_of(aliases: Seq<AliasView>, s: Seq<char>) -> Seq<char> {
    tip_within(aliases, s, choose|n: nat| settles_within(aliases, s, n))
}

/// The alias never makes a text longer: its name is its expansion, or has
/// fewer bytes.
pub open spec fn is_shortening(a: AliasView) -> bool {
    a.name == a.expanded || byte_len(a.name) < byte_len(a.expanded)
}

/// No alias of the list makes a text longer.
pub open spec fn all_shortening(aliases: Seq<AliasView>) -> bool {
    forall|i: int| 0 <= i < aliases.len() ==> is_shortening(#[trigger] aliases[i])
}

proof fn lemma_tip_within(aliases: Seq<AliasView>, s: Seq<char>, n: nat, m: nat)
    requires
        settles_within(aliases, s, n),
        settles_within(aliases, s, m),
    ensures
        tip_within(aliases, s, n) == tip_within(aliases, s, m),
        is_settled(aliases, tip_within(aliases, s, n)),
    decreases n,
{
    if !is_settled(aliases, s) {
        lemma_tip_within(aliases, pass(aliases, s), (n - 1) as nat, (m - 1) as nat);
    }
}

/// Where `n` passes are enough, the tip is what they give, and it is settled.
pub proof fn lemma_tip_of(aliases: Seq<AliasView>, s: Seq<char>, n: nat)
    requires
        settles_within(aliases, s, n),
    ensures
        settles(aliases, s),
        tip_of(aliases, s) == tip_within(aliases, s, n),
        is_settled(aliases, tip_of(aliases, s)),
{
    let m = choose|m: nat| settles_within(aliases, s, m);
    lemma_tip_within(aliases, s, n, m);
}

/// The tip finder is idempotent: the tip of a command is settled, so it is
/// its own tip.
pub proof fn lemma_tip_idempotent(aliases: Seq<AliasView>, s: Seq<char>)
    requires
        settles(aliases, s),
    ensures
        is_settled(aliases, tip_of(aliases, s)),
        settles(aliases, tip_of(aliases, s)),
        tip_of(aliases, tip_of(aliases, s)) == tip_of(aliases, s),
{
    let n = choose|n: nat| settles_within(aliases, s, n);
    lemma_tip_of(aliases, s, n);
    lemma_tip_of(aliases, tip_of(aliases, s), 0);
}

/// An expansion matches whole tokens only: where the text goes on after it
/// with anything but a space, the alias leaves the text as it is.
pub proof fn lemma_rewrite_at_token_boundary(a: AliasView, s: Seq<char>)
    requires
        a.expanded.is_prefix_of(s),
        s.len() > a.expanded.len(),
        s[a.expanded.len() as int] != ' ',
    ensures
        rewrite(a, s) == s,
{
}

/// What follows the expansion stays as it is: an expansion followed by
/// nothing, or by a space and any text, becomes the name followed by the same.
pub proof fn lemma_rewrite_keeps_rest(a: AliasView, rest: Seq<char>)
    requires
        rest.len() > 0 ==> rest[0] == ' ',
    ensures
        rewrite(a, a.expanded + rest) == a.name + rest,
{
    let s = a.expanded + rest;
    assert(s.subrange(0, a.expanded.len() as int) =~= a.expanded);
    assert(s.skip(a.expanded.len() as int) =~= rest);
    if rest.len() > 0 {
        assert(s[a.expanded.len() as int] == rest[0]);
    }
}

proof fn lemma_rewrite_each_unmatched(aliases: Seq<AliasView>, order: Seq<int>, s: Seq<char>)
    requires
        forall|p: int| 0 <= p < order.len() ==> 0 <= #[trigger] order[p] < aliases.len(),
        forall|i: int| 0 <= i < aliases.len() ==> !is_token_prefix(#[trigger] aliases[i].expanded, s),
    ensures
        rewrite_each(aliases, order, s) == s,
    decreases order.len(),
{
    if order.len() > 0 {
        lemma_rewrite_each_unmatched(aliases, order.drop_last(), s);
        assert(!is_token_prefix(aliases[order.last()].expanded, s));
    }
}

/// Where no expansion is a whole-token prefix of the command, the command is
/// its own tip.
pub proof fn lemma_tip_unmatched(aliases: Seq<AliasView>, s: Seq<char>)
    requires
        forall|i: int| 0 <= i < aliases.len() ==> !is_token_prefix(#[trigger] aliases[i].expanded, s),
    ensures
        settles(aliases, s),
        tip_of(aliases, s) == s,
{
    lemma_match_order(aliases, aliases.len());
    lemma_rewrite_each_unmatched(aliases, match_order(aliases), s);
    lemma_tip_of(aliases, s, 0);
}

proof fn lemma_rewrite_each_shortens(aliases: Seq<AliasView>, order: Seq<int>, s: Seq<char>)
    requires
        all_shortening(aliases),
        forall|p: int| 0 <= p < order.len() ==> 0 <= #[trigger] order[p] < aliases.len(),
    ensures
        rewrite_each(aliases, order, s) == s || byte_len(rewrite_each(aliases, order, s))
            < byte_len(s),
    decreases order.len(),
{
    if order.len() > 0 {
        let a = aliases[order.last()];
        let t = rewrite_each(aliases, order.drop_last(), s);
        lemma_rewrite_each_shortens(aliases, order.drop_last(), s);
        assert(is_shortening(a));
        if is_token_prefix(a.expanded, t) {
            lemma_byte_len_replace_prefix(t, a.expanded, a.name);
            if a.name == a.expanded {
                assert(replace_prefix(t, a.expanded.len(), a.name) =~= t);
            }
        }
    }
}

proof fn lemma_settles_by_length(aliases: Seq<AliasView>, s: Seq<char>, n: nat)
    requires
        all_shortening(aliases),
        byte_len(s) <= n,
    ensures
        settles_within(aliases, s, n),
    decreases n,
{
    lemma_match_order(aliases, aliases.len());
    lemma_rewrite_each_shortens(aliases, match_order(aliases), s);
    if !is_settled(aliases, s) {
        lemma_settles_by_length(aliases, pass(aliases, s), (n - 1) as nat);
    }
}

/// Where no alias makes a text longer, every command settles, within as
/// many passes as it has bytes.
pub proof fn lemma_shortening_settles(aliases: Seq<AliasView>, s: Seq<char>)
    requires
        all_shortening(aliases),
    ensures
        settles_within(aliases, s, byte_len(s)),
        settles(aliases, s),
{
    lemma_settles_by_length(aliases, s, byte_len(s));
}

/// The characters of each alias's expansion.
fn expansions_of(aliases: &[Alias]) -> (texts: Vec<Vec<char>>)
    ensures
        texts.len() == aliases.len(),
        forall|i: int| 0 <= i < aliases.len() ==> (#[trigger] texts[i])@ == aliases[i]@.expanded,
{
    let mut texts: Vec<Vec<char>> = Vec::new();
    let mut i: usize = 0;
    while i < aliases.len()
        invariant
            i <= aliases.len(),
            texts.len() == i,
            forall|j: int| 0 <= j < i ==> (#[trigger] texts[j])@ == aliases[j]@.expanded,
        decreases aliases.len() - i,
    {
        texts.push(chars_of(aliases[i].expanded.as_str()));
        i += 1;
    }
    texts
}

/// One pass over `s`.
fn rewrite_pass(aliases: &[Alias], order: &Vec<usize>, expansions: &Vec<Vec<char>>, s: &str) -> (r:
    String)
    requires
        indices(order@) == match_order(aliases.deep_view()),
        forall|p: int| 0 <= p < order.len() ==> #[trigger] order[p] < aliases.len(),
        expansions.len() == aliases.len(),
        forall|i: int|
            0 <= i < aliases.len() ==> (#[trigger] expansions[i])@ == aliases[i]@.expanded,
    ensures
        r@ == pass(aliases.deep_view(), s@),
{
    let ghost views = aliases.deep_view();
    let ghost sequence = match_order(views);
    let mut current = String::from_str(s);
    let mut chars = chars_of(s);
    let mut k: usize = 0;
    while k < order.len()
        invariant
            k <= order.len(),
            views == aliases.deep_view(),
            sequence == indices(order@),
            forall|p: int| 0 <= p < order.len() ==> #[trigger] order[p] < aliases.len(),
            expansions.len() == aliases.len(),
            forall|i: int|
                0 <= i < aliases.len() ==> (#[trigger] expansions[i])@ == aliases[i]@.expanded,
            chars@ == current@,
            current@ == rewrite_each(views, sequence.take(k as int), s@),
        decreases order.len() - k,
    {
        let i = order[k];
        let alias = &aliases[i];
        let expansion = &expansions[i];
        proof {
            assert(sequence.take(k + 1).drop_last() =~= sequence.take(k as int));
            assert(sequence.take(k + 1).last() == i);
            assert(views[i as int] == aliases[i as int]@);
        }
        if has_token_prefix(chars.as_slice(), expansion.as_slice()) {
            let rest = slice_of(current.as_str(), expansion.len(), chars.len());
            assert(rest@ =~= current@.skip(expansion@.len() as int));
            current = joined(alias.name.as_str(), rest.as_str());
            chars = chars_of(current.as_str());
        }
        k += 1;
    }
    assert(sequence.take(k as int) =~= sequence);
    current
}

/// The shorter way to write `input`: the text that the passes over `input`
/// come to rest on.
pub fn find_alias(aliases: &[Alias], input: &str) -> (tip: String)
    requires
        settles(aliases.deep_view(), input@),
    ensures
        tip@ == tip_of(aliases.deep_view(), input@),
        is_settled(aliases.deep_view(), tip@),
{
    let ghost views = aliases.deep_view();
    let order = order_of(aliases);
    let expansions = expansions_of(aliases);
    let mut result = String::from_str(input);
    let ghost mut left: nat = choose|n: nat| settles_within(views, input@, n);
    proof {
        lemma_tip_of(views, input@, left);
    }
    loop
        invariant
            views == aliases.deep_view(),
            indices(order@) == match_order(views),
            forall|p: int| 0 <= p < order.len() ==> #[trigger] order[p] < aliases.len(),
            expansions.len() == aliases.len(),
            forall|i: int|
                0 <= i < aliases.len() ==> (#[trigger] expansions[i])@ == aliases[i]@.expanded,
            settles_within(views, result@, left),
            tip_of(views, input@) == tip_within(views, result@, left),
        decreases left,
    {
        let next = rewrite_pass(aliases, &order, &expansions, result.as_str());
        if next == result {
            return result;
        }
        proof {
            left = (left - 1) as nat;
        }
        result = next;
    }
}

/// The shorter way to write `input`, where at most `limit` passes take `input`
/// to a text that a pass leaves as it is; `None` where they do not.
pub fn find_alias_within(aliases: &[Alias], input: &str, limit: u64) -> (tip: Option<String>)
    ensures
        settles_within(aliases.deep_view(), input@, limit as nat) ==> tip.is_some()
            && tip.unwrap()@ == tip_of(aliases.deep_view(), input@),
        !settles_within(aliases.deep_view(), input@, limit as nat) ==> tip.is_none(),
{
    let ghost views = aliases.deep_view();
    let order = order_of(aliases);
    let expansions = expansions_of(aliases);
    let mut result = String::from_str(input);
    let mut left: u64 = limit;
    proof {
        if settles_within(views, input@, limit as nat) {
            lemma_tip_of(views, input@, limit as nat);
        }
    }
    loop
        invariant
            views == aliases.deep_view(),
            indices(order@) == match_order(views),
            forall|p: int| 0 <= p < order.len() ==> #[trigger] order[p] < aliases.len(),
            expansions.len() == aliases.len(),
            forall|i: int|
                0 <= i < aliases.len() ==> (#[trigger] expansions[i])@ == aliases[i]@.expanded,
            settles_within(views, input@, limit as nat) == settles_within(
                views,
                result@,
                left as nat,
            ),
            settles_within(views, input@, limit as nat) ==> tip_of(views, input@) == tip_within(
                views,
                result@,
                left as nat,
            ),
        decreases left,
    {
        let next = rewrite_pass(aliases, &order, &expansions, result.as_str());
        if next == result {
            return Some(result);
        }
        if left == 0 {
            return None;
        }
        left -= 1;
        result = next;
    }
}

/// Whether no alias of the list makes a text longer, so that every command
/// settles.
pub fn shorten_all(aliases: &[Alias]) -> (b: bool)
    ensures
        b == all_shortening(aliases.deep_view()),
        b ==> forall|s: Seq<char>| settles(aliases.deep_view(), s),
{
    let ghost views = aliases.deep_view();
    let mut i: usize = 0;
    while i < aliases.len()
        invariant
            i <= aliases.len(),
            views == aliases.deep_view(),
            forall|j: int| 0 <= j < i ==> is_shortening(#[trigger] views[j]),
        decreases aliases.len() - i,
    {
        let alias = &aliases[i];
        assert(views[i as int] == alias@);
        let shortening = alias.name == alias.expanded || byte_length(alias.name.as_str())
            < byte_length(alias.expanded.as_str());
        if !shortening {
            return false;
        }
        i += 1;
    }
    proof {
        assert forall|s: Seq<char>| settles(views, s) by {
            lemma_shortening_settles(views, s);
        }
    }
    true
}

} // verus!
