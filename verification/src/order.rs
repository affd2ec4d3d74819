//! The order in which aliases are tried: longest expansion first, and among
//! expansions of one length the alias that was given first.

use crate::alias::Alias;
use crate::alias::AliasView;
use crate::text::byte_len;
use crate::text::byte_length;
use vstd::prelude::*;

verus! {

/// The alias at index `i` is tried before the one at index `j`: its expansion
/// has more bytes, or as many and `i` is the smaller index.
pub open spec fn goes_before(aliases: Seq<AliasView>, i: int, j: int) -> bool {
    let a = byte_len(aliases[i].expanded);
    let b = byte_len(aliases[j].expanded);
    a > b || (a == b && i < j)
}

/// How many leading entries of `order` have an expansion at least as long as
/// that of the alias at index `k`: the place where `k` is put into `order`.
pub open spec fn slot(aliases: Seq<AliasView>, order: Seq<int>, k: int) -> int
    decreases order.len(),
{
    if order.len() > 0 && byte_len(aliases[order[0]].expanded) >= byte_len(aliases[k].expanded) {
        1 + slot(aliases, order.drop_first(), k)
    } else {
        0
    }
}

/// The order of matching among the first `n` aliases.
pub open spec fn match_order_upto(aliases: Seq<AliasView>, n: nat) -> Seq<int>
    decreases n,
{
    if n == 0 {
        Seq::empty()
    } else {
        let before = match_order_upto(aliases, (n - 1) as nat);
        before.insert(slot(aliases, before, n - 1), n - 1)
    }
}

/// The indices of `aliases` in the order of matching.
pub open spec fn match_order(aliases: Seq<AliasView>) -> Seq<int> {
    match_order_upto(aliases, aliases.len())
}

/// `order` arranges the indices below `n`, each once, so that an earlier entry
/// always goes before a later one.
pub open spec fn is_match_order(aliases: Seq<AliasView>, n: nat, order: Seq<int>) -> bool {
    &&& order.len() == n
    &&& forall|p: int| 0 <= p < n ==> 0 <= #[trigger] order[p] < n
    &&& forall|p: int, q: int|
        0 <= p < q < n ==> goes_before(aliases, #[trigger] order[p], #[trigger] order[q])
}

/// The place that `slot` gives lies inside `order`, the entries before it are
/// at least as long as the alias at `k`, and the entry at it, if any, is shorter.
proof fn lemma_slot(aliases: Seq<AliasView>, order: Seq<int>, k: int)
    ensures
        0 <= slot(aliases, order, k) <= order.len(),
        forall|p: int|
            0 <= p < slot(aliases, order, k) ==> byte_len(aliases[#[trigger] order[p]].expanded)
                >= byte_len(aliases[k].expanded),
        slot(aliases, order, k) < order.len() ==> byte_len(
            aliases[order[slot(aliases, order, k)]].expanded,
        ) < byte_len(aliases[k].expanded),
    decreases order.len(),
{
    if order.len() > 0 && byte_len(aliases[order[0]].expanded) >= byte_len(aliases[k].expanded) {
        let rest = order.drop_first();
        lemma_slot(aliases, rest, k);
        assert forall|p: int| 0 <= p < slot(aliases, order, k) implies byte_len(
            aliases[#[trigger] order[p]].expanded,
        ) >= byte_len(aliases[k].expanded) by {
            if p > 0 {
                assert(order[p] == rest[p - 1]);
            }
        }
        if slot(aliases, rest, k) < rest.len() {
            assert(order[slot(aliases, order, k)] == rest[slot(aliases, rest, k)]);
        }
    }
}

/// The order of matching holds every index once, longest expansion first, and
/// keeps aliases with expansions of one length in the order they were given.
pub proof fn lemma_match_order(aliases: Seq<AliasView>, n: nat)
    ensures
        is_match_order(aliases, n, match_order_upto(aliases, n)),
    decreases n,
{
    if n > 0 {
        let k = n - 1;
        let before = match_order_upto(aliases, k as nat);
        lemma_match_order(aliases, k as nat);
        lemma_slot(aliases, before, k);
        let at = slot(aliases, before, k);
        let order = before.insert(at, k);
        assert forall|p: int| 0 <= p < n implies 0 <= #[trigger] order[p] < n by {
            if p < at {
                assert(order[p] == before[p]);
            } else if p > at {
                assert(order[p] == before[p - 1]);
            }
        }
        assert forall|p: int, q: int| 0 <= p < q < n implies goes_before(
            aliases,
            #[trigger] order[p],
            #[trigger] order[q],
        ) by {
            if q < at {
                assert(order[p] == before[p] && order[q] == before[q]);
            } else if q == at {
                assert(order[p] == before[p]);
            } else if p < at {
                assert(order[p] == before[p] && order[q] == before[q - 1]);
            } else if p == at {
                assert(order[q] == before[q - 1]);
                if at < q - 1 {
                    assert(goes_before(aliases, before[at], before[q - 1]));
                }
            } else {
                assert(order[p] == before[p - 1] && order[q] == before[q - 1]);
            }
        }
    }
}

/// The entries of an executable order as the indices they stand for.
pub open spec fn indices(order: Seq<usize>) -> Seq<int> {
    order.map_values(|i: usize| i as int)
}

/// The length in bytes of each alias's expansion.
pub fn expansion_lengths(aliases: &[Alias]) -> (lens: Vec<usize>)
    ensures
        lens.len() == aliases.len(),
        forall|i: int| 0 <= i < aliases.len() ==> lens[i] == byte_len(#[trigger] aliases[i]@.expanded),
{
    let mut lens: Vec<usize> = Vec::new();
    let mut i: usize = 0;
    while i < aliases.len()
        invariant
            i <= aliases.len(),
            lens.len() == i,
            forall|j: int| 0 <= j < i ==> lens[j] == byte_len(#[trigger] aliases[j]@.expanded),
        decreases aliases.len() - i,
    {
        lens.push(byte_length(aliases[i].expanded.as_str()));
        i += 1;
    }
    lens
}

/// The indices of `aliases` in the order of matching.
pub fn order_of(aliases: &[Alias]) -> (order: Vec<usize>)
    ensures
        indices(order@) == match_order(aliases.deep_view()),
        order.len() == aliases.len(),
        forall|p: int| 0 <= p < order.len() ==> #[trigger] order[p] < aliases.len(),
{
    let ghost views = aliases.deep_view();
    let lens = expansion_lengths(aliases);
    let mut order: Vec<usize> = Vec::new();
    let mut k: usize = 0;
    assert(indices(order@) =~= match_order_upto(views, 0));
    while k < aliases.len()
        invariant
            k <= aliases.len(),
            views == aliases.deep_view(),
            lens.len() == aliases.len(),
            forall|i: int|
                0 <= i < aliases.len() ==> lens[i] == byte_len(#[trigger] aliases[i]@.expanded),
            indices(order@) == match_order_upto(views, k as nat),
            order.len() == k,
            forall|p: int| 0 <= p < order.len() ==> #[trigger] order[p] < k,
        decreases aliases.len() - k,
    {
        let ghost before = indices(order@);
        let mut at: usize = 0;
        assert(before.skip(0) =~= before);
        while at < order.len() && lens[order[at]] >= lens[k]
            invariant
                k < aliases.len(),
                views == aliases.deep_view(),
                lens.len() == aliases.len(),
                forall|i: int|
                    0 <= i < aliases.len() ==> lens[i] == byte_len(#[trigger] aliases[i]@.expanded),
                before == indices(order@),
                forall|p: int| 0 <= p < order.len() ==> #[trigger] order[p] < k,
                at <= order.len(),
                slot(views, before, k as int) == at + slot(views, before.skip(at as int), k as int),
            decreases order.len() - at,
        {
            proof {
                let rest = before.skip(at as int);
                assert(rest[0] == order[at as int] as int);
                assert(views[order[at as int] as int] == aliases[order[at as int] as int]@);
                assert(views[k as int] == aliases[k as int]@);
                assert(rest.drop_first() =~= before.skip(at + 1));
            }
            at += 1;
        }
        proof {
            let rest = before.skip(at as int);
            assert(views[k as int] == aliases[k as int]@);
            if at < order.len() {
                assert(rest[0] == order[at as int] as int);
                assert(views[order[at as int] as int] == aliases[order[at as int] as int]@);
            }
            assert(slot(views, rest, k as int) == 0);
        }
        order.insert(at, k);
        assert(indices(order@) =~= before.insert(at as int, k as int));
        k += 1;
    }
    order
}

} // verus!
