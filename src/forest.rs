use vstd::prelude::*;

use crate::grid::{compact, link_in, shift_item, shift_link, ContextGridItem};

verus! {

/// The link of pane `i` to its right (`right`) or below it (not `right`).
pub open spec fn edge<T>(items: Seq<ContextGridItem<T>>, i: int, right: bool) -> Option<usize> {
    if right {
        items[i].right
    } else {
        items[i].down
    }
}

/// Every link names one of the panes.
pub open spec fn links_in_range<T>(items: Seq<ContextGridItem<T>>) -> bool {
    forall|i: int|
        0 <= i < items.len() ==> link_in(#[trigger] items[i].right, items.len() as int) && link_in(
            items[i].down,
            items.len() as int,
        )
}

/// No pane but `c` shares a link target with another link.
pub open spec fn unique_except<T>(items: Seq<ContextGridItem<T>>, c: int) -> bool {
    forall|i: int, a: bool, j: int, b: bool|
        0 <= i < items.len() && 0 <= j < items.len() && i != c && j != c && (#[trigger] edge(
            items,
            i,
            a,
        )) is Some && edge(items, i, a) == #[trigger] edge(items, j, b) ==> i == j && a == b
}

/// Along every link of a pane but `c`, not to `c`, the rank falls.
pub open spec fn ranked_except<T>(items: Seq<ContextGridItem<T>>, rank: Seq<nat>, c: int) -> bool {
    &&& rank.len() == items.len()
    &&& forall|i: int, a: bool|
        0 <= i < items.len() && i != c && (#[trigger] edge(items, i, a)) is Some && edge(items, i, a)->0
            != c ==> rank[edge(items, i, a)->0 as int] < rank[i]
}

/// Each pane is linked to from at most one place.
pub open spec fn unique_parents<T>(items: Seq<ContextGridItem<T>>) -> bool {
    unique_except(items, -1)
}

/// Along every link the rank falls, so no chain of links comes back.
pub open spec fn ranked_by<T>(items: Seq<ContextGridItem<T>>, rank: Seq<nat>) -> bool {
    ranked_except(items, rank, -1)
}

/// The links form a forest: one parent at most, and no cycle.
pub open spec fn forest<T>(items: Seq<ContextGridItem<T>>) -> bool {
    &&& unique_parents(items)
    &&& exists|rank: Seq<nat>| #[trigger] ranked_by(items, rank)
}

/// The same links on the same number of panes.
pub open spec fn same_links<T>(a: Seq<ContextGridItem<T>>, b: Seq<ContextGridItem<T>>) -> bool {
    &&& a.len() == b.len()
    &&& forall|i: int| 0 <= i < a.len() ==> (#[trigger] a[i]).right == b[i].right && a[i].down == b[i].down
}

pub proof fn lemma_forest_single<T>(items: Seq<ContextGridItem<T>>)
    requires
        items.len() == 1,
        items[0].right is None,
        items[0].down is None,
    ensures
        forest(items),
{
    assert(ranked_by(items, seq![0nat]));
}

pub proof fn lemma_forest_same_links<T>(a: Seq<ContextGridItem<T>>, b: Seq<ContextGridItem<T>>)
    requires
        forest(a),
        same_links(a, b),
    ensures
        forest(b),
{
    assert forall|i: int, x: bool| 0 <= i < a.len() implies #[trigger] edge(b, i, x) == edge(a, i, x) by {
        assert(a[i].right == b[i].right);
    }
    let rank = choose|rank: Seq<nat>| #[trigger] ranked_by(a, rank);
    assert(ranked_by(b, rank));
}

/// A new pane linked from `c` on one axis takes over `c`'s old link there.
pub proof fn lemma_forest_split<T>(
    items: Seq<ContextGridItem<T>>,
    c: int,
    right: bool,
    after: Seq<ContextGridItem<T>>,
)
    requires
        forest(items),
        links_in_range(items),
        0 <= c < items.len(),
        after.len() == items.len() + 1,
        forall|k: int| 0 <= k < items.len() && k != c ==> #[trigger] edge(after, k, true) == edge(items, k, true)
            && edge(after, k, false) == edge(items, k, false),
        edge(after, c, right) == Some(items.len() as usize),
        edge(after, c, !right) == edge(items, c, !right),
        edge(after, items.len() as int, right) == edge(items, c, right),
        edge(after, items.len() as int, !right) is None,
        items.len() < usize::MAX,
    ensures
        forest(after),
{
    let n = items.len() as int;
    let rank = choose|rank: Seq<nat>| #[trigger] ranked_by(items, rank);
    let top: nat = match edge(items, c, right) {
        Some(v) => 2 * rank[v as int] + 3,
        None => 1,
    };
    let r2 = Seq::new((n + 1) as nat, |k: int| if k < n { 2 * rank[k] + 2 } else { top });
    assert forall|k: int, x: bool| 0 <= k < n && !(k == c && x == right) implies #[trigger] edge(
        after,
        k,
        x,
    ) == edge(items, k, x) by {
        if k != c {
            assert(edge(after, k, true) == edge(items, k, true));
        }
    }
    assert forall|i: int, a: bool|
        0 <= i < after.len() && i != -1 && (#[trigger] edge(after, i, a)) is Some && edge(after, i, a)->0
            != -1 implies r2[edge(after, i, a)->0 as int] < r2[i] by {
        if i < n && !(i == c && a == right) {
            assert(edge(after, i, a) == edge(items, i, a));
            assert(links_in_range(items) ==> link_in(items[i].right, n) && link_in(items[i].down, n));
        } else if i == n {
            assert(edge(items, c, right) is Some);
            assert(links_in_range(items) ==> link_in(items[c].right, n) && link_in(items[c].down, n));
        }
    }
    assert(ranked_by(after, r2));
    assert forall|i: int, a: bool, j: int, b: bool|
        0 <= i < after.len() && 0 <= j < after.len() && i != -1 && j != -1 && (#[trigger] edge(
            after,
            i,
            a,
        )) is Some && edge(after, i, a) == #[trigger] edge(after, j, b) implies i == j && a == b by {
        if i < n {
            assert(link_in(items[i].right, n) && link_in(items[i].down, n));
        }
        if j < n {
            assert(link_in(items[j].right, n) && link_in(items[j].down, n));
        }
        assert(link_in(items[c].right, n) && link_in(items[c].down, n));
        if i < n && j < n && !(i == c && a == right) && !(j == c && b == right) {
            assert(edge(items, i, a) == edge(items, j, b));
        } else if i == n && a == right && j < n && !(j == c && b == right) {
            assert(edge(items, c, right) == edge(items, j, b));
        } else if j == n && b == right && i < n && !(i == c && a == right) {
            assert(edge(items, c, right) == edge(items, i, a));
        }
    }
}

/// Compacting away pane `c` keeps a forest among the other panes a forest.
pub proof fn lemma_forest_compact<T>(items: Seq<ContextGridItem<T>>, c: int, rank: Seq<nat>)
    requires
        0 <= c < items.len() <= usize::MAX,
        unique_except(items, c),
        ranked_except(items, rank, c),
        links_in_range(items),
    ensures
        forest(compact(items, c)),
{
    let q = compact(items, c);
    let r2 = rank.remove(c);
    assert forall|k: int, a: bool| 0 <= k < q.len() implies #[trigger] edge(q, k, a) == shift_link(
        edge(items, if k < c { k } else { k + 1 }, a),
        c,
    ) by {
        let s = if k < c { k } else { k + 1 };
        assert(items.remove(c)[k] == items[s]);
        assert(q[k] == shift_item(items[s], c));
    }
    assert forall|i: int, a: bool|
        0 <= i < q.len() && i != -1 && (#[trigger] edge(q, i, a)) is Some && edge(q, i, a)->0 != -1 implies r2[edge(
        q,
        i,
        a,
    )->0 as int] < r2[i] by {
        let s = if i < c { i } else { i + 1 };
        assert(edge(q, i, a) == shift_link(edge(items, s, a), c));
        assert(link_in(items[s].right, items.len() as int) && link_in(items[s].down, items.len() as int));
        let v = edge(items, s, a)->0 as int;
        let w = edge(q, i, a)->0 as int;
        assert(r2[w] == rank[v]);
        assert(r2[i] == rank[s]);
    }
    assert(ranked_by(q, r2));
    assert forall|i: int, a: bool, j: int, b: bool|
        0 <= i < q.len() && 0 <= j < q.len() && i != -1 && j != -1 && (#[trigger] edge(q, i, a)) is Some
            && edge(q, i, a) == #[trigger] edge(q, j, b) implies i == j && a == b by {
        let si = if i < c { i } else { i + 1 };
        let sj = if j < c { j } else { j + 1 };
        assert(edge(q, i, a) == shift_link(edge(items, si, a), c));
        assert(edge(q, j, b) == shift_link(edge(items, sj, b), c));
        assert(edge(items, si, a) == edge(items, sj, b));
    }
}

} // verus!
