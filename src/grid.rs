use vstd::prelude::*;

use crate::dimension::{sat_px, ContextDimension, Delta, SugarDimensions};
use crate::forest::{
    edge, forest, lemma_forest_compact, lemma_forest_same_links, lemma_forest_single,
    lemma_forest_split, links_in_range, ranked_by, ranked_except, same_links, unique_except,
};

verus! {

/// Space between adjacent panes, in logical points.
pub const PADDING: i64 = 4;

/// `a / b` rounded toward zero, as the machine divides.
pub open spec fn div_trunc(a: int, b: int) -> int {
    if a >= 0 {
        a / b
    } else {
        -((-a) / b)
    }
}

/// `a + b + c`, clamped into `i64`.
pub(crate) fn sum_px(a: i64, b: i64, c: i64) -> (r: i64)
    ensures
        r == sat_px(a + b + c),
{
    let s = a as i128 + b as i128 + c as i128;
    if s < i64::MIN as i128 {
        i64::MIN
    } else if s > i64::MAX as i128 {
        i64::MAX
    } else {
        s as i64
    }
}

/// `a - b`, clamped into `i64`.
fn diff_px(a: i64, b: i64) -> (r: i64)
    ensures
        r == sat_px(a - b),
{
    let s = a as i128 - b as i128;
    if s < i64::MIN as i128 {
        i64::MIN
    } else if s > i64::MAX as i128 {
        i64::MAX
    } else {
        s as i64
    }
}

/// The terminal session hosted by a pane. The grid tells it each new box;
/// a session that cannot take it deals with that itself.
pub trait TerminalSession {
    fn resize(&self, dimension: ContextDimension);
}

/// One pane's session, the renderer's id for its text, and its box.
pub struct Context<T> {
    pub rich_text_id: usize,
    pub dimension: ContextDimension,
    pub terminal: T,
}

impl<T> Context<T> {
    pub fn new(rich_text_id: usize, dimension: ContextDimension, terminal: T) -> (r: Self)
        ensures
            r.rich_text_id == rich_text_id,
            r.dimension == dimension,
            r.terminal == terminal,
    {
        Context { rich_text_id, dimension, terminal }
    }
}

/// Text of one pane, drawn from `position`.
#[derive(Clone, Copy, Debug, PartialEq, Eq)]
pub struct RichText {
    pub id: usize,
    pub position: [i64; 2],
}

/// A filled rectangle: here, a separator between panes.
#[derive(Clone, Copy, Debug, PartialEq, Eq)]
pub struct Rect {
    pub position: [i64; 2],
    pub color: [u8; 4],
    pub size: [i64; 2],
}

/// One draw instruction for the renderer.
#[derive(Clone, Copy, Debug, PartialEq, Eq)]
pub enum Object {
    RichText(RichText),
    Rect(Rect),
}

/// A pane of the grid and its links, by index, to the pane on its right
/// and the pane below it.
pub struct ContextGridItem<T> {
    pub val: Context<T>,
    pub right: Option<usize>,
    pub down: Option<usize>,
}

impl<T> ContextGridItem<T> {
    pub fn new(context: Context<T>) -> (r: Self)
        ensures
            r.val == context,
            r.right is None,
            r.down is None,
    {
        ContextGridItem { val: context, right: None, down: None }
    }

    pub fn context(&self) -> (r: &Context<T>)
        ensures
            r == &self.val,
    {
        &self.val
    }

    pub fn context_mut(&mut self) -> (r: &mut Context<T>)
        ensures
            *r == old(self).val,
            final(self).val == *final(r),
            final(self).right == old(self).right,
            final(self).down == old(self).down,
    {
        &mut self.val
    }
}

/// A link that, if present, names one of `n` panes.
pub open spec fn link_in(link: Option<usize>, n: int) -> bool {
    match link {
        Some(v) => v < n,
        None => true,
    }
}

/// A link after the pane at index `i` leaves the array: later indices
/// move down by one, and a link to the removed pane is dropped.
pub open spec fn shift_link(link: Option<usize>, i: int) -> Option<usize> {
    match link {
        Some(v) => if v > i {
            Some((v - 1) as usize)
        } else if v == i {
            None
        } else {
            link
        },
        None => None,
    }
}

/// A pane's entry after the pane at index `i` leaves the array.
pub open spec fn shift_item<T>(it: ContextGridItem<T>, i: int) -> ContextGridItem<T> {
    ContextGridItem { val: it.val, right: shift_link(it.right, i), down: shift_link(it.down, i) }
}

/// The index of the pane that was at `t`, once the pane at `i` has left.
pub open spec fn focus_after(t: int, i: int) -> int {
    if t > i {
        t - 1
    } else {
        t
    }
}

/// The panes after the one at index `i` is removed and every link renumbered.
pub open spec fn compact<T>(items: Seq<ContextGridItem<T>>, i: int) -> Seq<ContextGridItem<T>> {
    items.remove(i).map_values(|it: ContextGridItem<T>| shift_item(it, i))
}

/// Where drawing continues past a pane `extent` pixels long at `scale`.
pub open spec fn advance(pos: int, extent: int, scale: int) -> int {
    sat_px(pos + PADDING + div_trunc(extent, scale))
}

/// The draw list of the subtree at `index`, in pre-order, descending at most
/// `fuel` levels.
pub open spec fn plot_spec<T>(
    items: Seq<ContextGridItem<T>>,
    color: [u8; 4],
    index: int,
    margin: Delta<i64>,
    fuel: nat,
) -> Seq<Object>
    decreases fuel,
{
    if fuel == 0 || index < 0 || index >= items.len() {
        Seq::empty()
    } else {
        let item = items[index];
        let d = item.val.dimension;
        let scale = d.dimension.scale as int;
        let thickness = (2u32 / d.dimension.scale) as i64;
        let head = seq![Object::RichText(RichText { id: item.val.rich_text_id, position: [margin.x, margin.top_y] })];
        let rights = match item.right {
            Some(r) => {
                let nx = advance(margin.x as int, d.width as int, scale) as i64;
                let m = Delta { x: nx, top_y: margin.top_y, bottom_y: margin.bottom_y };
                seq![Object::Rect(Rect {
                    position: [sat_px(nx - PADDING) as i64, margin.top_y],
                    color,
                    size: [thickness, d.height],
                })] + plot_spec(items, color, r as int, m, (fuel - 1) as nat)
            },
            None => Seq::empty(),
        };
        let downs = match item.down {
            Some(dn) => {
                let ny = advance(margin.top_y as int, d.height as int, scale) as i64;
                let m = Delta { x: margin.x, top_y: ny, bottom_y: margin.bottom_y };
                seq![Object::Rect(Rect {
                    position: [margin.x, sat_px(ny - PADDING) as i64],
                    color,
                    size: [d.width, thickness],
                })] + plot_spec(items, color, dn as int, m, (fuel - 1) as nat)
            },
            None => Seq::empty(),
        };
        head + rights + downs
    }
}

/// The per-pane deltas of a resize of the subtree at `index` that has
/// `(aw, ah)` to share, written into `v`; and what the pane keeps.
pub open spec fn resize_spec<T>(
    items: Seq<ContextGridItem<T>>,
    v: Seq<(i64, i64)>,
    index: int,
    aw: i64,
    ah: i64,
    fuel: nat,
) -> (Seq<(i64, i64)>, (i64, i64))
    decreases fuel,
{
    if fuel == 0 || index < 0 || index >= items.len() {
        (v, (aw, ah))
    } else {
        let item = items[index];
        let (v1, w) = match item.right {
            Some(r) => {
                let (v1, kept) = resize_spec(
                    items,
                    v,
                    r as int,
                    div_trunc(aw as int, 2) as i64,
                    ah,
                    (fuel - 1) as nat,
                );
                (v1, kept.0)
            },
            None => (v, aw),
        };
        let (v2, h) = match item.down {
            Some(dn) => {
                let (v2, kept) = resize_spec(
                    items,
                    v1,
                    dn as int,
                    aw,
                    div_trunc(ah as int, 2) as i64,
                    (fuel - 1) as nat,
                );
                (v2, kept.1)
            },
            None => (v1, ah),
        };
        (v2.update(index, (w, h)), (w, h))
    }
}

/// The first pane, from index `j` on, that links to `cur`: whether by its
/// right link, and its index.
pub open spec fn parent_from<T>(items: Seq<ContextGridItem<T>>, cur: int, j: int) -> Option<(bool, usize)>
    decreases items.len() - j,
{
    if j < 0 || j >= items.len() {
        None
    } else if items[j].right == Some(cur as usize) {
        Some((true, j as usize))
    } else if items[j].down == Some(cur as usize) {
        Some((false, j as usize))
    } else {
        parent_from(items, cur, j + 1)
    }
}

proof fn lemma_parent_in_range<T>(items: Seq<ContextGridItem<T>>, cur: int, j: int)
    requires
        items.len() <= usize::MAX,
        0 <= cur < items.len(),
        j >= 0,
    ensures
        match parent_from(items, cur, j) {
            Some((a, p)) => 0 <= j <= p < items.len() && edge(items, p as int, a) == Some(cur as usize),
            None => forall|k: int, x: bool|
                j <= k < items.len() ==> #[trigger] edge(items, k, x) != Some(cur as usize),
        },
    decreases items.len() - j,
{
    if j < items.len() {
        assert(edge(items, j, true) == items[j].right && edge(items, j, false) == items[j].down);
    }
    if 0 <= j < items.len() && items[j].right != Some(cur as usize) && items[j].down != Some(
        cur as usize,
    ) {
        lemma_parent_in_range(items, cur, j + 1);
        if parent_from(items, cur, j + 1) is None {
            assert forall|k: int, x: bool| j <= k < items.len() implies #[trigger] edge(items, k, x) != Some(
                cur as usize,
            ) by {
                if k == j {
                    assert(edge(items, j, true) == items[j].right);
                }
            }
        }
    }
}

/// Cutting pane `c` out of a forest: among the other panes the links still
/// form a forest, none of them links to `c`, and the focus goes to one of
/// them.
pub proof fn lemma_splice_forest<T>(items: Seq<ContextGridItem<T>>, c: int) -> (rank: Seq<nat>)
    requires
        forest(items),
        links_in_range(items),
        0 <= c < items.len() <= usize::MAX,
        items.len() >= 2,
    ensures
        splice(items, c).0.len() == items.len(),
        links_in_range(splice(items, c).0),
        unique_except(splice(items, c).0, c),
        ranked_except(splice(items, c).0, rank, c),
        forall|i: int, a: bool|
            0 <= i < items.len() && i != c ==> #[trigger] edge(splice(items, c).0, i, a) != Some(c as usize),
        0 <= splice(items, c).1 < items.len(),
        splice(items, c).1 != c,
{
    let n = items.len() as int;
    lemma_parent_in_range(items, c, 0);
    let rank = choose|rank: Seq<nat>| #[trigger] ranked_by(items, rank);
    let sp = splice(items, c).0;
    assert(link_in(items[c].right, n) && link_in(items[c].down, n));
    match parent_from(items, c, 0) {
        Some((pa, p)) => {
            let p = p as int;
            assert(edge(items, p, pa) == Some(c as usize));
            assert(rank[c] < rank[p]);
            assert(p != c);
            assert forall|k: int, x: bool| 0 <= k < n && !(k == p && x == pa) implies #[trigger] edge(
                sp,
                k,
                x,
            ) == edge(items, k, x) by {
                if k == p {
                    assert(sp[p].right == items[p].right || sp[p].down == items[p].down);
                }
            }
            assert(edge(sp, p, pa) == edge(items, c, pa));
            assert forall|i: int| 0 <= i < n implies link_in(#[trigger] sp[i].right, n) && link_in(
                sp[i].down,
                n,
            ) by {
                assert(link_in(items[i].right, n) && link_in(items[i].down, n));
                assert(edge(sp, i, true) == sp[i].right && edge(sp, i, false) == sp[i].down);
            }
            assert forall|i: int, a: bool, j: int, b: bool|
                0 <= i < n && 0 <= j < n && i != c && j != c && (#[trigger] edge(sp, i, a)) is Some
                    && edge(sp, i, a) == #[trigger] edge(sp, j, b) implies i == j && a == b by {
                if (i == p && a == pa) && !(j == p && b == pa) {
                    assert(edge(items, c, pa) == edge(items, j, b));
                } else if (j == p && b == pa) && !(i == p && a == pa) {
                    assert(edge(items, c, pa) == edge(items, i, a));
                } else if !(i == p && a == pa) && !(j == p && b == pa) {
                    assert(edge(items, i, a) == edge(items, j, b));
                }
            }
            assert forall|i: int, a: bool|
                0 <= i < n && i != c && (#[trigger] edge(sp, i, a)) is Some && edge(sp, i, a)->0 != c implies rank[edge(
                sp,
                i,
                a,
            )->0 as int] < rank[i] by {
                if i == p && a == pa {
                    assert(edge(items, c, pa) is Some);
                } else {
                    assert(edge(sp, i, a) == edge(items, i, a));
                }
            }
            assert forall|i: int, a: bool| 0 <= i < n && i != c implies #[trigger] edge(sp, i, a) != Some(
                c as usize,
            ) by {
                if i == p && a == pa {
                    if edge(items, c, pa) == Some(c as usize) {
                        assert(rank[c] < rank[c]);
                    }
                } else {
                    assert(edge(sp, i, a) == edge(items, i, a));
                    if edge(items, i, a) == Some(c as usize) {
                        assert(edge(items, i, a) == edge(items, p, pa));
                    }
                }
            }
        },
        None => {
            assert forall|k: int, x: bool| 0 <= k < n implies #[trigger] edge(sp, k, x) == edge(items, k, x) by {
                assert(sp[k].right == items[k].right && sp[k].down == items[k].down);
            }
            assert forall|i: int| 0 <= i < n implies link_in(#[trigger] sp[i].right, n) && link_in(
                sp[i].down,
                n,
            ) by {
                assert(link_in(items[i].right, n) && link_in(items[i].down, n));
                assert(edge(sp, i, true) == sp[i].right && edge(sp, i, false) == sp[i].down);
            }
            if let Some(r) = items[c].right {
                assert(edge(items, c, true) == Some(r));
                assert(rank[r as int] < rank[c]);
            } else if let Some(d) = items[c].down {
                assert(edge(items, c, false) == Some(d));
                assert(rank[d as int] < rank[c]);
            }
        },
    }
    rank
}

/// The margin of the first text at `id` in `objs`, moved in by the padding;
/// `fallback` if there is none.
pub open spec fn margin_of(objs: Seq<Object>, id: usize, fallback: Delta<i64>) -> Delta<i64>
    decreases objs.len(),
{
    if objs.len() == 0 {
        fallback
    } else {
        match objs[0] {
            Object::RichText(t) => if t.id == id {
                Delta {
                    x: sat_px(t.position[0] + PADDING) as i64,
                    top_y: sat_px(t.position[1] + PADDING) as i64,
                    bottom_y: fallback.bottom_y,
                }
            } else {
                margin_of(objs.drop_first(), id, fallback)
            },
            _ => margin_of(objs.drop_first(), id, fallback),
        }
    }
}

/// The pane `it` with another box.
pub open spec fn with_dimension<T>(it: ContextGridItem<T>, d: ContextDimension) -> ContextGridItem<T> {
    ContextGridItem {
        val: Context { rich_text_id: it.val.rich_text_id, dimension: d, terminal: it.val.terminal },
        right: it.right,
        down: it.down,
    }
}

/// The panes once the one at `cur` is cut out of the tree, before the array
/// is compacted, and the index of the pane that takes the focus.
///
/// A parent takes the removed pane's space and its link on the same axis;
/// a removed root hands its space to its right child, else to its down
/// child; a pane with neither passes the focus to the previous pane.
pub open spec fn splice<T>(items: Seq<ContextGridItem<T>>, cur: int) -> (Seq<ContextGridItem<T>>, int) {
    let it = items[cur];
    let ow = it.val.dimension.width as int;
    let oh = it.val.dimension.height as int;
    match parent_from(items, cur, 0) {
        Some((true, p)) => {
            let pi = items[p as int];
            let d = pi.val.dimension.with_width(sat_px(pi.val.dimension.width + ow + PADDING) as i64);
            let grown = with_dimension(pi, d);
            (items.update(p as int, ContextGridItem { val: grown.val, right: it.right, down: pi.down }), p as int)
        },
        Some((false, p)) => {
            let pi = items[p as int];
            let d = pi.val.dimension.with_height(sat_px(pi.val.dimension.height + oh) as i64);
            let grown = with_dimension(pi, d);
            (items.update(p as int, ContextGridItem { val: grown.val, right: pi.right, down: it.down }), p as int)
        },
        None => match it.right {
            Some(r) => {
                let ri = items[r as int];
                let d = ri.val.dimension.with_width(sat_px(ri.val.dimension.width + ow + PADDING) as i64);
                (items.update(r as int, with_dimension(ri, d)), r as int)
            },
            None => match it.down {
                Some(dn) => {
                    let di = items[dn as int];
                    let d = di.val.dimension.with_height(sat_px(di.val.dimension.height + oh) as i64);
                    (items.update(dn as int, with_dimension(di, d)), dn as int)
                },
                None => (items, if cur == 0 {
                    items.len() - 1
                } else {
                    cur - 1
                }),
            },
        },
    }
}

/// Removing a pane that hangs off a parent hands the removed pane's link
/// on that axis to the parent, so the subtree past it keeps its place in
/// the tree, and the focus goes to the parent.
pub proof fn lemma_reparent<T>(items: Seq<ContextGridItem<T>>, cur: int)
    requires
        0 <= cur < items.len() <= usize::MAX,
    ensures
        match parent_from(items, cur, 0) {
            Some((true, p)) => {
                &&& p < items.len()
                &&& splice(items, cur).0[p as int].right == items[cur].right
                &&& splice(items, cur).0[p as int].down == items[p as int].down
                &&& splice(items, cur).1 == p
            },
            Some((false, p)) => {
                &&& p < items.len()
                &&& splice(items, cur).0[p as int].down == items[cur].down
                &&& splice(items, cur).0[p as int].right == items[p as int].right
                &&& splice(items, cur).1 == p
            },
            None => true,
        },
{
    lemma_parent_in_range(items, cur, 0);
}

/// Compacting after the pane at `i` leaves: every pane keeps its session and
/// box, a link to a later pane is exactly one less, a link to an earlier
/// pane is unchanged, and no link names the removed pane any more.
pub proof fn lemma_compaction<T>(items: Seq<ContextGridItem<T>>, i: int, k: int)
    requires
        0 <= i < items.len() <= usize::MAX,
        0 <= k < items.len() - 1,
    ensures
        ({
            let j = if k < i {
                k
            } else {
                k + 1
            };
            let c = compact(items, i)[k];
            &&& compact(items, i).len() == items.len() - 1
            &&& c.val == items[j].val
            &&& (items[j].right is Some && items[j].right->0 > i ==> c.right == Some((items[j].right->0 - 1) as usize))
            &&& (items[j].right is Some && items[j].right->0 < i ==> c.right == items[j].right)
            &&& (items[j].right == Some(i as usize) ==> c.right is None)
            &&& (items[j].right is None ==> c.right is None)
            &&& (items[j].down is Some && items[j].down->0 > i ==> c.down == Some((items[j].down->0 - 1) as usize))
            &&& (items[j].down is Some && items[j].down->0 < i ==> c.down == items[j].down)
            &&& (items[j].down == Some(i as usize) ==> c.down is None)
            &&& (items[j].down is None ==> c.down is None)
        }),
{
    let j = if k < i {
        k
    } else {
        k + 1
    };
    assert(items.remove(i)[k] == items[j]);
    assert(compact(items, i)[k] == shift_item(items[j], i));
}

/// Removing the focused pane `i` of a well-formed grid: once it is cut
/// out, no other pane links to `i`, so compaction drops no link; a link to a
/// later pane ends up exactly one less, and a link to an earlier pane stays.
pub proof fn lemma_removal_renumbers<T: TerminalSession>(g: ContextGrid<T>, k: int, a: bool)
    requires
        g.wf(),
        g.items().len() >= 2,
        0 <= k < g.items().len() - 1,
    ensures
        ({
            let i = g.current as int;
            let sp = splice(g.items(), i).0;
            let j = if k < i {
                k
            } else {
                k + 1
            };
            let q = compact(sp, i);
            &&& edge(sp, j, a) != Some(i as usize)
            &&& (edge(sp, j, a) is Some && edge(sp, j, a)->0 > i ==> edge(q, k, a) == Some(
                (edge(sp, j, a)->0 - 1) as usize,
            ))
            &&& (edge(sp, j, a) is Some && edge(sp, j, a)->0 < i ==> edge(q, k, a) == edge(sp, j, a))
            &&& (edge(sp, j, a) is None ==> edge(q, k, a) is None)
        }),
{
    let i = g.current as int;
    let _ = lemma_splice_forest(g.items(), i);
    lemma_compaction(splice(g.items(), i).0, i, k);
}

/// The pane `it` grown by `delta` on each axis.
pub open spec fn grown_by<T>(it: ContextGridItem<T>, delta: (i64, i64)) -> ContextGridItem<T> {
    let d = it.val.dimension;
    let d1 = d.with_width(sat_px(d.width + delta.0) as i64);
    with_dimension(it, d1.with_height(sat_px(d.height + delta.1) as i64))
}

/// Per-pane deltas of a resize of the whole grid by `(dw, dh)`.
pub open spec fn resize_deltas<T>(items: Seq<ContextGridItem<T>>, dw: i64, dh: i64) -> Seq<(i64, i64)> {
    resize_spec(items, Seq::new(items.len(), |i: int| (0i64, 0i64)), 0, dw, dh, items.len()).0
}

/// Panes in a window, kept as a dense array whose links form the layout
/// tree; one of them has the focus.
pub struct ContextGrid<T> {
    pub width: i64,
    pub height: i64,
    pub current: usize,
    pub margin: Delta<i64>,
    pub border_color: [u8; 4],
    pub inner: Vec<ContextGridItem<T>>,
}

impl<T: TerminalSession> ContextGrid<T> {
    /// The panes, in array order.
    pub open spec fn items(&self) -> Seq<ContextGridItem<T>> {
        self.inner@
    }

    /// The separator colour.
    pub open spec fn color(&self) -> [u8; 4] {
        self.border_color
    }

    /// At least one pane, the focus on one of them, links that name panes
    /// and form a forest, and usable metrics in every pane.
    pub open spec fn wf(&self) -> bool {
        let n = self.items().len();
        &&& n >= 1
        &&& self.current < n
        &&& n < usize::MAX
        &&& links_in_range(self.items())
        &&& forest(self.items())
        &&& forall|i: int| 0 <= i < n ==> (#[trigger] self.items()[i]).val.dimension.wf()
    }

    /// The draw list that the renderer gets for the current layout.
    pub open spec fn objects_spec(&self) -> Seq<Object> {
        if self.items().len() == 1 {
            seq![Object::RichText(RichText { id: self.items()[0].val.rich_text_id, position: [self.margin.x, self.margin.top_y] })]
        } else {
            plot_spec(self.items(), self.color(), 0, self.margin, self.items().len())
        }
    }

    /// A grid of one pane that fills it.
    pub fn new(context: Context<T>, margin: Delta<i64>, border_color: [u8; 4]) -> (r: Self)
        requires
            context.dimension.wf(),
        ensures
            r.wf(),
            r.items().len() == 1,
            r.items()[0].val == context,
            r.items()[0].right is None,
            r.items()[0].down is None,
            r.current == 0,
            r.width == context.dimension.width,
            r.height == context.dimension.height,
            r.margin == margin,
            r.color() == border_color,
            r.objects_spec() == seq![Object::RichText(RichText { id: context.rich_text_id, position: [margin.x, margin.top_y] })],
    {
        let width = context.dimension.width;
        let height = context.dimension.height;
        let mut inner: Vec<ContextGridItem<T>> = Vec::new();
        inner.push(ContextGridItem::new(context));
        proof {
            lemma_forest_single(inner@);
        }
        ContextGrid { width, height, current: 0, margin, border_color, inner }
    }

    pub fn len(&self) -> (r: usize)
        ensures
            r == self.items().len(),
    {
        self.inner.len()
    }

    pub fn contexts(&self) -> (r: &Vec<ContextGridItem<T>>)
        ensures
            r@ == self.items(),
    {
        &self.inner
    }

    /// Moves the focus to the next pane in array order, wrapping around.
    pub fn select_next_split(&mut self)
        requires
            old(self).wf(),
        ensures
            final(self).wf(),
            final(self).items() == old(self).items(),
            final(self).current == (if old(self).current + 1 == old(self).items().len() {
                0
            } else {
                old(self).current + 1
            }),
            final(self).width == old(self).width,
            final(self).height == old(self).height,
            final(self).margin == old(self).margin,
            final(self).color() == old(self).color(),
    {
        if self.inner.len() == 1 {
            return;
        }
        if self.current >= self.inner.len() - 1 {
            self.current = 0;
        } else {
            self.current += 1;
        }
    }

    /// Moves the focus to the previous pane in array order, wrapping around.
    pub fn select_prev_split(&mut self)
        requires
            old(self).wf(),
        ensures
            final(self).wf(),
            final(self).items() == old(self).items(),
            final(self).current == (if old(self).current == 0 {
                old(self).items().len() - 1
            } else {
                old(self).current - 1
            }),
            final(self).width == old(self).width,
            final(self).height == old(self).height,
            final(self).margin == old(self).margin,
            final(self).color() == old(self).color(),
    {
        if self.inner.len() == 1 {
            return;
        }
        if self.current == 0 {
            self.current = self.inner.len() - 1;
        } else {
            self.current -= 1;
        }
    }

    /// The panes, for changes that the grid's methods do not make; a caller
    /// that changes links or metrics has to keep them well formed.
    pub fn contexts_mut(&mut self) -> (r: &mut Vec<ContextGridItem<T>>)
        ensures
            r@ == old(self).items(),
            final(self).items() == final(r)@,
            final(self).current == old(self).current,
            final(self).width == old(self).width,
            final(self).height == old(self).height,
            final(self).margin == old(self).margin,
            final(self).color() == old(self).color(),
    {
        &mut self.inner
    }

    /// The focused pane's session, for changes to it.
    pub fn current_mut(&mut self) -> (r: &mut Context<T>)
        requires
            old(self).wf(),
        ensures
            *r == old(self).items()[old(self).current as int].val,
            final(self).items() == old(self).items().update(
                old(self).current as int,
                ContextGridItem {
                    val: *final(r),
                    right: old(self).items()[old(self).current as int].right,
                    down: old(self).items()[old(self).current as int].down,
                },
            ),
            final(self).current == old(self).current,
            final(self).width == old(self).width,
            final(self).height == old(self).height,
            final(self).margin == old(self).margin,
            final(self).color() == old(self).color(),
    {
        let cur = self.current;
        self.inner[cur].context_mut()
    }

    pub fn current_index(&self) -> (r: usize)
        ensures
            r == self.current,
    {
        self.current
    }

    pub fn current(&self) -> (r: &Context<T>)
        requires
            self.wf(),
        ensures
            *r == self.items()[self.current as int].val,
    {
        &self.inner[self.current].val
    }

    /// The draw list: a lone pane's text at the margin; else the tree from
    /// the first pane in pre-order, with a separator before each neighbour.
    pub fn objects(&self) -> (r: Vec<Object>)
        requires
            self.wf(),
        ensures
            r@ == self.objects_spec(),
    {
        let len = self.inner.len();
        let mut objects: Vec<Object> = Vec::new();
        if len == 1 {
            objects.push(
                Object::RichText(RichText { id: self.inner[0].val.rich_text_id, position: [self.margin.x, self.margin.top_y] }),
            );
            proof {
                assert(objects@ =~= self.objects_spec());
            }
        } else {
            self.plot_objects(&mut objects, 0, self.margin);
            proof {
                assert(objects@ =~= self.objects_spec());
            }
        }
        objects
    }

    /// Appends the draw list of the subtree at `index`.
    pub fn plot_objects(&self, objects: &mut Vec<Object>, index: usize, margin: Delta<i64>)
        requires
            self.wf(),
        ensures
            final(objects)@ == old(objects)@ + plot_spec(
                self.items(),
                self.color(),
                index as int,
                margin,
                self.items().len(),
            ),
    {
        self.plot_from(objects, index, margin, self.inner.len());
    }

    fn plot_from(&self, objects: &mut Vec<Object>, index: usize, margin: Delta<i64>, fuel: usize)
        requires
            self.wf(),
        ensures
            final(objects)@ == old(objects)@ + plot_spec(
                self.items(),
                self.color(),
                index as int,
                margin,
                fuel as nat,
            ),
        decreases fuel,
    {
        if fuel == 0 || index >= self.inner.len() {
            proof {
                assert(objects@ =~= old(objects)@ + plot_spec(self.items(), self.color(), index as int, margin, fuel as nat));
            }
            return;
        }
        let ghost start = objects@;
        let item = &self.inner[index];
        let d = item.val.dimension;
        let scale = d.dimension.scale as i64;
        let thickness = (2u32 / d.dimension.scale) as i64;
        objects.push(Object::RichText(RichText { id: item.val.rich_text_id, position: [margin.x, margin.top_y] }));
        let ghost after_head = objects@;
        if let Some(r) = item.right {
            let nx = sum_px(margin.x, PADDING, d.width / scale);
            let m = Delta { x: nx, top_y: margin.top_y, bottom_y: margin.bottom_y };
            objects.push(
                Object::Rect(Rect {
                    position: [sum_px(nx, -PADDING, 0), margin.top_y],
                    color: self.border_color,
                    size: [thickness, d.height],
                }),
            );
            self.plot_from(objects, r, m, fuel - 1);
        }
        let ghost after_right = objects@;
        if let Some(dn) = item.down {
            let ny = sum_px(margin.top_y, PADDING, d.height / scale);
            let m = Delta { x: margin.x, top_y: ny, bottom_y: margin.bottom_y };
            objects.push(
                Object::Rect(Rect {
                    position: [margin.x, sum_px(ny, -PADDING, 0)],
                    color: self.border_color,
                    size: [d.width, thickness],
                }),
            );
            self.plot_from(objects, dn, m, fuel - 1);
        }
        proof {
            assert(objects@ =~= start + plot_spec(self.items(), self.color(), index as int, margin, fuel as nat));
        }
    }

    /// Hands pane `i`'s box to its session.
    fn notify(&self, i: usize)
        requires
            i < self.items().len(),
    {
        self.inner[i].val.terminal.resize(self.inner[i].val.dimension);
    }

    /// Halves the focused pane's width; the other half, less the padding,
    /// goes to `context`, placed on its right and focused.
    pub fn split_right(&mut self, context: Context<T>)
        requires
            old(self).wf(),
            old(self).items().len() + 2 < usize::MAX,
            context.dimension.wf(),
        ensures
            final(self).wf(),
            final(self).items().len() == old(self).items().len() + 1,
            final(self).current == old(self).items().len(),
            ({
                let c = old(self).current as int;
                let n = old(self).items().len();
                let it = old(self).items()[c];
                let w = (div_trunc(it.val.dimension.width as int, 2) - PADDING) as i64;
                &&& final(self).items()[c] == ContextGridItem {
                    val: with_dimension(it, it.val.dimension.with_width(w)).val,
                    right: Some(n as usize),
                    down: it.down,
                }
                &&& final(self).items()[n as int] == ContextGridItem {
                    val: Context {
                        rich_text_id: context.rich_text_id,
                        dimension: context.dimension.with_width(w),
                        terminal: context.terminal,
                    },
                    right: it.right,
                    down: None,
                }
                &&& forall|k: int|
                    0 <= k < n && k != c ==> #[trigger] final(self).items()[k] == old(self).items()[k]
            }),
            final(self).width == old(self).width,
            final(self).height == old(self).height,
            final(self).margin == old(self).margin,
            final(self).color() == old(self).color(),
    {
        let ghost items0 = self.inner@;
        let cur = self.current;
        let old_right = self.inner[cur].right;
        let half = self.inner[cur].val.dimension.width / 2;
        let new_width = half - PADDING;
        self.inner[cur].val.dimension.update_width(new_width);
        self.notify(cur);

        let mut item = ContextGridItem::new(context);
        item.val.dimension.update_width(new_width);
        self.inner.push(item);
        let n = self.inner.len() - 1;
        self.notify(n);

        self.inner[n].right = old_right;
        self.inner[cur].right = Some(n);
        self.current = n;
        proof {
            let after = self.inner@;
            assert forall|k: int| 0 <= k < items0.len() && k != cur implies #[trigger] edge(after, k, true)
                == edge(items0, k, true) && edge(after, k, false) == edge(items0, k, false) by {
                assert(after[k] == items0[k]);
            }
            lemma_forest_split(items0, cur as int, true, after);
            assert forall|i: int| 0 <= i < after.len() implies link_in(#[trigger] after[i].right, after.len() as int)
                && link_in(after[i].down, after.len() as int) by {
                if i < items0.len() {
                    assert(link_in(items0[i].right, items0.len() as int));
                }
            }
        }
    }

    /// Halves the focused pane's height; the other half, less twice the
    /// padding, goes to `context`, placed below it and focused.
    pub fn split_down(&mut self, context: Context<T>)
        requires
            old(self).wf(),
            old(self).items().len() + 2 < usize::MAX,
            context.dimension.wf(),
        ensures
            final(self).wf(),
            final(self).items().len() == old(self).items().len() + 1,
            final(self).current == old(self).items().len(),
            ({
                let c = old(self).current as int;
                let n = old(self).items().len();
                let it = old(self).items()[c];
                let h = (div_trunc(it.val.dimension.height as int, 2) - 2 * PADDING) as i64;
                &&& final(self).items()[c] == ContextGridItem {
                    val: with_dimension(it, it.val.dimension.with_height(h)).val,
                    right: it.right,
                    down: Some(n as usize),
                }
                &&& final(self).items()[n as int] == ContextGridItem {
                    val: Context {
                        rich_text_id: context.rich_text_id,
                        dimension: context.dimension.with_height(h),
                        terminal: context.terminal,
                    },
                    right: None,
                    down: it.down,
                }
                &&& forall|k: int|
                    0 <= k < n && k != c ==> #[trigger] final(self).items()[k] == old(self).items()[k]
            }),
            final(self).width == old(self).width,
            final(self).height == old(self).height,
            final(self).margin == old(self).margin,
            final(self).color() == old(self).color(),
    {
        let ghost items0 = self.inner@;
        let cur = self.current;
        let old_down = self.inner[cur].down;
        let half = self.inner[cur].val.dimension.height / 2;
        let new_height = half - PADDING * 2;
        self.inner[cur].val.dimension.update_height(new_height);
        self.notify(cur);

        let mut item = ContextGridItem::new(context);
        item.val.dimension.update_height(new_height);
        self.inner.push(item);
        let n = self.inner.len() - 1;
        self.notify(n);

        self.inner[n].down = old_down;
        self.inner[cur].down = Some(n);
        self.current = n;
        proof {
            let after = self.inner@;
            assert forall|k: int| 0 <= k < items0.len() && k != cur implies #[trigger] edge(after, k, true)
                == edge(items0, k, true) && edge(after, k, false) == edge(items0, k, false) by {
                assert(after[k] == items0[k]);
            }
            lemma_forest_split(items0, cur as int, false, after);
            assert forall|i: int| 0 <= i < after.len() implies link_in(#[trigger] after[i].right, after.len() as int)
                && link_in(after[i].down, after.len() as int) by {
                if i < items0.len() {
                    assert(link_in(items0[i].right, items0.len() as int));
                }
            }
        }
    }

    /// The first pane in array order that links to `cur`, and on which axis.
    fn find_parent(&self, cur: usize) -> (r: Option<(bool, usize)>)
        requires
            self.items().len() <= usize::MAX,
            cur < self.items().len(),
        ensures
            r == parent_from(self.items(), cur as int, 0),
            match r {
                Some((_, p)) => p < self.items().len(),
                None => true,
            },
    {
        proof {
            lemma_parent_in_range(self.items(), cur as int, 0);
        }
        let mut j: usize = 0;
        while j < self.inner.len()
            invariant
                0 <= j <= self.items().len(),
                parent_from(self.items(), cur as int, 0) == parent_from(self.items(), cur as int, j as int),
            decreases self.items().len() - j,
        {
            if let Some(r) = self.inner[j].right {
                if r == cur {
                    return Some((true, j));
                }
            }
            if let Some(d) = self.inner[j].down {
                if d == cur {
                    return Some((false, j));
                }
            }
            j += 1;
        }
        None
    }

    /// Deletes the entry at `index` and renumbers every link past it.
    fn remove_index(&mut self, index: usize)
        requires
            index < old(self).items().len(),
        ensures
            final(self).items() == compact(old(self).items(), index as int),
            final(self).current == old(self).current,
            final(self).width == old(self).width,
            final(self).height == old(self).height,
            final(self).margin == old(self).margin,
            final(self).color() == old(self).color(),
    {
        let ghost items0 = self.inner@;
        let mut i: usize = 0;
        while i < self.inner.len()
            invariant
                self.inner@.len() == items0.len(),
                index < items0.len(),
                0 <= i <= items0.len(),
                forall|k: int| 0 <= k < i ==> #[trigger] self.inner@[k] == shift_item(items0[k], index as int),
                forall|k: int| i <= k < items0.len() ==> #[trigger] self.inner@[k] == items0[k],
                self.current == old(self).current,
                self.width == old(self).width,
                self.height == old(self).height,
                self.margin == old(self).margin,
                self.border_color == old(self).border_color,
            decreases items0.len() - i,
        {
            if let Some(r) = self.inner[i].right {
                if r > index {
                    self.inner[i].right = Some(r - 1);
                } else if r == index {
                    self.inner[i].right = None;
                }
            }
            if let Some(d) = self.inner[i].down {
                if d > index {
                    self.inner[i].down = Some(d - 1);
                } else if d == index {
                    self.inner[i].down = None;
                }
            }
            i += 1;
        }
        self.inner.remove(index);
        proof {
            assert(self.inner@ =~= compact(items0, index as int));
        }
    }

    /// Closes the focused pane: its space goes to a neighbour (see
    /// [`splice`]), the focus moves there, and the array is compacted.
    pub fn remove_current(&mut self)
        requires
            old(self).wf(),
            old(self).items().len() >= 2,
        ensures
            final(self).wf(),
            final(self).items().len() == old(self).items().len() - 1,
            final(self).items() == compact(
                splice(old(self).items(), old(self).current as int).0,
                old(self).current as int,
            ),
            final(self).current == focus_after(
                splice(old(self).items(), old(self).current as int).1,
                old(self).current as int,
            ),
            final(self).width == old(self).width,
            final(self).height == old(self).height,
            final(self).margin == old(self).margin,
            final(self).color() == old(self).color(),
    {
        let ghost items0 = self.inner@;
        let old = self.current;
        let parent = self.find_parent(old);
        let old_width = self.inner[old].val.dimension.width;
        let old_height = self.inner[old].val.dimension.height;
        let old_right = self.inner[old].right;
        let old_down = self.inner[old].down;
        let target: usize;
        match parent {
            Some((true, p)) => {
                let pw = self.inner[p].val.dimension.width;
                self.inner[p].val.dimension.update_width(sum_px(pw, old_width, PADDING));
                self.inner[p].right = old_right;
                self.notify(p);
                target = p;
            },
            Some((false, p)) => {
                let ph = self.inner[p].val.dimension.height;
                self.inner[p].val.dimension.update_height(sum_px(ph, old_height, 0));
                self.inner[p].down = old_down;
                self.notify(p);
                target = p;
            },
            None => {
                if let Some(r) = old_right {
                    let rw = self.inner[r].val.dimension.width;
                    self.inner[r].val.dimension.update_width(sum_px(rw, old_width, PADDING));
                    self.notify(r);
                    target = r;
                } else if let Some(d) = old_down {
                    let dh = self.inner[d].val.dimension.height;
                    self.inner[d].val.dimension.update_height(sum_px(dh, old_height, 0));
                    self.notify(d);
                    target = d;
                } else if old == 0 {
                    target = self.inner.len() - 1;
                } else {
                    target = old - 1;
                }
            },
        }
        proof {
            let sp = splice(items0, old as int);
            assert(self.inner@ =~= sp.0);
            assert(target == sp.1);
        }
        self.remove_index(old);
        if target > old {
            self.current = target - 1;
        } else {
            self.current = target;
        }
        proof {
            let sp = splice(items0, old as int);
            let rank = lemma_splice_forest(items0, old as int);
            lemma_forest_compact(sp.0, old as int, rank);
            let m = self.inner@.len();
            assert forall|i: int| 0 <= i < m implies link_in(#[trigger] self.inner@[i].right, m as int)
                && link_in(self.inner@[i].down, m as int) && self.inner@[i].val.dimension.wf() by {
                let j = if i < old {
                    i
                } else {
                    i + 1
                };
                assert(self.inner@[i] == shift_item(sp.0[j], old as int));
                assert(link_in(sp.0[j].right, items0.len() as int) && link_in(
                    sp.0[j].down,
                    items0.len() as int,
                ));
            }
        }
    }

    /// Resizes the grid to `new_width` by `new_height`, sharing the change
    /// out over the tree (see [`resize_spec`]) and telling every session.
    pub fn resize(&mut self, new_width: i64, new_height: i64)
        requires
            old(self).wf(),
        ensures
            final(self).wf(),
            final(self).width == new_width,
            final(self).height == new_height,
            final(self).items().len() == old(self).items().len(),
            forall|k: int|
                0 <= k < old(self).items().len() ==> #[trigger] final(self).items()[k] == grown_by(
                    old(self).items()[k],
                    resize_deltas(
                        old(self).items(),
                        sat_px(new_width - old(self).width) as i64,
                        sat_px(new_height - old(self).height) as i64,
                    )[k],
                ),
            final(self).current == old(self).current,
            final(self).margin == old(self).margin,
            final(self).color() == old(self).color(),
    {
        let width_difference = diff_px(new_width, self.width);
        let height_difference = diff_px(new_height, self.height);
        self.width = new_width;
        self.height = new_height;

        let ghost items0 = self.inner@;
        let n = self.inner.len();
        let mut vector: Vec<(i64, i64)> = Vec::new();
        let mut i: usize = 0;
        while i < n
            invariant
                0 <= i <= n,
                n == items0.len(),
                vector@ =~= Seq::new(i as nat, |k: int| (0i64, 0i64)),
            decreases n - i,
        {
            vector.push((0, 0));
            i += 1;
        }
        self.resize_context(&mut vector, 0, width_difference, height_difference, n);
        proof {
            assert(vector@ == resize_deltas(items0, width_difference, height_difference));
        }

        let mut i: usize = 0;
        while i < n
            invariant
                0 <= i <= n,
                n == items0.len(),
                vector@.len() == n,
                vector@ == resize_deltas(items0, width_difference, height_difference),
                self.inner@.len() == n,
                forall|k: int| 0 <= k < i ==> #[trigger] self.inner@[k] == grown_by(items0[k], vector@[k]),
                forall|k: int| i <= k < n ==> #[trigger] self.inner@[k] == items0[k],
                forall|k: int| 0 <= k < n ==> (#[trigger] items0[k]).val.dimension.wf(),
                self.width == new_width,
                self.height == new_height,
                self.current == old(self).current,
                self.margin == old(self).margin,
                self.border_color == old(self).border_color,
            decreases n - i,
        {
            let (dw, dh) = vector[i];
            let w = self.inner[i].val.dimension.width;
            self.inner[i].val.dimension.update_width(sum_px(w, dw, 0));
            let h = self.inner[i].val.dimension.height;
            self.inner[i].val.dimension.update_height(sum_px(h, dh, 0));
            self.notify(i);
            i += 1;
        }
        proof {
            let after = self.inner@;
            assert forall|i: int| 0 <= i < after.len() implies (#[trigger] after[i]).right == items0[i].right
                && after[i].down == items0[i].down by {}
            assert(same_links(items0, after));
            lemma_forest_same_links(items0, after);
            assert forall|i: int| 0 <= i < after.len() implies link_in(#[trigger] after[i].right, after.len() as int)
                && link_in(after[i].down, after.len() as int) by {
                assert(link_in(items0[i].right, items0.len() as int));
            }
        }
    }

    fn resize_context(
        &self,
        vector: &mut Vec<(i64, i64)>,
        index: usize,
        available_width: i64,
        available_height: i64,
        fuel: usize,
    ) -> (r: (i64, i64))
        requires
            self.wf(),
            old(vector)@.len() == self.items().len(),
        ensures
            (final(vector)@, r) == resize_spec(
                self.items(),
                old(vector)@,
                index as int,
                available_width,
                available_height,
                fuel as nat,
            ),
            final(vector)@.len() == old(vector)@.len(),
        decreases fuel,
    {
        if fuel == 0 || index >= self.inner.len() {
            return (available_width, available_height);
        }
        let item = &self.inner[index];
        let mut width = available_width;
        let mut height = available_height;
        if let Some(r) = item.right {
            let kept = self.resize_context(vector, r, available_width / 2, available_height, fuel - 1);
            width = kept.0;
        }
        if let Some(d) = item.down {
            let kept = self.resize_context(vector, d, available_width, available_height / 2, fuel - 1);
            height = kept.1;
        }
        vector.set(index, (width, height));
        (width, height)
    }

    /// Sets the grid's margin and gives it to every pane.
    pub fn update_margin(&mut self, padding: (i64, i64, i64))
        requires
            old(self).wf(),
        ensures
            final(self).wf(),
            final(self).margin == (Delta { x: padding.0, top_y: padding.1, bottom_y: padding.2 }),
            final(self).items().len() == old(self).items().len(),
            forall|k: int|
                0 <= k < old(self).items().len() ==> #[trigger] final(self).items()[k] == with_dimension(
                    old(self).items()[k],
                    old(self).items()[k].val.dimension.with_margin(final(self).margin),
                ),
            final(self).current == old(self).current,
            final(self).width == old(self).width,
            final(self).height == old(self).height,
            final(self).color() == old(self).color(),
    {
        self.margin = Delta { x: padding.0, top_y: padding.1, bottom_y: padding.2 };
        let ghost items0 = self.inner@;
        let n = self.inner.len();
        let mut i: usize = 0;
        while i < n
            invariant
                0 <= i <= n,
                n == items0.len(),
                self.inner@.len() == n,
                forall|k: int|
                    0 <= k < i ==> #[trigger] self.inner@[k] == with_dimension(
                        items0[k],
                        items0[k].val.dimension.with_margin(self.margin),
                    ),
                forall|k: int| i <= k < n ==> #[trigger] self.inner@[k] == items0[k],
                forall|k: int| 0 <= k < n ==> (#[trigger] items0[k]).val.dimension.wf(),
                self.margin == (Delta { x: padding.0, top_y: padding.1, bottom_y: padding.2 }),
                self.width == old(self).width,
                self.height == old(self).height,
                self.current == old(self).current,
                self.border_color == old(self).border_color,
            decreases n - i,
        {
            let m = self.margin;
            self.inner[i].val.dimension.update_margin(m);
            i += 1;
        }
        proof {
            let after = self.inner@;
            assert forall|i: int| 0 <= i < after.len() implies (#[trigger] after[i]).right == items0[i].right
                && after[i].down == items0[i].down by {}
            assert(same_links(items0, after));
            lemma_forest_same_links(items0, after);
            assert forall|i: int| 0 <= i < after.len() implies link_in(#[trigger] after[i].right, after.len() as int)
                && link_in(after[i].down, after.len() as int) by {
                assert(link_in(items0[i].right, items0.len() as int));
            }
        }
    }

    /// Gives each pane new cell metrics, `metrics[k]` to pane `k`, and
    /// recomputes its grid.
    pub fn update_dimensions(&mut self, metrics: &Vec<SugarDimensions>)
        requires
            old(self).wf(),
            metrics@.len() == old(self).items().len(),
            forall|k: int| 0 <= k < metrics@.len() ==> (#[trigger] metrics@[k]).wf(),
        ensures
            final(self).wf(),
            final(self).items().len() == old(self).items().len(),
            forall|k: int|
                0 <= k < old(self).items().len() ==> #[trigger] final(self).items()[k] == with_dimension(
                    old(self).items()[k],
                    ContextDimension::recomputed(
                        old(self).items()[k].val.dimension,
                        old(self).items()[k].val.dimension.width,
                        old(self).items()[k].val.dimension.height,
                        metrics@[k],
                        old(self).items()[k].val.dimension.margin,
                    ),
                ),
            final(self).current == old(self).current,
            final(self).width == old(self).width,
            final(self).height == old(self).height,
            final(self).margin == old(self).margin,
            final(self).color() == old(self).color(),
    {
        let ghost items0 = self.inner@;
        let n = self.inner.len();
        let mut i: usize = 0;
        while i < n
            invariant
                0 <= i <= n,
                n == items0.len(),
                metrics@.len() == n,
                forall|k: int| 0 <= k < n ==> (#[trigger] metrics@[k]).wf(),
                self.inner@.len() == n,
                forall|k: int|
                    0 <= k < i ==> #[trigger] self.inner@[k] == with_dimension(
                        items0[k],
                        ContextDimension::recomputed(
                            items0[k].val.dimension,
                            items0[k].val.dimension.width,
                            items0[k].val.dimension.height,
                            metrics@[k],
                            items0[k].val.dimension.margin,
                        ),
                    ),
                forall|k: int| i <= k < n ==> #[trigger] self.inner@[k] == items0[k],
                forall|k: int| 0 <= k < n ==> (#[trigger] items0[k]).val.dimension.wf(),
                self.width == old(self).width,
                self.height == old(self).height,
                self.margin == old(self).margin,
                self.current == old(self).current,
                self.border_color == old(self).border_color,
            decreases n - i,
        {
            self.inner[i].val.dimension.update_dimensions(metrics[i]);
            i += 1;
        }
        proof {
            let after = self.inner@;
            assert forall|i: int| 0 <= i < after.len() implies (#[trigger] after[i]).right == items0[i].right
                && after[i].down == items0[i].down by {}
            assert(same_links(items0, after));
            lemma_forest_same_links(items0, after);
            assert forall|i: int| 0 <= i < after.len() implies link_in(#[trigger] after[i].right, after.len() as int)
                && link_in(after[i].down, after.len() as int) by {
                assert(link_in(items0[i].right, items0.len() as int));
            }
        }
    }

    /// The whole grid's box and grid, with the focused pane's metrics.
    pub fn grid_dimension(&self) -> (r: ContextDimension)
        requires
            self.wf(),
        ensures
            r == ContextDimension::recomputed(
                self.items()[self.current as int].val.dimension,
                self.width,
                self.height,
                self.items()[self.current as int].val.dimension.dimension,
                self.margin,
            ),
    {
        let d = self.inner[self.current].val.dimension;
        ContextDimension::build(self.width, self.height, d.dimension, 100, self.margin)
    }

    /// The focused pane, and the margin at which it is drawn, moved in by
    /// the padding; read from the draw list itself.
    pub fn current_context_with_computed_dimension(&self) -> (r: (&Context<T>, Delta<i64>))
        requires
            self.wf(),
        ensures
            *r.0 == self.items()[self.current as int].val,
            r.1 == margin_of(
                self.objects_spec(),
                self.items()[self.current as int].val.rich_text_id,
                self.margin,
            ),
    {
        let objects = self.objects();
        let id = self.inner[self.current].val.rich_text_id;
        let mut margin = self.margin;
        let mut i: usize = 0;
        proof {
            assert(objects@.skip(0) =~= objects@);
        }
        while i < objects.len()
            invariant
                self.wf(),
                objects@ == self.objects_spec(),
                id == self.items()[self.current as int].val.rich_text_id,
                0 <= i <= objects@.len(),
                margin == self.margin,
                margin_of(objects@, id, self.margin) == margin_of(objects@.skip(i as int), id, self.margin),
            decreases objects@.len() - i,
        {
            proof {
                assert(objects@.skip(i as int).drop_first() =~= objects@.skip(i as int + 1));
                assert(objects@.skip(i as int)[0] == objects@[i as int]);
            }
            if let Object::RichText(t) = objects[i] {
                if t.id == id {
                    margin.x = sum_px(t.position[0], PADDING, 0);
                    margin.top_y = sum_px(t.position[1], PADDING, 0);
                    return (&self.inner[self.current].val, margin);
                }
            }
            i += 1;
        }
        (&self.inner[self.current].val, margin)
    }
}

} // verus!
