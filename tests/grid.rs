use pane_grid::{
    Context, ContextDimension, ContextGrid, Delta, Object, Rect, RichText, SugarDimensions,
    TerminalSession, PADDING,
};
use std::cell::RefCell;
use std::rc::Rc;

struct VoidListener;

impl TerminalSession for VoidListener {
    fn resize(&self, _dimension: ContextDimension) {}
}

/// Records every box a session was told about.
struct Recorder {
    seen: Rc<RefCell<Vec<(usize, usize)>>>,
}

impl TerminalSession for Recorder {
    fn resize(&self, dimension: ContextDimension) {
        self.seen.borrow_mut().push((dimension.columns, dimension.lines));
    }
}

fn create_mock_context(rich_text_id: usize, dimension: ContextDimension) -> Context<VoidListener> {
    Context::new(rich_text_id, dimension, VoidListener)
}

fn metrics(width: u32, height: u32) -> SugarDimensions {
    SugarDimensions { scale: 2, width, height }
}

fn no_margin() -> Delta<i64> {
    Delta { x: 0, top_y: 0, bottom_y: 0 }
}

fn square_grid() -> ContextGrid<VoidListener> {
    let context_dimension = ContextDimension::build(600, 600, metrics(14, 8), 100, Delta::default());
    assert_eq!(context_dimension.columns, 42);
    assert_eq!(context_dimension.lines, 75);
    ContextGrid::new(create_mock_context(0, context_dimension), no_margin(), [0, 0, 0, 0])
}

#[test]
fn test_single_context_respecting_margin_and_no_quad_creation() {
    let margin = Delta { x: 10, top_y: 20, bottom_y: 20 };
    let context_dimension = ContextDimension::build(1200, 800, metrics(18, 9), 100, Delta::default());
    assert_eq!(context_dimension.columns, 66);
    assert_eq!(context_dimension.lines, 88);
    let rich_text_id = 1;
    let context = create_mock_context(rich_text_id, context_dimension);
    let context_width = context.dimension.width;
    let context_height = context.dimension.height;
    let context_margin = context.dimension.margin;
    let grid = ContextGrid::new(context, margin, [0, 0, 0, 0]);
    assert_eq!(grid.width, context_width);
    assert_eq!(grid.height, context_height);
    assert_eq!(Delta::<i64>::default(), context_margin);
    assert_eq!(grid.margin, margin);
    assert_eq!(
        grid.objects(),
        vec![Object::RichText(RichText { id: rich_text_id, position: [10, 20] })]
    );
}

fn text(id: usize, x: i64, y: i64) -> Object {
    Object::RichText(RichText { id, position: [x, y] })
}

fn rect(x: i64, y: i64, color: [u8; 4], w: i64, h: i64) -> Object {
    Object::Rect(Rect { position: [x, y], color, size: [w, h] })
}

#[test]
fn test_split_right() {
    let margin = Delta { x: 10, top_y: 20, bottom_y: 20 };
    let context_dimension = ContextDimension::build(1200, 800, metrics(14, 8), 100, Delta::default());
    assert_eq!(context_dimension.columns, 85);
    assert_eq!(context_dimension.lines, 100);
    let color = [1, 0, 0, 0];
    let mut grid = ContextGrid::new(create_mock_context(0, context_dimension), margin, color);
    assert_eq!(grid.objects(), vec![text(0, 10, 20)]);

    grid.split_right(create_mock_context(1, context_dimension));
    assert_eq!(
        grid.objects(),
        vec![text(0, 10, 20), rect(308, 20, color, 1, 800), text(1, 312, 20)]
    );

    grid.split_right(create_mock_context(2, context_dimension));
    assert_eq!(
        grid.objects(),
        vec![
            text(0, 10, 20),
            rect(308, 20, color, 1, 800),
            text(1, 312, 20),
            rect(459, 20, color, 1, 800),
            text(2, 463, 20),
        ]
    );
}

#[test]
fn test_split_down() {
    let margin = Delta { x: 10, top_y: 20, bottom_y: 20 };
    let context_dimension = ContextDimension::build(1200, 800, metrics(14, 8), 100, Delta::default());
    assert_eq!(context_dimension.columns, 85);
    assert_eq!(context_dimension.lines, 100);
    let color = [0, 0, 1, 0];
    let mut grid = ContextGrid::new(create_mock_context(0, context_dimension), margin, color);
    assert_eq!(grid.objects(), vec![text(0, 10, 20)]);

    grid.split_down(create_mock_context(1, context_dimension));
    assert_eq!(
        grid.objects(),
        vec![text(0, 10, 20), rect(10, 216, color, 1200, 1), text(1, 10, 220)]
    );

    grid.split_down(create_mock_context(2, context_dimension));
    assert_eq!(
        grid.objects(),
        vec![
            text(0, 10, 20),
            rect(10, 216, color, 1200, 1),
            text(1, 10, 220),
            rect(10, 314, color, 1200, 1),
            text(2, 10, 318),
        ]
    );
}

#[test]
fn test_resize() {
    let mut grid = square_grid();
    let context_dimension = grid.current().dimension;
    assert_eq!(grid.objects(), vec![text(0, 0, 0)]);
    grid.split_right(create_mock_context(1, context_dimension));
    grid.split_down(create_mock_context(2, context_dimension));
    assert_eq!(grid.width, 600);
    assert_eq!(grid.height, 600);
    grid.resize(1200, 600);
    assert_eq!(grid.width, 1200);
    assert_eq!(grid.height, 600);
}

#[test]
fn test_remove_side_by_side() {
    let mut grid = square_grid();
    let context_dimension = grid.current().dimension;
    assert_eq!(grid.objects(), vec![text(0, 0, 0)]);
    grid.split_right(create_mock_context(1, context_dimension));
    assert_eq!(grid.width, 600);
    assert_eq!(grid.height, 600);

    let expected_width = (600 / 2) - PADDING;
    assert_eq!(grid.current().dimension.width, expected_width);
    assert_eq!(grid.current_index(), 1);

    grid.select_prev_split();
    assert_eq!(grid.current().dimension.width, expected_width);
    assert_eq!(grid.current_index(), 0);

    grid.select_next_split();
    assert_eq!(grid.current_index(), 1);

    grid.remove_current();
    assert_eq!(grid.current_index(), 0);
    let expected_width = 600 - PADDING;
    assert_eq!(grid.current().dimension.width, expected_width);
}

#[test]
fn test_remove_current_move_child_from_right() {
    let mut grid = square_grid();
    let context_dimension = grid.current().dimension;
    assert_eq!(grid.objects(), vec![text(0, 0, 0)]);
    grid.split_right(create_mock_context(1, context_dimension));
    assert_eq!(grid.width, 600);
    assert_eq!(grid.height, 600);

    let expected_width = (600 / 2) - PADDING;
    assert_eq!(grid.current().dimension.width, expected_width);
    assert_eq!(grid.current_index(), 1);

    grid.select_prev_split();
    assert_eq!(grid.current().dimension.width, expected_width);
    assert_eq!(grid.current_index(), 0);

    let current_index = grid.current_index();
    assert_eq!(grid.contexts()[current_index].right, Some(1));
    assert_eq!(grid.contexts()[current_index].down, None);

    grid.remove_current();
    assert_eq!(grid.current_index(), 0);
    let expected_width = 600 - PADDING;
    assert_eq!(grid.current().dimension.width, expected_width);

    let current_index = grid.current_index();
    assert_eq!(grid.contexts()[current_index].right, None);
    assert_eq!(grid.contexts()[current_index].down, None);
}

#[test]
fn pane_count_follows_splits_and_removals() {
    let mut grid = square_grid();
    let d = grid.current().dimension;
    let mut id = 1;
    for round in 0..4 {
        if round % 2 == 0 {
            grid.split_right(create_mock_context(id, d));
        } else {
            grid.split_down(create_mock_context(id, d));
        }
        id += 1;
        assert!(grid.current_index() < grid.len());
    }
    assert_eq!(grid.len(), 5);
    grid.select_prev_split();
    grid.remove_current();
    assert_eq!(grid.len(), 4);
    assert!(grid.current_index() < grid.len());
    grid.select_next_split();
    grid.remove_current();
    assert_eq!(grid.len(), 3);
    assert!(grid.current_index() < grid.len());
    grid.split_down(create_mock_context(id, d));
    assert_eq!(grid.len(), 4);
    assert_eq!(grid.current_index(), 3);
}

#[test]
fn compute_is_monotonic_and_clamped() {
    let m = metrics(14, 8);
    let mut last = (0, 0);
    for size in [-100, 0, 10, 28, 600, 601, 1200] {
        let d = ContextDimension::build(size, size, m, 100, no_margin());
        assert!(d.columns >= 2);
        assert!(d.lines >= 1);
        assert!(d.columns >= last.0 && d.lines >= last.1);
        last = (d.columns, d.lines);
    }
    let tiny = ContextDimension::build(0, 0, m, 100, no_margin());
    assert_eq!((tiny.columns, tiny.lines), (2, 1));
}

#[test]
fn compute_uses_margin_and_line_height() {
    let margin = Delta { x: 10, top_y: 20, bottom_y: 20 };
    // (1200 - 10 * 2 * 2) / 18 = 64; (800 - 40 * 2) * 100 / (9 * 150) = 53
    let d = ContextDimension::build(1200, 800, metrics(18, 9), 150, margin);
    assert_eq!(d.columns, 64);
    assert_eq!(d.lines, 53);
    let mut e = d;
    e.update_height(800);
    // at the standard line height: (800 - 80) / 9 = 80
    assert_eq!(e.lines, 80);
    e.update_margin(no_margin());
    assert_eq!((e.columns, e.lines), (66, 88));
    e.update_dimensions(metrics(14, 8));
    assert_eq!((e.columns, e.lines), (85, 100));
    e.update_width(140);
    assert_eq!(e.columns(), 10);
    assert_eq!(e.screen_lines(), 100);
    assert_eq!(e.total_lines(), 100);
    assert_eq!(e.square_width(), 14);
    assert_eq!(e.square_height(), 8);
}

#[test]
fn default_dimension_is_minimal() {
    let d = ContextDimension::default();
    assert_eq!((d.width, d.height, d.columns, d.lines), (0, 0, 2, 1));
}

#[test]
fn fresh_grid_draws_one_text_at_margin() {
    let d = ContextDimension::build(300, 200, metrics(14, 8), 100, no_margin());
    let margin = Delta { x: 7, top_y: 3, bottom_y: 9 };
    let grid = ContextGrid::new(create_mock_context(42, d), margin, [9, 9, 9, 9]);
    assert_eq!(grid.objects(), vec![text(42, 7, 3)]);
    assert_eq!(grid.len(), 1);
}

#[test]
fn removal_reparents_right_chain() {
    let mut grid = square_grid();
    let d = grid.current().dimension;
    grid.split_right(create_mock_context(1, d));
    grid.split_right(create_mock_context(2, d));
    // 0 -> 1 -> 2 along the right axis; remove the middle pane
    grid.select_prev_split();
    assert_eq!(grid.current_index(), 1);
    grid.remove_current();
    assert_eq!(grid.len(), 2);
    assert_eq!(grid.current_index(), 0);
    assert_eq!(grid.contexts()[0].right, Some(1));
    assert_eq!(grid.contexts()[1].context().rich_text_id, 2);
    // 296 + 144 + 4
    assert_eq!(grid.current().dimension.width, 444);
    let ids: Vec<usize> = grid
        .objects()
        .iter()
        .filter_map(|o| match o {
            Object::RichText(t) => Some(t.id),
            _ => None,
        })
        .collect();
    assert_eq!(ids, vec![0, 2]);
}

#[test]
fn removal_renumbers_later_links() {
    let mut grid = square_grid();
    let d = grid.current().dimension;
    grid.split_right(create_mock_context(1, d));
    grid.split_down(create_mock_context(2, d));
    grid.split_down(create_mock_context(3, d));
    // links: 0.right = 1, 1.down = 2, 2.down = 3; focus 3
    grid.select_next_split();
    assert_eq!(grid.current_index(), 0);
    grid.remove_current();
    // the root hands its width to its right child, which is now index 0
    assert_eq!(grid.current_index(), 0);
    assert_eq!(grid.contexts()[0].down, Some(1));
    assert_eq!(grid.contexts()[1].down, Some(2));
    assert_eq!(grid.contexts()[2].down, None);
    assert_eq!(grid.contexts()[0].context().rich_text_id, 1);
    assert_eq!(grid.current().dimension.width, 596);
}

#[test]
fn removal_below_grows_height_without_padding() {
    let mut grid = square_grid();
    let d = grid.current().dimension;
    grid.split_down(create_mock_context(1, d));
    assert_eq!(grid.current().dimension.height, 292);
    grid.remove_current();
    assert_eq!(grid.current_index(), 0);
    assert_eq!(grid.current().dimension.height, 584);
    assert_eq!(grid.contexts()[0].down, None);
}

#[test]
fn removal_of_unlinked_pane_moves_focus_back() {
    let mut grid = square_grid();
    let d = grid.current().dimension;
    grid.split_right(create_mock_context(1, d));
    grid.select_prev_split();
    grid.split_down(create_mock_context(2, d));
    grid.select_next_split();
    assert_eq!(grid.current_index(), 0);
    // the root leaves; its right child takes its place and the pane below
    // is left without a parent
    grid.remove_current();
    assert_eq!(grid.len(), 2);
    assert_eq!(grid.current_index(), 0);
    assert_eq!(grid.contexts()[0].right, None);
    assert_eq!(grid.contexts()[0].down, None);
    grid.select_next_split();
    assert_eq!(grid.current_index(), 1);
    grid.remove_current();
    assert_eq!(grid.len(), 1);
    assert_eq!(grid.current_index(), 0);
    assert_eq!(grid.current().rich_text_id, 1);
}

#[test]
fn resize_shares_width_between_neighbours() {
    let mut grid = square_grid();
    let d = grid.current().dimension;
    grid.split_right(create_mock_context(1, d));
    grid.resize(1200, 700);
    assert_eq!(grid.contexts()[0].context().dimension.width, 596);
    assert_eq!(grid.contexts()[1].context().dimension.width, 596);
    assert_eq!(grid.contexts()[0].context().dimension.height, 700);
    assert_eq!(grid.contexts()[1].context().dimension.height, 700);
    assert_eq!(grid.contexts()[1].context().dimension.columns, 42);
}

#[test]
fn sessions_hear_of_new_grids() {
    let seen = Rc::new(RefCell::new(Vec::new()));
    let d = ContextDimension::build(600, 600, metrics(14, 8), 100, no_margin());
    let first = Context::new(0, d, Recorder { seen: seen.clone() });
    let mut grid = ContextGrid::new(first, no_margin(), [0, 0, 0, 0]);
    grid.split_right(Context::new(1, d, Recorder { seen: seen.clone() }));
    // (296 - 0) / 14 = 21 columns for both halves
    assert_eq!(*seen.borrow(), vec![(21, 75), (21, 75)]);
    grid.remove_current();
    assert_eq!(seen.borrow().last(), Some(&(42, 75)));
}

#[test]
fn focused_margin_comes_from_draw_list() {
    let margin = Delta { x: 10, top_y: 20, bottom_y: 20 };
    let d = ContextDimension::build(1200, 800, metrics(14, 8), 100, no_margin());
    let mut grid = ContextGrid::new(create_mock_context(0, d), margin, [0, 0, 0, 0]);
    let (ctx, m) = grid.current_context_with_computed_dimension();
    assert_eq!(ctx.rich_text_id, 0);
    assert_eq!(m, Delta { x: 14, top_y: 24, bottom_y: 20 });
    grid.split_right(create_mock_context(1, d));
    let (ctx, m) = grid.current_context_with_computed_dimension();
    assert_eq!(ctx.rich_text_id, 1);
    assert_eq!(m, Delta { x: 316, top_y: 24, bottom_y: 20 });
}

#[test]
fn margin_and_metrics_reach_every_pane() {
    let mut grid = square_grid();
    let d = grid.current().dimension;
    grid.split_right(create_mock_context(1, d));
    grid.update_margin((10, 20, 20));
    assert_eq!(grid.margin, Delta { x: 10, top_y: 20, bottom_y: 20 });
    // (296 - 40) / 14 = 18; (600 - 80) / 8 = 65
    assert_eq!(grid.contexts()[0].context().dimension.columns, 18);
    assert_eq!(grid.contexts()[1].context().dimension.lines, 65);
    grid.update_dimensions(&vec![metrics(28, 8), metrics(14, 16)]);
    assert_eq!(grid.contexts()[0].context().dimension.columns, 9);
    assert_eq!(grid.contexts()[1].context().dimension.lines, 32);
    let whole = grid.grid_dimension();
    assert_eq!((whole.width, whole.height), (600, 600));
    // focus on pane 1: (600 - 40) / 14 = 40
    assert_eq!(whole.columns, 40);
}

#[test]
fn focus_wraps_in_array_order() {
    let mut grid = square_grid();
    let d = grid.current().dimension;
    grid.select_next_split();
    assert_eq!(grid.current_index(), 0);
    grid.split_right(create_mock_context(1, d));
    grid.split_down(create_mock_context(2, d));
    assert_eq!(grid.current_index(), 2);
    grid.select_next_split();
    assert_eq!(grid.current_index(), 0);
    grid.select_prev_split();
    assert_eq!(grid.current_index(), 2);
}

#[test]
fn focused_session_can_be_changed() {
    let mut grid = square_grid();
    grid.current_mut().rich_text_id = 9;
    assert_eq!(grid.objects(), vec![text(9, 0, 0)]);
    grid.contexts_mut()[0].context_mut().rich_text_id = 4;
    assert_eq!(grid.current().rich_text_id, 4);
    assert_eq!(grid.contexts()[0].right, None);
}
