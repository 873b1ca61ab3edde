//! A tiling pane-layout engine: a tree of panes over a dense array of
//! indices, the conversion of pixel boxes into character-cell grids, and
//! the ordered list of draw instructions handed to a renderer; beside it,
//! the renderer state that keeps those instructions between frames.
//!
//! All geometry is in whole pixels (`i64`); a display scale is a positive
//! integer factor between physical pixels and logical points.
mod dimension;
mod forest;
mod grid;
mod state;

pub use dimension::{
    columns_spec, compute_spec, lemma_compute_monotonic, lines_spec, sat_px, ContextDimension,
    Delta, SugarDimensions, MIN_COLS, MIN_LINES,
};
pub use forest::{
    edge, forest, lemma_forest_compact, lemma_forest_same_links, lemma_forest_single,
    lemma_forest_split, links_in_range, ranked_by, ranked_except, same_links, unique_except,
    unique_parents,
};
pub use grid::{
    compact, div_trunc, focus_after, grown_by, lemma_compaction, lemma_removal_renumbers,
    lemma_reparent, lemma_splice_forest, margin_of, parent_from, plot_spec, resize_deltas,
    resize_spec, shift_item, shift_link, splice, with_dimension, Context, ContextGrid,
    ContextGridItem, Object, Rect, RichText, TerminalSession, PADDING,
};
pub use state::{
    rects_of, rich_texts_of, FontTarget, SugarCompositors, SugarLayout, SugarState, SugarTreeDiff,
    TextDimensions,
};
