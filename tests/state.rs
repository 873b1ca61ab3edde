use pane_grid::{
    FontTarget, Object, Rect, RichText, SugarCompositors, SugarLayout, SugarState, SugarTreeDiff,
    TextDimensions,
};

#[derive(Default)]
struct MockLayout {
    font_size: u32,
    updates: usize,
    size: (u32, u32),
}

impl SugarLayout for MockLayout {
    fn resize(&mut self, width: u32, height: u32) {
        self.size = (width, height);
    }

    fn update(&mut self, _dimensions: TextDimensions) {
        self.updates += 1;
    }

    fn reset_font_size(&mut self) -> bool {
        let changed = self.font_size != 14;
        self.font_size = 14;
        changed
    }

    fn increase_font_size(&mut self) -> bool {
        self.font_size += 1;
        true
    }

    fn decrease_font_size(&mut self) -> bool {
        self.font_size -= 1;
        true
    }

    fn update_columns_per_font_width(&mut self, _dimensions: TextDimensions) {}
}

#[derive(Default)]
struct MockCompositors {
    rects: Vec<Rect>,
    measured: usize,
    refreshed: Vec<usize>,
    next_id: usize,
    fonts: Vec<String>,
}

impl SugarCompositors<MockLayout> for MockCompositors {
    fn set_font_features(&mut self, _font_features: &Option<Vec<String>>) {}

    fn reset(&mut self) {}

    fn clean(&mut self) {
        self.rects.clear();
    }

    fn clear_rich_text(&mut self, _id: usize, _layout: &MockLayout) {}

    fn create_rich_text(&mut self, _layout: &MockLayout) -> usize {
        self.next_id += 1;
        self.next_id
    }

    fn calculate_dimensions(&mut self, _layout: &MockLayout) {
        self.measured += 1;
    }

    fn update_render_data(&mut self, id: usize) {
        self.refreshed.push(id);
    }

    fn push_rect(&mut self, rect: Rect) {
        self.rects.push(rect);
    }
}

impl FontTarget<Vec<String>> for MockCompositors {
    fn set_fonts(&mut self, fonts: &Vec<String>) {
        self.fonts = fonts.clone();
    }
}

fn state() -> SugarState<MockLayout, MockCompositors> {
    let layout = MockLayout { font_size: 14, ..Default::default() };
    SugarState::new(layout, MockCompositors::default(), &None)
}

fn sample_objects() -> Vec<Object> {
    vec![
        Object::RichText(RichText { id: 3, position: [0, 0] }),
        Object::Rect(Rect { position: [10, 0], color: [1, 2, 3, 4], size: [1, 50] }),
        Object::RichText(RichText { id: 5, position: [14, 0] }),
    ]
}

#[test]
fn new_state_asks_for_a_measure() {
    let s = state();
    assert_eq!(s.latest_change, SugarTreeDiff::Repaint);
    assert!(s.objects.is_empty());
    assert_eq!(s.dimensions, TextDimensions { width: 0, height: 0 });
}

#[test]
fn objects_keep_their_texts() {
    let mut s = state();
    s.compute_objects(sample_objects());
    assert_eq!(s.objects.len(), 3);
    assert_eq!(
        s.rich_texts,
        vec![RichText { id: 3, position: [0, 0] }, RichText { id: 5, position: [14, 0] }]
    );
    let rects = s.compute_updates();
    assert_eq!(rects, vec![Rect { position: [10, 0], color: [1, 2, 3, 4], size: [1, 50] }]);
    assert_eq!(s.compositors.rects.len(), 1);
    s.clean_screen();
    assert!(s.objects.is_empty());
    assert_eq!(s.rich_texts.len(), 2);
    s.reset_compositors();
    assert!(s.compositors.rects.is_empty());
}

#[test]
fn unknown_cell_keeps_asking() {
    let mut s = state();
    s.compute_objects(sample_objects());
    s.compute_changes();
    assert_eq!(s.latest_change, SugarTreeDiff::Repaint);
    assert_eq!(s.compositors.measured, 1);
    assert_eq!(s.compositors.refreshed, vec![3, 5]);

    s.compute_dimensions(Some(TextDimensions { width: 9, height: 18 }));
    assert_eq!(s.dimensions, TextDimensions { width: 9, height: 18 });
    assert_eq!(s.layout.updates, 1);
    s.compute_changes();
    assert_eq!(s.latest_change, SugarTreeDiff::Different);
    assert_eq!(s.compositors.measured, 2);

    // no measure was asked for: a new reading is ignored
    s.compute_dimensions(Some(TextDimensions { width: 1, height: 1 }));
    assert_eq!(s.dimensions, TextDimensions { width: 9, height: 18 });
    s.compute_changes();
    assert_eq!(s.compositors.measured, 2);
    assert_eq!(s.latest_change, SugarTreeDiff::Different);
}

#[test]
fn font_size_changes_forget_the_cell() {
    let mut s = state();
    s.compute_dimensions(Some(TextDimensions { width: 9, height: 18 }));
    s.compute_changes();
    assert_eq!(s.latest_change, SugarTreeDiff::Different);

    s.compute_layout_font_size(0);
    assert_eq!(s.latest_change, SugarTreeDiff::Different);
    assert_eq!(s.dimensions, TextDimensions { width: 9, height: 18 });

    s.compute_layout_font_size(7);
    assert_eq!(s.latest_change, SugarTreeDiff::Different);

    s.compute_layout_font_size(2);
    assert_eq!(s.layout.font_size, 15);
    assert_eq!(s.latest_change, SugarTreeDiff::Repaint);
    assert_eq!(s.dimensions, TextDimensions { width: 0, height: 0 });

    s.compute_layout_font_size(1);
    assert_eq!(s.layout.font_size, 14);
}

#[test]
fn layout_and_font_changes_ask_for_repaint() {
    let mut s = state();
    s.compute_dimensions(Some(TextDimensions { width: 9, height: 18 }));
    s.compute_changes();
    s.compute_layout_resize(800, 600);
    assert_eq!(s.layout.size, (800, 600));
    assert_eq!(s.latest_change, SugarTreeDiff::Repaint);

    s.compute_changes();
    s.set_font_features(&Some(vec!["liga".to_string()]));
    assert_eq!(s.latest_change, SugarTreeDiff::Repaint);
    assert_eq!(s.dimensions, TextDimensions { width: 9, height: 18 });

    s.set_fonts(&vec!["Mono".to_string()]);
    assert_eq!(s.compositors.fonts, vec!["Mono".to_string()]);
    assert_eq!(s.dimensions, TextDimensions { width: 0, height: 0 });
    assert_eq!(s.create_rich_text(), 1);
    s.clear_rich_text(&1);
}
