use vstd::prelude::*;

use crate::grid::{Object, Rect, RichText};

verus! {

/// What the next frame has to redo: only refresh the drawn data, or
/// measure the text again first.
#[derive(Clone, Copy, Debug, PartialEq, Eq, Structural)]
pub enum SugarTreeDiff {
    Different,
    Repaint,
}

/// Size of a text cell as the renderer measured it; zero while unknown.
#[derive(Clone, Copy, Debug, PartialEq, Eq, Structural)]
pub struct TextDimensions {
    pub width: u32,
    pub height: u32,
}

/// The renderer's layout: window size and font size.
pub trait SugarLayout {
    fn resize(&mut self, width: u32, height: u32);

    /// Recomputes what follows from the sizes and the measured cell.
    fn update(&mut self, dimensions: TextDimensions);

    /// Each of these tells whether the font size changed.
    fn reset_font_size(&mut self) -> bool;

    fn increase_font_size(&mut self) -> bool;

    fn decrease_font_size(&mut self) -> bool;

    fn update_columns_per_font_width(&mut self, dimensions: TextDimensions);
}

/// The renderer's compositors, which hold the text and shapes to draw.
pub trait SugarCompositors<L> {
    fn set_font_features(&mut self, font_features: &Option<Vec<String>>);

    /// Drops what the text compositor cached.
    fn reset(&mut self);

    /// Empties the shape compositor.
    fn clean(&mut self);

    fn clear_rich_text(&mut self, id: usize, layout: &L);

    fn create_rich_text(&mut self, layout: &L) -> usize;

    fn calculate_dimensions(&mut self, layout: &L);

    fn update_render_data(&mut self, id: usize);

    fn push_rect(&mut self, rect: Rect);
}

/// A compositor that can take a font set of type `F`.
pub trait FontTarget<F> {
    fn set_fonts(&mut self, fonts: &F);
}

/// The texts among `objs`, in order.
pub open spec fn rich_texts_of(objs: Seq<Object>) -> Seq<RichText>
    decreases objs.len(),
{
    if objs.len() == 0 {
        Seq::empty()
    } else {
        let rest = rich_texts_of(objs.drop_last());
        match objs.last() {
            Object::RichText(t) => rest.push(t),
            _ => rest,
        }
    }
}

/// The rectangles among `objs`, in order.
pub open spec fn rects_of(objs: Seq<Object>) -> Seq<Rect>
    decreases objs.len(),
{
    if objs.len() == 0 {
        Seq::empty()
    } else {
        let rest = rects_of(objs.drop_last());
        match objs.last() {
            Object::Rect(r) => rest.push(r),
            _ => rest,
        }
    }
}

/// What the renderer keeps between frames: the objects to draw, the texts
/// among them, the measured cell, and whether to measure again.
pub struct SugarState<L, C> {
    pub latest_change: SugarTreeDiff,
    pub objects: Vec<Object>,
    pub rich_texts: Vec<RichText>,
    pub dimensions: TextDimensions,
    pub layout: L,
    pub compositors: C,
}

impl<L: SugarLayout, C: SugarCompositors<L>> SugarState<L, C> {
    /// A state that measures on its first frame.
    pub fn new(
        initial_layout: L,
        compositors: C,
        font_features: &Option<Vec<String>>,
    ) -> (r: Self)
        ensures
            r.latest_change == SugarTreeDiff::Repaint,
            r.objects@.len() == 0,
            r.rich_texts@.len() == 0,
            r.dimensions == (TextDimensions { width: 0, height: 0 }),
    {
        let mut state = SugarState {
            latest_change: SugarTreeDiff::Repaint,
            objects: Vec::new(),
            rich_texts: Vec::new(),
            dimensions: TextDimensions { width: 0, height: 0 },
            layout: initial_layout,
            compositors,
        };
        state.compositors.set_font_features(font_features);
        state
    }

    /// A new window size; the next frame measures again.
    pub fn compute_layout_resize(&mut self, width: u32, height: u32)
        ensures
            final(self).latest_change == SugarTreeDiff::Repaint,
            final(self).objects == old(self).objects,
            final(self).rich_texts == old(self).rich_texts,
            final(self).dimensions == old(self).dimensions,
    {
        self.layout.resize(width, height);
        self.layout.update(self.dimensions);
        self.latest_change = SugarTreeDiff::Repaint;
    }

    /// Resets (0), decreases (1) or increases (2) the font size; any other
    /// code does nothing. A change forgets the measured cell and asks for a
    /// new measure.
    pub fn compute_layout_font_size(&mut self, operation: u8)
        ensures
            final(self).objects == old(self).objects,
            final(self).rich_texts == old(self).rich_texts,
            operation > 2 ==> final(self).latest_change == old(self).latest_change
                && final(self).dimensions == old(self).dimensions,
            (final(self).latest_change == old(self).latest_change && final(self).dimensions
                == old(self).dimensions) || (final(self).latest_change == SugarTreeDiff::Repaint
                && final(self).dimensions == (TextDimensions { width: 0, height: 0 })),
    {
        let should_update = match operation {
            0 => self.layout.reset_font_size(),
            2 => self.layout.increase_font_size(),
            1 => self.layout.decrease_font_size(),
            _ => false,
        };
        if should_update {
            self.dimensions = TextDimensions { width: 0, height: 0 };
            self.layout.update(self.dimensions);
            self.latest_change = SugarTreeDiff::Repaint;
        }
    }

    /// New fonts: the measured cell is forgotten and measured again.
    pub fn set_fonts<F>(&mut self, fonts: &F)
        where
            C: FontTarget<F>,
        ensures
            final(self).latest_change == SugarTreeDiff::Repaint,
            final(self).dimensions == (TextDimensions { width: 0, height: 0 }),
            final(self).objects == old(self).objects,
            final(self).rich_texts == old(self).rich_texts,
    {
        self.compositors.set_fonts(fonts);
        self.dimensions = TextDimensions { width: 0, height: 0 };
        self.latest_change = SugarTreeDiff::Repaint;
    }

    pub fn set_font_features(&mut self, font_features: &Option<Vec<String>>)
        ensures
            final(self).latest_change == SugarTreeDiff::Repaint,
            final(self).dimensions == old(self).dimensions,
            final(self).objects == old(self).objects,
            final(self).rich_texts == old(self).rich_texts,
    {
        self.compositors.set_font_features(font_features);
        self.latest_change = SugarTreeDiff::Repaint;
    }

    /// Forgets the objects to draw.
    pub fn clean_screen(&mut self)
        ensures
            final(self).objects@.len() == 0,
            final(self).rich_texts == old(self).rich_texts,
            final(self).latest_change == old(self).latest_change,
            final(self).dimensions == old(self).dimensions,
    {
        self.objects.clear();
    }

    /// Takes the objects of the next frame and keeps the texts among them.
    pub fn compute_objects(&mut self, new_objects: Vec<Object>)
        ensures
            final(self).objects@ == new_objects@,
            final(self).rich_texts@ == rich_texts_of(new_objects@),
            final(self).latest_change == old(self).latest_change,
            final(self).dimensions == old(self).dimensions,
    {
        let mut rich_texts: Vec<RichText> = Vec::new();
        let mut i: usize = 0;
        while i < new_objects.len()
            invariant
                0 <= i <= new_objects@.len(),
                rich_texts@ == rich_texts_of(new_objects@.take(i as int)),
            decreases new_objects@.len() - i,
        {
            proof {
                assert(new_objects@.take(i as int + 1).drop_last() =~= new_objects@.take(i as int));
            }
            if let Object::RichText(t) = new_objects[i] {
                rich_texts.push(t);
            }
            i += 1;
        }
        proof {
            assert(new_objects@.take(i as int) =~= new_objects@);
        }
        self.objects = new_objects;
        self.rich_texts = rich_texts;
    }

    pub fn reset_compositors(&mut self)
        ensures
            final(self).objects == old(self).objects,
            final(self).rich_texts == old(self).rich_texts,
            final(self).latest_change == old(self).latest_change,
            final(self).dimensions == old(self).dimensions,
    {
        self.compositors.clean();
        self.compositors.reset();
    }

    pub fn clear_rich_text(&mut self, id: &usize)
        ensures
            final(self).objects == old(self).objects,
            final(self).rich_texts == old(self).rich_texts,
            final(self).latest_change == old(self).latest_change,
            final(self).dimensions == old(self).dimensions,
    {
        self.compositors.clear_rich_text(*id, &self.layout);
    }

    /// A new text in the compositor; its id comes from there.
    pub fn create_rich_text(&mut self) -> (r: usize)
        ensures
            final(self).objects == old(self).objects,
            final(self).rich_texts == old(self).rich_texts,
            final(self).latest_change == old(self).latest_change,
            final(self).dimensions == old(self).dimensions,
    {
        self.compositors.create_rich_text(&self.layout)
    }

    /// Hands the rectangles among the objects to the shape compositor, in
    /// order, and returns them. Texts are drawn by the text compositor.
    pub fn compute_updates(&mut self) -> (r: Vec<Rect>)
        ensures
            r@ == rects_of(old(self).objects@),
            final(self).objects == old(self).objects,
            final(self).rich_texts == old(self).rich_texts,
            final(self).latest_change == old(self).latest_change,
            final(self).dimensions == old(self).dimensions,
    {
        let mut rects: Vec<Rect> = Vec::new();
        let mut i: usize = 0;
        while i < self.objects.len()
            invariant
                0 <= i <= self.objects@.len(),
                self.objects == old(self).objects,
                self.rich_texts == old(self).rich_texts,
                self.latest_change == old(self).latest_change,
                self.dimensions == old(self).dimensions,
                rects@ == rects_of(self.objects@.take(i as int)),
            decreases self.objects@.len() - i,
        {
            proof {
                assert(self.objects@.take(i as int + 1).drop_last() =~= self.objects@.take(i as int));
            }
            if let Object::Rect(rect) = self.objects[i] {
                self.compositors.push_rect(rect);
                rects.push(rect);
            }
            i += 1;
        }
        proof {
            assert(self.objects@.take(i as int) =~= self.objects@);
        }
        rects
    }

    /// Takes the cell size the text brush measured, if any, when a measure
    /// was asked for; the layout follows a change.
    pub fn compute_dimensions(&mut self, measured: Option<TextDimensions>)
        ensures
            final(self).dimensions == (match measured {
                Some(d) => if old(self).latest_change == SugarTreeDiff::Repaint {
                    d
                } else {
                    old(self).dimensions
                },
                None => old(self).dimensions,
            }),
            final(self).latest_change == old(self).latest_change,
            final(self).objects == old(self).objects,
            final(self).rich_texts == old(self).rich_texts,
    {
        if self.latest_change != SugarTreeDiff::Repaint {
            return;
        }
        if let Some(dimension) = measured {
            let mut dimensions_changed = false;
            if dimension.height != self.dimensions.height {
                self.dimensions.height = dimension.height;
                dimensions_changed = true;
            }
            if dimension.width != self.dimensions.width {
                self.dimensions.width = dimension.width;
                self.layout.update_columns_per_font_width(self.dimensions);
                dimensions_changed = true;
            }
            if dimensions_changed {
                self.layout.update(self.dimensions);
            }
        }
    }

    /// Refreshes the compositors for the next frame: measures while the cell
    /// is unknown (and asks again), else measures once after a repaint
    /// request; then refreshes every text.
    pub fn compute_changes(&mut self)
        ensures
            final(self).latest_change == (if old(self).dimensions.width == 0
                || old(self).dimensions.height == 0 {
                SugarTreeDiff::Repaint
            } else {
                SugarTreeDiff::Different
            }),
            final(self).dimensions == old(self).dimensions,
            final(self).objects == old(self).objects,
            final(self).rich_texts == old(self).rich_texts,
    {
        let unknown = self.dimensions.width == 0 || self.dimensions.height == 0;
        if unknown || self.latest_change == SugarTreeDiff::Repaint {
            self.compositors.calculate_dimensions(&self.layout);
        }
        let mut i: usize = 0;
        while i < self.rich_texts.len()
            invariant
                0 <= i <= self.rich_texts@.len(),
                self.objects == old(self).objects,
                self.rich_texts == old(self).rich_texts,
                self.latest_change == old(self).latest_change,
                self.dimensions == old(self).dimensions,
            decreases self.rich_texts@.len() - i,
        {
            let id = self.rich_texts[i].id;
            self.compositors.update_render_data(id);
            i += 1;
        }
        if unknown {
            self.latest_change = SugarTreeDiff::Repaint;
        } else {
            self.latest_change = SugarTreeDiff::Different;
        }
    }
}

} // verus!
