use vstd::prelude::*;

use crate::builder::AnimationBuilder;
use crate::clip::ClipId;
use crate::components::generator::ComponentGenerator;

verus! {

/// The layout of a spritesheet image split into a grid of cells, each one an animation frame.
///
/// Cells are numbered from left to right and top to bottom: the cell at column `x`
/// and row `y` has the atlas index `y * columns + x`.
///
/// The image itself is held by the engine layer next to this layout.
#[derive(Debug, Clone, Copy, PartialEq, Eq, Structural)]
pub struct Spritesheet {
    /// The number of columns in the spritesheet
    pub columns: usize,
    /// The number of rows in the spritesheet
    pub rows: usize,
}

impl Spritesheet {
    /// The number of cells of the spritesheet.
    pub open spec fn cell_count(self) -> int {
        self.columns * self.rows
    }

    /// Whether the cell count fits in a `usize`, so that atlas indices can be computed.
    pub open spec fn fits(self) -> bool {
        self.columns * self.rows <= usize::MAX
    }

    /// Creates a spritesheet layout with the given number of columns and rows.
    pub fn new(columns: usize, rows: usize) -> (s: Self)
        ensures
            s.columns == columns,
            s.rows == rows,
    {
        Spritesheet { columns, rows }
    }

    pub fn columns(&self) -> (r: usize)
        ensures
            r == self.columns,
    {
        self.columns
    }

    pub fn rows(&self) -> (r: usize)
        ensures
            r == self.rows,
    {
        self.rows
    }

    /// A generator of animation-ready components for this spritesheet, whose image is
    /// `image_width` by `image_height` pixels.
    pub fn with_size_hint(&self, image_width: u32, image_height: u32) -> (g: ComponentGenerator)
        ensures
            g.spec_spritesheet() == *self,
            g.spec_image_width() == image_width,
            g.spec_image_height() == image_height,
    {
        ComponentGenerator::new(self, image_width, image_height)
    }

    /// Creates a new animation that uses this spritesheet.
    ///
    /// The animation starts with one empty clip, identified by `first_clip_id`.
    pub fn create_animation(&self, first_clip_id: ClipId) -> (b: AnimationBuilder)
        ensures
            b.spritesheet() == *self,
            b.animation().clips.len() == 1,
            b.animation().clips[0].id == first_clip_id,
            b.animation().clips[0].atlas_indices@.len() == 0,
            b.animation().clips[0].duration is None,
            b.animation().clips[0].repetitions is None,
            b.animation().clips[0].direction is None,
            b.animation().clips[0].easing is None,
            b.animation().clips[0].marker_map().dom().is_empty(),
            b.animation().duration is None,
            b.animation().repetitions is None,
            b.animation().direction is None,
            b.animation().easing is None,
    {
        AnimationBuilder::new(*self, first_clip_id)
    }
}

} // verus!
