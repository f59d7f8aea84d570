use vstd::prelude::*;

use crate::spritesheet::Spritesheet;

verus! {

/// The grid of a texture atlas cut from a spritesheet image: the size of a cell, in pixels,
/// and the number of columns and rows.
#[derive(Debug, Clone, Copy, PartialEq, Eq, Hash, Structural)]
pub struct AtlasGrid {
    pub cell_width: u32,
    pub cell_height: u32,
    pub columns: u32,
    pub rows: u32,
}

/// Generates the data of animation-ready components (sprites, UI images, cursors, 3D sprites)
/// for a spritesheet whose image has a known size.
///
/// The engine layer turns the atlas grid into a texture atlas layout and builds the
/// components around it.
#[derive(Debug, Clone, Copy, PartialEq, Eq, Structural)]
pub struct ComponentGenerator {
    spritesheet: Spritesheet,
    image_width: u32,
    image_height: u32,
}

impl ComponentGenerator {
    pub closed spec fn spec_spritesheet(&self) -> Spritesheet {
        self.spritesheet
    }

    pub closed spec fn spec_image_width(&self) -> u32 {
        self.image_width
    }

    pub closed spec fn spec_image_height(&self) -> u32 {
        self.image_height
    }

    /// A generator for `spritesheet`, whose image is `image_width` by `image_height` pixels.
    pub fn new(spritesheet: &Spritesheet, image_width: u32, image_height: u32) -> (g: Self)
        ensures
            g.spec_spritesheet() == *spritesheet,
            g.spec_image_width() == image_width,
            g.spec_image_height() == image_height,
    {
        ComponentGenerator { spritesheet: *spritesheet, image_width, image_height }
    }

    pub fn spritesheet(&self) -> (r: Spritesheet)
        ensures
            r == self.spec_spritesheet(),
    {
        self.spritesheet
    }

    pub fn image_width(&self) -> (r: u32)
        ensures
            r == self.spec_image_width(),
    {
        self.image_width
    }

    pub fn image_height(&self) -> (r: u32)
        ensures
            r == self.spec_image_height(),
    {
        self.image_height
    }

    /// The atlas grid: the image split evenly into the spritesheet's columns and rows
    /// (cell sizes rounded down), with the counts taken as `u32`.
    pub fn atlas_grid(&self) -> (g: AtlasGrid)
        requires
            self.spec_spritesheet().columns as u32 > 0,
            self.spec_spritesheet().rows as u32 > 0,
        ensures
            g.columns == self.spec_spritesheet().columns as u32,
            g.rows == self.spec_spritesheet().rows as u32,
            g.cell_width == self.spec_image_width() / (self.spec_spritesheet().columns as u32),
            g.cell_height == self.spec_image_height() / (self.spec_spritesheet().rows as u32),
    {
        let columns = self.spritesheet.columns as u32;
        let rows = self.spritesheet.rows as u32;
        AtlasGrid {
            cell_width: self.image_width / columns,
            cell_height: self.image_height / rows,
            columns,
            rows,
        }
    }
}

} // verus!
