use vstd::prelude::*;

use crate::animation::{
    frames_appended, lemma_frames_appended_trans, same_parameters, Animation, AnimationDirection,
    AnimationDuration, AnimationRepeat,
};
use crate::clip::{markers_of, same_settings, Clip, ClipId};
use crate::easing::Easing;
use crate::events::Marker;
use crate::spritesheet::Spritesheet;

verus! {

/// One end of a range of cells.
#[derive(Debug, Clone, Copy, PartialEq, Eq, Structural)]
pub enum RangeBound {
    Included(usize),
    Excluded(usize),
    Unbounded,
}

/// A range of columns or rows, as written with Rust's range syntax (`a..b`, `a..=b`, `a..`, `..`).
#[derive(Debug, Clone, Copy, PartialEq, Eq, Structural)]
pub struct CellRange {
    pub start: RangeBound,
    pub end: RangeBound,
}

/// The first position of a range (a range never starts with an excluded bound).
pub open spec fn range_first(b: RangeBound) -> int {
    match b {
        RangeBound::Included(i) => i as int,
        RangeBound::Excluded(i) => i as int,
        RangeBound::Unbounded => 0,
    }
}

/// The position just past the end of a range; `limit` for an unbounded end.
pub open spec fn range_end(b: RangeBound, limit: usize) -> int {
    match b {
        RangeBound::Included(i) => if i == usize::MAX { usize::MAX as int } else { i + 1 },
        RangeBound::Excluded(i) => i as int,
        RangeBound::Unbounded => limit as int,
    }
}

/// `v` clamped into `[lo, hi]` (with `lo <= hi`).
pub open spec fn clamp(v: int, lo: int, hi: int) -> int {
    if v < lo {
        lo
    } else if v > hi {
        hi
    } else {
        v
    }
}

/// The consecutive integers `[first, end)` (empty when `end <= first`).
pub open spec fn span(first: int, end: int) -> Seq<usize> {
    Seq::new(if end > first { (end - first) as nat } else { 0 }, |k: int| (first + k) as usize)
}

/// The entries of `indices` that are valid atlas indices of a spritesheet with `cells` cells, in order.
pub open spec fn indices_within(indices: Seq<usize>, cells: int) -> Seq<usize>
    decreases indices.len(),
{
    if indices.len() == 0 {
        Seq::empty()
    } else {
        let rest = indices_within(indices.drop_last(), cells);
        if (indices.last() as int) < cells {
            rest.push(indices.last())
        } else {
            rest
        }
    }
}

/// The atlas index of the cell at column `x` and row `y`, if it lies inside the spritesheet
/// (nothing for a column or a row outside it).
pub open spec fn cell_at(sheet: Spritesheet, x: usize, y: usize) -> Seq<usize> {
    if x < sheet.columns && y < sheet.rows {
        seq![(y * sheet.columns + x) as usize]
    } else {
        Seq::empty()
    }
}

/// The atlas indices that a sequence of cell positions adds, in order.
pub open spec fn cells_at(sheet: Spritesheet, positions: Seq<(usize, usize)>) -> Seq<usize>
    decreases positions.len(),
{
    if positions.len() == 0 {
        Seq::empty()
    } else {
        cells_at(sheet, positions.drop_last()) + cell_at(
            sheet,
            positions.last().0,
            positions.last().1,
        )
    }
}

/// The indices of a row of the spritesheet (nothing if the row does not exist).
pub open spec fn row_cells(sheet: Spritesheet, row: usize) -> Seq<usize> {
    if row < sheet.rows {
        span(row * sheet.columns, row * sheet.columns + sheet.columns)
    } else {
        Seq::empty()
    }
}

/// The indices of a column of the spritesheet, top to bottom (nothing if the column does not exist).
pub open spec fn column_cells(sheet: Spritesheet, column: usize) -> Seq<usize> {
    if column < sheet.columns {
        Seq::new(sheet.rows as nat, |r: int| (column + r * sheet.columns) as usize)
    } else {
        Seq::empty()
    }
}

/// The indices of a section of a row (nothing if the row does not exist).
///
/// The range's end is cut at the column count; a range that starts at or past it adds nothing.
pub open spec fn partial_row_cells(sheet: Spritesheet, row: usize, range: CellRange) -> Seq<usize> {
    if row >= sheet.rows {
        Seq::empty()
    } else {
        let cols = sheet.columns as int;
        let first = range_first(range.start);
        let end = clamp(range_end(range.end, sheet.columns), 0, cols);
        span(row * cols + first, row * cols + end)
    }
}

/// The indices of a section of a column (nothing if the column does not exist).
///
/// The range's end is cut at the row count; a range that starts at or past it adds nothing.
pub open spec fn partial_column_cells(sheet: Spritesheet, column: usize, range: CellRange) -> Seq<
    usize,
> {
    if column >= sheet.columns {
        Seq::empty()
    } else {
        let rows = sheet.rows as int;
        let first = range_first(range.start);
        let end = clamp(range_end(range.end, sheet.rows), 0, rows);
        Seq::new(
            if end > first { (end - first) as nat } else { 0 },
            |k: int| ((first + k) * sheet.columns + column) as usize,
        )
    }
}

/// The indices of a horizontal strip starting at `(x, y)` and wrapping from row to row,
/// cut at the end of the spritesheet (nothing if the start lies outside).
pub open spec fn horizontal_strip_cells(sheet: Spritesheet, x: usize, y: usize, count: usize) -> Seq<
    usize,
> {
    if x > sheet.columns || y > sheet.rows {
        Seq::empty()
    } else {
        let first = y * sheet.columns + x;
        let last = if first + count < sheet.cell_count() {
            first + count
        } else {
            sheet.cell_count()
        };
        span(first, last)
    }
}

/// How many cells a vertical strip starting at `(x, y)` can take before the end of the spritesheet.
pub open spec fn vertical_strip_room(sheet: Spritesheet, x: usize, y: usize) -> int {
    (sheet.columns - (x + 1)) * sheet.rows + sheet.rows - y
}

/// The indices of a vertical strip starting at `(x, y)` and wrapping from column to column,
/// cut at the end of the spritesheet (nothing if the start lies right of the last column or
/// below the rows).
pub open spec fn vertical_strip_cells(sheet: Spritesheet, x: usize, y: usize, count: usize) -> Seq<
    usize,
> {
    if x >= sheet.columns || y > sheet.rows {
        Seq::empty()
    } else {
        let room = vertical_strip_room(sheet, x, y);
        let n = if count < room { count as int } else { room };
        Seq::new(
            n as nat,
            |i: int| (((y + i) % (sheet.rows as int)) * sheet.columns + x + (y + i) / (
            sheet.rows as int)) as usize,
        )
    }
}


/// Appends `index` to the frames of the last clip of `animation`.
fn push_frame(animation: &mut Animation, index: usize)
    requires
        old(animation).clips.len() > 0,
    ensures
        frames_appended(*final(animation), *old(animation), seq![index]),
{
    let mut clip = animation.clips.pop().unwrap();
    let ghost old_clip = clip;
    clip.atlas_indices.push(index);
    assert(clip.atlas_indices@ =~= old_clip.atlas_indices@ + seq![index]);
    animation.clips.push(clip);
    proof {
        assert(old_clip == old(animation).clips@.last());
        assert(animation.clips@.drop_last() =~= old(animation).clips@.drop_last());
        assert forall|i: int| 0 <= i < old(animation).clips.len() - 1 implies animation.clips[i]
            == old(animation).clips[i] by {
            assert(animation.clips@.drop_last()[i] == old(animation).clips@.drop_last()[i]);
        }
    }
}

/// Appending indices that are cells of the spritesheet keeps every frame a cell of the spritesheet.
proof fn lemma_append_in_sheet(new: Animation, old: Animation, added: Seq<usize>, sheet: Spritesheet)
    requires
        frames_appended(new, old, added),
        frames_in_sheet(old, sheet),
        forall|k: int| 0 <= k < added.len() ==> (#[trigger] added[k] as int) < sheet.cell_count(),
    ensures
        frames_in_sheet(new, sheet),
{
    assert forall|i: int, j: int|
        0 <= i < new.clips.len() && 0 <= j < new.clips[i].atlas_indices.len() implies (
        #[trigger] new.clips[i].atlas_indices[j] as int) < sheet.cell_count() by {
        if i < new.clips.len() - 1 {
            assert(new.clips[i] == old.clips[i]);
        } else {
            let o = old.clips@.last().atlas_indices@;
            assert(new.clips[i].atlas_indices@ == o + added);
            if j < o.len() {
                assert(new.clips[i].atlas_indices@[j] == o[j]);
            } else {
                assert(new.clips[i].atlas_indices@[j] == added[j - o.len()]);
            }
        }
    }
}

/// Appending nothing changes nothing.
proof fn lemma_frames_appended_nothing(a: Animation)
    requires
        a.clips.len() > 0,
    ensures
        frames_appended(a, a, Seq::empty()),
{
    assert(a.clips@.last().atlas_indices@ =~= a.clips@.last().atlas_indices@ + Seq::<usize>::empty());
}

/// Appends the consecutive indices `[first, end)` to the last clip.
fn push_span(animation: &mut Animation, first: usize, end: usize)
    requires
        old(animation).clips.len() > 0,
    ensures
        frames_appended(*final(animation), *old(animation), span(first as int, end as int)),
{
    let ghost start = *animation;
    proof {
        lemma_frames_appended_nothing(start);
        assert(span(first as int, first as int) =~= Seq::<usize>::empty());
    }
    if end <= first {
        return;
    }
    let mut i: usize = first;
    while i < end
        invariant
            first <= i <= end,
            start.clips.len() > 0,
            frames_appended(*animation, start, span(first as int, i as int)),
        decreases end - i,
    {
        let ghost before = *animation;
        push_frame(animation, i);
        proof {
            lemma_frames_appended_trans(start, before, *animation, span(first as int, i as int), seq![i]);
            assert(span(first as int, i as int) + seq![i] =~= span(first as int, i + 1));
        }
        i = i + 1;
    }
}

/// A builder to create animations from a spritesheet.
///
/// Frames are added to the current clip (the last one); animation-level and clip-level
/// parameters can be set; [build()](AnimationBuilder::build) returns the animation.
pub struct AnimationBuilder {
    spritesheet: Spritesheet,
    animation: Animation,
}

impl AnimationBuilder {
    /// The spritesheet frames are taken from.
    pub closed spec fn spritesheet(self) -> Spritesheet {
        self.spritesheet
    }

    /// The animation built so far.
    pub closed spec fn animation(self) -> Animation {
        self.animation
    }

    /// The animation always has a current clip, and every frame of every clip is a cell of the spritesheet.
    #[verifier::type_invariant]
    closed spec fn inv(self) -> bool {
        &&& self.animation.clips.len() > 0
        &&& frames_in_sheet(self.animation, self.spritesheet)
    }

    /// Creates a builder over `spritesheet` whose animation has one empty clip identified by `first_clip_id`.
    pub fn new(spritesheet: Spritesheet, first_clip_id: ClipId) -> (b: Self)
        ensures
            b.spritesheet() == spritesheet,
            b.animation().clips.len() == 1,
            b.animation().clips[0].id == first_clip_id,
            b.animation().clips[0].atlas_indices@.len() == 0,
            b.animation().clips[0].duration is None,
            b.animation().clips[0].repetitions is None,
            b.animation().clips[0].direction is None,
            b.animation().clips[0].easing is None,
            b.animation().clips[0].marker_map().dom().is_empty(),
            b.animation().duration is None,
            b.animation().repetitions is None,
            b.animation().direction is None,
            b.animation().easing is None,
    {
        let animation = Animation::empty(first_clip_id);
        AnimationBuilder { spritesheet, animation }
    }

    /// Sets the duration of the whole animation.
    pub fn set_duration(self, duration: AnimationDuration) -> (b: Self)
        ensures
            b.spritesheet() == self.spritesheet(),
            b.animation().clips == self.animation().clips,
            b.animation().duration == Some(duration),
            b.animation().repetitions == self.animation().repetitions,
            b.animation().direction == self.animation().direction,
            b.animation().easing == self.animation().easing,
    {
        proof { use_type_invariant(&self); }
        let AnimationBuilder { spritesheet, mut animation } = self;
        animation.duration = Some(duration);
        AnimationBuilder { spritesheet, animation }
    }

    /// Sets the repetitions of the whole animation.
    pub fn set_repetitions(self, repetitions: AnimationRepeat) -> (b: Self)
        ensures
            b.spritesheet() == self.spritesheet(),
            b.animation().clips == self.animation().clips,
            b.animation().duration == self.animation().duration,
            b.animation().repetitions == Some(repetitions),
            b.animation().direction == self.animation().direction,
            b.animation().easing == self.animation().easing,
    {
        proof { use_type_invariant(&self); }
        let AnimationBuilder { spritesheet, mut animation } = self;
        animation.repetitions = Some(repetitions);
        AnimationBuilder { spritesheet, animation }
    }

    /// Sets the direction of the whole animation.
    pub fn set_direction(self, direction: AnimationDirection) -> (b: Self)
        ensures
            b.spritesheet() == self.spritesheet(),
            b.animation().clips == self.animation().clips,
            b.animation().duration == self.animation().duration,
            b.animation().repetitions == self.animation().repetitions,
            b.animation().direction == Some(direction),
            b.animation().easing == self.animation().easing,
    {
        proof { use_type_invariant(&self); }
        let AnimationBuilder { spritesheet, mut animation } = self;
        animation.direction = Some(direction);
        AnimationBuilder { spritesheet, animation }
    }

    /// Sets the easing of the whole animation.
    pub fn set_easing(self, easing: Easing) -> (b: Self)
        ensures
            b.spritesheet() == self.spritesheet(),
            b.animation().clips == self.animation().clips,
            b.animation().duration == self.animation().duration,
            b.animation().repetitions == self.animation().repetitions,
            b.animation().direction == self.animation().direction,
            b.animation().easing == Some(easing),
    {
        proof { use_type_invariant(&self); }
        let AnimationBuilder { spritesheet, mut animation } = self;
        animation.easing = Some(easing);
        AnimationBuilder { spritesheet, animation }
    }

    /// Creates a new, empty clip identified by `clip_id`; it becomes the current clip.
    pub fn start_clip(self, clip_id: ClipId) -> (b: Self)
        ensures
            b.spritesheet() == self.spritesheet(),
            same_parameters(b.animation(), self.animation()),
            b.animation().clips.len() == self.animation().clips.len() + 1,
            b.animation().clips@.drop_last() == self.animation().clips@,
            b.animation().clips@.last().id == clip_id,
            b.animation().clips@.last().atlas_indices@.len() == 0,
            b.animation().clips@.last().duration is None,
            b.animation().clips@.last().repetitions is None,
            b.animation().clips@.last().direction is None,
            b.animation().clips@.last().easing is None,
            b.animation().clips@.last().marker_map().dom().is_empty(),
    {
        proof { use_type_invariant(&self); }
        let AnimationBuilder { spritesheet, mut animation } = self;
        let clip = Clip::empty(clip_id);
        animation.clips.push(clip);
        proof {
            assert(animation.clips@.drop_last() =~= self.animation.clips@);
            assert forall|i: int, j: int|
                0 <= i < animation.clips.len() && 0 <= j
                    < animation.clips[i].atlas_indices.len() implies (#[trigger] animation.clips[i].atlas_indices[j] as int)
                < spritesheet.cell_count() by {
                if i < self.animation.clips.len() {
                    assert(animation.clips[i] == self.animation.clips[i]);
                }
            }
        }
        AnimationBuilder { spritesheet, animation }
    }

    /// Copies a clip of the animation (the first one with the given identifier) to the end;
    /// the copy becomes the current clip. Nothing changes if no clip has that identifier.
    pub fn copy_clip(self, clip_id: ClipId) -> (b: Self)
        ensures
            b.spritesheet() == self.spritesheet(),
            same_parameters(b.animation(), self.animation()),
            match first_clip_with_id(self.animation().clips@, clip_id) {
                Some(k) => {
                    &&& b.animation().clips.len() == self.animation().clips.len() + 1
                    &&& b.animation().clips@.drop_last() == self.animation().clips@
                    &&& same_settings(b.animation().clips@.last(), self.animation().clips[k])
                    &&& b.animation().clips@.last().atlas_indices@
                        == self.animation().clips[k].atlas_indices@
                    &&& b.animation().clips@.last().marker_map()
                        == self.animation().clips[k].marker_map()
                },
                None => b.animation() == self.animation(),
            },
    {
        proof { use_type_invariant(&self); }
        let AnimationBuilder { spritesheet, mut animation } = self;
        let mut k: usize = 0;
        let n = animation.clips.len();
        while k < n
            invariant
                n == animation.clips.len(),
                animation == self.animation,
                spritesheet == self.spritesheet,
                frames_in_sheet(self.animation, self.spritesheet),
                0 <= k <= n,
                forall|i: int| 0 <= i < k ==> animation.clips[i].id != clip_id,
            decreases n - k,
        {
            if animation.clips[k].id == clip_id {
                let copy = animation.clips[k].duplicate();
                animation.clips.push(copy);
                proof {
                    lemma_first_clip_with_id(self.animation.clips@, clip_id, k as int);
                    assert(animation.clips@.drop_last() =~= self.animation.clips@);
                    assert forall|i: int, j: int|
                        0 <= i < animation.clips.len() && 0 <= j
                            < animation.clips[i].atlas_indices.len() implies (#[trigger] animation.clips[i].atlas_indices[j] as int)
                        < spritesheet.cell_count() by {
                        if i < self.animation.clips.len() {
                            assert(animation.clips[i] == self.animation.clips[i]);
                        } else {
                            assert(animation.clips[i].atlas_indices@[j]
                                == self.animation.clips[k as int].atlas_indices@[j]);
                        }
                    }
                }
                return AnimationBuilder { spritesheet, animation };
            }
            k = k + 1;
        }
        proof {
            lemma_no_clip_with_id(self.animation.clips@, clip_id);
        }
        AnimationBuilder { spritesheet, animation }
    }

    /// Writes the identifier of the current clip (the last one) into `id`.
    pub fn get_current_clip_id(self, id: &mut ClipId) -> (b: Self)
        ensures
            b == self,
            *final(id) == self.animation().clips@.last().id,
    {
        proof { use_type_invariant(&self); }
        let n = self.animation.clips.len();
        *id = self.animation.clips[n - 1].id;
        self
    }

    /// Adds the given atlas indices to the current clip, skipping those outside the spritesheet.
    pub fn add_indices(self, indices: Vec<usize>) -> (b: Self)
        requires
            self.spritesheet().fits(),
        ensures
            b.spritesheet() == self.spritesheet(),
            frames_appended(
                b.animation(),
                self.animation(),
                indices_within(indices@, self.spritesheet().cell_count()),
            ),
    {
        proof { use_type_invariant(&self); }
        let AnimationBuilder { spritesheet, mut animation } = self;
        let ghost cells = spritesheet.cell_count();
        let mut k: usize = 0;
        proof {
            lemma_frames_appended_nothing(animation);
            assert(indices@.take(0) =~= Seq::<usize>::empty());
        }
        while k < indices.len()
            invariant
                0 <= k <= indices.len(),
                spritesheet == self.spritesheet,
                spritesheet.fits(),
                cells == spritesheet.cell_count(),
                self.animation.clips.len() > 0,
                frames_appended(animation, self.animation, indices_within(indices@.take(k as int), cells)),
            decreases indices.len() - k,
        {
            let index = indices[k];
            let ghost before = animation;
            proof {
                assert(indices@.take(k + 1).drop_last() =~= indices@.take(k as int));
            }
            proof {
                assert(indices@.take(k + 1).last() == index);
            }
            if index < spritesheet.columns * spritesheet.rows {
                push_frame(&mut animation, index);
                proof {
                    lemma_frames_appended_trans(
                        self.animation,
                        before,
                        animation,
                        indices_within(indices@.take(k as int), cells),
                        seq![index],
                    );
                    assert(indices_within(indices@.take(k + 1), cells) == indices_within(indices@.take(k as int), cells).push(index));
                    assert(indices_within(indices@.take(k as int), cells) + seq![index] =~= indices_within(indices@.take(k as int), cells).push(index));
                }
            } else {
                proof {
                    assert(indices_within(indices@.take(k + 1), cells) == indices_within(indices@.take(k as int), cells));
                }
            }
            k = k + 1;
        }
        proof {
            assert(indices@.take(indices.len() as int) =~= indices@);
            lemma_indices_within_bounded(indices@, cells);
            lemma_append_in_sheet(animation, self.animation, indices_within(indices@, cells), spritesheet);
        }
        AnimationBuilder { spritesheet, animation }
    }

    /// Adds all the cells of the spritesheet to the current clip, in order.
    pub fn add_all_cells(self) -> (b: Self)
        requires
            self.spritesheet().fits(),
        ensures
            b.spritesheet() == self.spritesheet(),
            frames_appended(b.animation(), self.animation(), span(0, self.spritesheet().cell_count())),
    {
        proof { use_type_invariant(&self); }
        let AnimationBuilder { spritesheet, mut animation } = self;
        let cells = spritesheet.columns * spritesheet.rows;
        push_span(&mut animation, 0, cells);
        proof {
            lemma_append_in_sheet(animation, self.animation, span(0, cells as int), spritesheet);
        }
        AnimationBuilder { spritesheet, animation }
    }

    /// Adds the cell at column `x` and row `y` to the current clip, if it lies inside the spritesheet.
    pub fn add_cell(self, x: usize, y: usize) -> (b: Self)
        requires
            self.spritesheet().fits(),
        ensures
            b.spritesheet() == self.spritesheet(),
            frames_appended(b.animation(), self.animation(), cell_at(self.spritesheet(), x, y)),
    {
        proof { use_type_invariant(&self); }
        let AnimationBuilder { spritesheet, mut animation } = self;
        if x < spritesheet.columns && y < spritesheet.rows {
            proof {
                assert(y * spritesheet.columns + x < spritesheet.columns * spritesheet.rows) by (nonlinear_arith)
                    requires x < spritesheet.columns, y < spritesheet.rows;
            }
            let index = y * spritesheet.columns + x;
            push_frame(&mut animation, index);
        } else {
            proof { lemma_frames_appended_nothing(animation); }
        }
        proof {
            lemma_append_in_sheet(animation, self.animation, cell_at(spritesheet, x, y), spritesheet);
        }
        AnimationBuilder { spritesheet, animation }
    }

    /// Adds the cells at the given `(x, y)` positions to the current clip, skipping those outside the spritesheet.
    pub fn add_cells(self, positions: Vec<(usize, usize)>) -> (b: Self)
        requires
            self.spritesheet().fits(),
        ensures
            b.spritesheet() == self.spritesheet(),
            frames_appended(b.animation(), self.animation(), cells_at(self.spritesheet(), positions@)),
    {
        proof { use_type_invariant(&self); }
        let mut b = self;
        let mut k: usize = 0;
        proof {
            lemma_frames_appended_nothing(self.animation());
            assert(positions@.take(0) =~= Seq::<(usize, usize)>::empty());
        }
        while k < positions.len()
            invariant
                0 <= k <= positions.len(),
                b.spritesheet() == self.spritesheet(),
                self.spritesheet().fits(),
                frames_appended(
                    b.animation(),
                    self.animation(),
                    cells_at(self.spritesheet(), positions@.take(k as int)),
                ),
            decreases positions.len() - k,
        {
            let (x, y) = positions[k];
            let ghost before = b.animation();
            b = b.add_cell(x, y);
            proof {
                assert(positions@.take(k + 1).drop_last() =~= positions@.take(k as int));
                lemma_frames_appended_trans(
                    self.animation(),
                    before,
                    b.animation(),
                    cells_at(self.spritesheet(), positions@.take(k as int)),
                    cell_at(self.spritesheet(), x, y),
                );
            }
            k = k + 1;
        }
        proof {
            assert(positions@.take(positions.len() as int) =~= positions@);
        }
        b
    }

    /// Adds all the cells of a row of the spritesheet to the current clip (nothing if the row does not exist).
    pub fn add_row(self, row: usize) -> (b: Self)
        requires
            self.spritesheet().fits(),
        ensures
            b.spritesheet() == self.spritesheet(),
            frames_appended(b.animation(), self.animation(), row_cells(self.spritesheet(), row)),
    {
        proof { use_type_invariant(&self); }
        let AnimationBuilder { spritesheet, mut animation } = self;
        if row < spritesheet.rows {
            let cols = spritesheet.columns;
            proof {
                let rows = spritesheet.rows;
                assert(row * cols + cols <= cols * rows) by (nonlinear_arith)
                    requires row < rows;
            }
            let first_index = row * cols;
            push_span(&mut animation, first_index, first_index + cols);
        } else {
            proof { lemma_frames_appended_nothing(animation); }
        }
        proof {
            lemma_span_bounded(spritesheet, row_cells(spritesheet, row));
            lemma_append_in_sheet(animation, self.animation, row_cells(spritesheet, row), spritesheet);
        }
        AnimationBuilder { spritesheet, animation }
    }

    /// Adds all the cells of a column of the spritesheet to the current clip, top to bottom
    /// (nothing if the column does not exist).
    pub fn add_column(self, column: usize) -> (b: Self)
        requires
            self.spritesheet().fits(),
        ensures
            b.spritesheet() == self.spritesheet(),
            frames_appended(b.animation(), self.animation(), column_cells(self.spritesheet(), column)),
    {
        proof { use_type_invariant(&self); }
        let AnimationBuilder { spritesheet, mut animation } = self;
        let cols = spritesheet.columns;
        let rows = spritesheet.rows;
        if column < cols {
            let ghost f = |r: int| (column + r * cols) as usize;
            let mut r: usize = 0;
            proof {
                lemma_frames_appended_nothing(animation);
                assert(Seq::new(0, f) =~= Seq::<usize>::empty());
            }
            while r < rows
                invariant
                    0 <= r <= rows,
                    column < cols,
                    cols == spritesheet.columns,
                    rows == spritesheet.rows,
                    spritesheet.fits(),
                    self.animation.clips.len() > 0,
                    f == (|r: int| (column + r * cols) as usize),
                    frames_appended(animation, self.animation, Seq::new(r as nat, f)),
                decreases rows - r,
            {
                proof {
                    assert(column + r * cols < cols * rows) by (nonlinear_arith)
                        requires column < cols, r < rows;
                }
                let index = column + r * cols;
                let ghost before = animation;
                push_frame(&mut animation, index);
                proof {
                    lemma_frames_appended_trans(self.animation, before, animation, Seq::new(r as nat, f), seq![index]);
                    assert(Seq::new(r as nat, f) + seq![index] =~= Seq::new((r + 1) as nat, f));
                }
                r = r + 1;
            }
            proof {
                assert(Seq::new(rows as nat, f) =~= column_cells(spritesheet, column));
            }
        } else {
            proof { lemma_frames_appended_nothing(animation); }
        }
        proof {
            lemma_column_bounded(spritesheet, column);
            lemma_append_in_sheet(animation, self.animation, column_cells(spritesheet, column), spritesheet);
        }
        AnimationBuilder { spritesheet, animation }
    }

    /// Adds the cells of a section of a row to the current clip (nothing if the row does not exist).
    ///
    /// The column range is clamped to the row.
    pub fn add_partial_row(self, row: usize, column_range: CellRange) -> (b: Self)
        requires
            self.spritesheet().fits(),
            !(column_range.start is Excluded),
        ensures
            b.spritesheet() == self.spritesheet(),
            frames_appended(
                b.animation(),
                self.animation(),
                partial_row_cells(self.spritesheet(), row, column_range),
            ),
    {
        proof { use_type_invariant(&self); }
        let AnimationBuilder { spritesheet, mut animation } = self;
        let ghost added = partial_row_cells(spritesheet, row, column_range);
        if row >= spritesheet.rows {
            proof { lemma_frames_appended_nothing(animation); }
        } else {
            let cols = spritesheet.columns;
            let first_column = match column_range.start {
                RangeBound::Included(index) => index,
                RangeBound::Unbounded => 0,
                RangeBound::Excluded(index) => index,
            };
            let end_column = match column_range.end {
                RangeBound::Included(index) => index.saturating_add(1),
                RangeBound::Excluded(index) => index,
                RangeBound::Unbounded => cols,
            };
            let end_clamped = if end_column > cols { cols } else { end_column };
            let first_clamped = if first_column > end_clamped { end_clamped } else { first_column };
            proof {
                let rows = spritesheet.rows;
                assert(row * cols + cols <= cols * rows) by (nonlinear_arith)
                    requires row < rows;
                assert(span(row * cols + first_clamped, row * cols + end_clamped) =~= added);
            }
            let first_index = row * cols + first_clamped;
            let end_index = row * cols + end_clamped;
            push_span(&mut animation, first_index, end_index);
            proof {
                assert(span(first_index as int, end_index as int) == added);
                assert forall|k: int| 0 <= k < added.len() implies (#[trigger] added[k] as int)
                    < spritesheet.cell_count() by {
                    assert(added[k] as int == first_index + k);
                }
            }
        }
        proof {
            lemma_append_in_sheet(animation, self.animation, added, spritesheet);
        }
        AnimationBuilder { spritesheet, animation }
    }

    /// Adds the cells of a section of a column to the current clip, top to bottom
    /// (nothing if the column does not exist).
    ///
    /// The row range is clamped to the column.
    pub fn add_partial_column(self, column: usize, row_range: CellRange) -> (b: Self)
        requires
            self.spritesheet().fits(),
            !(row_range.start is Excluded),
        ensures
            b.spritesheet() == self.spritesheet(),
            frames_appended(
                b.animation(),
                self.animation(),
                partial_column_cells(self.spritesheet(), column, row_range),
            ),
    {
        proof { use_type_invariant(&self); }
        let AnimationBuilder { spritesheet, mut animation } = self;
        let ghost added = partial_column_cells(spritesheet, column, row_range);
        let cols = spritesheet.columns;
        let rows = spritesheet.rows;
        if column >= cols {
            proof { lemma_frames_appended_nothing(animation); }
        } else {
            let first_row = match row_range.start {
                RangeBound::Included(index) => index,
                RangeBound::Unbounded => 0,
                RangeBound::Excluded(index) => index,
            };
            let end_row = match row_range.end {
                RangeBound::Included(index) => index.saturating_add(1),
                RangeBound::Excluded(index) => index,
                RangeBound::Unbounded => rows,
            };
            let end_row = if end_row > rows { rows } else { end_row };
            let first_row = if first_row > end_row { end_row } else { first_row };
            let ghost f = |k: int| ((first_row + k) * cols + column) as usize;
            proof {
                lemma_frames_appended_nothing(animation);
                assert(Seq::new(0, f) =~= Seq::<usize>::empty());
            }
            let mut r: usize = first_row;
            if first_row < end_row {
                while r < end_row
                    invariant
                        first_row <= r <= end_row <= rows,
                        column < cols,
                        cols == spritesheet.columns,
                        rows == spritesheet.rows,
                        spritesheet.fits(),
                        self.animation.clips.len() > 0,
                        f == (|k: int| ((first_row + k) * cols + column) as usize),
                        frames_appended(animation, self.animation, Seq::new((r - first_row) as nat, f)),
                    decreases end_row - r,
                {
                    proof {
                        assert(r * cols + column < cols * rows) by (nonlinear_arith)
                            requires column < cols, r < rows;
                    }
                    let index = r * cols + column;
                    let ghost before = animation;
                    push_frame(&mut animation, index);
                    proof {
                        lemma_frames_appended_trans(
                            self.animation,
                            before,
                            animation,
                            Seq::new((r - first_row) as nat, f),
                            seq![index],
                        );
                        assert(Seq::new((r - first_row) as nat, f) + seq![index] =~= Seq::new(
                            (r + 1 - first_row) as nat,
                            f,
                        ));
                    }
                    r = r + 1;
                }
            }
            proof {
                assert(Seq::new((r - first_row) as nat, f) =~= added);
                assert forall|k: int| 0 <= k < added.len() implies (#[trigger] added[k] as int)
                    < spritesheet.cell_count() by {
                    let rr = first_row + k;
                    assert(rr * cols + column < cols * rows) by (nonlinear_arith)
                        requires column < cols, 0 <= rr < rows;
                }
            }
        }
        proof {
            lemma_append_in_sheet(animation, self.animation, added, spritesheet);
        }
        AnimationBuilder { spritesheet, animation }
    }

    /// Adds `count` cells from `(x, y)` onwards, left to right and wrapping from row to row,
    /// cut at the end of the spritesheet (nothing if the start lies outside).
    pub fn add_horizontal_strip(self, x: usize, y: usize, count: usize) -> (b: Self)
        requires
            self.spritesheet().fits(),
            x <= self.spritesheet().columns && y <= self.spritesheet().rows ==> y
                * self.spritesheet().columns + x + count <= usize::MAX,
        ensures
            b.spritesheet() == self.spritesheet(),
            frames_appended(
                b.animation(),
                self.animation(),
                horizontal_strip_cells(self.spritesheet(), x, y, count),
            ),
    {
        proof { use_type_invariant(&self); }
        let AnimationBuilder { spritesheet, mut animation } = self;
        let ghost added = horizontal_strip_cells(spritesheet, x, y, count);
        let cols = spritesheet.columns;
        let rows = spritesheet.rows;
        if x > cols || y > rows {
            proof { lemma_frames_appended_nothing(animation); }
        } else {
            let first_index = y * cols + x;
            let cells = cols * rows;
            let last_index = if first_index + count < cells { first_index + count } else { cells };
            push_span(&mut animation, first_index, last_index);
            proof {
                assert(span(first_index as int, last_index as int) == added);
                assert forall|k: int| 0 <= k < added.len() implies (#[trigger] added[k] as int)
                    < spritesheet.cell_count() by {
                    assert(added[k] as int == first_index + k);
                }
            }
        }
        proof {
            lemma_append_in_sheet(animation, self.animation, added, spritesheet);
        }
        AnimationBuilder { spritesheet, animation }
    }

    /// Adds `count` cells from `(x, y)` onwards, top to bottom and wrapping from column to column,
    /// cut at the end of the spritesheet (nothing if the start lies outside).
    pub fn add_vertical_strip(self, x: usize, y: usize, count: usize) -> (b: Self)
        requires
            self.spritesheet().fits(),
        ensures
            b.spritesheet() == self.spritesheet(),
            frames_appended(
                b.animation(),
                self.animation(),
                vertical_strip_cells(self.spritesheet(), x, y, count),
            ),
    {
        proof { use_type_invariant(&self); }
        let AnimationBuilder { spritesheet, mut animation } = self;
        let ghost added = vertical_strip_cells(spritesheet, x, y, count);
        let cols = spritesheet.columns;
        let rows = spritesheet.rows;
        if x >= cols || y > rows {
            proof { lemma_frames_appended_nothing(animation); }
        } else {
            proof {
                assert((cols - (x + 1)) * rows + rows <= cols * rows) by (nonlinear_arith)
                    requires x < cols;
            }
            let available_count = (cols - (x + 1)) * rows + rows - y;
            let clamped_count = if count < available_count { count } else { available_count };
            let ghost f = |i: int| (((y + i) % (rows as int)) * cols + x + (y + i) / (rows as int)) as usize;
            proof {
                lemma_frames_appended_nothing(animation);
                assert(Seq::new(0, f) =~= Seq::<usize>::empty());
            }
            let mut i: usize = 0;
            while i < clamped_count
                invariant
                    0 <= i <= clamped_count <= available_count,
                    available_count == (cols - (x + 1)) * rows + rows - y,
                    x < cols,
                    y <= rows,
                    cols == spritesheet.columns,
                    rows == spritesheet.rows,
                    spritesheet.fits(),
                    self.animation.clips.len() > 0,
                    f == (|i: int| (((y + i) % (rows as int)) * cols + x + (y + i) / (rows as int)) as usize),
                    frames_appended(animation, self.animation, Seq::new(i as nat, f)),
                decreases clamped_count - i,
            {
                proof {
                    lemma_vertical_cell(cols as int, rows as int, x as int, y as int, i as int);
                }
                let current_x = x + (y + i) / rows;
                let current_y = (y + i) % rows;
                let index = current_y * cols + current_x;
                let ghost before = animation;
                push_frame(&mut animation, index);
                proof {
                    lemma_frames_appended_trans(self.animation, before, animation, Seq::new(i as nat, f), seq![index]);
                    assert(Seq::new(i as nat, f) + seq![index] =~= Seq::new((i + 1) as nat, f));
                }
                i = i + 1;
            }
            proof {
                assert(Seq::new(clamped_count as nat, f) =~= added);
                assert forall|k: int| 0 <= k < added.len() implies (#[trigger] added[k] as int)
                    < spritesheet.cell_count() by {
                    lemma_vertical_cell(cols as int, rows as int, x as int, y as int, k);
                }
            }
        }
        proof {
            lemma_append_in_sheet(animation, self.animation, added, spritesheet);
        }
        AnimationBuilder { spritesheet, animation }
    }

    /// Sets the duration of the current clip.
    pub fn set_clip_duration(self, duration: AnimationDuration) -> (b: Self)
        ensures
            b.spritesheet() == self.spritesheet(),
            last_clip_replaced(b.animation(), self.animation()),
            b.animation().clips@.last() == (Clip {
                duration: Some(duration),
                ..self.animation().clips@.last()
            }),
    {
        proof { use_type_invariant(&self); }
        let AnimationBuilder { spritesheet, mut animation } = self;
        let mut clip = animation.clips.pop().unwrap();
        clip.set_duration(duration);
        animation.clips.push(clip);
        proof { lemma_last_clip_replaced(animation, self.animation, spritesheet); }
        AnimationBuilder { spritesheet, animation }
    }

    /// Sets the repetitions of the current clip.
    pub fn set_clip_repetitions(self, repetitions: usize) -> (b: Self)
        ensures
            b.spritesheet() == self.spritesheet(),
            last_clip_replaced(b.animation(), self.animation()),
            b.animation().clips@.last() == (Clip {
                repetitions: Some(repetitions),
                ..self.animation().clips@.last()
            }),
    {
        proof { use_type_invariant(&self); }
        let AnimationBuilder { spritesheet, mut animation } = self;
        let mut clip = animation.clips.pop().unwrap();
        clip.set_repetitions(repetitions);
        animation.clips.push(clip);
        proof { lemma_last_clip_replaced(animation, self.animation, spritesheet); }
        AnimationBuilder { spritesheet, animation }
    }

    /// Sets the direction of the current clip.
    pub fn set_clip_direction(self, direction: AnimationDirection) -> (b: Self)
        ensures
            b.spritesheet() == self.spritesheet(),
            last_clip_replaced(b.animation(), self.animation()),
            b.animation().clips@.last() == (Clip {
                direction: Some(direction),
                ..self.animation().clips@.last()
            }),
    {
        proof { use_type_invariant(&self); }
        let AnimationBuilder { spritesheet, mut animation } = self;
        let mut clip = animation.clips.pop().unwrap();
        clip.set_direction(direction);
        animation.clips.push(clip);
        proof { lemma_last_clip_replaced(animation, self.animation, spritesheet); }
        AnimationBuilder { spritesheet, animation }
    }

    /// Sets the easing of the current clip.
    pub fn set_clip_easing(self, easing: Easing) -> (b: Self)
        ensures
            b.spritesheet() == self.spritesheet(),
            last_clip_replaced(b.animation(), self.animation()),
            b.animation().clips@.last() == (Clip {
                easing: Some(easing),
                ..self.animation().clips@.last()
            }),
    {
        proof { use_type_invariant(&self); }
        let AnimationBuilder { spritesheet, mut animation } = self;
        let mut clip = animation.clips.pop().unwrap();
        clip.set_easing(easing);
        animation.clips.push(clip);
        proof { lemma_last_clip_replaced(animation, self.animation, spritesheet); }
        AnimationBuilder { spritesheet, animation }
    }

    /// Attaches `marker` to the frame `frame_index` of the current clip, after the markers
    /// already attached to it. Nothing changes if the clip has no such frame.
    pub fn add_clip_marker(self, marker: Marker, frame_index: usize) -> (b: Self)
        ensures
            b.spritesheet() == self.spritesheet(),
            frame_index >= self.animation().clips@.last().atlas_indices.len() ==> b.animation()
                == self.animation(),
            frame_index < self.animation().clips@.last().atlas_indices.len() ==> {
                let old_last = self.animation().clips@.last();
                let new_last = b.animation().clips@.last();
                &&& last_clip_replaced(b.animation(), self.animation())
                &&& same_settings(new_last, old_last)
                &&& new_last.atlas_indices == old_last.atlas_indices
                &&& new_last.marker_map() == old_last.marker_map().insert(
                    frame_index,
                    markers_of(old_last.marker_map(), frame_index).push(marker),
                )
            },
    {
        proof { use_type_invariant(&self); }
        let AnimationBuilder { spritesheet, mut animation } = self;
        let n = animation.clips.len();
        if frame_index >= animation.clips[n - 1].atlas_indices.len() {
            return AnimationBuilder { spritesheet, animation };
        }
        let mut clip = animation.clips.pop().unwrap();
        clip.add_marker(marker, frame_index);
        animation.clips.push(clip);
        proof { lemma_last_clip_replaced(animation, self.animation, spritesheet); }
        AnimationBuilder { spritesheet, animation }
    }

    /// Creates the final animation.
    pub fn build(self) -> (a: Animation)
        ensures
            a == self.animation(),
            a.clips.len() > 0,
            frames_in_sheet(a, self.spritesheet()),
    {
        proof { use_type_invariant(&self); }
        self.animation
    }
}

/// Every index kept by `indices_within` is below the cell count.
proof fn lemma_indices_within_bounded(indices: Seq<usize>, cells: int)
    ensures
        forall|k: int|
            0 <= k < indices_within(indices, cells).len() ==> (#[trigger] indices_within(indices, cells)[k] as int)
                < cells,
    decreases indices.len(),
{
    if indices.len() > 0 {
        lemma_indices_within_bounded(indices.drop_last(), cells);
        let rest = indices_within(indices.drop_last(), cells);
        if (indices.last() as int) < cells {
            assert(indices_within(indices, cells) == rest.push(indices.last()));
            assert forall|k: int| 0 <= k < rest.len() + 1 implies (#[trigger] rest.push(indices.last())[k] as int) < cells by {
                if k < rest.len() {
                    assert(rest.push(indices.last())[k] == rest[k]);
                }
            }
        }
    }
}

/// The cells of an existing row lie inside the spritesheet.
proof fn lemma_span_bounded(sheet: Spritesheet, cells: Seq<usize>)
    requires
        exists|row: usize| cells == row_cells(sheet, row),
    ensures
        forall|k: int| 0 <= k < cells.len() ==> (#[trigger] cells[k] as int) < sheet.cell_count(),
{
    let row = choose|row: usize| cells == row_cells(sheet, row);
    if row < sheet.rows {
        let cols = sheet.columns;
        let rows = sheet.rows;
        assert(row * cols + cols <= rows * cols) by (nonlinear_arith)
            requires row < rows;
    }
}

/// The cells of an existing column lie inside the spritesheet.
proof fn lemma_column_bounded(sheet: Spritesheet, column: usize)
    ensures
        forall|k: int|
            0 <= k < column_cells(sheet, column).len() ==> (#[trigger] column_cells(sheet, column)[k] as int)
                < sheet.cell_count(),
{
    assert forall|k: int| 0 <= k < column_cells(sheet, column).len() implies (#[trigger] column_cells(
        sheet,
        column,
    )[k] as int) < sheet.cell_count() by {
        let cols = sheet.columns;
        let rows = sheet.rows;
        assert(column + k * cols < rows * cols) by (nonlinear_arith)
            requires column < cols, 0 <= k < rows;
    }
}

/// The `i`-th cell of a vertical strip from `(x, y)` lies inside the spritesheet, when `i` is below the room left.
proof fn lemma_vertical_cell(cols: int, rows: int, x: int, y: int, i: int)
    requires
        0 <= x < cols,
        0 <= y <= rows,
        0 <= i < (cols - (x + 1)) * rows + rows - y,
    ensures
        rows > 0,
        0 <= (y + i) % rows < rows,
        0 <= x + (y + i) / rows < cols,
        ((y + i) % rows) * cols + x + (y + i) / rows < cols * rows,
        y + i < cols * rows,
{
    assert(rows > 0) by (nonlinear_arith)
        requires
            0 <= x < cols,
            0 <= y <= rows,
            0 <= i < (cols - (x + 1)) * rows + rows - y,
    ;
    let q = (y + i) / rows;
    let r = (y + i) % rows;
    assert(y + i == q * rows + r && 0 <= r < rows && q >= 0) by (nonlinear_arith)
        requires rows > 0, y + i >= 0, q == (y + i) / rows, r == (y + i) % rows;
    assert(y + i < (cols - x) * rows) by (nonlinear_arith)
        requires i < (cols - (x + 1)) * rows + rows - y;
    assert((cols - x) * rows <= cols * rows) by (nonlinear_arith)
        requires 0 <= x, rows > 0;
    assert(q < cols - x) by (nonlinear_arith)
        requires y + i == q * rows + r, 0 <= r < rows, y + i < (cols - x) * rows, rows > 0, q >= 0;
    assert(r * cols + x + q < cols * rows) by (nonlinear_arith)
        requires 0 <= r < rows, 0 <= x + q < cols;
}

/// `new` is `old` with only its last clip replaced by one with the same frames.
pub open spec fn last_clip_replaced(new: Animation, old: Animation) -> bool {
    &&& same_parameters(new, old)
    &&& old.clips.len() > 0
    &&& new.clips.len() == old.clips.len()
    &&& new.clips@.drop_last() == old.clips@.drop_last()
    &&& new.clips@.last().atlas_indices == old.clips@.last().atlas_indices
}

proof fn lemma_last_clip_replaced(new: Animation, old: Animation, sheet: Spritesheet)
    requires
        old.clips.len() > 0,
        same_parameters(new, old),
        new.clips@ == old.clips@.drop_last().push(new.clips@.last()),
        new.clips@.last().atlas_indices == old.clips@.last().atlas_indices,
        frames_in_sheet(old, sheet),
    ensures
        last_clip_replaced(new, old),
        frames_in_sheet(new, sheet),
{
    assert(new.clips@.drop_last() =~= old.clips@.drop_last());
    assert forall|i: int, j: int|
        0 <= i < new.clips.len() && 0 <= j < new.clips[i].atlas_indices.len() implies (
        #[trigger] new.clips[i].atlas_indices[j] as int) < sheet.cell_count() by {
        if i < new.clips.len() - 1 {
            assert(new.clips[i] == old.clips@.drop_last()[i]);
        } else {
            assert(new.clips[i].atlas_indices == old.clips[i].atlas_indices);
        }
    }
}

/// Every frame of every clip of `animation` is a cell of `sheet`.
pub open spec fn frames_in_sheet(animation: Animation, sheet: Spritesheet) -> bool {
    forall|i: int, j: int|
        0 <= i < animation.clips.len() && 0 <= j < animation.clips[i].atlas_indices.len() ==> (
        #[trigger] animation.clips[i].atlas_indices[j] as int) < sheet.cell_count()
}

/// The position of the first clip with the given identifier, if any.
pub open spec fn first_clip_with_id(clips: Seq<Clip>, id: ClipId) -> Option<int> {
    if exists|k: int| 0 <= k < clips.len() && clips[k].id == id {
        Some(
            choose|k: int|
                0 <= k < clips.len() && clips[k].id == id && forall|i: int|
                    0 <= i < k ==> clips[i].id != id,
        )
    } else {
        None
    }
}

proof fn lemma_first_clip_with_id(clips: Seq<Clip>, id: ClipId, k: int)
    requires
        0 <= k < clips.len(),
        clips[k].id == id,
        forall|i: int| 0 <= i < k ==> clips[i].id != id,
    ensures
        first_clip_with_id(clips, id) == Some(k),
{
    let w = choose|w: int|
        0 <= w < clips.len() && clips[w].id == id && forall|i: int| 0 <= i < w ==> clips[i].id != id;
    assert(0 <= w < clips.len() && clips[w].id == id && forall|i: int| 0 <= i < w ==> clips[i].id != id);
    if w < k {
        assert(clips[w].id != id);
    }
    if k < w {
        assert(clips[k].id != id);
    }
}

proof fn lemma_no_clip_with_id(clips: Seq<Clip>, id: ClipId)
    requires
        forall|i: int| 0 <= i < clips.len() ==> clips[i].id != id,
    ensures
        first_clip_with_id(clips, id) is None,
{
}

} // verus!
