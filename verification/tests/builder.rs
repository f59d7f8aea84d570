use bevy_spritesheet_animation::animation::{
    Animation, AnimationDirection, AnimationDuration, AnimationRepeat,
};
use bevy_spritesheet_animation::builder::{AnimationBuilder, CellRange, RangeBound};
use bevy_spritesheet_animation::clip::ClipId;
use bevy_spritesheet_animation::easing::{Easing, EasingVariety};
use bevy_spritesheet_animation::events::Marker;
use bevy_spritesheet_animation::spritesheet::Spritesheet;

struct Tester {
    spritesheet: Spritesheet,
}

impl Tester {
    fn new(columns: usize, rows: usize) -> Self {
        Self { spritesheet: Spritesheet::new(columns, rows) }
    }

    fn test<F>(&self, f: F, expected_indices: Vec<usize>)
    where
        F: Fn(AnimationBuilder) -> AnimationBuilder,
    {
        let builder = self.spritesheet.create_animation(ClipId::from_value(1));
        let animation = f(builder).build();
        let indices: Vec<usize> = animation
            .clips()
            .iter()
            .flat_map(|clip| clip.atlas_indices().iter())
            .copied()
            .collect();
        assert_eq!(indices, expected_indices);
    }
}

fn range(start: usize, end: usize) -> CellRange {
    CellRange { start: RangeBound::Included(start), end: RangeBound::Excluded(end) }
}

fn range_inclusive(start: usize, end: usize) -> CellRange {
    CellRange { start: RangeBound::Included(start), end: RangeBound::Included(end) }
}

fn range_from(start: usize) -> CellRange {
    CellRange { start: RangeBound::Included(start), end: RangeBound::Unbounded }
}

#[test]
fn add_indices() {
    let t = Tester::new(3, 2);

    t.test(|b| b.add_indices(vec![]), vec![]);
    t.test(|b| b.add_indices(vec![0]), vec![0]);
    t.test(|b| b.add_indices(vec![1, 3]), vec![1, 3]);
    t.test(|b| b.add_indices(vec![999]), vec![]);
    t.test(|b| b.add_indices(vec![2, 999, 4]), vec![2, 4]);
}

#[test]
fn add_all_cells() {
    let t1 = Tester::new(0, 0);
    t1.test(|b| b.add_all_cells(), vec![]);

    let t2 = Tester::new(2, 3);
    t2.test(|b| b.add_all_cells(), vec![0, 1, 2, 3, 4, 5]);
}

#[test]
fn add_cell() {
    let t = Tester::new(4, 3);

    t.test(|b| b.add_cell(0, 0), vec![0]);
    t.test(|b| b.add_cell(2, 2).add_cell(0, 0), vec![10, 0]);
    t.test(|b| b.add_cell(1000, 1), vec![]);
    t.test(|b| b.add_cell(2, 1000), vec![]);
}

#[test]
fn add_cells() {
    let t = Tester::new(4, 3);

    t.test(|b| b.add_cells(vec![]), vec![]);
    t.test(|b| b.add_cells(vec![(0, 0)]), vec![0]);
    t.test(|b| b.add_cells(vec![(2, 2)]), vec![10]);
    t.test(|b| b.add_cells(vec![(1, 1), (0, 0), (2, 2)]), vec![5, 0, 10]);
    t.test(|b| b.add_cells(vec![(100, 100)]), vec![]);
    t.test(|b| b.add_cells(vec![(1000, 0), (3, 0), (0, 2000)]), vec![3]);
}

#[test]
fn add_row() {
    let t = Tester::new(3, 6);

    t.test(|b| b.add_row(0), vec![0, 1, 2]);
    t.test(|b| b.add_row(3), vec![9, 10, 11]);
    t.test(|b| b.add_row(1000), vec![]);
    t.test(|b| b.add_row(1000).add_row(1), vec![3, 4, 5]);
}

#[test]
fn add_partial_row() {
    let t = Tester::new(5, 4);

    // First row, starting at column 0

    t.test(|b| b.add_partial_row(0, range(0, 0)), vec![]);
    t.test(|b| b.add_partial_row(0, range_from(0)), vec![0, 1, 2, 3, 4]);
    t.test(|b| b.add_partial_row(0, range(0, 2)), vec![0, 1]);
    t.test(|b| b.add_partial_row(0, range(0, 5)), vec![0, 1, 2, 3, 4]);
    t.test(|b| b.add_partial_row(0, range(0, 100)), vec![0, 1, 2, 3, 4]);
    t.test(|b| b.add_partial_row(0, range_inclusive(0, 0)), vec![0]);
    t.test(|b| b.add_partial_row(0, range_inclusive(0, 2)), vec![0, 1, 2]);
    t.test(|b| b.add_partial_row(0, range_inclusive(0, 100)), vec![0, 1, 2, 3, 4]);

    // First row, starting at another column

    t.test(|b| b.add_partial_row(0, range(2, 2)), vec![]);
    t.test(|b| b.add_partial_row(0, range_from(2)), vec![2, 3, 4]);
    t.test(|b| b.add_partial_row(0, range(1, 3)), vec![1, 2]);
    t.test(|b| b.add_partial_row(0, range(2, 5)), vec![2, 3, 4]);
    t.test(|b| b.add_partial_row(0, range(2, 100)), vec![2, 3, 4]);
    t.test(|b| b.add_partial_row(0, range_inclusive(3, 3)), vec![3]);
    t.test(|b| b.add_partial_row(0, range_inclusive(3, 4)), vec![3, 4]);
    t.test(|b| b.add_partial_row(0, range_inclusive(4, 100)), vec![4]);

    // Other rows

    t.test(|b| b.add_partial_row(1, range(0, 0)), vec![]);
    t.test(|b| b.add_partial_row(2, range_from(0)), vec![10, 11, 12, 13, 14]);
    t.test(|b| b.add_partial_row(3, range(0, 2)), vec![15, 16]);
    t.test(|b| b.add_partial_row(1, range(0, 5)), vec![5, 6, 7, 8, 9]);
    t.test(|b| b.add_partial_row(2, range(0, 100)), vec![10, 11, 12, 13, 14]);
    t.test(|b| b.add_partial_row(3, range_inclusive(0, 0)), vec![15]);
    t.test(|b| b.add_partial_row(3, range_inclusive(0, 2)), vec![15, 16, 17]);
    t.test(|b| b.add_partial_row(2, range_inclusive(0, 100)), vec![10, 11, 12, 13, 14]);
    t.test(|b| b.add_partial_row(100, range(0, 3)), vec![]);
    t.test(|b| b.add_partial_row(100, range_inclusive(0, 100)), vec![]);
}

#[test]
fn add_column() {
    let t = Tester::new(5, 3);

    t.test(|b| b.add_column(0), vec![0, 5, 10]);
    t.test(|b| b.add_column(1), vec![1, 6, 11]);
    t.test(|b| b.add_column(1000), vec![]);
    t.test(|b| b.add_column(1000).add_column(1), vec![1, 6, 11]);
}

#[test]
fn add_partial_column() {
    let t = Tester::new(3, 4);

    // First column, starting at row 0

    t.test(|b| b.add_partial_column(0, range(0, 0)), vec![]);
    t.test(|b| b.add_partial_column(0, range_from(0)), vec![0, 3, 6, 9]);
    t.test(|b| b.add_partial_column(0, range(0, 2)), vec![0, 3]);
    t.test(|b| b.add_partial_column(0, range(0, 5)), vec![0, 3, 6, 9]);
    t.test(|b| b.add_partial_column(0, range(0, 100)), vec![0, 3, 6, 9]);
    t.test(|b| b.add_partial_column(0, range_inclusive(0, 0)), vec![0]);
    t.test(|b| b.add_partial_column(0, range_inclusive(0, 2)), vec![0, 3, 6]);
    t.test(|b| b.add_partial_column(0, range_inclusive(0, 100)), vec![0, 3, 6, 9]);

    // First column, starting at another row

    t.test(|b| b.add_partial_column(0, range(2, 2)), vec![]);
    t.test(|b| b.add_partial_column(0, range_from(2)), vec![6, 9]);
    t.test(|b| b.add_partial_column(0, range(1, 3)), vec![3, 6]);
    t.test(|b| b.add_partial_column(0, range(2, 5)), vec![6, 9]);
    t.test(|b| b.add_partial_column(0, range(2, 100)), vec![6, 9]);
    t.test(|b| b.add_partial_column(0, range_inclusive(3, 3)), vec![9]);
    t.test(|b| b.add_partial_column(0, range_inclusive(2, 4)), vec![6, 9]);
    t.test(|b| b.add_partial_column(0, range_inclusive(3, 100)), vec![9]);

    // Other columns

    t.test(|b| b.add_partial_column(1, range(0, 0)), vec![]);
    t.test(|b| b.add_partial_column(2, range_from(0)), vec![2, 5, 8, 11]);
    t.test(|b| b.add_partial_column(1, range(0, 2)), vec![1, 4]);
    t.test(|b| b.add_partial_column(1, range(0, 5)), vec![1, 4, 7, 10]);
    t.test(|b| b.add_partial_column(2, range(0, 100)), vec![2, 5, 8, 11]);
    t.test(|b| b.add_partial_column(1, range_inclusive(0, 0)), vec![1]);
    t.test(|b| b.add_partial_column(2, range_inclusive(0, 2)), vec![2, 5, 8]);
    t.test(|b| b.add_partial_column(2, range_inclusive(0, 100)), vec![2, 5, 8, 11]);
    t.test(|b| b.add_partial_column(100, range(0, 3)), vec![]);
    t.test(|b| b.add_partial_column(100, range_inclusive(0, 100)), vec![]);
}

#[test]
fn add_horizontal_strip() {
    let t = Tester::new(8, 8);

    t.test(|b| b.add_horizontal_strip(0, 0, 3), vec![0, 1, 2]);
    t.test(|b| b.add_horizontal_strip(6, 0, 4), vec![6, 7, 8, 9]);
    t.test(|b| b.add_horizontal_strip(4, 5, 0), vec![]);
    t.test(|b| b.add_horizontal_strip(100, 0, 1), vec![]);
    t.test(|b| b.add_horizontal_strip(0, 100, 1), vec![]);
    t.test(|b| b.add_horizontal_strip(6, 7, 1000), vec![62, 63]);
}

#[test]
fn add_vertical_strip() {
    let t = Tester::new(4, 3);

    t.test(|b| b.add_vertical_strip(0, 0, 2), vec![0, 4]);
    t.test(|b| b.add_vertical_strip(1, 1, 6), vec![5, 9, 2, 6, 10, 3]);
    t.test(|b| b.add_vertical_strip(100, 0, 1), vec![]);
    t.test(|b| b.add_vertical_strip(0, 100, 1), vec![]);
    t.test(|b| b.add_vertical_strip(3, 0, 1000), vec![3, 7, 11]);
}

#[test]
fn id() {
    let mut clip1_id = ClipId::dummy();
    let mut clip2_id = ClipId::dummy();
    let mut clip3_id = ClipId::dummy();

    let animation = Spritesheet::new(8, 8)
        .create_animation(ClipId::from_value(10))
        .get_current_clip_id(&mut clip1_id)
        .start_clip(ClipId::from_value(11))
        .get_current_clip_id(&mut clip2_id)
        .start_clip(ClipId::from_value(12))
        .get_current_clip_id(&mut clip3_id)
        .build();

    assert_eq!(animation.clips().first().unwrap().id(), clip1_id);
    assert_eq!(animation.clips().get(1).unwrap().id(), clip2_id);
    assert_eq!(animation.clips().get(2).unwrap().id(), clip3_id);
    assert_eq!(clip1_id, ClipId::from_value(10));
    assert_eq!(clip3_id, ClipId::from_value(12));
}

#[test]
fn atlas_indices() {
    let animation = Spritesheet::new(3, 6)
        .create_animation(ClipId::from_value(1))
        .add_row(1)
        .start_clip(ClipId::from_value(2))
        .add_row(2)
        .add_cell(1, 5)
        .add_cell(2, 4)
        .build();

    let clip1 = animation.clips().first().unwrap();
    assert_eq!(clip1.atlas_indices(), [3, 4, 5]);

    let clip2 = animation.clips().last().unwrap();
    assert_eq!(clip2.atlas_indices(), [6, 7, 8, 16, 14]);
}

#[test]
fn parameters() {
    let animation = Spritesheet::new(8, 8)
        .create_animation(ClipId::from_value(1))
        // Only the last set_clip_xxx() should apply
        .set_clip_direction(AnimationDirection::Backwards)
        .set_clip_direction(AnimationDirection::PingPong)
        .set_clip_duration(AnimationDuration::PerRepetition(1000))
        .set_clip_duration(AnimationDuration::PerFrame(2000))
        .set_clip_repetitions(10)
        .set_clip_repetitions(20)
        .set_clip_easing(Easing::Linear)
        .set_clip_easing(Easing::InOut(EasingVariety::Cubic))
        // New clip with default parameters
        .start_clip(ClipId::from_value(2))
        // The animation's set_xxx() should not alter the clip's parameters
        .set_direction(AnimationDirection::Backwards)
        .set_duration(AnimationDuration::PerFrame(123))
        .set_repetitions(AnimationRepeat::Times(9))
        .set_easing(Easing::In(EasingVariety::Quintic))
        .build();

    // Animation

    assert!(matches!(animation.direction(), Some(AnimationDirection::Backwards)));
    assert!(matches!(animation.duration(), Some(AnimationDuration::PerFrame(123))));
    assert!(matches!(animation.repetitions(), Some(AnimationRepeat::Times(9))));
    assert!(matches!(animation.easing(), Some(Easing::In(EasingVariety::Quintic))));

    // Clip 1

    let clip1 = animation.clips().first().unwrap();

    assert!(matches!(clip1.direction(), Some(AnimationDirection::PingPong)));
    assert!(matches!(clip1.duration(), Some(AnimationDuration::PerFrame(2000))));
    assert!(matches!(clip1.repetitions(), Some(20)));
    assert!(matches!(clip1.easing(), Some(Easing::InOut(EasingVariety::Cubic))));

    // Clip 2

    let clip2 = animation.clips().last().unwrap();

    assert!(clip2.direction().is_none());
    assert!(clip2.duration().is_none());
    assert!(clip2.repetitions().is_none());
    assert!(clip2.easing().is_none());
}

#[test]
fn builder_markers() {
    let marker1 = Marker::from_value(1);
    let marker2 = Marker::from_value(2);
    let marker3 = Marker::from_value(3);

    let animation = Spritesheet::new(8, 8)
        .create_animation(ClipId::from_value(1))
        // Clip 1: add markers to different frames
        .add_row(0)
        .add_clip_marker(marker1, 0)
        .add_clip_marker(marker2, 5)
        // Clip 2: add markers to the same frame
        .start_clip(ClipId::from_value(2))
        .add_row(3)
        .add_clip_marker(marker3, 2)
        .add_clip_marker(marker2, 2)
        // Add out-of-bound markers, this should not work
        .add_clip_marker(marker1, 100)
        .add_clip_marker(marker1, 999999)
        .build();

    let clip1 = animation.clips().first().unwrap();

    assert_eq!(clip1.markers().len(), 2);
    assert_eq!(clip1.markers_at(0), vec![marker1]);
    assert_eq!(clip1.markers_at(5), vec![marker2]);
    assert_eq!(clip1.markers_at(1), vec![]);

    let clip2 = animation.clips().last().unwrap();

    assert_eq!(clip2.markers().len(), 1);
    assert_eq!(clip2.markers_at(2), vec![marker3, marker2]);
    assert_eq!(clip2.markers_at(100), vec![]);
}

#[test]
fn copy_clip_appends_a_copy_of_the_clip() {
    let mut first_clip_id = ClipId::dummy();

    let animation = Spritesheet::new(4, 4)
        .create_animation(ClipId::from_value(1))
        .add_row(1)
        .set_clip_repetitions(3)
        .add_clip_marker(Marker::from_value(7), 1)
        .get_current_clip_id(&mut first_clip_id)
        .copy_clip(first_clip_id)
        .add_cell(0, 0)
        .set_clip_duration(AnimationDuration::PerRepetition(800))
        .copy_clip(ClipId::from_value(99))
        .build();

    assert_eq!(animation.clips().len(), 2);
    assert_eq!(animation.clips()[0].atlas_indices(), [4, 5, 6, 7]);
    assert!(animation.clips()[0].duration().is_none());
    assert_eq!(animation.clips()[1].atlas_indices(), [4, 5, 6, 7, 0]);
    assert_eq!(animation.clips()[1].id(), ClipId::from_value(1));
    assert!(matches!(animation.clips()[1].repetitions(), Some(3)));
    assert!(matches!(animation.clips()[1].duration(), Some(AnimationDuration::PerRepetition(800))));
    assert_eq!(animation.clips()[1].markers_at(1), vec![Marker::from_value(7)]);
}

#[test]
fn build_keeps_every_frame_inside_the_spritesheet() {
    let animation: Animation = Spritesheet::new(2, 2)
        .create_animation(ClipId::from_value(1))
        .add_indices(vec![0, 3, 4, 100])
        .add_horizontal_strip(1, 1, 10)
        .add_vertical_strip(0, 1, 10)
        .build();

    let indices: Vec<usize> = animation.clips()[0].atlas_indices().to_vec();
    assert_eq!(indices, vec![0, 3, 3, 2, 1, 3]);
    assert!(indices.iter().all(|i| *i < 4));
}

#[test]
fn cells_outside_the_sheet_add_nothing() {
    let t = Tester::new(4, 3);
    t.test(|b| b.add_cell(5, 0), vec![]);
    t.test(|b| b.add_cell(4, 0), vec![]);
    t.test(|b| b.add_cell(0, 3), vec![]);
    t.test(|b| b.add_cells(vec![(5, 0), (3, 2)]), vec![11]);
}

#[test]
fn partial_ranges_starting_past_the_end_add_nothing() {
    let t = Tester::new(5, 2);
    t.test(|b| b.add_partial_row(0, range_from(7)), vec![]);
    t.test(|b| b.add_partial_row(0, range_from(5)), vec![]);
    t.test(|b| b.add_partial_row(1, range(4, 10)), vec![9]);

    let t = Tester::new(3, 4);
    t.test(|b| b.add_partial_column(0, range_from(5)), vec![]);
    t.test(|b| b.add_partial_column(0, range_from(4)), vec![]);
    t.test(|b| b.add_partial_column(2, range_inclusive(3, 9)), vec![11]);
}

#[test]
fn vertical_strip_right_of_the_sheet_adds_nothing() {
    let t = Tester::new(3, 2);
    t.test(|b| b.add_vertical_strip(3, 0, 4), vec![]);
    t.test(|b| b.add_vertical_strip(3, 2, 1), vec![]);
    t.test(|b| b.add_vertical_strip(2, 1, 5), vec![5]);
}
