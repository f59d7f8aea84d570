use bevy_spritesheet_animation::builder::{AnimationBuilder, CellRange, RangeBound};
use bevy_spritesheet_animation::clip::ClipId;
use bevy_spritesheet_animation::spritesheet::Spritesheet;

fn cells<F: Fn(AnimationBuilder) -> AnimationBuilder>(sheet: &Spritesheet, f: F) -> Vec<usize> {
    let animation = f(sheet.create_animation(ClipId::from_value(0))).build();
    animation.clips()[0].atlas_indices().to_vec()
}

fn r(start: usize, end: usize) -> CellRange {
    CellRange { start: RangeBound::Included(start), end: RangeBound::Excluded(end) }
}

fn ri(start: usize, end: usize) -> CellRange {
    CellRange { start: RangeBound::Included(start), end: RangeBound::Included(end) }
}

fn rf(start: usize) -> CellRange {
    CellRange { start: RangeBound::Included(start), end: RangeBound::Unbounded }
}

#[test]
fn position() {
    let sheet = Spritesheet::new(4, 3);

    assert_eq!(cells(&sheet, |b| b.add_cells(vec![])), Vec::<usize>::new());
    assert_eq!(cells(&sheet, |b| b.add_cells(vec![(0, 0)])), vec![0]);
    assert_eq!(cells(&sheet, |b| b.add_cells(vec![(2, 2)])), vec![10]);
    assert_eq!(cells(&sheet, |b| b.add_cells(vec![(1, 1), (0, 0), (2, 2)])), vec![5, 0, 10]);
    assert_eq!(cells(&sheet, |b| b.add_cells(vec![(100, 100)])), Vec::<usize>::new());
    assert_eq!(cells(&sheet, |b| b.add_cells(vec![(1000, 0), (3, 0), (0, 2000)])), vec![3]);
}

#[test]
fn row() {
    let sheet = Spritesheet::new(3, 6);

    assert_eq!(cells(&sheet, |b| b.add_row(0)), vec![0, 1, 2]);
    assert_eq!(cells(&sheet, |b| b.add_row(3)), vec![9, 10, 11]);
    assert_eq!(cells(&sheet, |b| b.add_row(1000)), Vec::<usize>::new());
}

#[test]
fn row_partial() {
    let sheet = Spritesheet::new(5, 4);
    let row = |y: usize, range: CellRange| cells(&sheet, move |b| b.add_partial_row(y, range));

    assert_eq!(row(0, r(0, 0)), Vec::<usize>::new());
    assert_eq!(row(0, rf(0)), vec![0, 1, 2, 3, 4]);
    assert_eq!(row(0, r(0, 2)), vec![0, 1]);
    assert_eq!(row(0, r(0, 5)), vec![0, 1, 2, 3, 4]);
    assert_eq!(row(0, r(0, 100)), vec![0, 1, 2, 3, 4]);
    assert_eq!(row(0, ri(0, 0)), vec![0]);
    assert_eq!(row(0, ri(0, 2)), vec![0, 1, 2]);
    assert_eq!(row(0, ri(0, 100)), vec![0, 1, 2, 3, 4]);

    assert_eq!(row(0, r(2, 2)), Vec::<usize>::new());
    assert_eq!(row(0, rf(2)), vec![2, 3, 4]);
    assert_eq!(row(0, r(1, 3)), vec![1, 2]);
    assert_eq!(row(0, r(2, 5)), vec![2, 3, 4]);
    assert_eq!(row(0, r(2, 100)), vec![2, 3, 4]);
    assert_eq!(row(0, ri(3, 3)), vec![3]);
    assert_eq!(row(0, ri(3, 4)), vec![3, 4]);
    assert_eq!(row(0, ri(4, 100)), vec![4]);

    assert_eq!(row(1, r(0, 0)), Vec::<usize>::new());
    assert_eq!(row(2, rf(0)), vec![10, 11, 12, 13, 14]);
    assert_eq!(row(3, r(0, 2)), vec![15, 16]);
    assert_eq!(row(1, r(0, 5)), vec![5, 6, 7, 8, 9]);
    assert_eq!(row(2, r(0, 100)), vec![10, 11, 12, 13, 14]);
    assert_eq!(row(3, ri(0, 0)), vec![15]);
    assert_eq!(row(3, ri(0, 2)), vec![15, 16, 17]);
    assert_eq!(row(2, ri(0, 100)), vec![10, 11, 12, 13, 14]);
    assert_eq!(row(100, r(0, 3)), Vec::<usize>::new());
    assert_eq!(row(100, ri(0, 100)), Vec::<usize>::new());
}

#[test]
fn column() {
    let sheet = Spritesheet::new(5, 3);

    assert_eq!(cells(&sheet, |b| b.add_column(0)), vec![0, 5, 10]);
    assert_eq!(cells(&sheet, |b| b.add_column(1)), vec![1, 6, 11]);
    assert_eq!(cells(&sheet, |b| b.add_column(1000)), Vec::<usize>::new());
}

#[test]
fn column_partial() {
    let sheet = Spritesheet::new(3, 4);
    let column = |x: usize, range: CellRange| cells(&sheet, move |b| b.add_partial_column(x, range));

    assert_eq!(column(0, r(0, 0)), Vec::<usize>::new());
    assert_eq!(column(0, rf(0)), vec![0, 3, 6, 9]);
    assert_eq!(column(0, r(0, 2)), vec![0, 3]);
    assert_eq!(column(0, r(0, 5)), vec![0, 3, 6, 9]);
    assert_eq!(column(0, r(0, 100)), vec![0, 3, 6, 9]);
    assert_eq!(column(0, ri(0, 0)), vec![0]);
    assert_eq!(column(0, ri(0, 2)), vec![0, 3, 6]);
    assert_eq!(column(0, ri(0, 100)), vec![0, 3, 6, 9]);

    assert_eq!(column(0, r(2, 2)), Vec::<usize>::new());
    assert_eq!(column(0, rf(2)), vec![6, 9]);
    assert_eq!(column(0, r(1, 3)), vec![3, 6]);
    assert_eq!(column(0, r(2, 5)), vec![6, 9]);
    assert_eq!(column(0, r(2, 100)), vec![6, 9]);
    assert_eq!(column(0, ri(3, 3)), vec![9]);
    assert_eq!(column(0, ri(2, 4)), vec![6, 9]);
    assert_eq!(column(0, ri(3, 100)), vec![9]);

    assert_eq!(column(1, r(0, 0)), Vec::<usize>::new());
    assert_eq!(column(2, rf(0)), vec![2, 5, 8, 11]);
    assert_eq!(column(1, r(0, 2)), vec![1, 4]);
    assert_eq!(column(1, r(0, 5)), vec![1, 4, 7, 10]);
    assert_eq!(column(2, r(0, 100)), vec![2, 5, 8, 11]);
    assert_eq!(column(1, ri(0, 0)), vec![1]);
    assert_eq!(column(2, ri(0, 2)), vec![2, 5, 8]);
    assert_eq!(column(2, ri(0, 100)), vec![2, 5, 8, 11]);
    assert_eq!(column(100, r(0, 3)), Vec::<usize>::new());
    assert_eq!(column(100, ri(0, 100)), Vec::<usize>::new());
}

#[test]
fn horizontal_strip() {
    let sheet = Spritesheet::new(8, 8);

    assert_eq!(cells(&sheet, |b| b.add_horizontal_strip(0, 0, 3)), vec![0, 1, 2]);
    assert_eq!(cells(&sheet, |b| b.add_horizontal_strip(6, 0, 4)), vec![6, 7, 8, 9]);
    assert_eq!(cells(&sheet, |b| b.add_horizontal_strip(4, 5, 0)), Vec::<usize>::new());
    assert_eq!(cells(&sheet, |b| b.add_horizontal_strip(6, 7, 1000)), vec![62, 63]);
}

#[test]
fn vertical_strip() {
    let sheet = Spritesheet::new(4, 3);

    assert_eq!(cells(&sheet, |b| b.add_vertical_strip(0, 0, 2)), vec![0, 4]);
    assert_eq!(cells(&sheet, |b| b.add_vertical_strip(1, 1, 6)), vec![5, 9, 2, 6, 10, 3]);
    assert_eq!(cells(&sheet, |b| b.add_vertical_strip(3, 0, 1000)), vec![3, 7, 11]);
}
