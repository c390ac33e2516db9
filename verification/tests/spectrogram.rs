use hls_wavelet::spectrogram::{frame_row, Spectrogram};

#[test]
fn new_grid_is_full() {
    let grid = Spectrogram::new(4, 3, 0.0f32);
    assert_eq!(grid.width(), 4);
    assert_eq!(grid.height(), 3);
    assert_eq!(grid.cells().len(), 12);
    assert!(grid.cells().iter().all(|v| *v == 0.0));
    for row in 0..3 {
        assert_eq!(grid.row(row).len(), 4);
    }
}

#[test]
fn player_grid_has_width_times_height_values() {
    let grid = Spectrogram::new(256, 64, 0.0f32);
    assert_eq!(grid.cells().len(), 256 * 64);
    assert_eq!(grid.row(63).len(), 256);
}

#[test]
fn set_row_writes_one_row() {
    let mut grid = Spectrogram::new(3, 3, 0i32);
    grid.set_row(1, &vec![1, 2, 3]);
    assert_eq!(grid.cells(), &vec![0, 0, 0, 1, 2, 3, 0, 0, 0]);
    grid.set_row(0, &vec![7, 8, 9]);
    grid.set_row(2, &vec![4, 5, 6]);
    assert_eq!(grid.row(0), vec![7, 8, 9]);
    assert_eq!(grid.row(1), vec![1, 2, 3]);
    assert_eq!(grid.row(2), vec![4, 5, 6]);
    assert_eq!(grid.into_cells(), vec![7, 8, 9, 1, 2, 3, 4, 5, 6]);
}

#[test]
fn from_cells_wants_a_full_grid() {
    let grid = Spectrogram::from_cells(2, 3, vec![1.0f32, 2.0, 3.0, 4.0, 5.0, 6.0]).unwrap();
    assert_eq!(grid.row(0), vec![1.0, 2.0]);
    assert_eq!(grid.row(2), vec![5.0, 6.0]);
    assert!(Spectrogram::from_cells(2, 3, vec![1.0f32; 5]).is_none());
    assert!(Spectrogram::from_cells(2, 3, vec![1.0f32; 7]).is_none());
    assert!(Spectrogram::from_cells(0, 3, Vec::<f32>::new()).is_none());
    assert!(Spectrogram::from_cells(3, 0, Vec::<f32>::new()).is_none());
    assert!(Spectrogram::from_cells(usize::MAX, 2, vec![1.0f32; 4]).is_none());
}

#[test]
fn frame_row_follows_the_seconds() {
    // 64 rows pass in a second.
    assert_eq!(frame_row(0, 64), 0);
    assert_eq!(frame_row(15_624_999, 64), 0);
    assert_eq!(frame_row(15_625_000, 64), 1);
    assert_eq!(frame_row(500_000_000, 64), 32);
    assert_eq!(frame_row(999_999_999, 64), 63);
    assert_eq!(frame_row(1_000_000_000, 64), 0);
    assert_eq!(frame_row(6_250_000_000, 64), 16);
}

#[test]
fn frame_row_counts_the_start_as_a_thousandth() {
    // With more than a thousand rows the first thousandth is past row 0.
    assert_eq!(frame_row(0, 2000), 2);
    assert_eq!(frame_row(999_999, 2000), 2);
    assert_eq!(frame_row(1_000_000, 2000), 2);
    assert_eq!(frame_row(1_500_000, 2000), 3);
}

#[test]
fn frame_row_of_one_row_is_zero() {
    assert_eq!(frame_row(0, 1), 0);
    assert_eq!(frame_row(123_456_789_012, 1), 0);
    assert_eq!(frame_row(u64::MAX, 1), 0);
}

#[test]
fn frame_row_stays_inside_at_the_limits() {
    assert!(frame_row(u64::MAX, usize::MAX) < usize::MAX);
    assert_eq!(frame_row(u64::MAX, 64), ((u64::MAX as u128 * 64 / 1_000_000_000) % 64) as usize);
}
