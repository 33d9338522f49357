use fractal_explorer::schedule::{partition_rows, RowRange};

fn ranges(height: usize, concurrency: usize) -> Vec<(usize, usize)> {
    partition_rows(height, concurrency)
        .iter()
        .map(|r: &RowRange| (r.start_row, r.end_row))
        .collect()
}

#[test]
fn reference_frame_splits_into_four_equal_bands() {
    assert_eq!(ranges(600, 4), vec![(0, 150), (150, 300), (300, 450), (450, 600)]);
}

#[test]
fn last_band_takes_the_remainder() {
    assert_eq!(ranges(10, 3), vec![(0, 3), (3, 6), (6, 10)]);
}

#[test]
fn fewer_rows_than_bands_leaves_leading_bands_empty() {
    assert_eq!(ranges(2, 4), vec![(0, 0), (0, 0), (0, 0), (0, 2)]);
}

#[test]
fn single_band_is_the_whole_frame() {
    assert_eq!(ranges(7, 1), vec![(0, 7)]);
}

#[test]
fn bands_cover_every_row_exactly_once() {
    for height in 1..60usize {
        for concurrency in 1..12usize {
            let bands = partition_rows(height, concurrency);
            assert_eq!(bands.len(), concurrency);
            assert_eq!(bands[0].start_row, 0);
            assert_eq!(bands[concurrency - 1].end_row, height);
            for i in 0..concurrency {
                assert!(bands[i].start_row <= bands[i].end_row);
                if i + 1 < concurrency {
                    assert_eq!(bands[i].end_row, bands[i + 1].start_row);
                }
            }
            for row in 0..height {
                let hits = bands
                    .iter()
                    .filter(|b| b.start_row <= row && row < b.end_row)
                    .count();
                assert_eq!(hits, 1);
            }
        }
    }
}
