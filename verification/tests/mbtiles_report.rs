use vt_optimizer::mbtiles::{
    inspect_mbtiles, try_inspect_mbtiles, MbtilesReport, MbtilesStats, MbtilesZoomStats,
    TileEntry, TileScan, PROGRESS_INTERVAL,
};

fn tile(zoom: u8, length: u64) -> TileEntry {
    TileEntry { zoom, length }
}

fn stats(tile_count: u64, total_bytes: u64, max_bytes: u64) -> MbtilesStats {
    MbtilesStats { tile_count, total_bytes, max_bytes }
}

fn entry(zoom: u8, tile_count: u64, total_bytes: u64, max_bytes: u64) -> MbtilesZoomStats {
    MbtilesZoomStats { zoom, stats: stats(tile_count, total_bytes, max_bytes) }
}

#[test]
fn empty_listing_gives_zero_report() {
    let report = inspect_mbtiles(&[]);
    assert_eq!(report, MbtilesReport { overall: stats(0, 0, 0), by_zoom: vec![] });
}

#[test]
fn single_tile_is_its_own_run() {
    let report = inspect_mbtiles(&[tile(7, 42)]);
    assert_eq!(report.overall, stats(1, 42, 42));
    assert_eq!(report.by_zoom, vec![entry(7, 1, 42, 42)]);
}

#[test]
fn tile_of_length_zero_is_counted() {
    let report = inspect_mbtiles(&[tile(3, 0), tile(3, 0)]);
    assert_eq!(report.overall, stats(2, 0, 0));
    assert_eq!(report.by_zoom, vec![entry(3, 2, 0, 0)]);
}

#[test]
fn sorted_listing_is_bucketed_by_zoom() {
    let rows = [
        tile(0, 100),
        tile(1, 10),
        tile(1, 30),
        tile(1, 20),
        tile(4, 5),
        tile(4, 7),
    ];
    let report = inspect_mbtiles(&rows);
    assert_eq!(report.overall, stats(6, 172, 100));
    assert_eq!(
        report.by_zoom,
        vec![entry(0, 1, 100, 100), entry(1, 3, 60, 30), entry(4, 2, 12, 7)]
    );
}

#[test]
fn zoom_gaps_are_not_filled() {
    let report = inspect_mbtiles(&[tile(2, 1), tile(9, 1)]);
    let zooms: Vec<u8> = report.by_zoom.iter().map(|e| e.zoom).collect();
    assert_eq!(zooms, vec![2, 9]);
}

#[test]
fn zoom_that_comes_back_gets_a_second_entry() {
    let rows = [tile(5, 10), tile(6, 20), tile(5, 30), tile(5, 1)];
    let report = inspect_mbtiles(&rows);
    assert_eq!(report.overall, stats(4, 61, 30));
    assert_eq!(
        report.by_zoom,
        vec![entry(5, 1, 10, 10), entry(6, 1, 20, 20), entry(5, 2, 31, 30)]
    );
}

#[test]
fn per_zoom_entries_add_up_to_overall() {
    let rows = [
        tile(3, 11),
        tile(1, 500),
        tile(1, 2),
        tile(3, 0),
        tile(3, 9),
        tile(200, 77),
        tile(0, 1),
    ];
    let report = inspect_mbtiles(&rows);
    let count: u64 = report.by_zoom.iter().map(|e| e.stats.tile_count).sum();
    let bytes: u64 = report.by_zoom.iter().map(|e| e.stats.total_bytes).sum();
    assert_eq!(count, report.overall.tile_count);
    assert_eq!(bytes, report.overall.total_bytes);
    assert_eq!(report.overall, stats(7, 600, 500));
}

#[test]
fn sorted_listing_has_one_entry_per_zoom_ascending() {
    let mut rows = Vec::new();
    for zoom in [0u8, 0, 2, 2, 2, 3, 10, 10, 255] {
        rows.push(tile(zoom, zoom as u64 + 1));
    }
    let report = inspect_mbtiles(&rows);
    let zooms: Vec<u8> = report.by_zoom.iter().map(|e| e.zoom).collect();
    assert_eq!(zooms, vec![0, 2, 3, 10, 255]);
    for pair in zooms.windows(2) {
        assert!(pair[0] < pair[1]);
    }
}

#[test]
fn max_bytes_is_the_largest_of_the_run() {
    let report = inspect_mbtiles(&[tile(1, 5), tile(1, 9), tile(1, 7), tile(2, 3)]);
    assert_eq!(report.by_zoom[0].stats.max_bytes, 9);
    assert_eq!(report.by_zoom[1].stats.max_bytes, 3);
    assert_eq!(report.overall.max_bytes, 9);
}

#[test]
fn scan_row_by_row_agrees_with_whole_listing() {
    let rows = [tile(1, 4), tile(1, 6), tile(2, 8), tile(1, 1)];
    let mut scan = TileScan::new();
    for row in rows {
        assert!(scan.accepts(row));
        scan = scan.observe(row);
    }
    assert_eq!(scan.tile_count(), 4);
    assert_eq!(scan.finish(), inspect_mbtiles(&rows));
}

#[test]
fn scan_without_rows_finishes_empty() {
    let scan = TileScan::new();
    assert_eq!(scan.tile_count(), 0);
    assert!(!scan.progress_due());
    assert_eq!(scan.finish(), MbtilesReport { overall: stats(0, 0, 0), by_zoom: vec![] });
}

#[test]
fn scan_refuses_a_row_that_would_overflow_the_sum() {
    let scan = TileScan::new().observe(tile(0, u64::MAX - 1));
    assert!(scan.accepts(tile(0, 1)));
    assert!(!scan.accepts(tile(0, 2)));
    let full = scan.observe(tile(0, 1));
    assert!(full.accepts(tile(0, 0)));
    assert!(!full.accepts(tile(1, 1)));
    assert_eq!(full.finish().overall, stats(2, u64::MAX, u64::MAX - 1));
}

#[test]
fn progress_is_due_at_each_interval() {
    assert_eq!(PROGRESS_INTERVAL, 1000);
    let mut scan = TileScan::new();
    let mut due_at = Vec::new();
    for i in 0..2500u64 {
        scan = scan.observe(tile(1, i));
        if scan.progress_due() {
            due_at.push(scan.tile_count());
        }
    }
    assert_eq!(due_at, vec![1000, 2000]);
}

#[test]
fn checked_report_agrees_where_the_sum_fits() {
    let rows = [tile(1, 4), tile(1, 6), tile(2, 8), tile(1, 1)];
    assert_eq!(try_inspect_mbtiles(&rows), Some(inspect_mbtiles(&rows)));
    assert_eq!(
        try_inspect_mbtiles(&[]),
        Some(MbtilesReport { overall: stats(0, 0, 0), by_zoom: vec![] })
    );
    let full = [tile(0, u64::MAX - 5), tile(9, 5)];
    assert_eq!(
        try_inspect_mbtiles(&full),
        Some(MbtilesReport {
            overall: stats(2, u64::MAX, u64::MAX - 5),
            by_zoom: vec![entry(0, 1, u64::MAX - 5, u64::MAX - 5), entry(9, 1, 5, 5)],
        })
    );
}

#[test]
fn checked_report_is_none_where_the_sum_overflows() {
    assert_eq!(try_inspect_mbtiles(&[tile(0, u64::MAX), tile(0, 1)]), None);
    assert_eq!(try_inspect_mbtiles(&[tile(0, 1), tile(3, u64::MAX), tile(4, 0)]), None);
    let halves = [tile(1, 1 << 63), tile(2, 1 << 63)];
    assert_eq!(try_inspect_mbtiles(&halves), None);
}
