//! Size statistics of a tile listing: overall, and per run of equal zoom.

use crate::mbtiles_laws::lemma_report_totals_agree;
use vstd::prelude::*;

verus! {

/// A scan reports its position after every this many rows.
pub const PROGRESS_INTERVAL: u64 = 1000;

/// What a scan reads of one stored tile: its zoom level and the byte length
/// of its data.
#[derive(Debug, Clone, Copy, PartialEq, Eq, Structural)]
pub struct TileEntry {
    pub zoom: u8,
    pub length: u64,
}

/// Count, summed size and largest size of a set of tiles.
#[derive(Debug, Clone, Copy, PartialEq, Eq, Structural)]
pub struct MbtilesStats {
    pub tile_count: u64,
    pub total_bytes: u64,
    pub max_bytes: u64,
}

/// The statistics of one run of tiles that share a zoom level.
#[derive(Debug, Clone, Copy, PartialEq, Eq, Structural)]
pub struct MbtilesZoomStats {
    pub zoom: u8,
    pub stats: MbtilesStats,
}

/// The result of a scan: statistics of all tiles, and of each run of equal
/// zoom in the order in which the runs were met.
#[derive(Debug, Clone, PartialEq, Eq)]
pub struct MbtilesReport {
    pub overall: MbtilesStats,
    pub by_zoom: Vec<MbtilesZoomStats>,
}

/// Sum of the byte lengths of `rows`.
pub open spec fn total_bytes(rows: Seq<TileEntry>) -> nat
    decreases rows.len(),
{
    if rows.len() == 0 {
        0
    } else {
        total_bytes(rows.drop_last()) + rows.last().length as nat
    }
}

/// Largest byte length among `rows`; 0 where there is none.
pub open spec fn max_bytes(rows: Seq<TileEntry>) -> nat
    decreases rows.len(),
{
    if rows.len() == 0 {
        0
    } else if rows.last().length as nat > max_bytes(rows.drop_last()) {
        rows.last().length as nat
    } else {
        max_bytes(rows.drop_last())
    }
}

/// The last row has the zoom of the row before it.
pub open spec fn continues_run(rows: Seq<TileEntry>) -> bool {
    rows.len() >= 2 && rows[rows.len() - 2].zoom == rows.last().zoom
}

/// `rows` cut into its maximal runs of equal zoom, in order. A zoom that
/// comes back after another zoom starts a run of its own.
pub open spec fn zoom_runs(rows: Seq<TileEntry>) -> Seq<Seq<TileEntry>>
    decreases rows.len(),
{
    if rows.len() == 0 {
        Seq::empty()
    } else {
        let before = zoom_runs(rows.drop_last());
        if continues_run(rows) {
            before.drop_last().push(before.last().push(rows.last()))
        } else {
            before.push(seq![rows.last()])
        }
    }
}

impl MbtilesStats {
    /// These are the statistics of exactly the tiles `rows`.
    pub open spec fn summarizes(self, rows: Seq<TileEntry>) -> bool {
        &&& self.tile_count == rows.len()
        &&& self.total_bytes == total_bytes(rows)
        &&& self.max_bytes == max_bytes(rows)
    }
}

impl MbtilesZoomStats {
    /// This entry stands for the run `run`: it has the run's zoom and the
    /// statistics of the run's tiles.
    pub open spec fn summarizes_run(self, run: Seq<TileEntry>) -> bool {
        &&& run.len() > 0
        &&& self.zoom == run[0].zoom
        &&& self.stats.summarizes(run)
    }
}

impl MbtilesReport {
    /// This is the report of the listing `rows`: `overall` covers every row,
    /// and `by_zoom` has one entry for each run of `zoom_runs(rows)`, in order.
    pub open spec fn describes(self, rows: Seq<TileEntry>) -> bool {
        &&& self.overall.summarizes(rows)
        &&& self.by_zoom@.len() == zoom_runs(rows).len()
        &&& forall|k: int|
            0 <= k < self.by_zoom@.len() ==> (#[trigger] self.by_zoom@[k]).summarizes_run(
                zoom_runs(rows)[k],
            )
    }
}

/// Sum of the tile counts of the entries.
pub open spec fn sum_tile_counts(entries: Seq<MbtilesZoomStats>) -> nat
    decreases entries.len(),
{
    if entries.len() == 0 {
        0
    } else {
        sum_tile_counts(entries.drop_last()) + entries.last().stats.tile_count as nat
    }
}

/// Sum of the summed sizes of the entries.
pub open spec fn sum_total_bytes(entries: Seq<MbtilesZoomStats>) -> nat
    decreases entries.len(),
{
    if entries.len() == 0 {
        0
    } else {
        sum_total_bytes(entries.drop_last()) + entries.last().stats.total_bytes as nat
    }
}

/// Appending one row adds its length to the sum and raises the maximum to it
/// where it is larger.
pub proof fn lemma_stats_push(rows: Seq<TileEntry>, tile: TileEntry)
    ensures
        total_bytes(rows.push(tile)) == total_bytes(rows) + tile.length,
        max_bytes(rows.push(tile)) == if tile.length > max_bytes(rows) {
            tile.length as nat
        } else {
            max_bytes(rows)
        },
{
    assert(rows.push(tile).drop_last() =~= rows);
}

/// The statistics of a single row.
pub proof fn lemma_stats_single(tile: TileEntry)
    ensures
        total_bytes(seq![tile]) == tile.length,
        max_bytes(seq![tile]) == tile.length,
{
    assert(seq![tile] =~= Seq::<TileEntry>::empty().push(tile));
    lemma_stats_push(Seq::empty(), tile);
}

/// A prefix of a listing sums to no more than the listing.
pub proof fn lemma_total_bytes_prefix(rows: Seq<TileEntry>, n: int)
    requires
        0 <= n <= rows.len(),
    ensures
        total_bytes(rows.take(n)) <= total_bytes(rows),
    decreases rows.len(),
{
    if n == rows.len() {
        assert(rows.take(n) =~= rows);
    } else {
        assert(rows.drop_last().take(n) =~= rows.take(n));
        lemma_total_bytes_prefix(rows.drop_last(), n);
    }
}

/// What a new row does to the runs: it joins the last run where it has the
/// zoom of the row before it, and starts a run otherwise.
pub proof fn lemma_zoom_runs_push(rows: Seq<TileEntry>, tile: TileEntry)
    ensures
        rows.len() > 0 && rows.last().zoom == tile.zoom ==> zoom_runs(rows.push(tile))
            == zoom_runs(rows).drop_last().push(zoom_runs(rows).last().push(tile)),
        !(rows.len() > 0 && rows.last().zoom == tile.zoom) ==> zoom_runs(rows.push(tile))
            == zoom_runs(rows).push(seq![tile]),
{
    let next = rows.push(tile);
    assert(next.drop_last() =~= rows);
    if rows.len() > 0 {
        assert(next[next.len() - 2] == rows.last());
    }
}

/// A listing that is not empty has a last run; that run is not empty, ends
/// with the listing's last row, and all its rows have that row's zoom.
pub proof fn lemma_last_run(rows: Seq<TileEntry>)
    requires
        rows.len() > 0,
    ensures
        zoom_runs(rows).len() > 0,
        zoom_runs(rows).last().len() > 0,
        zoom_runs(rows).last().last() == rows.last(),
        forall|i: int|
            0 <= i < zoom_runs(rows).last().len() ==> (#[trigger] zoom_runs(rows).last()[i]).zoom
                == rows.last().zoom,
    decreases rows.len(),
{
    if continues_run(rows) {
        lemma_last_run(rows.drop_last());
    }
}

/// A scan in progress. It is either before its first row or inside a run:
/// the runs that have ended are kept, the run that the last row belongs to is
/// still open.
pub struct TileScan {
    overall: MbtilesStats,
    closed_runs: Vec<MbtilesZoomStats>,
    open_run: Option<MbtilesZoomStats>,
    seen: Ghost<Seq<TileEntry>>,
}

impl TileScan {
    #[verifier::type_invariant]
    spec fn consistent(self) -> bool {
        &&& self.overall.summarizes(self.seen@)
        &&& match self.open_run {
            None => self.seen@.len() == 0 && self.closed_runs@.len() == 0,
            Some(run) => {
                &&& self.seen@.len() > 0
                &&& self.closed_runs@.len() + 1 == zoom_runs(self.seen@).len()
                &&& run.summarizes_run(zoom_runs(self.seen@).last())
                &&& run.stats.tile_count <= self.overall.tile_count
                &&& run.stats.total_bytes <= self.overall.total_bytes
                &&& forall|k: int|
                    0 <= k < self.closed_runs@.len() ==> (
                    #[trigger] self.closed_runs@[k]).summarizes_run(zoom_runs(self.seen@)[k])
            },
        }
    }

    /// The rows observed so far, in order.
    pub closed spec fn view(&self) -> Seq<TileEntry> {
        self.seen@
    }

    /// One more row of this length can be counted without leaving `u64`.
    pub open spec fn has_room(&self, tile: TileEntry) -> bool {
        self@.len() < u64::MAX && total_bytes(self@) + tile.length <= u64::MAX
    }

    /// A scan that has seen no row.
    pub fn new() -> (scan: TileScan)
        ensures
            scan@ == Seq::<TileEntry>::empty(),
    {
        TileScan {
            overall: MbtilesStats { tile_count: 0, total_bytes: 0, max_bytes: 0 },
            closed_runs: Vec::new(),
            open_run: None,
            seen: Ghost(Seq::empty()),
        }
    }

    /// Number of rows observed so far.
    pub fn tile_count(&self) -> (count: u64)
        ensures
            count == self@.len(),
    {
        proof {
            use_type_invariant(self);
        }
        self.overall.tile_count
    }

    /// Whether the scan has just reached a row count at which its position
    /// is to be reported: a positive multiple of `PROGRESS_INTERVAL`.
    pub fn progress_due(&self) -> (due: bool)
        ensures
            due == (self@.len() > 0 && self@.len() % (PROGRESS_INTERVAL as nat) == 0),
    {
        proof {
            use_type_invariant(self);
        }
        self.overall.tile_count > 0 && self.overall.tile_count % PROGRESS_INTERVAL == 0
    }

    /// Whether `observe` may be called with `tile`.
    pub fn accepts(&self, tile: TileEntry) -> (fits: bool)
        ensures
            fits == self.has_room(tile),
    {
        proof {
            use_type_invariant(self);
        }
        self.overall.tile_count < u64::MAX && tile.length <= u64::MAX - self.overall.total_bytes
    }

    /// Counts one more row. The row is added to the overall statistics; it
    /// joins the open run where it has that run's zoom, and otherwise closes
    /// that run and opens its own.
    pub fn observe(self, tile: TileEntry) -> (scan: TileScan)
        requires
            self.has_room(tile),
        ensures
            scan@ == self@.push(tile),
    {
        proof {
            use_type_invariant(&self);
        }
        let ghost before = self.seen@;
        let ghost after = before.push(tile);
        let TileScan { overall, closed_runs, open_run, seen } = self;
        let mut closed_runs = closed_runs;
        proof {
            lemma_stats_push(before, tile);
            lemma_zoom_runs_push(before, tile);
            if before.len() > 0 {
                lemma_last_run(before);
            }
        }
        let overall = MbtilesStats {
            tile_count: overall.tile_count + 1,
            total_bytes: overall.total_bytes + tile.length,
            max_bytes: if tile.length > overall.max_bytes {
                tile.length
            } else {
                overall.max_bytes
            },
        };
        let open_run = match open_run {
            Some(run) if run.zoom == tile.zoom => {
                proof {
                    lemma_stats_push(zoom_runs(before).last(), tile);
                }
                MbtilesZoomStats {
                    zoom: run.zoom,
                    stats: MbtilesStats {
                        tile_count: run.stats.tile_count + 1,
                        total_bytes: run.stats.total_bytes + tile.length,
                        max_bytes: if tile.length > run.stats.max_bytes {
                            tile.length
                        } else {
                            run.stats.max_bytes
                        },
                    },
                }
            },
            Some(run) => {
                closed_runs.push(run);
                proof {
                    lemma_stats_single(tile);
                }
                MbtilesZoomStats {
                    zoom: tile.zoom,
                    stats: MbtilesStats {
                        tile_count: 1,
                        total_bytes: tile.length,
                        max_bytes: tile.length,
                    },
                }
            },
            None => {
                proof {
                    lemma_stats_single(tile);
                }
                MbtilesZoomStats {
                    zoom: tile.zoom,
                    stats: MbtilesStats {
                        tile_count: 1,
                        total_bytes: tile.length,
                        max_bytes: tile.length,
                    },
                }
            },
        };
        TileScan { overall, closed_runs, open_run: Some(open_run), seen: Ghost(after) }
    }

    /// Ends the scan: the open run, if there is one, is closed, and the
    /// report of all rows observed is returned.
    pub fn finish(self) -> (report: MbtilesReport)
        ensures
            report.describes(self@),
            report.overall.tile_count == sum_tile_counts(report.by_zoom@),
            report.overall.total_bytes == sum_total_bytes(report.by_zoom@),
    {
        proof {
            use_type_invariant(&self);
        }
        let TileScan { overall, closed_runs, open_run, seen } = self;
        let mut by_zoom = closed_runs;
        match open_run {
            Some(run) => {
                by_zoom.push(run);
            },
            None => {},
        }
        let report = MbtilesReport { overall, by_zoom };
        proof {
            lemma_report_totals_agree(report, seen@);
        }
        report
    }
}

/// The report of a whole listing, rows taken in the order given. The sizes
/// must add up to no more than `u64` holds.
pub fn inspect_mbtiles(rows: &[TileEntry]) -> (report: MbtilesReport)
    requires
        total_bytes(rows@) <= u64::MAX,
    ensures
        report.describes(rows@),
        report.overall.tile_count == sum_tile_counts(report.by_zoom@),
        report.overall.total_bytes == sum_total_bytes(report.by_zoom@),
{
    let mut scan = TileScan::new();
    let mut i: usize = 0;
    while i < rows.len()
        invariant
            i <= rows.len(),
            scan@ == rows@.take(i as int),
            total_bytes(rows@) <= u64::MAX,
        decreases rows.len() - i,
    {
        proof {
            lemma_total_bytes_prefix(rows@, i + 1);
            assert(rows@.take(i + 1) =~= rows@.take(i as int).push(rows@[i as int]));
            lemma_stats_push(rows@.take(i as int), rows@[i as int]);
        }
        scan = scan.observe(rows[i]);
        i += 1;
    }
    assert(rows@.take(i as int) =~= rows@);
    scan.finish()
}

/// The report of a whole listing, or `None` where the sizes add up to more
/// than `u64` holds.
pub fn try_inspect_mbtiles(rows: &[TileEntry]) -> (outcome: Option<MbtilesReport>)
    ensures
        outcome is Some <==> total_bytes(rows@) <= u64::MAX,
        outcome matches Some(report) ==> report.describes(rows@),
        outcome matches Some(report) ==> report.overall.tile_count == sum_tile_counts(
            report.by_zoom@,
        ) && report.overall.total_bytes == sum_total_bytes(report.by_zoom@),
{
    let mut scan = TileScan::new();
    let mut i: usize = 0;
    while i < rows.len()
        invariant
            i <= rows.len(),
            scan@ == rows@.take(i as int),
            total_bytes(rows@.take(i as int)) <= u64::MAX,
        decreases rows.len() - i,
    {
        proof {
            lemma_total_bytes_prefix(rows@, i + 1);
            assert(rows@.take(i + 1) =~= rows@.take(i as int).push(rows@[i as int]));
            lemma_stats_push(rows@.take(i as int), rows@[i as int]);
        }
        if !scan.accepts(rows[i]) {
            return None;
        }
        scan = scan.observe(rows[i]);
        i += 1;
    }
    assert(rows@.take(i as int) =~= rows@);
    Some(scan.finish())
}

} // verus!
