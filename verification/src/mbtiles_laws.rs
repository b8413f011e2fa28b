//! What holds of every report: the runs partition the listing, the per-zoom
//! entries add up to the overall figures, and a listing in zoom order gets one
//! entry for each zoom.

use crate::mbtiles::{
    continues_run, lemma_last_run, lemma_stats_push, lemma_stats_single, max_bytes,
    sum_tile_counts, sum_total_bytes, total_bytes, zoom_runs, MbtilesReport, MbtilesZoomStats,
    TileEntry,
};
use vstd::prelude::*;

verus! {

/// Every row's zoom is at most that of each later row.
pub open spec fn sorted_by_zoom(rows: Seq<TileEntry>) -> bool {
    forall|i: int, j: int| 0 <= i <= j < rows.len() ==> rows[i].zoom <= rows[j].zoom
}

/// Some row has this zoom.
pub open spec fn has_zoom(rows: Seq<TileEntry>, zoom: u8) -> bool {
    exists|i: int| 0 <= i < rows.len() && (#[trigger] rows[i]).zoom == zoom
}

/// Some entry is for this zoom.
pub open spec fn lists_zoom(entries: Seq<MbtilesZoomStats>, zoom: u8) -> bool {
    exists|k: int| 0 <= k < entries.len() && (#[trigger] entries[k]).zoom == zoom
}

/// The runs, put end to end, are the listing: no row is lost, added or moved.
pub proof fn lemma_runs_cover(rows: Seq<TileEntry>)
    ensures
        zoom_runs(rows).flatten() == rows,
    decreases rows.len(),
{
    if rows.len() > 0 {
        let head = rows.drop_last();
        let tile = rows.last();
        let before = zoom_runs(head);
        lemma_runs_cover(head);
        assert(head.push(tile) =~= rows);
        if continues_run(rows) {
            lemma_last_run(head);
            assert(before.drop_last().push(before.last()) =~= before);
            before.drop_last().lemma_flatten_push(before.last());
            before.drop_last().lemma_flatten_push(before.last().push(tile));
            assert(before.drop_last().flatten() + before.last().push(tile) =~= (
            before.drop_last().flatten() + before.last()).push(tile));
        } else {
            before.lemma_flatten_push(seq![tile]);
            assert(before.flatten() + seq![tile] =~= head.push(tile));
        }
    }
}

/// The runs are runs, and as long as can be: none is empty, the rows of one
/// run share a zoom, and a run's zoom differs from that of the run before it.
pub proof fn lemma_runs_are_maximal(rows: Seq<TileEntry>)
    ensures
        forall|k: int| 0 <= k < zoom_runs(rows).len() ==> (#[trigger] zoom_runs(rows)[k]).len() > 0,
        forall|k: int, i: int|
            0 <= k < zoom_runs(rows).len() && 0 <= i < zoom_runs(rows)[k].len() ==> (
            #[trigger] zoom_runs(rows)[k][i]).zoom == zoom_runs(rows)[k][0].zoom,
        forall|k: int|
            0 < k < zoom_runs(rows).len() ==> (#[trigger] zoom_runs(rows)[k])[0].zoom != zoom_runs(
                rows,
            )[k - 1].last().zoom,
    decreases rows.len(),
{
    if rows.len() > 0 {
        let head = rows.drop_last();
        lemma_runs_are_maximal(head);
        if head.len() > 0 {
            lemma_last_run(head);
        }
    }
}

/// The number of rows in all runs together.
pub open spec fn runs_tile_count(runs: Seq<Seq<TileEntry>>) -> nat
    decreases runs.len(),
{
    if runs.len() == 0 {
        0
    } else {
        runs_tile_count(runs.drop_last()) + runs.last().len()
    }
}

/// The summed size of the rows in all runs together.
pub open spec fn runs_total_bytes(runs: Seq<Seq<TileEntry>>) -> nat
    decreases runs.len(),
{
    if runs.len() == 0 {
        0
    } else {
        runs_total_bytes(runs.drop_last()) + total_bytes(runs.last())
    }
}

proof fn lemma_runs_sums_push(runs: Seq<Seq<TileEntry>>, run: Seq<TileEntry>)
    ensures
        runs_tile_count(runs.push(run)) == runs_tile_count(runs) + run.len(),
        runs_total_bytes(runs.push(run)) == runs_total_bytes(runs) + total_bytes(run),
{
    assert(runs.push(run).drop_last() =~= runs);
}

/// The runs hold as many rows as the listing, and as many bytes.
pub proof fn lemma_runs_add_up(rows: Seq<TileEntry>)
    ensures
        runs_tile_count(zoom_runs(rows)) == rows.len(),
        runs_total_bytes(zoom_runs(rows)) == total_bytes(rows),
    decreases rows.len(),
{
    if rows.len() > 0 {
        let head = rows.drop_last();
        let tile = rows.last();
        let before = zoom_runs(head);
        lemma_runs_add_up(head);
        if continues_run(rows) {
            lemma_last_run(head);
            assert(before.drop_last().push(before.last()) =~= before);
            lemma_runs_sums_push(before.drop_last(), before.last());
            lemma_runs_sums_push(before.drop_last(), before.last().push(tile));
            lemma_stats_push(before.last(), tile);
        } else {
            lemma_runs_sums_push(before, seq![tile]);
            lemma_stats_single(tile);
        }
    }
}

proof fn lemma_entries_sum_as_runs(entries: Seq<MbtilesZoomStats>, runs: Seq<Seq<TileEntry>>)
    requires
        entries.len() == runs.len(),
        forall|k: int| 0 <= k < entries.len() ==> (#[trigger] entries[k]).summarizes_run(runs[k]),
    ensures
        sum_tile_counts(entries) == runs_tile_count(runs),
        sum_total_bytes(entries) == runs_total_bytes(runs),
    decreases entries.len(),
{
    if entries.len() > 0 {
        assert(entries.last().summarizes_run(runs.last()));
        assert forall|k: int| 0 <= k < entries.drop_last().len() implies (
        #[trigger] entries.drop_last()[k]).summarizes_run(runs.drop_last()[k]) by {
            assert(entries[k].summarizes_run(runs[k]));
        }
        lemma_entries_sum_as_runs(entries.drop_last(), runs.drop_last());
    }
}

/// In the report of any listing, sorted or not, the tile counts of the
/// per-zoom entries add up to the overall tile count, and their summed sizes
/// to the overall summed size.
pub proof fn lemma_report_totals_agree(report: MbtilesReport, rows: Seq<TileEntry>)
    requires
        report.describes(rows),
    ensures
        report.overall.tile_count == sum_tile_counts(report.by_zoom@),
        report.overall.total_bytes == sum_total_bytes(report.by_zoom@),
{
    lemma_runs_add_up(rows);
    lemma_entries_sum_as_runs(report.by_zoom@, zoom_runs(rows));
}

proof fn lemma_sorted_runs(rows: Seq<TileEntry>)
    requires
        sorted_by_zoom(rows),
    ensures
        forall|a: int, b: int|
            0 <= a < b < zoom_runs(rows).len() ==> (#[trigger] zoom_runs(rows)[a])[0].zoom < (
            #[trigger] zoom_runs(rows)[b])[0].zoom,
        forall|k: int|
            0 <= k < zoom_runs(rows).len() ==> has_zoom(rows, (#[trigger] zoom_runs(rows)[k])[0].zoom),
        forall|i: int|
            0 <= i < rows.len() ==> exists|k: int|
                0 <= k < zoom_runs(rows).len() && (#[trigger] zoom_runs(rows)[k])[0].zoom == (
                #[trigger] rows[i]).zoom,
    decreases rows.len(),
{
    if rows.len() > 0 {
        let head = rows.drop_last();
        let tile = rows.last();
        let before = zoom_runs(head);
        let runs = zoom_runs(rows);
        assert(sorted_by_zoom(head)) by {
            assert forall|i: int, j: int| 0 <= i <= j < head.len() implies head[i].zoom
                <= head[j].zoom by {
                assert(rows[i].zoom <= rows[j].zoom);
            }
        }
        lemma_sorted_runs(head);
        lemma_runs_are_maximal(head);
        if head.len() > 0 {
            lemma_last_run(head);
            assert(head.last() == rows[rows.len() - 2]);
            assert(rows[rows.len() - 2].zoom <= rows[rows.len() - 1].zoom);
        }
        lemma_last_run(rows);
        assert forall|k: int| 0 <= k < runs.len() implies has_zoom(rows, (#[trigger] runs[k])[0].zoom) by {
            if k < before.len() && runs[k][0] == before[k][0] {
                assert(has_zoom(head, before[k][0].zoom));
                let i = choose|i: int| 0 <= i < head.len() && (#[trigger] head[i]).zoom == before[k][0].zoom;
                assert(rows[i] == head[i]);
            } else {
                assert(runs[k][0].zoom == tile.zoom);
                assert(rows[rows.len() - 1] == tile);
            }
        }
        assert forall|i: int| 0 <= i < rows.len() implies exists|k: int|
            0 <= k < runs.len() && (#[trigger] runs[k])[0].zoom == (#[trigger] rows[i]).zoom by {
            if i < head.len() {
                assert(rows[i] == head[i]);
                let k = choose|k: int|
                    0 <= k < before.len() && (#[trigger] before[k])[0].zoom == head[i].zoom;
                assert(runs[k][0].zoom == before[k][0].zoom);
            } else {
                let k = runs.len() - 1;
                assert(runs[k][0].zoom == rows[i].zoom) by {
                    lemma_runs_are_maximal(rows);
                    assert(runs[k][runs[k].len() - 1].zoom == runs[k][0].zoom);
                }
            }
        }
        assert forall|a: int, b: int| 0 <= a < b < runs.len() implies (#[trigger] runs[a])[0].zoom < (
        #[trigger] runs[b])[0].zoom by {
            if continues_run(rows) {
                assert(runs[a][0] == before[a][0]);
                assert(runs[b][0] == before[b][0]);
            } else {
                if b < before.len() {
                } else {
                    assert(runs[b][0] == tile);
                    assert(runs[a] == before[a]);
                    assert(head.len() > 0);
                    let last = before.len() - 1;
                    assert(before[last][before[last].len() - 1].zoom == before[last][0].zoom);
                    assert(before[last][0].zoom == head.last().zoom);
                    assert(head.last().zoom < tile.zoom);
                    if a < last {
                        assert(before[a][0].zoom < before[last][0].zoom);
                    }
                }
            }
        }
    }
}

/// In the report of a listing whose rows come in ascending zoom order, the
/// entries come in strictly ascending zoom order, so no zoom has two entries,
/// and a zoom has an entry exactly if some row has it.
pub proof fn lemma_sorted_report_has_one_entry_per_zoom(report: MbtilesReport, rows: Seq<TileEntry>)
    requires
        report.describes(rows),
        sorted_by_zoom(rows),
    ensures
        forall|a: int, b: int|
            0 <= a < b < report.by_zoom@.len() ==> (#[trigger] report.by_zoom@[a]).zoom < (
            #[trigger] report.by_zoom@[b]).zoom,
        forall|zoom: u8| has_zoom(rows, zoom) <==> lists_zoom(report.by_zoom@, zoom),
{
    let entries = report.by_zoom@;
    let runs = zoom_runs(rows);
    lemma_sorted_runs(rows);
    assert forall|a: int, b: int| 0 <= a < b < entries.len() implies (#[trigger] entries[a]).zoom < (
    #[trigger] entries[b]).zoom by {
        assert(entries[a].summarizes_run(runs[a]));
        assert(entries[b].summarizes_run(runs[b]));
    }
    assert forall|zoom: u8| has_zoom(rows, zoom) <==> lists_zoom(entries, zoom) by {
        if has_zoom(rows, zoom) {
            let i = choose|i: int| 0 <= i < rows.len() && (#[trigger] rows[i]).zoom == zoom;
            let k = choose|k: int|
                0 <= k < runs.len() && (#[trigger] runs[k])[0].zoom == (#[trigger] rows[i]).zoom;
            assert(entries[k].summarizes_run(runs[k]));
        }
        if lists_zoom(entries, zoom) {
            let k = choose|k: int| 0 <= k < entries.len() && (#[trigger] entries[k]).zoom == zoom;
            assert(entries[k].summarizes_run(runs[k]));
            assert(has_zoom(rows, runs[k][0].zoom));
        }
    }
}

/// The largest size bounds every row from above, and some row has it.
pub proof fn lemma_max_bytes_is_largest(rows: Seq<TileEntry>)
    ensures
        forall|i: int| 0 <= i < rows.len() ==> (#[trigger] rows[i]).length <= max_bytes(rows),
        rows.len() > 0 ==> exists|i: int|
            0 <= i < rows.len() && (#[trigger] rows[i]).length == max_bytes(rows),
    decreases rows.len(),
{
    if rows.len() > 0 {
        let head = rows.drop_last();
        lemma_max_bytes_is_largest(head);
        assert forall|i: int| 0 <= i < rows.len() implies (#[trigger] rows[i]).length <= max_bytes(
            rows,
        ) by {
            if i < head.len() {
                assert(head[i] == rows[i]);
            }
        }
        if rows.last().length as nat > max_bytes(head) || head.len() == 0 {
            assert(rows[rows.len() - 1].length == max_bytes(rows));
        } else {
            let i = choose|i: int| 0 <= i < head.len() && (#[trigger] head[i]).length == max_bytes(head);
            assert(rows[i] == head[i]);
        }
    }
}

} // verus!
