//! The scan coordinator: bounded-concurrency orchestration of the
//! per-file pipeline over a directory tree.
//!
//! The coordinator owns the structural-operation lock while it runs. It
//! dispatches one unit of work per audio file into a pool bounded by a
//! configured concurrency limit, drains completed units once a dispatch
//! window fills, and stops launching new units after a fixed number of
//! counted failures — already-dispatched units still drain, and the
//! orphan sweep and the finalization run regardless. The progress
//! counter advances on success only and is persisted sparsely, with one
//! unconditional final reconciliation against the authoritative row
//! count.

use vstd::prelude::*;

verus! {

use crate::catalog::{
    Catalog, CatalogV, TrackInput, TrackInputV, LyricsSource, upsert_artist_v, upsert_album_v,
    upsert_track_v, sweep_tracks_v, paths_of, osv, artist_index_of, album_index_of,
    track_index_of, lemma_artist_index, lemma_album_index, lemma_track_index, new_artist_v,
    new_album_v, new_track_v, overwrite_track_v, lemma_artist_index_after_push,
    lemma_album_index_after_push, lemma_track_index_after_push, lemma_album_index_after_update,
    lemma_track_index_after_update, lemma_artist_index_push_stable, lemma_album_index_push_stable,
    lemma_track_index_push_stable,
};
use crate::error::AppError;
use crate::lock::StructuralLock;
use crate::status::ScanStatus;

/// The coordinator stops launching new units after this many counted
/// failures.
pub const MAX_FAILURES: u32 = 10;

/// At most this many dispatched units sit undrained at once.
pub const DISPATCH_WINDOW: usize = 10;

/// The worker-pool bound used when none is configured.
pub const DEFAULT_CONCURRENCY: usize = 8;

/// The progress counter is persisted at most every this many successes.
pub const PROGRESS_PERSIST_EVERY: u32 = 5;

/// The worker-pool bound actually used: the configured value, or the
/// default where none (or a useless zero) was configured.
pub fn effective_limit(configured: Option<usize>) -> (r: usize)
    ensures
        r == spec_effective_limit(configured),
        r >= 1,
{
    match configured {
        Some(n) if n >= 1 => n,
        _ => DEFAULT_CONCURRENCY,
    }
}

/// What `effective_limit` returns.
pub open spec fn spec_effective_limit(configured: Option<usize>) -> usize {
    match configured {
        Some(n) => if n >= 1 {
            n
        } else {
            DEFAULT_CONCURRENCY
        },
        None => DEFAULT_CONCURRENCY,
    }
}

/// Whether the progress counter is persisted at this value: only every
/// few successes, to spare the store.
pub fn should_persist_progress(counter: u32) -> (r: bool)
    ensures
        r == (counter % PROGRESS_PERSIST_EVERY == 0),
{
    counter % PROGRESS_PERSIST_EVERY == 0
}

// ---------------------------------------------------------------------
// The per-file record and its ingestion
// ---------------------------------------------------------------------

/// Everything one successfully processed file hands to the catalog:
/// the selected tag fields after defaults, the technical properties,
/// and the resolved lyrics.
#[derive(Debug, Clone, PartialEq, Eq)]
pub struct FileRecord {
    pub path: String,
    pub title: String,
    pub artist: String,
    pub album: String,
    pub year: Option<u32>,
    pub duration: u32,
    pub track_number: Option<u32>,
    pub bitrate: Option<u32>,
    pub format: String,
    pub size: u64,
    pub lyrics: Option<String>,
    pub lyrics_source: LyricsSource,
}

/// Mathematical view of a file record.
#[verifier::ext_equal]
pub struct FileRecordV {
    pub path: Seq<char>,
    pub title: Seq<char>,
    pub artist: Seq<char>,
    pub album: Seq<char>,
    pub year: Option<u32>,
    pub duration: u32,
    pub track_number: Option<u32>,
    pub bitrate: Option<u32>,
    pub format: Seq<char>,
    pub size: u64,
    pub lyrics: Option<Seq<char>>,
    pub lyrics_source: LyricsSource,
}

impl View for FileRecord {
    type V = FileRecordV;

    open spec fn view(&self) -> FileRecordV {
        FileRecordV {
            path: self.path@,
            title: self.title@,
            artist: self.artist@,
            album: self.album@,
            year: self.year,
            duration: self.duration,
            track_number: self.track_number,
            bitrate: self.bitrate,
            format: self.format@,
            size: self.size,
            lyrics: osv(self.lyrics),
            lyrics_source: self.lyrics_source,
        }
    }
}

/// The track-upsert input derived from a file record, once the owning
/// artist and album rows are known.
pub open spec fn track_input_of(r: FileRecordV, album_id: u64, artist_id: u64) -> TrackInputV {
    TrackInputV {
        title: r.title,
        album_id,
        artist_id,
        duration: r.duration,
        track_number: r.track_number,
        path: r.path,
        bitrate: r.bitrate,
        format: r.format,
        size: r.size,
        lyrics: r.lyrics,
        lyrics_source: r.lyrics_source,
    }
}

/// One file visit against the catalog: artist and album are created
/// lazily on first reference, then the track row is upserted by path.
pub open spec fn ingest_file_v(c: CatalogV, r: FileRecordV) -> (CatalogV, u64) {
    let (c1, artist_id) = upsert_artist_v(c, r.artist);
    let (c2, album_id) = upsert_album_v(c1, r.album, artist_id, r.year);
    upsert_track_v(c2, track_input_of(r, album_id, artist_id))
}

/// Ingests one successfully processed file: upserts its artist, album
/// and track rows. All-or-nothing per file in the store sense: this
/// runs only for files whose extraction succeeded.
pub fn ingest_file(catalog: &mut Catalog, rec: &FileRecord) -> (id: u64)
    requires
        old(catalog).wf(),
        old(catalog).next_id + 3 < u64::MAX,
    ensures
        final(catalog).wf(),
        final(catalog)@ == ingest_file_v(old(catalog)@, rec@).0,
        id == ingest_file_v(old(catalog)@, rec@).1,
        final(catalog)@.next_id <= old(catalog)@.next_id + 3,
{
    let artist_id = catalog.get_or_create_artist(&rec.artist);
    let album_id = catalog.get_or_create_album(&rec.album, artist_id, rec.year);
    let input = TrackInput {
        title: rec.title.clone(),
        album_id,
        artist_id,
        duration: rec.duration,
        track_number: rec.track_number,
        path: rec.path.clone(),
        bitrate: rec.bitrate,
        format: rec.format.clone(),
        size: rec.size,
        lyrics: crate::catalog::opt_str_copy(&rec.lyrics),
        lyrics_source: rec.lyrics_source,
    };
    proof {
        assert(input@ =~= track_input_of(rec@, album_id, artist_id));
    }
    catalog.upsert_track(input)
}

// ---------------------------------------------------------------------
// The scan run and its bookkeeping
// ---------------------------------------------------------------------

/// How many of the first `k` units failed.
pub open spec fn count_failures(outcomes: Seq<bool>, k: int) -> int
    decreases k,
{
    if k <= 0 {
        0
    } else {
        count_failures(outcomes, k - 1) + (if k <= outcomes.len() && !outcomes[k - 1] {
            1int
        } else {
            0int
        })
    }
}

/// How many of the first `k` units succeeded.
pub open spec fn count_successes(outcomes: Seq<bool>, k: int) -> int
    decreases k,
{
    if k <= 0 {
        0
    } else {
        count_successes(outcomes, k - 1) + (if k <= outcomes.len() && outcomes[k - 1] {
            1int
        } else {
            0int
        })
    }
}

/// How many units have been drained (completed and collected) just
/// before unit `i` is launched, under a drain window of `cap`: the
/// window fills after `cap` launches and then one unit drains per
/// launch.
pub open spec fn drained_before_launch(i: int, cap: int) -> int {
    if i - cap + 1 > 0 {
        i - cap + 1
    } else {
        0
    }
}

/// What a scan run reports.
#[derive(Debug, Clone, PartialEq, Eq, Structural)]
pub struct ScanReport {
    /// Units dispatched before the run ended or the breaker tripped.
    pub launched: usize,
    /// Failures counted toward the circuit breaker.
    pub failures: u32,
    /// The progress counter: successful units, trailing drain included.
    pub successes: u32,
    /// The largest number of units in flight at any instant.
    pub max_in_flight: usize,
    /// Whether the orphan sweep ran.
    pub sweep_ran: bool,
    /// Whether the running flag was cleared and the timestamp recorded.
    pub finalized: bool,
}

/// The records ingested by a scan run, folded in dispatch order: every
/// launched unit whose extraction succeeded reaches the catalog.
pub open spec fn ingest_all_v(c: CatalogV, files: Seq<Option<FileRecordV>>, k: int) -> CatalogV
    decreases k,
{
    if k <= 0 {
        c
    } else {
        let c1 = ingest_all_v(c, files, k - 1);
        if 1 <= k <= files.len() {
            match files[k - 1] {
                Some(r) => ingest_file_v(c1, r).0,
                None => c1,
            }
        } else {
            c1
        }
    }
}

/// The views of the per-file results.
pub open spec fn files_of(v: Seq<Option<FileRecord>>) -> Seq<Option<FileRecordV>> {
    v.map_values(
        |o: Option<FileRecord>|
            match o {
                Some(r) => Some(r@),
                None => None,
            },
    )
}

/// The success/failure outcome of each unit: extraction either produced
/// a record or failed with a metadata-class error.
pub open spec fn outcomes_of(files: Seq<Option<FileRecordV>>) -> Seq<bool> {
    files.map_values(|o: Option<FileRecordV>| o is Some)
}

/// One full scan over the already-enumerated per-file results.
///
/// `files` holds, for each audio file in dispatch order, either the
/// record its pipeline produced or nothing where the pipeline failed.
/// `present` holds the paths that exist on disk at sweep time. The run
/// dispatches units under the concurrency bound, counts failures,
/// stops launching after `MAX_FAILURES` of them, drains what was
/// dispatched, ingests every drained success, then sweeps orphans,
/// reconciles the progress counter against the authoritative row count
/// and finalizes the status row.
pub fn run_scan(
    catalog: &mut Catalog,
    status: &mut ScanStatus,
    files: &Vec<Option<FileRecord>>,
    present: &Vec<String>,
    limit: usize,
    now: u64,
) -> (r: ScanReport)
    requires
        old(catalog).wf(),
        old(catalog).next_id + 3 * files@.len() < u64::MAX,
        1 <= limit,
        files@.len() <= u32::MAX,
        old(catalog)@.tracks.len() + files@.len() < u32::MAX,
    ensures
        final(catalog).wf(),
        // every launched success is ingested, in dispatch order ...
        final(catalog)@.tracks == sweep_tracks_v(
            ingest_all_v(old(catalog)@, files_of(files@), r.launched as int).tracks,
            paths_of(present@),
        ),
        final(catalog)@.artists == ingest_all_v(
            old(catalog)@,
            files_of(files@),
            r.launched as int,
        ).artists,
        final(catalog)@.albums == ingest_all_v(
            old(catalog)@,
            files_of(files@),
            r.launched as int,
        ).albums,
        // ... the pool bound holds throughout ...
        r.max_in_flight <= limit,
        r.max_in_flight <= DISPATCH_WINDOW,
        // ... the breaker gates every launch and is the only early stop ...
        r.launched <= files@.len(),
        forall|i: int|
            0 <= i < r.launched ==> count_failures(
                outcomes_of(files_of(files@)),
                drained_before_launch(i, spec_cap(limit) as int),
            ) < MAX_FAILURES,
        r.launched < files@.len() ==> count_failures(
            outcomes_of(files_of(files@)),
            drained_before_launch(r.launched as int, spec_cap(limit) as int),
        ) >= MAX_FAILURES,
        r.failures == count_failures(
            outcomes_of(files_of(files@)),
            drained_before_launch(r.launched as int, spec_cap(limit) as int),
        ),
        // ... every dispatched unit drains; successes count them all ...
        r.successes == count_successes(outcomes_of(files_of(files@)), r.launched as int),
        // ... and the sweep and the finalization always run.
        r.sweep_ran,
        r.finalized,
        !final(status).is_scanning,
        final(status).last_scan_at == Some(now),
        final(status).current_count == final(catalog)@.tracks.len(),
        final(status).total_count == old(status).total_count,
{
    let ghost c0 = old(catalog)@;
    let ghost fs = files_of(files@);
    let ghost outs = outcomes_of(fs);
    let cap = if limit < DISPATCH_WINDOW {
        limit
    } else {
        DISPATCH_WINDOW
    };
    let total = files.len();

    let mut launched: usize = 0;
    let mut drained: usize = 0;
    let mut failures: u32 = 0;
    let mut successes: u32 = 0;
    let mut in_flight: usize = 0;
    let mut max_in_flight: usize = 0;

    while launched < total && failures < MAX_FAILURES
        invariant
            old(catalog).wf(),
            c0 == old(catalog)@,
            fs == files_of(files@),
            outs == outcomes_of(fs),
            c0.next_id + 3 * files@.len() < u64::MAX,
            total == files@.len(),
            total <= u32::MAX,
            1 <= cap <= limit,
            cap <= DISPATCH_WINDOW,
            cap == spec_cap(limit),
            drained <= launched <= total,
            in_flight == launched - drained,
            in_flight < cap,
            max_in_flight <= cap,
            drained as int == drained_before_launch(launched as int, cap as int),
            failures == count_failures(outs, drained as int),
            successes == count_successes(outs, drained as int),
            catalog.wf(),
            catalog@ == ingest_all_v(c0, fs, drained as int),
            catalog@.next_id <= c0.next_id + 3 * drained,
            catalog@.tracks.len() <= c0.tracks.len() + drained,
            status.total_count == old(status).total_count,
            forall|i: int|
                0 <= i < launched ==> count_failures(
                    outs,
                    drained_before_launch(i, cap as int),
                ) < MAX_FAILURES,
        decreases total - launched,
    {
        // launch unit `launched`: the breaker has not tripped
        launched += 1;
        in_flight += 1;
        if in_flight > max_in_flight {
            max_in_flight = in_flight;
        }
        // drain the oldest unit once the window is full
        if in_flight >= cap {
            proof {
                lemma_count_bounds(outs, drained as int);
                assert(fs[drained as int] == (match files@[drained as int] {
                    Some(r) => Some(r@),
                    None => None::<FileRecordV>,
                }));
            }
            let ghost before = ingest_all_v(c0, fs, drained as int);
            match &files[drained] {
                Some(rec) => {
                    ingest_file(catalog, rec);
                    proof {
                        let a1 = upsert_artist_v(before, rec@.artist);
                        let a2 = upsert_album_v(a1.0, rec@.album, a1.1, rec@.year);
                        assert(a2.0.tracks == before.tracks);
                        let inp = track_input_of(rec@, a2.1, a1.1);
                        assert(catalog@ == upsert_track_v(a2.0, inp).0);
                        let k = crate::catalog::track_index_of(a2.0.tracks, inp.path);
                        crate::catalog::lemma_track_index(a2.0.tracks, inp.path);
                        if k >= 0 {
                            assert(catalog@.tracks == a2.0.tracks.update(
                                k,
                                crate::catalog::overwrite_track_v(a2.0.tracks[k], inp),
                            ));
                        } else {
                            assert(catalog@.tracks == a2.0.tracks.push(
                                crate::catalog::new_track_v(a2.0.next_id, inp),
                            ));
                        }
                        assert(catalog@.tracks.len() <= before.tracks.len() + 1);
                        assert(catalog@.next_id <= before.next_id + 3);
                    }
                    successes += 1;
                    // persist the progress counter sparsely
                    if should_persist_progress(successes) {
                        status.current_count = successes;
                    }
                },
                None => {
                    failures += 1;
                },
            }
            drained += 1;
            in_flight -= 1;
            proof {
                assert(catalog@ == ingest_all_v(c0, fs, drained as int));
            }
        }
    }
    // drain every still-dispatched unit; trailing failures are not
    // counted toward the breaker, trailing successes still ingest and
    // advance the progress counter
    while drained < launched
        invariant
            old(catalog).wf(),
            c0 == old(catalog)@,
            fs == files_of(files@),
            outs == outcomes_of(fs),
            c0.next_id + 3 * files@.len() < u64::MAX,
            total == files@.len(),
            total <= u32::MAX,
            1 <= cap <= limit,
            cap <= DISPATCH_WINDOW,
            cap == spec_cap(limit),
            drained <= launched <= total,
            max_in_flight <= cap,
            failures == count_failures(
                outs,
                drained_before_launch(launched as int, cap as int),
            ),
            launched < total ==> failures >= MAX_FAILURES,
            forall|i: int|
                0 <= i < launched ==> count_failures(
                    outs,
                    drained_before_launch(i, cap as int),
                ) < MAX_FAILURES,
            successes == count_successes(outs, drained as int),
            catalog.wf(),
            catalog@ == ingest_all_v(c0, fs, drained as int),
            catalog@.next_id <= c0.next_id + 3 * drained,
            catalog@.tracks.len() <= c0.tracks.len() + drained,
            status.total_count == old(status).total_count,
        decreases launched - drained,
    {
        proof {
            lemma_count_bounds(outs, drained as int);
            assert(fs[drained as int] == (match files@[drained as int] {
                Some(r) => Some(r@),
                None => None::<FileRecordV>,
            }));
        }
        let ghost before = ingest_all_v(c0, fs, drained as int);
        match &files[drained] {
            Some(rec) => {
                ingest_file(catalog, rec);
                proof {
                    let a1 = upsert_artist_v(before, rec@.artist);
                    let a2 = upsert_album_v(a1.0, rec@.album, a1.1, rec@.year);
                    assert(a2.0.tracks == before.tracks);
                    let inp = track_input_of(rec@, a2.1, a1.1);
                    assert(catalog@ == upsert_track_v(a2.0, inp).0);
                    let k = crate::catalog::track_index_of(a2.0.tracks, inp.path);
                    crate::catalog::lemma_track_index(a2.0.tracks, inp.path);
                    if k >= 0 {
                        assert(catalog@.tracks == a2.0.tracks.update(
                            k,
                            crate::catalog::overwrite_track_v(a2.0.tracks[k], inp),
                        ));
                    } else {
                        assert(catalog@.tracks == a2.0.tracks.push(
                            crate::catalog::new_track_v(a2.0.next_id, inp),
                        ));
                    }
                    assert(catalog@.tracks.len() <= before.tracks.len() + 1);
                    assert(catalog@.next_id <= before.next_id + 3);
                }
                successes += 1;
            },
            None => {},
        }
        drained += 1;
        proof {
            assert(catalog@ == ingest_all_v(c0, fs, drained as int));
        }
    }
    // orphan sweep: rows whose file no longer exists are deleted
    catalog.orphan_sweep(present);
    let sweep_ran = true;
    // final reconciliation against the authoritative row count, then
    // clear the running flag and record the completion time
    let count = catalog.track_count();
    proof {
        crate::catalog::lemma_sweep_props(
            ingest_all_v(c0, fs, drained as int).tracks,
            paths_of(present@),
        );
    }
    status.current_count = count as u32;
    status.is_scanning = false;
    status.last_scan_at = Some(now);
    let finalized = true;
    ScanReport { launched, failures, successes, max_in_flight, sweep_ran, finalized }
}

/// The effective drain window: the concurrency limit, but never more
/// than the dispatch window.
pub open spec fn spec_cap(limit: usize) -> usize {
    if limit < DISPATCH_WINDOW {
        limit
    } else {
        DISPATCH_WINDOW
    }
}

/// The failure and success counts are bounded by the prefix length and
/// grow by at most one per step.
proof fn lemma_count_bounds(outs: Seq<bool>, k: int)
    requires
        0 <= k,
    ensures
        0 <= count_failures(outs, k) <= k,
        0 <= count_successes(outs, k) <= k,
        count_failures(outs, k + 1) == count_failures(outs, k) + (if k + 1 <= outs.len()
            && !outs[k] {
            1int
        } else {
            0int
        }),
        count_successes(outs, k + 1) == count_successes(outs, k) + (if k + 1 <= outs.len()
            && outs[k] {
            1int
        } else {
            0int
        }),
    decreases k,
{
    if k > 0 {
        lemma_count_bounds(outs, k - 1);
    }
}

// ---------------------------------------------------------------------
// Beginning a scan
// ---------------------------------------------------------------------

/// Tries to begin a structural scan: fails immediately, without
/// queueing, if another structural operation holds the lock, and
/// rejects a root that does not exist or is not a directory. On
/// success the caller owns the lock and the status row shows a running
/// scan of `total` files.
pub fn begin_scan(
    lock: &mut StructuralLock,
    status: &mut ScanStatus,
    root_exists: bool,
    root_is_dir: bool,
    total: u32,
) -> (r: Result<(), AppError>)
    ensures
        // a structural operation in progress: refused at once, nothing touched
        old(lock).is_held() ==> r is Err && r->Err_0 is BadRequest && *final(lock) == *old(lock)
            && *final(status) == *old(status),
        // an invalid root: refused, the lock is free again
        !old(lock).is_held() && !(root_exists && root_is_dir) ==> r is Err && r->Err_0
            is BadRequest && !final(lock).is_held() && *final(status) == *old(status),
        // otherwise the scan starts
        !old(lock).is_held() && root_exists && root_is_dir ==> r is Ok && final(lock).is_held()
            && final(status).is_scanning && final(status).current_count == 0
            && final(status).total_count == total && final(status).last_scan_at == old(
            status,
        ).last_scan_at,
{
    if !lock.try_acquire() {
        return Err(
            AppError::BadRequest(String::from_str("a structural operation is already in progress")),
        );
    }
    if !(root_exists && root_is_dir) {
        lock.release();
        return Err(
            AppError::BadRequest(
                String::from_str("scan root does not exist or is not a directory"),
            ),
        );
    }
    status.is_scanning = true;
    status.current_count = 0;
    status.total_count = total;
    Ok(())
}

/// One whole structural scan, end to end: takes the lock (failing
/// immediately, without queueing, if a structural operation is already
/// running), validates the root, runs the bounded-concurrency scan over
/// the per-file results, and releases the lock whatever happened past
/// the validation.
pub fn scan_library(
    lock: &mut StructuralLock,
    status: &mut ScanStatus,
    catalog: &mut Catalog,
    root_exists: bool,
    root_is_dir: bool,
    files: &Vec<Option<FileRecord>>,
    present: &Vec<String>,
    limit: usize,
    now: u64,
) -> (r: Result<ScanReport, AppError>)
    requires
        old(catalog).wf(),
        old(catalog).next_id + 3 * files@.len() < u64::MAX,
        1 <= limit,
        files@.len() <= u32::MAX,
        old(catalog)@.tracks.len() + files@.len() < u32::MAX,
    ensures
        final(catalog).wf(),
        // a structural operation in progress: refused at once, nothing touched
        old(lock).is_held() ==> r is Err && r->Err_0 is BadRequest && *final(lock) == *old(lock)
            && *final(status) == *old(status) && *final(catalog) == *old(catalog),
        // an invalid root: refused, the lock is free again
        !old(lock).is_held() && !(root_exists && root_is_dir) ==> r is Err && r->Err_0
            is BadRequest && !final(lock).is_held() && *final(status) == *old(status)
            && *final(catalog) == *old(catalog),
        // otherwise the whole pipeline runs and the lock comes back
        !old(lock).is_held() && root_exists && root_is_dir ==> {
            let report = r->Ok_0;
            &&& r is Ok
            &&& !final(lock).is_held()
            &&& final(catalog)@.tracks == sweep_tracks_v(
                ingest_all_v(old(catalog)@, files_of(files@), report.launched as int).tracks,
                paths_of(present@),
            )
            &&& final(catalog)@.artists == ingest_all_v(
                old(catalog)@,
                files_of(files@),
                report.launched as int,
            ).artists
            &&& final(catalog)@.albums == ingest_all_v(
                old(catalog)@,
                files_of(files@),
                report.launched as int,
            ).albums
            &&& report.max_in_flight <= limit
            &&& report.launched <= files@.len()
            &&& (forall|i: int|
                0 <= i < report.launched ==> count_failures(
                    outcomes_of(files_of(files@)),
                    drained_before_launch(i, spec_cap(limit) as int),
                ) < MAX_FAILURES)
            &&& (report.launched < files@.len() ==> count_failures(
                outcomes_of(files_of(files@)),
                drained_before_launch(report.launched as int, spec_cap(limit) as int),
            ) >= MAX_FAILURES)
            &&& report.successes == count_successes(
                outcomes_of(files_of(files@)),
                report.launched as int,
            )
            &&& report.sweep_ran
            &&& report.finalized
            &&& !final(status).is_scanning
            &&& final(status).last_scan_at == Some(now)
            &&& final(status).current_count == final(catalog)@.tracks.len()
            &&& final(status).total_count == files@.len()
        },
{
    let total = files.len();
    begin_scan(lock, status, root_exists, root_is_dir, total as u32)?;
    let report = run_scan(catalog, status, files, present, limit, now);
    lock.release();
    Ok(report)
}

// ---------------------------------------------------------------------
// Idempotence of re-ingestion
// ---------------------------------------------------------------------

/// Ingesting the same unchanged file twice is the same as ingesting it
/// once: the natural keys find the rows the first pass wrote, every
/// overwritten field already holds its value, the lyric text has not
/// changed so the sync status is preserved, and the release year is
/// never overwritten. No duplicate rows appear.
pub proof fn lemma_ingest_file_idempotent(c: CatalogV, r: FileRecordV)
    requires
        crate::catalog::wf_v(c),
        c.next_id + 3 < u64::MAX,
    ensures
        ingest_file_v(ingest_file_v(c, r).0, r).0 == ingest_file_v(c, r).0,
        ingest_file_v(ingest_file_v(c, r).0, r).1 == ingest_file_v(c, r).1,
{
    let p1 = upsert_artist_v(c, r.artist);
    let c1 = p1.0;
    let aid = p1.1;
    let p2 = upsert_album_v(c1, r.album, aid, r.year);
    let c2 = p2.0;
    let bid = p2.1;
    let inp = track_input_of(r, bid, aid);
    let p3 = upsert_track_v(c2, inp);
    let c3 = p3.0;

    lemma_artist_index(c.artists, r.artist);
    lemma_album_index(c1.albums, r.album, aid);
    lemma_track_index(c2.tracks, inp.path);

    // the artist table is untouched after the artist upsert, so the
    // second search finds the same row
    assert(c3.artists == c1.artists);
    let ka = artist_index_of(c.artists, r.artist);
    if ka < 0 {
        crate::catalog::lemma_artist_index_after_push(
            c.artists,
            new_artist_v(c.next_id, r.artist),
            r.artist,
        );
    }
    lemma_artist_index(c1.artists, r.artist);
    let ka1 = artist_index_of(c1.artists, r.artist);
    assert(ka1 >= 0 && c1.artists[ka1].id == aid);
    let q1 = upsert_artist_v(c3, r.artist);
    assert(q1.0 == c3 && q1.1 == aid);

    // the album table is untouched after the album upsert; the second
    // upsert finds the same row and the fill-once year leaves it alone
    assert(c3.albums == c2.albums);
    let kb = album_index_of(c1.albums, r.album, aid);
    if kb >= 0 {
        crate::catalog::lemma_album_index_after_update(
            c1.albums,
            kb,
            c2.albums[kb],
            r.album,
            aid,
        );
    } else {
        crate::catalog::lemma_album_index_after_push(
            c1.albums,
            new_album_v(c1.next_id, r.album, aid, r.year),
            r.album,
            aid,
        );
    }
    lemma_album_index(c2.albums, r.album, aid);
    let kb2 = album_index_of(c2.albums, r.album, aid);
    assert(kb2 >= 0 && c2.albums[kb2].id == bid);
    let row_b = c2.albums[kb2];
    // whatever the year was, re-filling it with the same offer is the
    // identity on the row
    let q2 = upsert_album_v(c3, r.album, aid, r.year);
    assert(q2.0.albums =~= c2.albums.update(kb2, row_b));
    assert(c2.albums.update(kb2, row_b) =~= c2.albums);
    assert(q2.0 =~= c3);
    assert(q2.1 == bid);

    // the track row the first pass wrote already holds every field the
    // overwrite would write, lyrics included
    let kt = track_index_of(c2.tracks, inp.path);
    if kt >= 0 {
        crate::catalog::lemma_track_index_after_update(
            c2.tracks,
            kt,
            c3.tracks[kt],
            inp.path,
        );
    } else {
        crate::catalog::lemma_track_index_after_push(
            c2.tracks,
            new_track_v(c2.next_id, inp),
            inp.path,
        );
    }
    lemma_track_index(c3.tracks, inp.path);
    let kt3 = track_index_of(c3.tracks, inp.path);
    assert(kt3 >= 0);
    let row_t = c3.tracks[kt3];
    assert(row_t.title == inp.title && row_t.duration == inp.duration && row_t.track_number
        == inp.track_number && row_t.bitrate == inp.bitrate && row_t.lyrics == inp.lyrics
        && row_t.lyrics_source == inp.lyrics_source);
    let q3 = upsert_track_v(c3, inp);
    assert(overwrite_track_v(row_t, inp) =~= row_t);
    assert(q3.0.tracks =~= c3.tracks.update(kt3, row_t));
    assert(c3.tracks.update(kt3, row_t) =~= c3.tracks);
    assert(q3.0 =~= c3);
    assert(ingest_file_v(c3, r).0 =~= c3);
}

// ---------------------------------------------------------------------
// Idempotence of a whole re-scan
// ---------------------------------------------------------------------

/// A file record is settled in a catalog when all three of its rows are
/// already exactly as its ingestion would leave them: the artist and the
/// album exist (the album's year concrete whenever the record offers
/// one), and the track row is a fixed point of the overwrite.
pub open spec fn settled(c: CatalogV, r: FileRecordV) -> bool {
    let ka = artist_index_of(c.artists, r.artist);
    &&& ka >= 0
    &&& {
        let aid = c.artists[ka].id;
        let kb = album_index_of(c.albums, r.album, aid);
        &&& kb >= 0
        &&& (r.year is Some ==> c.albums[kb].year is Some)
        &&& {
            let bid = c.albums[kb].id;
            let kt = track_index_of(c.tracks, r.path);
            &&& kt >= 0
            &&& overwrite_track_v(c.tracks[kt], track_input_of(r, bid, aid)) == c.tracks[kt]
        }
    }
}

/// Ingesting a settled record changes nothing.
pub proof fn lemma_ingest_settled_identity(c: CatalogV, r: FileRecordV)
    requires
        settled(c, r),
    ensures
        ingest_file_v(c, r).0 == c,
{
    lemma_artist_index(c.artists, r.artist);
    let ka = artist_index_of(c.artists, r.artist);
    let aid = c.artists[ka].id;
    let p1 = upsert_artist_v(c, r.artist);
    assert(p1.0 == c && p1.1 == aid);
    lemma_album_index(c.albums, r.album, aid);
    let kb = album_index_of(c.albums, r.album, aid);
    let row_b = c.albums[kb];
    let p2 = upsert_album_v(c, r.album, aid, r.year);
    // the year fill writes back what is already there: a concrete year
    // stays, and a missing one is refilled with the record's own
    // missing offer
    assert(p2.0.albums[kb] =~= row_b);
    assert(p2.0.albums =~= c.albums.update(kb, row_b));
    assert(c.albums.update(kb, row_b) =~= c.albums);
    assert(p2.0 =~= c);
    let bid = row_b.id;
    assert(p2.1 == bid);
    lemma_track_index(c.tracks, r.path);
    let kt = track_index_of(c.tracks, r.path);
    let inp = track_input_of(r, bid, aid);
    let p3 = upsert_track_v(c, inp);
    assert(p3.0.tracks =~= c.tracks.update(kt, c.tracks[kt]));
    assert(c.tracks.update(kt, c.tracks[kt]) =~= c.tracks);
    assert(p3.0 =~= c);
    assert(ingest_file_v(c, r).0 =~= c);
}

/// Ingesting a record settles it.
pub proof fn lemma_ingest_settles(c: CatalogV, r: FileRecordV)
    ensures
        settled(ingest_file_v(c, r).0, r),
{
    let p1 = upsert_artist_v(c, r.artist);
    let c1 = p1.0;
    let aid = p1.1;
    let p2 = upsert_album_v(c1, r.album, aid, r.year);
    let c2 = p2.0;
    let bid = p2.1;
    let inp = track_input_of(r, bid, aid);
    let p3 = upsert_track_v(c2, inp);
    let c3 = p3.0;
    // the artist table settles after its upsert and is then untouched
    lemma_artist_index(c.artists, r.artist);
    if artist_index_of(c.artists, r.artist) < 0 {
        lemma_artist_index_after_push(c.artists, new_artist_v(c.next_id, r.artist), r.artist);
    }
    lemma_artist_index(c1.artists, r.artist);
    let ka = artist_index_of(c1.artists, r.artist);
    assert(ka >= 0 && c1.artists[ka].id == aid);
    assert(c3.artists == c1.artists);
    // the album row settles: found and updated in place, or pushed
    lemma_album_index(c1.albums, r.album, aid);
    let kb0 = album_index_of(c1.albums, r.album, aid);
    if kb0 >= 0 {
        lemma_album_index_after_update(c1.albums, kb0, c2.albums[kb0], r.album, aid);
    } else {
        lemma_album_index_after_push(
            c1.albums,
            new_album_v(c1.next_id, r.album, aid, r.year),
            r.album,
            aid,
        );
    }
    lemma_album_index(c2.albums, r.album, aid);
    let kb = album_index_of(c2.albums, r.album, aid);
    assert(kb >= 0 && c2.albums[kb].id == bid);
    assert(r.year is Some ==> c2.albums[kb].year is Some);
    assert(c3.albums == c2.albums);
    // the track row settles: the overwrite is a fixed point of itself
    lemma_track_index(c2.tracks, inp.path);
    let kt0 = track_index_of(c2.tracks, inp.path);
    if kt0 >= 0 {
        lemma_track_index_after_update(c2.tracks, kt0, c3.tracks[kt0], inp.path);
    } else {
        lemma_track_index_after_push(c2.tracks, new_track_v(c2.next_id, inp), inp.path);
    }
    lemma_track_index(c3.tracks, inp.path);
    let kt = track_index_of(c3.tracks, inp.path);
    assert(kt >= 0);
    assert(overwrite_track_v(c3.tracks[kt], inp) =~= c3.tracks[kt]);
}

/// Ingesting a different file (a different path) preserves settledness:
/// the other record's rows are found where they were and unchanged in
/// what matters — an album year can only go from missing to concrete.
pub proof fn lemma_ingest_preserves_settled(c: CatalogV, r: FileRecordV, r2: FileRecordV)
    requires
        settled(c, r),
        r2.path != r.path,
    ensures
        settled(ingest_file_v(c, r2).0, r),
{
    let p1 = upsert_artist_v(c, r2.artist);
    let c1 = p1.0;
    let aid2 = p1.1;
    let p2 = upsert_album_v(c1, r2.album, aid2, r2.year);
    let c2 = p2.0;
    let bid2 = p2.1;
    let inp2 = track_input_of(r2, bid2, aid2);
    let p3 = upsert_track_v(c2, inp2);
    let c3 = p3.0;

    // the artist search still lands on the same, unchanged row
    lemma_artist_index(c.artists, r.artist);
    let ka = artist_index_of(c.artists, r.artist);
    if artist_index_of(c.artists, r2.artist) < 0 {
        lemma_artist_index_push_stable(
            c.artists,
            new_artist_v(c.next_id, r2.artist),
            r.artist,
        );
    }
    assert(artist_index_of(c1.artists, r.artist) == ka);
    assert(c1.artists[ka] == c.artists[ka]);
    let aid = c.artists[ka].id;

    // the album search still lands on the same row with the same id,
    // and a concrete year stays concrete under the fill-once update
    lemma_album_index(c.albums, r.album, aid);
    let kb = album_index_of(c.albums, r.album, aid);
    lemma_album_index(c1.albums, r2.album, aid2);
    let kb2 = album_index_of(c1.albums, r2.album, aid2);
    if kb2 >= 0 {
        lemma_album_index_after_update(c1.albums, kb2, c2.albums[kb2], r.album, aid);
        assert(album_index_of(c2.albums, r.album, aid) == kb);
        assert(c2.albums[kb].id == c.albums[kb].id);
        assert(c2.albums[kb].year is Some <== c.albums[kb].year is Some);
    } else {
        lemma_album_index_push_stable(
            c1.albums,
            new_album_v(c1.next_id, r2.album, aid2, r2.year),
            r.album,
            aid,
        );
        assert(album_index_of(c2.albums, r.album, aid) == kb);
        assert(c2.albums[kb] == c.albums[kb]);
    }
    let bid = c.albums[kb].id;

    // the track row is untouched: the other upsert works on a different
    // path, hence a different row
    lemma_track_index(c.tracks, r.path);
    let kt = track_index_of(c.tracks, r.path);
    lemma_track_index(c2.tracks, inp2.path);
    let kt2 = track_index_of(c2.tracks, inp2.path);
    if kt2 >= 0 {
        assert(kt != kt2);
        lemma_track_index_after_update(c2.tracks, kt2, c3.tracks[kt2], r.path);
        assert(track_index_of(c3.tracks, r.path) == kt);
        assert(c3.tracks[kt] == c.tracks[kt]);
    } else {
        lemma_track_index_push_stable(c2.tracks, new_track_v(c2.next_id, inp2), r.path);
        assert(track_index_of(c3.tracks, r.path) == kt);
        assert(c3.tracks[kt] == c.tracks[kt]);
    }
    assert(overwrite_track_v(c3.tracks[kt], track_input_of(r, bid, aid)) == c3.tracks[kt]);
}

/// The paths of the records are pairwise distinct, as the files of one
/// directory walk are.
pub open spec fn distinct_paths(files: Seq<Option<FileRecordV>>) -> bool {
    forall|i: int, j: int|
        0 <= i < j < files.len() && files[i] is Some && files[j] is Some ==> (
        #[trigger] files[i])->Some_0.path != (#[trigger] files[j])->Some_0.path
}

/// After the first `n` files are ingested, each of them is settled.
proof fn lemma_ingest_all_settles(c: CatalogV, files: Seq<Option<FileRecordV>>, n: int)
    requires
        0 <= n <= files.len(),
        distinct_paths(files),
    ensures
        forall|j: int|
            0 <= j < n && files[j] is Some ==> settled(
                ingest_all_v(c, files, n),
                (#[trigger] files[j])->Some_0,
            ),
    decreases n,
{
    if n > 0 {
        lemma_ingest_all_settles(c, files, n - 1);
        let prev = ingest_all_v(c, files, n - 1);
        let cur = ingest_all_v(c, files, n);
        match files[n - 1] {
            Some(rn) => {
                lemma_ingest_settles(prev, rn);
                assert forall|j: int|
                    0 <= j < n && files[j] is Some implies settled(
                    cur,
                    (#[trigger] files[j])->Some_0,
                ) by {
                    if j < n - 1 {
                        lemma_ingest_preserves_settled(prev, files[j]->Some_0, rn);
                    }
                }
            },
            None => {},
        }
    }
}

/// Re-ingesting the already-settled files, in order, changes nothing.
proof fn lemma_ingest_all_settled_identity(c: CatalogV, files: Seq<Option<FileRecordV>>, n: int, k: int)
    requires
        0 <= k <= n <= files.len(),
        forall|j: int|
            0 <= j < n && files[j] is Some ==> settled(c, (#[trigger] files[j])->Some_0),
    ensures
        ingest_all_v(c, files, k) == c,
    decreases k,
{
    if k > 0 {
        lemma_ingest_all_settled_identity(c, files, n, k - 1);
        match files[k - 1] {
            Some(rk) => {
                lemma_ingest_settled_identity(c, rk);
            },
            None => {},
        }
    }
}

/// Scanning an unchanged directory twice yields the very same catalog
/// as scanning it once: re-ingesting the same per-file records — their
/// paths pairwise distinct, as a directory walk's are — adds no row and
/// changes no field.
pub proof fn lemma_rescan_idempotent(c: CatalogV, files: Seq<Option<FileRecordV>>, n: int)
    requires
        0 <= n <= files.len(),
        distinct_paths(files),
    ensures
        ingest_all_v(ingest_all_v(c, files, n), files, n) == ingest_all_v(c, files, n),
{
    lemma_ingest_all_settles(c, files, n);
    lemma_ingest_all_settled_identity(ingest_all_v(c, files, n), files, n, n);
}

/// Two whole scan runs over an unchanged directory, the orphan sweep
/// included, end in the same tables the first run produced: every
/// scanned file's path is still on disk, so the sweep keeps what the
/// ingestion settled, the second ingestion finds every row already in
/// place, and the second sweep removes nothing. The fresh-id counter
/// between the runs is arbitrary — no table depends on it.
pub proof fn lemma_two_scans_identical(
    c: CatalogV,
    files: Seq<Option<FileRecordV>>,
    present: Seq<Seq<char>>,
    n: int,
    nid2: u64,
)
    requires
        0 <= n <= files.len(),
        distinct_paths(files),
        forall|j: int|
            0 <= j < n && files[j] is Some ==> present.contains(
                (#[trigger] files[j])->Some_0.path,
            ),
    ensures
        ({
            let g1 = ingest_all_v(c, files, n);
            let t1 = sweep_tracks_v(g1.tracks, present);
            let c1 = CatalogV {
                artists: g1.artists,
                albums: g1.albums,
                tracks: t1,
                next_id: nid2,
            };
            let g2 = ingest_all_v(c1, files, n);
            &&& g2 == c1
            &&& sweep_tracks_v(g2.tracks, present) == t1
        }),
{
    let g1 = ingest_all_v(c, files, n);
    let t1 = sweep_tracks_v(g1.tracks, present);
    let c1 = CatalogV { artists: g1.artists, albums: g1.albums, tracks: t1, next_id: nid2 };
    lemma_ingest_all_settles(c, files, n);
    assert forall|j: int| 0 <= j < n && files[j] is Some implies settled(
        c1,
        (#[trigger] files[j])->Some_0,
    ) by {
        let r = files[j]->Some_0;
        assert(settled(g1, r));
        // the artist and album tables carry over unchanged, so the same
        // rows are found with the same ids
        let ka = artist_index_of(g1.artists, r.artist);
        let aid = g1.artists[ka].id;
        let kb = album_index_of(g1.albums, r.album, aid);
        let bid = g1.albums[kb].id;
        // the sweep keeps the settled track row at its found position
        let kt = track_index_of(g1.tracks, r.path);
        crate::catalog::lemma_sweep_preserves_row(g1.tracks, present, r.path);
        let kt1 = track_index_of(c1.tracks, r.path);
        assert(c1.tracks[kt1] == g1.tracks[kt]);
        assert(overwrite_track_v(c1.tracks[kt1], track_input_of(r, bid, aid)) == c1.tracks[kt1]);
    }
    lemma_ingest_all_settled_identity(c1, files, n, n);
    // the second sweep keeps everything: every surviving row's path is
    // among the present ones already
    crate::catalog::lemma_sweep_rows_present(g1.tracks, present);
    crate::catalog::lemma_sweep_all_present(t1, present);
}

} // verus!
