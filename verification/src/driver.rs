use vstd::prelude::*;
use crate::chunks::{chunk_count, partition};
use crate::columns::{spec_distinct_keys, strs_view};
use crate::errors::DataToolErrors;
use crate::pivot::{chunk_batch, rows_views};
use crate::store::{attr_keys, desc_ids, TableMapDb};

verus! {

/// The phases of one export run. Worker failures do not get a phase of their
/// own: a failed worker degrades its chunk's contribution and counts as
/// finished, so a run always ends in `Complete`.
#[derive(Clone, Copy, Debug, PartialEq, Eq, Structural)]
pub enum ExportState {
    Idle,
    ColumnsDiscovered,
    WorkersLaunched { remaining: usize },
    Draining { remaining: usize },
    Complete,
}

/// What an export run observes while it advances.
#[derive(Clone, Copy, Debug, PartialEq, Eq, Structural)]
pub enum ExportEvent {
    ColumnsReady,
    WorkersSpawned { count: usize },
    WorkerFinished,
}

/// The transition of the export run: discovery, launch, one step of draining
/// per finished worker, completion when the last worker is in. An event that
/// does not apply to the phase leaves it unchanged.
pub open spec fn spec_step(s: ExportState, e: ExportEvent) -> ExportState {
    match (s, e) {
        (ExportState::Idle, ExportEvent::ColumnsReady) => ExportState::ColumnsDiscovered,
        (ExportState::ColumnsDiscovered, ExportEvent::WorkersSpawned { count }) => if count == 0 {
            ExportState::Complete
        } else {
            ExportState::WorkersLaunched { remaining: count }
        },
        (ExportState::WorkersLaunched { remaining }, ExportEvent::WorkerFinished) => if remaining
            <= 1 {
            ExportState::Complete
        } else {
            ExportState::Draining { remaining: (remaining - 1) as usize }
        },
        (ExportState::Draining { remaining }, ExportEvent::WorkerFinished) => if remaining <= 1 {
            ExportState::Complete
        } else {
            ExportState::Draining { remaining: (remaining - 1) as usize }
        },
        (other, _) => other,
    }
}

/// Advances the export run by one observed event.
pub fn export_step(s: ExportState, e: ExportEvent) -> (t: ExportState)
    ensures
        t == spec_step(s, e),
{
    match (s, e) {
        (ExportState::Idle, ExportEvent::ColumnsReady) => ExportState::ColumnsDiscovered,
        (ExportState::ColumnsDiscovered, ExportEvent::WorkersSpawned { count }) => if count == 0 {
            ExportState::Complete
        } else {
            ExportState::WorkersLaunched { remaining: count }
        },
        (ExportState::WorkersLaunched { remaining }, ExportEvent::WorkerFinished) => if remaining
            <= 1 {
            ExportState::Complete
        } else {
            ExportState::Draining { remaining: remaining - 1 }
        },
        (ExportState::Draining { remaining }, ExportEvent::WorkerFinished) => if remaining <= 1 {
            ExportState::Complete
        } else {
            ExportState::Draining { remaining: remaining - 1 }
        },
        (other, _) => other,
    }
}

/// The run after `n` more workers have finished.
pub open spec fn run_finishes(s: ExportState, n: nat) -> ExportState
    decreases n,
{
    if n == 0 {
        s
    } else {
        run_finishes(spec_step(s, ExportEvent::WorkerFinished), (n - 1) as nat)
    }
}

proof fn lemma_complete_stays(n: nat)
    ensures
        run_finishes(ExportState::Complete, n) == ExportState::Complete,
    decreases n,
{
    if n > 0 {
        lemma_complete_stays((n - 1) as nat);
    }
}

proof fn lemma_draining_completes(k: usize)
    requires
        k >= 1,
    ensures
        run_finishes(ExportState::Draining { remaining: k }, k as nat) == ExportState::Complete,
    decreases k,
{
    if k == 1 {
        lemma_complete_stays(0);
    } else {
        lemma_draining_completes((k - 1) as usize);
    }
}

/// There is no failing terminal state: once `k` workers are launched, the run
/// reaches `Complete` after exactly `k` finish events, however each worker
/// fared.
pub proof fn lemma_run_completes(k: usize)
    requires
        k >= 1,
    ensures
        run_finishes(ExportState::WorkersLaunched { remaining: k }, k as nat)
            == ExportState::Complete,
{
    if k == 1 {
        lemma_complete_stays(0);
    } else {
        lemma_draining_completes((k - 1) as usize);
    }
}

/// One export run's pure computation, batches in submission order: the
/// discovered column list, and one wide-row batch per chunk of the
/// descending id list. The caller delivers the batches to a sink, in
/// whatever completion order its scheduling produces.
pub fn export_batches(
    store: &mut TableMapDb,
    chunk_size: usize,
    priority_cols: Vec<String>,
) -> (r: Result<(Vec<String>, Vec<Vec<Vec<String>>>), DataToolErrors>)
    requires
        old(store).wf(),
        chunk_size > 0,
    ensures
        *final(store) == *old(store),
        r matches Ok(p) && ({
            let cols = strs_view(p.0@);
            let len = old(store).entities().len() as int;
            &&& cols == spec_distinct_keys(
                strs_view(priority_cols@),
                attr_keys(old(store).attr_rows()),
            )
            &&& p.1@.len() == chunk_count(len, chunk_size as int)
            &&& forall|j: int|
                0 <= j < p.1@.len() ==> rows_views((#[trigger] p.1@[j])@) == chunk_batch(
                    old(store).attr_rows(),
                    desc_ids(len).subrange(
                        j * (chunk_size as int),
                        vstd::math::min(len, (j + 1) * (chunk_size as int)),
                    ),
                    cols,
                )
        }),
{
    let ghost len = store.entities().len() as int;
    let columns = match store.get_distinct_keys(priority_cols) {
        Ok(c) => c,
        Err(e) => {
            // column discovery over the in-memory rows always succeeds; the
            // arm only satisfies the type checker
            proof {
                assert(false);
            }
            return Err(e);
        },
    };
    let all_ids = store.item_ids();
    proof {
        assert(all_ids@ =~= desc_ids(len));
    }
    let id_chunks = partition(&all_ids, chunk_size);
    let mut batches: Vec<Vec<Vec<String>>> = Vec::new();
    let mut ci: usize = 0;
    while ci < id_chunks.len()
        invariant
            store.wf(),
            *store == *old(store),
            len == store.entities().len() as int,
            ci <= id_chunks@.len(),
            id_chunks@.len() == chunk_count(len, chunk_size as int),
            chunk_size > 0,
            forall|j: int|
                0 <= j < id_chunks@.len() ==> #[trigger] (j * (chunk_size as int)) < len,
            forall|j: int|
                0 <= j < id_chunks@.len() ==> (#[trigger] id_chunks@[j])@ == desc_ids(
                    len,
                ).subrange(
                    j * (chunk_size as int),
                    vstd::math::min(len, (j + 1) * (chunk_size as int)),
                ),
            batches@.len() == ci,
            forall|j: int|
                0 <= j < ci ==> rows_views((#[trigger] batches@[j])@) == chunk_batch(
                    store.attr_rows(),
                    desc_ids(len).subrange(
                        j * (chunk_size as int),
                        vstd::math::min(len, (j + 1) * (chunk_size as int)),
                    ),
                    strs_view(columns@),
                ),
            strs_view(columns@) == spec_distinct_keys(
                strs_view(priority_cols@),
                attr_keys(old(store).attr_rows()),
            ),
        decreases id_chunks@.len() - ci,
    {
        proof {
            let cs = chunk_size as int;
            let cv = id_chunks@[ci as int]@;
            assert(ci as int * cs >= 0) by (nonlinear_arith)
                requires
                    ci as int >= 0,
                    cs > 0,
            ;
            assert((ci as int + 1) * cs == ci as int * cs + cs) by (nonlinear_arith);
            let base = ci as int * cs;
            assert(base >= 0);
            assert((ci as int + 1) * cs == base + cs);
            assert(base < len);
            assert(cv == desc_ids(len).subrange(base, vstd::math::min(len, base + cs)));
            assert(cv.len() == vstd::math::min(len, base + cs) - base);
            assert forall|x: int, y: int| 0 <= x < y < cv.len() implies cv[x] > cv[y] by {
                assert(cv[x] == desc_ids(len)[base + x]);
                assert(cv[y] == desc_ids(len)[base + y]);
                assert(desc_ids(len)[base + x] == (len - (base + x)) as i64);
                assert(desc_ids(len)[base + y] == (len - (base + y)) as i64);
                assert(len <= i64::MAX);
            }
        }
        let batch = store.worker_rows(&id_chunks[ci], &columns);
        batches.push(batch);
        ci += 1;
    }
    Ok((columns, batches))
}

} // verus!
