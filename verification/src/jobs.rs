//! The multi-stage job pipeline: five queues (parse, dispatch, analyze,
//! translate, assemble) of immutable file-identity jobs, the stage handlers
//! that move work between them, and the bounded worker pools that consume
//! them.
//!
//! Every job payload is one file identity: the file's path and its base
//! name, the name being the key of the file's segment store. A parse job
//! that succeeds enqueues exactly one dispatch job; a dispatch job fans out
//! exactly one analyze job and exactly one translate job, fire and forget.
//! The assemble queue exists as a stage with no producer wired here.

use vstd::prelude::*;

use crate::errors::Error;
use crate::parser::extract;
use crate::parser::parse_content;
use crate::storage::InsertModelView;
use crate::storage::StoreModel;
use crate::storage::StoreRegistry;
use crate::storage::has_store;
use crate::storage::store_index;

verus! {

/// The default worker concurrency of the parse stage.
pub const PARSER_CONCURRENCY: usize = 4;

/// The default worker concurrency of the dispatch stage.
pub const DISPATCH_CONCURRENCY: usize = 2;

/// A pipeline job kind. The name identifies the kind's queue in the
/// backing store.
pub trait Job {
    fn job_name() -> &'static str;
}

/// A job of the parse stage: extract one script file's segments.
#[derive(Clone, Debug, PartialEq, Eq)]
pub struct ParserJob {
    pub file_path: String,
    pub file_name: String,
}

impl Job for ParserJob {
    fn job_name() -> &'static str {
        "musica-parser-job"
    }
}

/// A job of the assemble stage; the stage has no producer in this core.
#[derive(Clone, Debug, PartialEq, Eq)]
pub struct AssemblerJob {
    pub file_path: String,
    pub file_name: String,
}

impl Job for AssemblerJob {
    fn job_name() -> &'static str {
        "musica-assembler-job"
    }
}

/// A job of the analyze stage, consumed outside this core.
#[derive(Clone, Debug, PartialEq, Eq)]
pub struct AnalyzerJob {
    pub file_path: String,
    pub file_name: String,
}

impl Job for AnalyzerJob {
    fn job_name() -> &'static str {
        "musica-analyzer-job"
    }
}

/// A job of the translate stage, consumed outside this core.
#[derive(Clone, Debug, PartialEq, Eq)]
pub struct TranslatorJob {
    pub file_path: String,
    pub file_name: String,
}

impl Job for TranslatorJob {
    fn job_name() -> &'static str {
        "musica-translator-job"
    }
}

/// A job of the dispatch stage: fan a processed file out to the analyze
/// and translate stages.
#[derive(Clone, Debug, PartialEq, Eq)]
pub struct DispatchJob {
    pub file_path: String,
    pub file_name: String,
}

impl Job for DispatchJob {
    fn job_name() -> &'static str {
        "musica-dispatch-job"
    }
}

/// One durable queue of jobs: append at the back, consume at the front.
/// A single producer's pushes are seen in order; jobs are immutable once
/// enqueued and leave the queue when popped for handling.
pub struct JobQueue<T> {
    items: Vec<T>,
}

impl<T> View for JobQueue<T> {
    type V = Seq<T>;

    closed spec fn view(&self) -> Seq<T> {
        self.items@
    }
}

impl<T> JobQueue<T> {
    /// An empty queue.
    pub fn new() -> (r: Self)
        ensures
            r@ == Seq::<T>::empty(),
    {
        JobQueue { items: Vec::new() }
    }

    /// Appends one job.
    pub fn push(&mut self, job: T) -> (r: Result<(), Error>)
        ensures
            r == Ok::<(), Error>(()),
            final(self)@ == old(self)@.push(job),
    {
        self.items.push(job);
        Ok(())
    }

    /// Pops the oldest job, if any.
    pub fn pop(&mut self) -> (r: Option<T>)
        ensures
            old(self)@.len() == 0 ==> r is None && final(self)@ == old(self)@,
            old(self)@.len() > 0 ==> r == Option::Some(old(self)@[0]) && final(self)@ == old(
                self,
            )@.drop_first(),
    {
        if self.items.len() == 0 {
            Option::None
        } else {
            let job = self.items.remove(0);
            proof {
                assert(self@ =~= old(self)@.drop_first());
            }
            Option::Some(job)
        }
    }

    /// How many jobs wait in the queue.
    pub fn len(&self) -> (n: usize)
        ensures
            n == self@.len(),
    {
        self.items.len()
    }
}

/// The parse stage handler: extracts the job's file content into the store
/// registered under the job's file name and, on success, enqueues exactly
/// one dispatch job for the same file identity. A failing parse job
/// enqueues nothing; segments persisted before the failure stay persisted.
pub fn parser_main(
    registry: &mut StoreRegistry,
    dispatch: &mut JobQueue<DispatchJob>,
    job: &ParserJob,
    content: &str,
) -> (r: Result<(), Error>)
    requires
        old(registry).wf(),
        6 * content@.len() + 8 <= i32::MAX,
    ensures
        final(registry).wf(),
        r == extract(content@).result,
        r is Ok ==> final(dispatch)@ == old(dispatch)@.push(
            DispatchJob { file_path: job.file_path, file_name: job.file_name },
        ),
        r is Err ==> final(dispatch)@ == old(dispatch)@,
        ({
            let old_v = old(registry)@;
            let o = extract(content@);
            let pre = if has_store(old_v, job.file_name@) {
                old_v[store_index(old_v, job.file_name@)].segments
            } else {
                Seq::<InsertModelView>::empty()
            };
            let nm = StoreModel {
                name: job.file_name@,
                provisioned: true,
                segments: pre + o.emitted,
            };
            &&& has_store(old_v, job.file_name@) ==> final(registry)@ == old_v.update(
                store_index(old_v, job.file_name@),
                nm,
            )
            &&& !has_store(old_v, job.file_name@) ==> final(registry)@ == old_v.push(nm)
        }),
{
    match parse_content(registry, &job.file_name, content) {
        Err(e) => Err(e),
        Ok(_) => {
            let dj = DispatchJob {
                file_path: job.file_path.clone(),
                file_name: job.file_name.clone(),
            };
            match dispatch.push(dj) {
                Ok(_) => Ok(()),
                Err(e) => {
                    proof {
                        assert(false);
                    }
                    Err(e)
                },
            }
        },
    }
}

/// The next job the parse stage enqueues for a successfully processed file:
/// one dispatch job with the same file identity.
pub fn parser_plan(job: &ParserJob) -> (r: DispatchJob)
    ensures
        r.file_path == job.file_path,
        r.file_name == job.file_name,
{
    DispatchJob { file_path: job.file_path.clone(), file_name: job.file_name.clone() }
}

/// The dispatch stage handler: enqueues exactly one analyze job and exactly
/// one translate job for the job's file identity, then completes with no
/// further side effects. No completion is awaited from either downstream
/// consumer.
pub fn dispatch_main(
    analyzer: &mut JobQueue<AnalyzerJob>,
    translator: &mut JobQueue<TranslatorJob>,
    job: &DispatchJob,
) -> (r: Result<(), Error>)
    ensures
        r == Ok::<(), Error>(()),
        final(analyzer)@ == old(analyzer)@.push(
            AnalyzerJob { file_path: job.file_path, file_name: job.file_name },
        ),
        final(translator)@ == old(translator)@.push(
            TranslatorJob { file_path: job.file_path, file_name: job.file_name },
        ),
{
    let aj = AnalyzerJob { file_path: job.file_path.clone(), file_name: job.file_name.clone() };
    match analyzer.push(aj) {
        Ok(_) => {},
        Err(e) => {
            proof {
                assert(false);
            }
            return Err(e);
        },
    }
    let tj = TranslatorJob { file_path: job.file_path.clone(), file_name: job.file_name.clone() };
    match translator.push(tj) {
        Ok(_) => {},
        Err(e) => {
            proof {
                assert(false);
            }
            return Err(e);
        },
    }
    Ok(())
}

/// The fan-out decision of the dispatch stage: the two jobs it enqueues for
/// one dispatched file, both carrying the same file identity.
pub fn dispatch_plan(job: &DispatchJob) -> (r: (AnalyzerJob, TranslatorJob))
    ensures
        r.0.file_path == job.file_path,
        r.0.file_name == job.file_name,
        r.1.file_path == job.file_path,
        r.1.file_name == job.file_name,
{
    (
        AnalyzerJob { file_path: job.file_path.clone(), file_name: job.file_name.clone() },
        TranslatorJob { file_path: job.file_path.clone(), file_name: job.file_name.clone() },
    )
}

/// A bounded pool of workers for one pipeline stage. A worker slot is
/// acquired before a job is handled and released after; acquisition fails,
/// rather than oversubscribes, when every slot is taken.
pub struct WorkerPool {
    concurrency: usize,
    active: usize,
}

impl WorkerPool {
    /// The configured worker concurrency of the stage.
    pub closed spec fn spec_concurrency(&self) -> usize {
        self.concurrency
    }

    /// How many jobs the stage is running now.
    pub closed spec fn spec_active(&self) -> usize {
        self.active
    }

    /// The stage never runs more concurrently-active jobs than its
    /// configured worker concurrency.
    pub open spec fn inv(&self) -> bool {
        self.spec_active() <= self.spec_concurrency()
    }

    /// A fresh, idle pool with the given concurrency.
    pub fn new(concurrency: usize) -> (r: Self)
        ensures
            r.spec_concurrency() == concurrency,
            r.spec_active() == 0,
            r.inv(),
    {
        WorkerPool { concurrency, active: 0 }
    }

    /// Claims a worker slot for one job; fails exactly when the stage is
    /// already running at its configured concurrency.
    pub fn try_acquire(&mut self) -> (ok: bool)
        requires
            old(self).inv(),
        ensures
            final(self).inv(),
            final(self).spec_concurrency() == old(self).spec_concurrency(),
            ok ==> old(self).spec_active() < old(self).spec_concurrency()
                && final(self).spec_active() == old(self).spec_active() + 1,
            !ok ==> final(self).spec_active() == old(self).spec_active() && old(self).spec_active()
                == old(self).spec_concurrency(),
    {
        if self.active < self.concurrency {
            self.active = self.active + 1;
            true
        } else {
            false
        }
    }

    /// Returns a worker slot after its job completed or failed.
    pub fn release(&mut self)
        requires
            old(self).inv(),
            old(self).spec_active() > 0,
        ensures
            final(self).inv(),
            final(self).spec_concurrency() == old(self).spec_concurrency(),
            final(self).spec_active() == old(self).spec_active() - 1,
    {
        self.active = self.active - 1;
    }

    /// How many jobs the stage is running now.
    pub fn active_jobs(&self) -> (n: usize)
        ensures
            n == self.spec_active(),
    {
        self.active
    }

    /// The configured worker concurrency.
    pub fn concurrency(&self) -> (n: usize)
        ensures
            n == self.spec_concurrency(),
    {
        self.concurrency
    }
}

/// No stage ever runs more concurrently-active jobs than its configured
/// worker concurrency: the bound holds of every pool state that `new`,
/// `try_acquire` and `release` can reach, since each establishes or
/// preserves the invariant.
pub proof fn lemma_worker_pool_bounded(p: WorkerPool)
    requires
        p.inv(),
    ensures
        p.spec_active() <= p.spec_concurrency(),
{
}

} // verus!
