//! The batch driver's decision logic: job identities, the deterministic
//! grid order, per-job extraction with isolated failure handling, and
//! the end-of-batch report.
//!
//! Opening files, appending to the output table and printing
//! diagnostics are I/O and live outside the library; everything the
//! driver decides — which jobs exist, in what order, what each job
//! yields, and how a failure is recorded without stopping the batch —
//! is specified and verified here.

use crate::extract::extract_run;
use crate::extract::run_spec;
use crate::extract::ExtractError;
use crate::extract::RunConfig;
use crate::extract::RunConfigV;
use crate::extract::Snapshot;
use crate::extract::SnapshotV;
use crate::split::clean_lines;
use vstd::arithmetic::div_mod::lemma_fundamental_div_mod_converse;
use vstd::prelude::*;

verus! {

/// The job identifier packs the parameter id and the replicate id with
/// a fixed multiplier, matching the source file naming convention.
pub const JOB_ID_MULTIPLIER: u64 = 1000;

/// The identifier of job (p, r).
pub open spec fn job_id_spec(param_id: u64, run_id: u64) -> int {
    param_id * JOB_ID_MULTIPLIER + run_id
}

/// Derives the job identifier of a (parameter, replicate) pair.
pub fn job_id(param_id: u64, run_id: u64) -> (j: u64)
    requires
        job_id_spec(param_id, run_id) <= u64::MAX,
    ensures
        j == job_id_spec(param_id, run_id),
{
    param_id * JOB_ID_MULTIPLIER + run_id
}

/// Everything that can make one job contribute nothing.
#[derive(Clone, Copy, PartialEq, Eq, Structural, Debug)]
pub enum JobError {
    /// The job's source file is missing or unreadable: expected and
    /// common (unrun jobs), never fatal to the batch.
    SourceUnavailable,
    MalformedRow,
    RunIncomplete,
    DivisionByZero,
}

/// The per-job face of a run-level failure.
pub open spec fn job_error_of(e: ExtractError) -> JobError {
    match e {
        ExtractError::MalformedRow => JobError::MalformedRow,
        ExtractError::RunIncomplete => JobError::RunIncomplete,
        ExtractError::DivisionByZero => JobError::DivisionByZero,
    }
}

/// One line of the failure log: which job failed and why.
#[derive(Clone, Copy, PartialEq, Eq, Structural, Debug)]
pub struct Diagnostic {
    pub param_id: u64,
    pub run_id: u64,
    pub job_id: u64,
    pub error: JobError,
}

/// The diagnostic recorded for a job whose source is missing.
pub open spec fn source_unavailable_diag(param_id: u64, run_id: u64) -> Diagnostic {
    Diagnostic {
        param_id,
        run_id,
        job_id: job_id_spec(param_id, run_id) as u64,
        error: JobError::SourceUnavailable,
    }
}

/// Mathematical image of one output row.
pub ghost struct OutputRecordV {
    pub param_id: u64,
    pub run_id: u64,
    pub snap: SnapshotV,
}

/// One row of the aggregated output table: a snapshot tagged with the
/// job that produced it.
#[derive(Debug)]
pub struct OutputRecord {
    pub param_id: u64,
    pub run_id: u64,
    pub snap: Snapshot,
}

impl View for OutputRecord {
    type V = OutputRecordV;

    open spec fn view(&self) -> OutputRecordV {
        OutputRecordV { param_id: self.param_id, run_id: self.run_id, snap: self.snap@ }
    }
}

/// The views of a sequence of output records.
pub open spec fn outs_view(s: Seq<OutputRecord>) -> Seq<OutputRecordV> {
    s.map_values(|x: OutputRecord| x@)
}

/// What one job yields from its source bytes (or their absence): either
/// its tagged snapshot records, or the diagnostic to log.
pub open spec fn job_spec(
    param_id: u64,
    run_id: u64,
    source: Option<Seq<u8>>,
    cfg: RunConfigV,
) -> Result<Seq<OutputRecordV>, Diagnostic> {
    match source {
        None => Err(source_unavailable_diag(param_id, run_id)),
        Some(bytes) => match run_spec(clean_lines(bytes), cfg) {
            Ok(snaps) => Ok(
                Seq::new(
                    snaps.len(),
                    |i: int| OutputRecordV { param_id, run_id, snap: snaps[i] },
                ),
            ),
            Err(e) => Err(
                Diagnostic {
                    param_id,
                    run_id,
                    job_id: job_id_spec(param_id, run_id) as u64,
                    error: job_error_of(e),
                },
            ),
        },
    }
}

/// A job result, viewed.
pub open spec fn job_res_view(r: Result<Vec<OutputRecord>, Diagnostic>) -> Result<
    Seq<OutputRecordV>,
    Diagnostic,
> {
    match r {
        Ok(v) => Ok(outs_view(v@)),
        Err(d) => Err(d),
    }
}

/// Runs one job in isolation: a missing source or any extraction
/// failure becomes a diagnostic naming the job; success becomes the
/// job's tagged snapshot records.  Nothing a job does can affect any
/// other job.
pub fn process_job(
    param_id: u64,
    run_id: u64,
    source: Option<&Vec<u8>>,
    cfg: &RunConfig,
) -> (r: Result<Vec<OutputRecord>, Diagnostic>)
    requires
        cfg@.wf(),
        job_id_spec(param_id, run_id) <= u64::MAX,
    ensures
        job_res_view(r) == job_spec(
            param_id,
            run_id,
            match source {
                Some(b) => Some(b@),
                None => None,
            },
            cfg@,
        ),
{
    let bytes = match source {
        Some(b) => b,
        None => {
            return Err(
                Diagnostic {
                    param_id,
                    run_id,
                    job_id: job_id(param_id, run_id),
                    error: JobError::SourceUnavailable,
                },
            );
        },
    };
    match extract_run(bytes, cfg) {
        Err(e) => {
            let err = match e {
                ExtractError::MalformedRow => JobError::MalformedRow,
                ExtractError::RunIncomplete => JobError::RunIncomplete,
                ExtractError::DivisionByZero => JobError::DivisionByZero,
            };
            Err(Diagnostic { param_id, run_id, job_id: job_id(param_id, run_id), error: err })
        },
        Ok(snaps) => {
            let ghost orig = snaps@;
            let mut snaps = snaps;
            let mut out: Vec<OutputRecord> = Vec::new();
            while snaps.len() > 0
                invariant
                    out@.len() + snaps@.len() == orig.len(),
                    forall|j: int|
                        0 <= j < snaps@.len() ==> snaps@[j] == orig[out@.len() + j],
                    forall|j: int|
                        0 <= j < out@.len() ==> #[trigger] out@[j]@ == (OutputRecordV {
                            param_id,
                            run_id,
                            snap: orig[j]@,
                        }),
                decreases snaps@.len(),
            {
                let s = snaps.remove(0);
                out.push(OutputRecord { param_id, run_id, snap: s });
            }
            proof {
                let snaps_v = run_spec(clean_lines(bytes@), cfg@).unwrap();
                assert(snaps_v =~= orig.map_values(|x: Snapshot| x@));
                assert(outs_view(out@) =~= Seq::new(
                    snaps_v.len(),
                    |i: int| OutputRecordV { param_id, run_id, snap: snaps_v[i] },
                ));
            }
            Ok(out)
        },
    }
}

/// The full parameter x replicate grid in its processing order:
/// ascending parameter id, then ascending replicate id.  Entry k is
/// exactly (param_from + k / n_runs, k % n_runs), which makes the order
/// (and hence the output) reproducible.
pub fn grid_jobs(param_from: u64, param_to: u64, n_runs: u64) -> (jobs: Vec<(u64, u64)>)
    requires
        param_from <= param_to,
        (param_to - param_from) * n_runs <= usize::MAX,
    ensures
        jobs@.len() == (param_to - param_from) * n_runs,
        forall|k: int|
            0 <= k < jobs@.len() ==> #[trigger] jobs@[k] == (
                (param_from + k / (n_runs as int)) as u64,
                (k % (n_runs as int)) as u64,
            ),
{
    let mut jobs: Vec<(u64, u64)> = Vec::new();
    if n_runs == 0 {
        proof {
            assert((param_to - param_from) * n_runs == 0) by (nonlinear_arith)
                requires n_runs == 0,
            ;
        }
        return jobs;
    }
    let mut p = param_from;
    while p < param_to
        invariant
            param_from <= p <= param_to,
            n_runs > 0,
            (param_to - param_from) * n_runs <= usize::MAX,
            jobs@.len() == (p - param_from) * n_runs,
            forall|k: int|
                0 <= k < jobs@.len() ==> #[trigger] jobs@[k] == (
                    (param_from + k / (n_runs as int)) as u64,
                    (k % (n_runs as int)) as u64,
                ),
        decreases param_to - p,
    {
        proof {
            assert((p - param_from) * n_runs + n_runs == (p + 1 - param_from) * n_runs)
                by (nonlinear_arith);
            assert((p + 1 - param_from) * n_runs <= (param_to - param_from) * n_runs)
                by (nonlinear_arith)
                requires p < param_to, n_runs > 0,
            ;
        }
        let mut r: u64 = 0;
        while r < n_runs
            invariant
                0 <= r <= n_runs,
                param_from <= p < param_to,
                n_runs > 0,
                (p + 1 - param_from) * n_runs <= usize::MAX,
                jobs@.len() == (p - param_from) * n_runs + r,
                forall|k: int|
                    0 <= k < jobs@.len() ==> #[trigger] jobs@[k] == (
                        (param_from + k / (n_runs as int)) as u64,
                        (k % (n_runs as int)) as u64,
                    ),
            decreases n_runs - r,
        {
            let ghost k = jobs@.len() as int;
            jobs.push((p, r));
            proof {
                lemma_fundamental_div_mod_converse(
                    k,
                    n_runs as int,
                    (p - param_from) as int,
                    r as int,
                );
                assert(jobs@[k] == ((param_from + k / (n_runs as int)) as u64, (k % (
                n_runs as int)) as u64));
            }
            r = r + 1;
        }
        p = p + 1;
    }
    jobs
}

/// The sources of a job list, viewed.
pub open spec fn srcs_view(s: Seq<Option<Vec<u8>>>) -> Seq<Option<Seq<u8>>> {
    s.map_values(
        |o: Option<Vec<u8>>|
            match o {
                Some(v) => Some(v@),
                None => None,
            },
    )
}

/// The output rows of a whole batch: each job's records in job order,
/// failed jobs contributing nothing.
pub open spec fn batch_recs(
    jobs: Seq<(u64, u64)>,
    srcs: Seq<Option<Seq<u8>>>,
    cfg: RunConfigV,
) -> Seq<OutputRecordV>
    decreases jobs.len(),
{
    if jobs.len() == 0 {
        Seq::empty()
    } else {
        let prev = batch_recs(jobs.drop_last(), srcs.drop_last(), cfg);
        match job_spec(jobs.last().0, jobs.last().1, srcs.last(), cfg) {
            Ok(rs) => prev + rs,
            Err(_) => prev,
        }
    }
}

/// The failure log of a whole batch: one diagnostic per failed job, in
/// job order.
pub open spec fn batch_diags(
    jobs: Seq<(u64, u64)>,
    srcs: Seq<Option<Seq<u8>>>,
    cfg: RunConfigV,
) -> Seq<Diagnostic>
    decreases jobs.len(),
{
    if jobs.len() == 0 {
        Seq::empty()
    } else {
        let prev = batch_diags(jobs.drop_last(), srcs.drop_last(), cfg);
        match job_spec(jobs.last().0, jobs.last().1, srcs.last(), cfg) {
            Ok(_) => prev,
            Err(d) => prev.push(d),
        }
    }
}

/// The end-of-batch summary: how many jobs ran, succeeded and failed.
#[derive(Clone, Copy, PartialEq, Eq, Structural, Debug)]
pub struct BatchReport {
    pub total: usize,
    pub succeeded: usize,
    pub failed: usize,
}

/// Runs a whole batch over in-memory sources (one optional byte vector
/// per job, aligned with the job list): yields every successful job's
/// tagged records in deterministic job order, the failure log, and the
/// summary report.  A failing job never disturbs any other job.
pub fn run_batch(
    jobs: &Vec<(u64, u64)>,
    sources: &Vec<Option<Vec<u8>>>,
    cfg: &RunConfig,
) -> (r: (Vec<OutputRecord>, Vec<Diagnostic>, BatchReport))
    requires
        cfg@.wf(),
        jobs@.len() == sources@.len(),
        forall|k: int|
            0 <= k < jobs@.len() ==> job_id_spec((#[trigger] jobs@[k]).0, jobs@[k].1)
                <= u64::MAX,
    ensures
        outs_view(r.0@) == batch_recs(jobs@, srcs_view(sources@), cfg@),
        r.1@ == batch_diags(jobs@, srcs_view(sources@), cfg@),
        r.2.total == jobs@.len(),
        r.2.failed == r.1@.len(),
        r.2.succeeded + r.2.failed == r.2.total,
{
    let ghost srcs = srcs_view(sources@);
    let mut recs: Vec<OutputRecord> = Vec::new();
    let mut diags: Vec<Diagnostic> = Vec::new();
    let mut succeeded: usize = 0;
    let mut i: usize = 0;
    proof {
        assert(jobs@.subrange(0, 0) =~= Seq::<(u64, u64)>::empty());
        assert(srcs.subrange(0, 0) =~= Seq::<Option<Seq<u8>>>::empty());
        assert(outs_view(recs@) =~= Seq::<OutputRecordV>::empty());
    }
    while i < jobs.len()
        invariant
            0 <= i <= jobs@.len(),
            jobs@.len() == sources@.len(),
            srcs == srcs_view(sources@),
            outs_view(recs@) == batch_recs(jobs@.subrange(0, i as int), srcs.subrange(0, i as int), cfg@),
            diags@ == batch_diags(jobs@.subrange(0, i as int), srcs.subrange(0, i as int), cfg@),
            succeeded + diags@.len() == i,
        decreases jobs@.len() - i,
    {
        let (param_id, run_id) = jobs[i];
        let src: Option<&Vec<u8>> = match &sources[i] {
            Some(b) => Some(b),
            None => None,
        };
        let ghost old_recs = recs@;
        let ghost old_diags = diags@;
        let outcome = process_job(param_id, run_id, src, cfg);
        match outcome {
            Ok(mut rs) => {
                let ghost rsv = rs@;
                succeeded = succeeded + 1;
                recs.append(&mut rs);
                proof {
                    assert(outs_view(recs@) =~= outs_view(old_recs) + outs_view(rsv));
                }
            },
            Err(d) => {
                diags.push(d);
            },
        }
        proof {
            let pj = jobs@.subrange(0, i + 1);
            let ps = srcs.subrange(0, i + 1);
            assert(pj.drop_last() =~= jobs@.subrange(0, i as int));
            assert(ps.drop_last() =~= srcs.subrange(0, i as int));
            assert(pj.last() == jobs@[i as int]);
            assert(ps.last() == srcs[i as int]);
            assert(srcs[i as int] == match sources@[i as int] {
                Some(v) => Some(v@),
                None => None::<Seq<u8>>,
            });
        }
        i = i + 1;
    }
    proof {
        assert(jobs@.subrange(0, jobs@.len() as int) =~= jobs@);
        assert(srcs.subrange(0, srcs.len() as int) =~= srcs);
    }
    let report = BatchReport { total: jobs.len(), succeeded, failed: diags.len() };
    (recs, diags, report)
}

/// A missing source is perfectly isolated: the batch logs exactly one
/// `SourceUnavailable` diagnostic for that job and contributes zero
/// rows for it, while every other job is processed exactly as it would
/// be in a batch without the missing job.
pub proof fn lemma_missing_source_isolated(
    jobs: Seq<(u64, u64)>,
    srcs: Seq<Option<Seq<u8>>>,
    cfg: RunConfigV,
    k: int,
)
    requires
        jobs.len() == srcs.len(),
        0 <= k < jobs.len(),
        srcs[k] is None,
    ensures
        batch_diags(jobs, srcs, cfg).contains(
            source_unavailable_diag(jobs[k].0, jobs[k].1),
        ),
        batch_recs(jobs, srcs, cfg) == batch_recs(jobs.remove(k), srcs.remove(k), cfg),
    decreases jobs.len(),
{
    let d = source_unavailable_diag(jobs[k].0, jobs[k].1);
    if k == jobs.len() - 1 {
        assert(jobs.remove(k) =~= jobs.drop_last());
        assert(srcs.remove(k) =~= srcs.drop_last());
        assert(job_spec(jobs.last().0, jobs.last().1, srcs.last(), cfg) == Err::<
            Seq<OutputRecordV>,
            Diagnostic,
        >(d));
        let prev_d = batch_diags(jobs.drop_last(), srcs.drop_last(), cfg);
        assert(batch_diags(jobs, srcs, cfg) == prev_d.push(d));
        assert(batch_diags(jobs, srcs, cfg)[prev_d.len() as int] == d);
    } else {
        lemma_missing_source_isolated(jobs.drop_last(), srcs.drop_last(), cfg, k);
        assert(jobs.remove(k).drop_last() =~= jobs.drop_last().remove(k));
        assert(srcs.remove(k).drop_last() =~= srcs.drop_last().remove(k));
        assert(jobs.remove(k).last() == jobs.last());
        assert(srcs.remove(k).last() == srcs.last());
        let prev_d = batch_diags(jobs.drop_last(), srcs.drop_last(), cfg);
        assert(prev_d.contains(d));
        let j = choose|j: int| 0 <= j < prev_d.len() && prev_d[j] == d;
        match job_spec(jobs.last().0, jobs.last().1, srcs.last(), cfg) {
            Ok(_) => {
                assert(batch_diags(jobs, srcs, cfg) == prev_d);
            },
            Err(dd) => {
                assert(batch_diags(jobs, srcs, cfg) == prev_d.push(dd));
                assert(batch_diags(jobs, srcs, cfg)[j] == d);
            },
        }
    }
}

/// Decimal digits of a number, most significant first.
pub open spec fn dec_digits(n: nat) -> Seq<u8>
    decreases n,
{
    if n < 10 {
        seq![(48 + n) as u8]
    } else {
        dec_digits(n / 10).push((48 + n % 10) as u8)
    }
}

/// `monthly_data_` — the source file name prefix.
pub open spec fn file_name_prefix() -> Seq<u8> {
    seq![109u8, 111u8, 110u8, 116u8, 104u8, 108u8, 121u8, 95u8, 100u8, 97u8, 116u8, 97u8, 95u8]
}

/// `.txt` — the source file name suffix.
pub open spec fn file_name_suffix() -> Seq<u8> {
    seq![46u8, 116u8, 120u8, 116u8]
}

/// The file name a job's source is stored under within the source root.
pub open spec fn file_name_spec(job: nat) -> Seq<u8> {
    file_name_prefix() + dec_digits(job) + file_name_suffix()
}

/// Writes a number in decimal.
pub fn format_u64(n: u64) -> (r: Vec<u8>)
    ensures
        r@ == dec_digits(n as nat),
    decreases n,
{
    if n < 10 {
        let mut v: Vec<u8> = Vec::new();
        v.push(48 + n as u8);
        proof {
            assert(v@ =~= seq![(48 + n) as u8]);
        }
        v
    } else {
        let mut v = format_u64(n / 10);
        v.push(48 + (n % 10) as u8);
        v
    }
}

/// The name of the source file of a job, `monthly_data_<job id>.txt`.
pub fn source_file_name(job: u64) -> (r: Vec<u8>)
    ensures
        r@ == file_name_spec(job as nat),
{
    let mut v: Vec<u8> = Vec::new();
    v.push(109);
    v.push(111);
    v.push(110);
    v.push(116);
    v.push(104);
    v.push(108);
    v.push(121);
    v.push(95);
    v.push(100);
    v.push(97);
    v.push(116);
    v.push(97);
    v.push(95);
    proof {
        assert(v@ =~= file_name_prefix());
    }
    let mut digits = format_u64(job);
    v.append(&mut digits);
    v.push(46);
    v.push(116);
    v.push(120);
    v.push(116);
    proof {
        assert(v@ =~= file_name_spec(job as nat));
    }
    v
}

} // verus!
