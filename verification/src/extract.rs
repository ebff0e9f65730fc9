//! The run extractor: a state machine over the daily record stream of
//! one simulation run.
//!
//! Scanning the stream in order, every record dated the first of January
//! is an annual snapshot boundary: the genotype vector is normalised
//! into one frequency per configured marker and the cumulative failure
//! counts are rescaled to per-100-population rates.  A record carrying
//! the configured terminal date completes the run; it marks completion
//! only and is not itself a snapshot.  If the stream ends while still
//! scanning, the run is incomplete and yields no snapshots at all; a
//! malformed row or a snapshot with zero total genotype mass (or zero
//! population) also fails the whole run.  Failures never cross run
//! boundaries.

use crate::markers::masked_sum;
use crate::markers::masked_sum_exec;
use crate::markers::sum_all;
use crate::markers::lemma_masked_le_sum;
use crate::markers::lemma_sum_all_bound;
use crate::markers::sum_all_exec;
use crate::numeric::Ratio;
use crate::rows::parse_row;
use crate::rows::parse_row_spec;
use crate::rows::DailyRecord;
use crate::rows::DailyRecordV;
use crate::rows::Schema;
use crate::rows::default_schema;
use crate::split::clean_lines;
use crate::split::clean_lines_exec;
use crate::split::views;
use crate::LOCUS_COUNT;
use vstd::prelude::*;

verus! {

/// Why a single run yields no output.
#[derive(Clone, Copy, PartialEq, Eq, Structural, Debug)]
pub enum ExtractError {
    /// A consumed line was missing a field or held a non-numeric field.
    MalformedRow,
    /// The stream ended before the terminal date was observed.
    RunIncomplete,
    /// A snapshot with zero total genotype mass or zero population;
    /// surfaced as a defect signal rather than silently normalised.
    DivisionByZero,
}

/// Extraction parameters: the row schema, the epoch year that year
/// offsets are measured from, the terminal date a complete run must
/// reach, and the bit position of every reported marker.
pub struct RunConfig {
    pub schema: Schema,
    pub epoch_year: u32,
    pub terminal_year: u32,
    pub terminal_month: u32,
    pub terminal_day: u32,
    pub marker_bits: Vec<u32>,
}

/// Mathematical image of a run configuration.
pub ghost struct RunConfigV {
    pub schema: Schema,
    pub epoch_year: u32,
    pub terminal_year: u32,
    pub terminal_month: u32,
    pub terminal_day: u32,
    pub marker_bits: Seq<u32>,
}

impl RunConfigV {
    pub open spec fn wf(self) -> bool {
        self.schema.wf() && forall|k: int|
            0 <= k < self.marker_bits.len() ==> self.marker_bits[k] < LOCUS_COUNT
    }
}

impl View for RunConfig {
    type V = RunConfigV;

    open spec fn view(&self) -> RunConfigV {
        RunConfigV {
            schema: self.schema,
            epoch_year: self.epoch_year,
            terminal_year: self.terminal_year,
            terminal_month: self.terminal_month,
            terminal_day: self.terminal_day,
            marker_bits: self.marker_bits@,
        }
    }
}

/// The configuration of the reference study: default schema, epoch year
/// 2022, terminal date 2027-01-01, and the four reported markers bound
/// to bits 2 (c580y), 1 (plas), 0 (kaf/oz) and 5 (mdr2).
pub fn default_config() -> (cfg: RunConfig)
    ensures
        cfg@.wf(),
        cfg.schema == (Schema {
            year_col: 2,
            month_col: 3,
            day_col: 4,
            pfpr_col: 16,
            population_col: 8,
            ntf_col: 23,
            tf_col: 24,
            genotype0_col: 29,
        }),
        cfg.epoch_year == 2022,
        cfg.terminal_year == 2027,
        cfg.terminal_month == 1,
        cfg.terminal_day == 1,
        cfg.marker_bits@ == seq![2u32, 1u32, 0u32, 5u32],
{
    let mut marker_bits: Vec<u32> = Vec::new();
    marker_bits.push(2);
    marker_bits.push(1);
    marker_bits.push(0);
    marker_bits.push(5);
    proof {
        assert(marker_bits@ =~= seq![2u32, 1u32, 0u32, 5u32]);
    }
    RunConfig {
        schema: default_schema(),
        epoch_year: 2022,
        terminal_year: 2027,
        terminal_month: 1,
        terminal_day: 1,
        marker_bits,
    }
}

/// Mathematical image of one snapshot record.
pub ghost struct SnapshotV {
    pub year_offset: i64,
    pub pfpr: u64,
    pub freqs: Seq<Ratio>,
    pub ntf_rate: Ratio,
    pub tf_rate: Ratio,
}

/// One row of the extraction output for a run: the year offset from the
/// epoch, the prevalence, one normalised frequency per configured
/// marker, and the two per-100-population failure rates.
#[derive(Debug)]
pub struct Snapshot {
    pub year_offset: i64,
    pub pfpr: u64,
    pub freqs: Vec<Ratio>,
    pub ntf_rate: Ratio,
    pub tf_rate: Ratio,
}

impl View for Snapshot {
    type V = SnapshotV;

    open spec fn view(&self) -> SnapshotV {
        SnapshotV {
            year_offset: self.year_offset,
            pfpr: self.pfpr,
            freqs: self.freqs@,
            ntf_rate: self.ntf_rate,
            tf_rate: self.tf_rate,
        }
    }
}

/// An annual snapshot boundary: the first of January.
pub open spec fn is_boundary(rec: DailyRecordV) -> bool {
    rec.month == 1 && rec.day == 1
}

/// The record that completes a run.
pub open spec fn is_terminal(rec: DailyRecordV, cfg: RunConfigV) -> bool {
    rec.year == cfg.terminal_year && rec.month == cfg.terminal_month && rec.day
        == cfg.terminal_day
}

/// A snapshot normalises only when the genotype mass and the population
/// are both positive.
pub open spec fn snap_defined(rec: DailyRecordV) -> bool {
    sum_all(rec.genotypes) > 0 && rec.population > 0
}

/// The snapshot taken from one boundary record: each marker frequency is
/// the exact ratio of the marker's mass to the total mass, and each rate
/// is the exact ratio of the cumulative count times 100 to the
/// population.
pub open spec fn snap_of(rec: DailyRecordV, cfg: RunConfigV) -> SnapshotV {
    SnapshotV {
        year_offset: (rec.year - cfg.epoch_year) as i64,
        pfpr: rec.pfpr,
        freqs: Seq::new(
            cfg.marker_bits.len(),
            |k: int|
                Ratio {
                    num: masked_sum(rec.genotypes, cfg.marker_bits[k] as nat) as u128,
                    den: sum_all(rec.genotypes) as u128,
                },
        ),
        ntf_rate: Ratio { num: (rec.ntf * 100) as u128, den: rec.population as u128 },
        tf_rate: Ratio { num: (rec.tf * 100) as u128, den: rec.population as u128 },
    }
}

/// The run state machine over the logical lines of a source file.
/// Scanning from the front: a line that fails to parse fails the run; a
/// terminal record completes it with the snapshots collected so far
/// (the terminal record emits nothing); any other first-of-January
/// record contributes a snapshot, failing the run if it cannot be
/// normalised; all other records are skipped.  An exhausted stream is an
/// incomplete run, which carries no snapshots at all.
pub open spec fn run_spec(lines: Seq<Seq<u8>>, cfg: RunConfigV) -> Result<
    Seq<SnapshotV>,
    ExtractError,
>
    decreases lines.len(),
{
    if lines.len() == 0 {
        Err(ExtractError::RunIncomplete)
    } else {
        match parse_row_spec(lines[0], cfg.schema) {
            None => Err(ExtractError::MalformedRow),
            Some(rec) => {
                if is_terminal(rec, cfg) {
                    Ok(Seq::empty())
                } else if is_boundary(rec) {
                    if !snap_defined(rec) {
                        Err(ExtractError::DivisionByZero)
                    } else {
                        match run_spec(lines.drop_first(), cfg) {
                            Ok(rest) => Ok(seq![snap_of(rec, cfg)] + rest),
                            Err(e) => Err(e),
                        }
                    }
                } else {
                    run_spec(lines.drop_first(), cfg)
                }
            },
        }
    }
}

/// The views of a sequence of snapshots.
pub open spec fn snaps_view(s: Seq<Snapshot>) -> Seq<SnapshotV> {
    s.map_values(|x: Snapshot| x@)
}

/// A result of snapshots, viewed.
pub open spec fn extract_res_view(r: Result<Vec<Snapshot>, ExtractError>) -> Result<
    Seq<SnapshotV>,
    ExtractError,
> {
    match r {
        Ok(v) => Ok(snaps_view(v@)),
        Err(e) => Err(e),
    }
}

/// Already-collected snapshots prepended to the outcome of the rest of
/// the stream.
pub open spec fn prepend_res(acc: Seq<SnapshotV>, r: Result<Seq<SnapshotV>, ExtractError>)
    -> Result<Seq<SnapshotV>, ExtractError> {
    match r {
        Ok(rest) => Ok(acc + rest),
        Err(e) => Err(e),
    }
}

/// Computes the snapshot of one boundary record, or reports that it has
/// no defined normalisation.
fn make_snapshot(rec: &DailyRecord, cfg: &RunConfig) -> (r: Option<Snapshot>)
    requires
        cfg@.wf(),
        rec@.wf(),
    ensures
        match r {
            Some(s) => snap_defined(rec@) && s@ == snap_of(rec@, cfg@),
            None => !snap_defined(rec@),
        },
{
    let total = sum_all_exec(&rec.genotypes);
    if total == 0 {
        return None;
    }
    if rec.population == 0 {
        return None;
    }
    let mut freqs: Vec<Ratio> = Vec::new();
    let mut k: usize = 0;
    while k < cfg.marker_bits.len()
        invariant
            0 <= k <= cfg.marker_bits@.len(),
            freqs@.len() == k,
            forall|j: int|
                0 <= j < k ==> freqs@[j] == (Ratio {
                    num: masked_sum(rec@.genotypes, cfg.marker_bits@[j] as nat) as u128,
                    den: sum_all(rec@.genotypes) as u128,
                }),
        decreases cfg.marker_bits@.len() - k,
    {
        let bit = cfg.marker_bits[k];
        let num = masked_sum_exec(&rec.genotypes, bit);
        freqs.push(Ratio { num, den: total });
        k = k + 1;
    }
    let snap = Snapshot {
        year_offset: rec.year as i64 - cfg.epoch_year as i64,
        pfpr: rec.pfpr,
        freqs,
        ntf_rate: Ratio { num: (rec.ntf as u128) * 100, den: rec.population as u128 },
        tf_rate: Ratio { num: (rec.tf as u128) * 100, den: rec.population as u128 },
    };
    proof {
        assert(snap@.freqs =~= snap_of(rec@, cfg@).freqs);
        assert(snap@ == snap_of(rec@, cfg@));
    }
    Some(snap)
}

/// Extracts the snapshot records of one run from the raw bytes of its
/// source file.  The result is exactly what the run state machine
/// (`run_spec`) yields on the file's logical lines: all annual
/// snapshots if the run reaches the terminal date, or the first failure
/// otherwise — an incomplete run never yields partial output.
pub fn extract_run(data: &Vec<u8>, cfg: &RunConfig) -> (r: Result<Vec<Snapshot>, ExtractError>)
    requires
        cfg@.wf(),
    ensures
        extract_res_view(r) == run_spec(clean_lines(data@), cfg@),
{
    let lines = clean_lines_exec(data);
    let ghost lsv = clean_lines(data@);
    let mut acc: Vec<Snapshot> = Vec::new();
    let mut i: usize = 0;
    proof {
        assert(lsv.subrange(0, lsv.len() as int) =~= lsv);
        assert(snaps_view(acc@) =~= Seq::<SnapshotV>::empty());
        if run_spec(lsv, cfg@) is Ok {
            assert(snaps_view(acc@) + run_spec(lsv, cfg@).unwrap() =~= run_spec(
                lsv,
                cfg@,
            ).unwrap());
        }
    }
    while i < lines.len()
        invariant
            0 <= i <= lines@.len(),
            views(lines@) == lsv,
            prepend_res(snaps_view(acc@), run_spec(lsv.subrange(i as int, lsv.len() as int), cfg@))
                == run_spec(lsv, cfg@),
        decreases lines@.len() - i,
    {
        let ghost suffix = lsv.subrange(i as int, lsv.len() as int);
        proof {
            assert(suffix[0] == lsv[i as int]);
            assert(suffix.drop_first() =~= lsv.subrange(i + 1, lsv.len() as int));
            assert(lines@[i as int]@ == lsv[i as int]);
        }
        let rec = match parse_row(&lines[i], &cfg.schema) {
            Some(rec) => rec,
            None => {
                return Err(ExtractError::MalformedRow);
            },
        };
        if rec.year == cfg.terminal_year && rec.month == cfg.terminal_month && rec.day
            == cfg.terminal_day {
            proof {
                assert(snaps_view(acc@) + Seq::<SnapshotV>::empty() =~= snaps_view(acc@));
            }
            return Ok(acc);
        }
        if rec.month == 1 && rec.day == 1 {
            let snap = match make_snapshot(&rec, cfg) {
                Some(snap) => snap,
                None => {
                    return Err(ExtractError::DivisionByZero);
                },
            };
            let ghost old_acc = acc@;
            acc.push(snap);
            proof {
                assert(snaps_view(acc@) =~= snaps_view(old_acc).push(snap@));
                if run_spec(suffix.drop_first(), cfg@) is Ok {
                    let rest = run_spec(suffix.drop_first(), cfg@).unwrap();
                    assert(snaps_view(old_acc) + (seq![snap_of(rec@, cfg@)] + rest)
                        =~= snaps_view(acc@) + rest);
                }
            }
        }
        i = i + 1;
    }
    proof {
        assert(lsv.subrange(lsv.len() as int, lsv.len() as int) =~= Seq::<Seq<u8>>::empty());
    }
    Err(ExtractError::RunIncomplete)
}

/// Every normalised marker frequency of a defined snapshot lies in
/// [0, 1]: its numerator (the marker's mass) never exceeds its positive
/// denominator (the total mass).
pub proof fn lemma_snapshot_freqs_normalised(rec: DailyRecordV, cfg: RunConfigV, k: int)
    requires
        rec.wf(),
        snap_defined(rec),
        0 <= k < cfg.marker_bits.len(),
    ensures
        snap_of(rec, cfg).freqs[k].wf(),
        snap_of(rec, cfg).freqs[k].num <= snap_of(rec, cfg).freqs[k].den,
{
    lemma_masked_le_sum(rec.genotypes, cfg.marker_bits[k] as nat);
    lemma_sum_all_bound(rec.genotypes);
}

/// The years of the boundary records a scan visits before completion,
/// in stream order.  Meaningful for streams whose visited lines all
/// parse (otherwise the scan stops early anyway).
pub open spec fn boundary_years(lines: Seq<Seq<u8>>, cfg: RunConfigV) -> Seq<u32>
    decreases lines.len(),
{
    if lines.len() == 0 {
        Seq::empty()
    } else {
        match parse_row_spec(lines[0], cfg.schema) {
            None => Seq::empty(),
            Some(rec) => {
                if is_terminal(rec, cfg) {
                    Seq::empty()
                } else if is_boundary(rec) {
                    seq![rec.year] + boundary_years(lines.drop_first(), cfg)
                } else {
                    boundary_years(lines.drop_first(), cfg)
                }
            },
        }
    }
}

/// A completed run yields exactly one snapshot per boundary record
/// visited before the terminal date, in stream order, each offset by
/// the epoch year.
pub proof fn lemma_snapshot_offsets(lines: Seq<Seq<u8>>, cfg: RunConfigV)
    requires
        run_spec(lines, cfg) is Ok,
    ensures
        run_spec(lines, cfg).unwrap().len() == boundary_years(lines, cfg).len(),
        forall|j: int|
            0 <= j < boundary_years(lines, cfg).len()
                ==> #[trigger] run_spec(lines, cfg).unwrap()[j].year_offset
                == boundary_years(lines, cfg)[j] - cfg.epoch_year,
    decreases lines.len(),
{
    if lines.len() > 0 {
        let rec = parse_row_spec(lines[0], cfg.schema).unwrap();
        if !is_terminal(rec, cfg) {
            lemma_snapshot_offsets(lines.drop_first(), cfg);
        }
    }
}

/// A run that reaches the terminal date over a stream whose boundary
/// records are exactly one first-of-January per calendar year from the
/// epoch up to (excluding) the terminal year yields one snapshot per
/// year, with year offsets forming the contiguous ascending sequence
/// 0, 1, 2, ... from the epoch.
pub proof fn lemma_complete_run_contiguous(lines: Seq<Seq<u8>>, cfg: RunConfigV)
    requires
        cfg.epoch_year <= cfg.terminal_year,
        run_spec(lines, cfg) is Ok,
        boundary_years(lines, cfg) == Seq::new(
            (cfg.terminal_year - cfg.epoch_year) as nat,
            |j: int| (cfg.epoch_year + j) as u32,
        ),
    ensures
        run_spec(lines, cfg).unwrap().len() == cfg.terminal_year - cfg.epoch_year,
        forall|j: int|
            0 <= j < run_spec(lines, cfg).unwrap().len()
                ==> #[trigger] run_spec(lines, cfg).unwrap()[j].year_offset == j,
{
    lemma_snapshot_offsets(lines, cfg);
}

/// A run completes only by observing the terminal date: a scan that
/// yields snapshots saw a record carrying it.
pub proof fn lemma_ok_reaches_terminal(lines: Seq<Seq<u8>>, cfg: RunConfigV)
    requires
        run_spec(lines, cfg) is Ok,
    ensures
        exists|j: int|
            0 <= j < lines.len() && (#[trigger] parse_row_spec(lines[j], cfg.schema)).is_some()
                && is_terminal(parse_row_spec(lines[j], cfg.schema).unwrap(), cfg),
    decreases lines.len(),
{
    let rec = parse_row_spec(lines[0], cfg.schema).unwrap();
    if !is_terminal(rec, cfg) {
        lemma_ok_reaches_terminal(lines.drop_first(), cfg);
        let j = choose|j: int|
            0 <= j < lines.drop_first().len() && (#[trigger] parse_row_spec(
                lines.drop_first()[j],
                cfg.schema,
            )).is_some() && is_terminal(
                parse_row_spec(lines.drop_first()[j], cfg.schema).unwrap(),
                cfg,
            );
        assert(lines[j + 1] == lines.drop_first()[j]);
    }
}

/// A stream that never reaches the terminal date yields no snapshots:
/// provided every line parses and every boundary record normalises, the
/// outcome is exactly `RunIncomplete` — which carries no records, even
/// if boundaries had already been matched.
pub proof fn lemma_incomplete_run(lines: Seq<Seq<u8>>, cfg: RunConfigV)
    requires
        forall|j: int|
            0 <= j < lines.len() ==> (#[trigger] parse_row_spec(lines[j], cfg.schema)).is_some(),
        forall|j: int|
            0 <= j < lines.len() ==> !is_terminal(
                parse_row_spec(lines[j], cfg.schema).unwrap(),
                cfg,
            ),
        forall|j: int|
            0 <= j < lines.len() ==> (is_boundary(parse_row_spec(lines[j], cfg.schema).unwrap())
                ==> snap_defined(parse_row_spec(lines[j], cfg.schema).unwrap())),
    ensures
        run_spec(lines, cfg) == Err::<Seq<SnapshotV>, ExtractError>(ExtractError::RunIncomplete),
    decreases lines.len(),
{
    if lines.len() > 0 {
        assert(parse_row_spec(lines[0], cfg.schema).is_some());
        assert(forall|j: int|
            0 <= j < lines.drop_first().len() ==> lines.drop_first()[j] == lines[j + 1]);
        lemma_incomplete_run(lines.drop_first(), cfg);
    }
}

} // verus!
