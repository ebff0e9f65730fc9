//! The row model: one tab-delimited line of a source file parsed into a
//! daily record.
//!
//! Column positions are not scattered constants but an explicit schema
//! value, so a source variant with different offsets is data, not code.
//! A line parses only if every field the extraction consumes is present
//! and numeric; anything else is a malformed row, which invalidates the
//! containing run (but never the batch).

use crate::numeric::dec_spec;
use crate::numeric::parse_dec_field;
use crate::numeric::parse_u32_field;
use crate::numeric::u32_digits_spec;
use crate::split::split_bytes;
use crate::split::split_bytes_exec;
use crate::split::TAB;
use crate::GENOTYPE_COUNT;
use vstd::prelude::*;

verus! {

/// Field positions of one source layout.
#[derive(Clone, Copy, PartialEq, Eq, Structural, Debug)]
pub struct Schema {
    pub year_col: usize,
    pub month_col: usize,
    pub day_col: usize,
    pub pfpr_col: usize,
    pub population_col: usize,
    pub ntf_col: usize,
    pub tf_col: usize,
    pub genotype0_col: usize,
}

impl Schema {
    /// The genotype block must fit in an addressable row.
    pub open spec fn wf(self) -> bool {
        self.genotype0_col + GENOTYPE_COUNT <= usize::MAX
    }

    /// Whether a row of `n` fields holds every consumed position.
    pub open spec fn row_len_ok(self, n: int) -> bool {
        n > self.year_col && n > self.month_col && n > self.day_col && n > self.pfpr_col && n
            > self.population_col && n > self.ntf_col && n > self.tf_col && n
            >= self.genotype0_col + GENOTYPE_COUNT
    }
}

/// The layout written by the simulation: tab-delimited, no header, date
/// parts at positions 2..4, population at 8, prevalence at 16,
/// cumulative failure counts at 23 and 24, and the 128 genotype
/// frequencies contiguous from position 29.
pub fn default_schema() -> (s: Schema)
    ensures
        s == (Schema {
            year_col: 2,
            month_col: 3,
            day_col: 4,
            pfpr_col: 16,
            population_col: 8,
            ntf_col: 23,
            tf_col: 24,
            genotype0_col: 29,
        }),
        s.wf(),
{
    Schema {
        year_col: 2,
        month_col: 3,
        day_col: 4,
        pfpr_col: 16,
        population_col: 8,
        ntf_col: 23,
        tf_col: 24,
        genotype0_col: 29,
    }
}

/// Mathematical image of one parsed line.
pub ghost struct DailyRecordV {
    pub year: u32,
    pub month: u32,
    pub day: u32,
    pub pfpr: u64,
    pub population: u64,
    pub ntf: u64,
    pub tf: u64,
    pub genotypes: Seq<u64>,
}

impl DailyRecordV {
    pub open spec fn wf(self) -> bool {
        self.genotypes.len() == GENOTYPE_COUNT
    }
}

/// One parsed line: date parts, population size, prevalence, cumulative
/// non-treated-failure and treatment-failure counts, and the genotype
/// frequency vector.  All decimal quantities are scaled by
/// `numeric::SCALE`.
pub struct DailyRecord {
    pub year: u32,
    pub month: u32,
    pub day: u32,
    pub pfpr: u64,
    pub population: u64,
    pub ntf: u64,
    pub tf: u64,
    pub genotypes: Vec<u64>,
}

impl View for DailyRecord {
    type V = DailyRecordV;

    open spec fn view(&self) -> DailyRecordV {
        DailyRecordV {
            year: self.year,
            month: self.month,
            day: self.day,
            pfpr: self.pfpr,
            population: self.population,
            ntf: self.ntf,
            tf: self.tf,
            genotypes: self.genotypes@,
        }
    }
}

/// Whether every genotype field of a row parses.
pub open spec fn genotypes_ok(fs: Seq<Seq<u8>>, sc: Schema) -> bool {
    forall|i: int|
        0 <= i < GENOTYPE_COUNT ==> (#[trigger] dec_spec(fs[sc.genotype0_col + i])).is_some()
}

/// The parsed genotype vector of a row.
pub open spec fn genotypes_val(fs: Seq<Seq<u8>>, sc: Schema) -> Seq<u64> {
    Seq::new(GENOTYPE_COUNT as nat, |i: int| dec_spec(fs[sc.genotype0_col + i]).unwrap())
}

/// What one line denotes under a schema, if it is well formed.
pub open spec fn parse_row_spec(line: Seq<u8>, sc: Schema) -> Option<DailyRecordV> {
    let fs = split_bytes(line, TAB);
    if !sc.row_len_ok(fs.len() as int) {
        None
    } else {
        let year = u32_digits_spec(fs[sc.year_col as int]);
        let month = u32_digits_spec(fs[sc.month_col as int]);
        let day = u32_digits_spec(fs[sc.day_col as int]);
        let pfpr = dec_spec(fs[sc.pfpr_col as int]);
        let population = dec_spec(fs[sc.population_col as int]);
        let ntf = dec_spec(fs[sc.ntf_col as int]);
        let tf = dec_spec(fs[sc.tf_col as int]);
        if year.is_some() && month.is_some() && day.is_some() && pfpr.is_some()
            && population.is_some() && ntf.is_some() && tf.is_some() && genotypes_ok(fs, sc) {
            Some(
                DailyRecordV {
                    year: year.unwrap(),
                    month: month.unwrap(),
                    day: day.unwrap(),
                    pfpr: pfpr.unwrap(),
                    population: population.unwrap(),
                    ntf: ntf.unwrap(),
                    tf: tf.unwrap(),
                    genotypes: genotypes_val(fs, sc),
                },
            )
        } else {
            None
        }
    }
}

/// Parses one raw line into a daily record.  Returns `None` exactly when
/// the line is malformed under the schema: too few fields, or a consumed
/// field that is not an accepted decimal.
pub fn parse_row(line: &Vec<u8>, sc: &Schema) -> (r: Option<DailyRecord>)
    requires
        sc.wf(),
    ensures
        match r {
            Some(rec) => parse_row_spec(line@, *sc) == Some(rec@),
            None => parse_row_spec(line@, *sc) is None,
        },
{
    let fs = split_bytes_exec(line, TAB);
    let ghost fsv = split_bytes(line@, TAB);
    let n = fs.len();
    if !(n > sc.year_col && n > sc.month_col && n > sc.day_col && n > sc.pfpr_col && n
        > sc.population_col && n > sc.ntf_col && n > sc.tf_col && n >= sc.genotype0_col
        + GENOTYPE_COUNT) {
        return None;
    }
    proof {
        assert(forall|i: int| 0 <= i < fs@.len() ==> fsv[i] == #[trigger] fs@[i]@);
    }
    let year = match parse_u32_field(&fs[sc.year_col]) {
        Some(v) => v,
        None => {
            return None;
        },
    };
    let month = match parse_u32_field(&fs[sc.month_col]) {
        Some(v) => v,
        None => {
            return None;
        },
    };
    let day = match parse_u32_field(&fs[sc.day_col]) {
        Some(v) => v,
        None => {
            return None;
        },
    };
    let pfpr = match parse_dec_field(&fs[sc.pfpr_col]) {
        Some(v) => v,
        None => {
            return None;
        },
    };
    let population = match parse_dec_field(&fs[sc.population_col]) {
        Some(v) => v,
        None => {
            return None;
        },
    };
    let ntf = match parse_dec_field(&fs[sc.ntf_col]) {
        Some(v) => v,
        None => {
            return None;
        },
    };
    let tf = match parse_dec_field(&fs[sc.tf_col]) {
        Some(v) => v,
        None => {
            return None;
        },
    };
    let mut genotypes: Vec<u64> = Vec::new();
    let mut i: usize = 0;
    while i < GENOTYPE_COUNT
        invariant
            0 <= i <= GENOTYPE_COUNT,
            genotypes@.len() == i,
            forall|j: int|
                0 <= j < i ==> (#[trigger] dec_spec(fsv[sc.genotype0_col + j])).is_some()
                    && genotypes@[j] == dec_spec(fsv[sc.genotype0_col + j]).unwrap(),
        decreases GENOTYPE_COUNT - i,
    {
        proof {
            assert(fsv[sc.genotype0_col + i as int] == fs@[sc.genotype0_col + i as int]@);
        }
        match parse_dec_field(&fs[sc.genotype0_col + i]) {
            Some(v) => {
                genotypes.push(v);
                proof {
                    assert(dec_spec(fsv[sc.genotype0_col + i as int]) == Some(v));
                }
            },
            None => {
                proof {
                    assert(!(dec_spec(fsv[sc.genotype0_col + i as int])).is_some());
                    assert(!genotypes_ok(fsv, *sc));
                }
                return None;
            },
        }
        i = i + 1;
    }
    let rec = DailyRecord { year, month, day, pfpr, population, ntf, tf, genotypes };
    proof {
        assert(genotypes_ok(fsv, *sc));
        assert(rec@.genotypes =~= genotypes_val(fsv, *sc));
        assert(parse_row_spec(line@, *sc) == Some(rec@));
    }
    Some(rec)
}

} // verus!
