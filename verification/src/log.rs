//! From the lines of a runner's log to measurement records.
//!
//! Every line is scanned three times, for benchmark names, for t-statistics
//! and for seeds. The names of a line are paired by position with its
//! t-statistics and with its seeds. The pairs of all lines, taken in order,
//! are then merged by position into records: the k-th name and t-statistic
//! with the k-th name and seed. Whatever does not line up ends the parse
//! with an error, since a measurement that is dropped is a measurement that
//! is never checked.

use crate::scan::{names_in, scan_names, scan_seeds, scan_t_values, seeds_in, texts, values, values_in};
use crate::statistic::TStatistic;
use vstd::prelude::*;

verus! {

/// One measurement of a log: which benchmark it is of, the t-statistic that
/// the runner computed, and the seed that reproduces the run.
#[derive(Clone, Debug, PartialEq, Eq)]
pub struct MeasurementRecord {
    /// The name of the benchmarked operation.
    pub name: String,
    /// The statistic of the operation's two timing populations.
    pub t_statistic: TStatistic,
    /// The generator seed that was in effect.
    pub seed: String,
}

/// The model of a record: its two texts and its value in
/// hundred-thousandths.
pub struct RecordView {
    pub name: Seq<char>,
    pub t_statistic: int,
    pub seed: Seq<char>,
}

impl View for MeasurementRecord {
    type V = RecordView;

    open spec fn view(&self) -> RecordView {
        RecordView { name: self.name@, t_statistic: self.t_statistic@, seed: self.seed@ }
    }
}

impl MeasurementRecord {
    /// A record of the same name, statistic and seed.
    pub fn duplicate(&self) -> (copy: MeasurementRecord)
        ensures
            copy@ == self@,
            copy.t_statistic == self.t_statistic,
    {
        MeasurementRecord {
            name: self.name.clone(),
            t_statistic: self.t_statistic,
            seed: self.seed.clone(),
        }
    }
}

/// Why a log could not be parsed. Lines and positions count from zero.
#[derive(Clone, Debug, PartialEq, Eq)]
pub enum ParseError {
    /// The text behind a `max t =` on the given line is no number.
    InvalidNumber { line: usize, text: String },
    /// The line holds t-statistics, but not one for each of its names.
    UnpairedValue { line: usize },
    /// The line holds seeds, but not one for each of its names.
    UnpairedSeed { line: usize },
    /// The log holds no seed for the t-statistic at the given position.
    MissingSeed { index: usize, name: String },
    /// The t-statistic and the seed at the given position are of different
    /// benchmarks.
    NameMismatch { index: usize, value_name: String, seed_name: String },
}

/// The model of a parse error.
pub enum ParseErrorView {
    InvalidNumber { line: int, text: Seq<char> },
    UnpairedValue { line: int },
    UnpairedSeed { line: int },
    MissingSeed { index: int, name: Seq<char> },
    NameMismatch { index: int, value_name: Seq<char>, seed_name: Seq<char> },
}

impl View for ParseError {
    type V = ParseErrorView;

    open spec fn view(&self) -> ParseErrorView {
        match *self {
            ParseError::InvalidNumber { line, text } => ParseErrorView::InvalidNumber {
                line: line as int,
                text: text@,
            },
            ParseError::UnpairedValue { line } => ParseErrorView::UnpairedValue {
                line: line as int,
            },
            ParseError::UnpairedSeed { line } => ParseErrorView::UnpairedSeed { line: line as int },
            ParseError::MissingSeed { index, name } => ParseErrorView::MissingSeed {
                index: index as int,
                name: name@,
            },
            ParseError::NameMismatch {
                index,
                value_name,
                seed_name,
            } => ParseErrorView::NameMismatch {
                index: index as int,
                value_name: value_name@,
                seed_name: seed_name@,
            },
        }
    }
}

/// A name with its t-statistic in hundred-thousandths.
pub type ValuePair = (Seq<char>, int);

/// A name with its seed.
pub type SeedPair = (Seq<char>, Seq<char>);

/// The pairs that one line, or a run of lines, gives.
pub struct Pairs {
    pub values: Seq<ValuePair>,
    pub seeds: Seq<SeedPair>,
}

/// The names of a line paired by position with the items of another scan
/// of that line.
pub open spec fn paired<T>(names: Seq<Seq<char>>, items: Seq<T>) -> Seq<(Seq<char>, T)> {
    Seq::new(items.len(), |i: int| (names[i], items[i]))
}

/// The pairs of one line.
///
/// A scan that finds nothing gives no pairs. A scan that finds something
/// has to find as many items as the line has names.
pub open spec fn line_pairs(s: Seq<char>, line: int) -> Result<Pairs, ParseErrorView> {
    match values_in(s) {
        Err(text) => Err(ParseErrorView::InvalidNumber { line, text }),
        Ok(found) => {
            let names = names_in(s);
            let seeds = seeds_in(s);
            if found.len() > 0 && found.len() != names.len() {
                Err(ParseErrorView::UnpairedValue { line })
            } else if seeds.len() > 0 && seeds.len() != names.len() {
                Err(ParseErrorView::UnpairedSeed { line })
            } else {
                Ok(Pairs { values: paired(names, found), seeds: paired(names, seeds) })
            }
        },
    }
}

/// The pairs of the first `n` lines, or the error of the first line that
/// has one.
pub open spec fn pairs_of(lines: Seq<Seq<char>>, n: nat) -> Result<Pairs, ParseErrorView>
    decreases n,
{
    if n == 0 {
        Ok(Pairs { values: Seq::empty(), seeds: Seq::empty() })
    } else {
        match pairs_of(lines, (n - 1) as nat) {
            Err(e) => Err(e),
            Ok(before) => match line_pairs(lines[n - 1], n - 1) {
                Err(e) => Err(e),
                Ok(found) => Ok(
                    Pairs {
                        values: before.values + found.values,
                        seeds: before.seeds + found.seeds,
                    },
                ),
            },
        }
    }
}

/// The records of the first `n` t-statistics, or the error of the first
/// position that does not line up.
pub open spec fn merged(values: Seq<ValuePair>, seeds: Seq<SeedPair>, n: nat) -> Result<
    Seq<RecordView>,
    ParseErrorView,
>
    decreases n,
{
    if n == 0 {
        Ok(Seq::empty())
    } else {
        let k = n - 1;
        match merged(values, seeds, k as nat) {
            Err(e) => Err(e),
            Ok(records) => if k >= seeds.len() {
                Err(ParseErrorView::MissingSeed { index: k, name: values[k].0 })
            } else if values[k].0 != seeds[k].0 {
                Err(
                    ParseErrorView::NameMismatch {
                        index: k,
                        value_name: values[k].0,
                        seed_name: seeds[k].0,
                    },
                )
            } else {
                Ok(
                    records.push(
                        RecordView {
                            name: values[k].0,
                            t_statistic: values[k].1,
                            seed: seeds[k].1,
                        },
                    ),
                )
            },
        }
    }
}

/// What a log parses to.
pub open spec fn parsed(lines: Seq<Seq<char>>) -> Result<Seq<RecordView>, ParseErrorView> {
    match pairs_of(lines, lines.len()) {
        Err(e) => Err(e),
        Ok(pairs) => merged(pairs.values, pairs.seeds, pairs.values.len()),
    }
}

/// The models of a vector of records.
pub open spec fn views(records: Seq<MeasurementRecord>) -> Seq<RecordView> {
    records.map_values(|r: MeasurementRecord| r@)
}

/// The models of a vector of names with t-statistics.
pub open spec fn value_pairs(v: Seq<(String, TStatistic)>) -> Seq<ValuePair> {
    v.map_values(|p: (String, TStatistic)| (p.0@, p.1@))
}

/// The models of a vector of names with seeds.
pub open spec fn seed_pairs(v: Seq<(String, String)>) -> Seq<SeedPair> {
    v.map_values(|p: (String, String)| (p.0@, p.1@))
}

/// Pairs the names of a line with its t-statistics.
fn pair_values(names: &Vec<String>, found: &Vec<TStatistic>) -> (out: Vec<(String, TStatistic)>)
    requires
        found@.len() == 0 || found@.len() == names@.len(),
    ensures
        value_pairs(out@) == paired(texts(names@), values(found@)),
{
    let n = found.len();
    let mut out: Vec<(String, TStatistic)> = Vec::new();
    let mut i: usize = 0;
    while i < n
        invariant
            i <= n,
            n == found@.len(),
            n <= names@.len(),
            out@.len() == i,
            forall|j: int|
                0 <= j < i ==> (#[trigger] out@[j]).0@ == names@[j]@ && out@[j].1 == found@[j],
        decreases n - i,
    {
        out.push((names[i].clone(), found[i]));
        i += 1;
    }
    assert(value_pairs(out@) =~= paired(texts(names@), values(found@)));
    out
}

/// Pairs the names of a line with its seeds.
fn pair_seeds(names: &Vec<String>, found: &Vec<String>) -> (out: Vec<(String, String)>)
    requires
        found@.len() == 0 || found@.len() == names@.len(),
    ensures
        seed_pairs(out@) == paired(texts(names@), texts(found@)),
{
    let n = found.len();
    let mut out: Vec<(String, String)> = Vec::new();
    let mut i: usize = 0;
    while i < n
        invariant
            i <= n,
            n == found@.len(),
            n <= names@.len(),
            out@.len() == i,
            forall|j: int|
                0 <= j < i ==> (#[trigger] out@[j]).0@ == names@[j]@ && out@[j].1@ == found@[j]@,
        decreases n - i,
    {
        out.push((names[i].clone(), found[i].clone()));
        i += 1;
    }
    assert(seed_pairs(out@) =~= paired(texts(names@), texts(found@)));
    out
}

/// Scans one line and pairs what the scans found.
fn scan_line(line: &str, index: usize) -> (found: Result<
    (Vec<(String, TStatistic)>, Vec<(String, String)>),
    ParseError,
>)
    ensures
        found matches Ok(p) ==> line_pairs(line@, index as int) == Ok::<Pairs, ParseErrorView>(
            Pairs { values: value_pairs(p.0@), seeds: seed_pairs(p.1@) },
        ),
        found matches Err(e) ==> line_pairs(line@, index as int) == Err::<Pairs, ParseErrorView>(
            e@,
        ),
{
    let numbers = match scan_t_values(line) {
        Err(text) => {
            return Err(ParseError::InvalidNumber { line: index, text });
        },
        Ok(numbers) => numbers,
    };
    let names = scan_names(line);
    let seeds = scan_seeds(line);
    assert(texts(names@).len() == names@.len());
    assert(texts(seeds@).len() == seeds@.len());
    assert(values(numbers@).len() == numbers@.len());
    if numbers.len() > 0 && numbers.len() != names.len() {
        return Err(ParseError::UnpairedValue { line: index });
    }
    if seeds.len() > 0 && seeds.len() != names.len() {
        return Err(ParseError::UnpairedSeed { line: index });
    }
    Ok((pair_values(&names, &numbers), pair_seeds(&names, &seeds)))
}

/// Merges the pairs of a log into records.
fn merge(values: &Vec<(String, TStatistic)>, seeds: &Vec<(String, String)>) -> (out: Result<
    Vec<MeasurementRecord>,
    ParseError,
>)
    ensures
        out matches Ok(records) ==> merged(
            value_pairs(values@),
            seed_pairs(seeds@),
            values@.len(),
        ) == Ok::<Seq<RecordView>, ParseErrorView>(views(records@)),
        out matches Err(e) ==> merged(value_pairs(values@), seed_pairs(seeds@), values@.len())
            == Err::<Seq<RecordView>, ParseErrorView>(e@),
{
    let n = values.len();
    let mut records: Vec<MeasurementRecord> = Vec::new();
    let mut k: usize = 0;
    let ghost vs = value_pairs(values@);
    let ghost ss = seed_pairs(seeds@);
    assert(views(records@) =~= Seq::<RecordView>::empty());
    while k < n
        invariant
            k <= n,
            n == values@.len(),
            vs == value_pairs(values@),
            ss == seed_pairs(seeds@),
            merged(vs, ss, k as nat) == Ok::<Seq<RecordView>, ParseErrorView>(views(records@)),
        decreases n - k,
    {
        proof {
            assert(ss.len() == seeds@.len());
            assert(vs[k as int] == (values@[k as int].0@, values@[k as int].1@));
            if k < seeds@.len() {
                assert(ss[k as int] == (seeds@[k as int].0@, seeds@[k as int].1@));
            }
            if merged(vs, ss, (k + 1) as nat) is Err {
                lemma_merged_error(vs, ss, (k + 1) as nat, n as nat);
            }
        }
        if k >= seeds.len() {
            return Err(ParseError::MissingSeed { index: k, name: values[k].0.clone() });
        }
        if !(values[k].0 == seeds[k].0) {
            return Err(
                ParseError::NameMismatch {
                    index: k,
                    value_name: values[k].0.clone(),
                    seed_name: seeds[k].0.clone(),
                },
            );
        }
        let record = MeasurementRecord {
            name: values[k].0.clone(),
            t_statistic: values[k].1,
            seed: seeds[k].1.clone(),
        };
        let ghost before = views(records@);
        records.push(record);
        assert(views(records@) =~= before.push(record@));
        k += 1;
    }
    Ok(records)
}

/// Parses the lines of a log into measurement records.
///
/// The records come in the order of their t-statistics. The parse fails on
/// the first line on which a `max t =` is followed by no number or a scan
/// finds fewer or more items than the line has names; and, where every
/// line is in order, on the first t-statistic that has no seed, or a seed
/// of another name, at its position.
pub fn parse(log_lines: &[String]) -> (out: Result<Vec<MeasurementRecord>, ParseError>)
    ensures
        out matches Ok(records) ==> parsed(texts(log_lines@)) == Ok::<
            Seq<RecordView>,
            ParseErrorView,
        >(views(records@)),
        out matches Err(e) ==> parsed(texts(log_lines@)) == Err::<Seq<RecordView>, ParseErrorView>(
            e@,
        ),
{
    let n = log_lines.len();
    let ghost lines = texts(log_lines@);
    let mut values: Vec<(String, TStatistic)> = Vec::new();
    let mut seeds: Vec<(String, String)> = Vec::new();
    let mut i: usize = 0;
    assert(value_pairs(values@) =~= Seq::<ValuePair>::empty());
    assert(seed_pairs(seeds@) =~= Seq::<SeedPair>::empty());
    while i < n
        invariant
            i <= n,
            n == log_lines@.len(),
            lines == texts(log_lines@),
            pairs_of(lines, i as nat) == Ok::<Pairs, ParseErrorView>(
                Pairs { values: value_pairs(values@), seeds: seed_pairs(seeds@) },
            ),
        decreases n - i,
    {
        match scan_line(log_lines[i].as_str(), i) {
            Err(e) => {
                proof {
                    lemma_pairs_of_error(lines, (i + 1) as nat, n as nat);
                }
                return Err(e);
            },
            Ok(found) => {
                let (mut found_values, mut found_seeds) = found;
                let ghost values_before = value_pairs(values@);
                let ghost seeds_before = seed_pairs(seeds@);
                let ghost more_values = value_pairs(found_values@);
                let ghost more_seeds = seed_pairs(found_seeds@);
                values.append(&mut found_values);
                seeds.append(&mut found_seeds);
                assert(value_pairs(values@) =~= values_before + more_values);
                assert(seed_pairs(seeds@) =~= seeds_before + more_seeds);
            },
        }
        i += 1;
    }
    merge(&values, &seeds)
}

/// A log without lines has no records.
pub proof fn lemma_empty_log()
    ensures
        parsed(Seq::empty()) == Ok::<Seq<RecordView>, ParseErrorView>(Seq::empty()),
{
}

/// A line on which a `max t =` is followed by no number fails the parse,
/// whatever else the log holds.
pub proof fn lemma_bad_number_fails(lines: Seq<Seq<char>>, i: int)
    requires
        0 <= i < lines.len(),
        values_in(lines[i]) is Err,
    ensures
        parsed(lines) is Err,
{
    assert(pairs_of(lines, (i + 1) as nat) is Err);
    lemma_pairs_of_error(lines, (i + 1) as nat, lines.len());
}

/// A log of one line that holds one name, one t-statistic and one seed
/// parses to exactly one record, made of these three.
pub proof fn lemma_single_line_record(s: Seq<char>, name: Seq<char>, value: int, seed: Seq<char>)
    requires
        names_in(s) == seq![name],
        values_in(s) == Ok::<Seq<int>, Seq<char>>(seq![value]),
        seeds_in(s) == seq![seed],
    ensures
        parsed(seq![s]) == Ok::<Seq<RecordView>, ParseErrorView>(
            seq![RecordView { name, t_statistic: value, seed }],
        ),
{
    let lines = seq![s];
    let values = paired(seq![name], seq![value]);
    let seeds = paired(seq![name], seq![seed]);
    assert(pairs_of(lines, 0) == Ok::<Pairs, ParseErrorView>(
        Pairs { values: Seq::empty(), seeds: Seq::empty() },
    ));
    assert(line_pairs(lines[0], 0) == Ok::<Pairs, ParseErrorView>(Pairs { values, seeds }));
    assert(Seq::<ValuePair>::empty() + values =~= values);
    assert(Seq::<SeedPair>::empty() + seeds =~= seeds);
    assert(pairs_of(lines, 1) == Ok::<Pairs, ParseErrorView>(Pairs { values, seeds }));
    assert(merged(values, seeds, 0) == Ok::<Seq<RecordView>, ParseErrorView>(Seq::empty()));
    assert(Seq::<RecordView>::empty().push(RecordView { name, t_statistic: value, seed })
        =~= seq![RecordView { name, t_statistic: value, seed }]);
}

/// An error at one of the first positions is the error of every longer
/// merge.
proof fn lemma_merged_error(values: Seq<ValuePair>, seeds: Seq<SeedPair>, n: nat, m: nat)
    requires
        n <= m,
        merged(values, seeds, n) is Err,
    ensures
        merged(values, seeds, m) == merged(values, seeds, n),
    decreases m,
{
    if n < m {
        lemma_merged_error(values, seeds, n, (m - 1) as nat);
    }
}

/// An error on one of the first lines is the error of every longer run of
/// lines.
proof fn lemma_pairs_of_error(lines: Seq<Seq<char>>, n: nat, m: nat)
    requires
        n <= m,
        pairs_of(lines, n) is Err,
    ensures
        pairs_of(lines, m) == pairs_of(lines, n),
    decreases m,
{
    if n < m {
        lemma_pairs_of_error(lines, n, (m - 1) as nat);
    }
}

} // verus!
