//! The decision over the records of a log.
//!
//! A t-statistic between -4.5 and 4.5 is what two timing populations of one
//! distribution would give; one outside that band is taken as evidence that
//! the running time depends on the secret. The band is fixed. Every record is
//! looked at, and every one that breaks the band is reported.

use crate::log::{views, MeasurementRecord, RecordView};
use crate::statistic::in_band;
use vstd::prelude::*;

verus! {

/// The outcome of checking the records of a log.
#[derive(Clone, Debug, PartialEq, Eq)]
pub enum Verdict {
    /// Every record lies in the band.
    Pass,
    /// These records, in the order of the log, break the band.
    Fail(Vec<MeasurementRecord>),
}

/// The model of a verdict.
pub enum VerdictView {
    Pass,
    Fail(Seq<RecordView>),
}

impl View for Verdict {
    type V = VerdictView;

    open spec fn view(&self) -> VerdictView {
        match *self {
            Verdict::Pass => VerdictView::Pass,
            Verdict::Fail(records) => VerdictView::Fail(views(records@)),
        }
    }
}

/// The record breaks the band.
pub open spec fn is_violation(record: RecordView) -> bool {
    !in_band(record.t_statistic)
}

/// The records that break the band, in their order.
pub open spec fn violations(records: Seq<RecordView>) -> Seq<RecordView> {
    records.filter(|r: RecordView| is_violation(r))
}

/// The verdict that a sequence of records earns.
pub open spec fn verdict_of(records: Seq<RecordView>) -> VerdictView {
    if violations(records).len() == 0 {
        VerdictView::Pass
    } else {
        VerdictView::Fail(violations(records))
    }
}

/// A log passes exactly when each of its records lies in the band. In
/// particular a log without records passes.
pub proof fn lemma_pass_iff_all_in_band(records: Seq<RecordView>)
    ensures
        verdict_of(records) is Pass <==> forall|i: int|
            0 <= i < records.len() ==> in_band(#[trigger] records[i].t_statistic),
        records.len() == 0 ==> verdict_of(records) is Pass,
{
    let pred = |r: RecordView| is_violation(r);
    let kept = records.filter(pred);
    records.lemma_filter_len(pred);
    if kept.len() == 0 {
        assert forall|i: int| 0 <= i < records.len() implies in_band(
            #[trigger] records[i].t_statistic,
        ) by {
            if !in_band(records[i].t_statistic) {
                records.lemma_filter_contains(pred, i);
            }
        }
    } else {
        records.lemma_filter_pred(pred, 0);
        records.lemma_filter_contains_rev(pred, kept[0]);
    }
}

/// A failed verdict holds the offending records and no others: whatever it
/// holds is a record of the log that breaks the band, and whatever record
/// of the log breaks the band is held.
pub proof fn lemma_fail_holds_offenders(records: Seq<RecordView>)
    ensures
        forall|j: int|
            0 <= j < violations(records).len() ==> is_violation(#[trigger] violations(records)[j])
                && records.contains(violations(records)[j]),
        forall|i: int|
            0 <= i < records.len() && is_violation(records[i]) ==> violations(records).contains(
                #[trigger] records[i],
            ),
{
    let pred = |r: RecordView| is_violation(r);
    let kept = records.filter(pred);
    assert forall|j: int| 0 <= j < kept.len() implies is_violation(#[trigger] kept[j])
        && records.contains(kept[j]) by {
        records.lemma_filter_pred(pred, j);
        records.lemma_filter_contains_rev(pred, kept[j]);
    }
    assert forall|i: int| 0 <= i < records.len() && is_violation(records[i]) implies kept.contains(
        #[trigger] records[i],
    ) by {
        records.lemma_filter_contains(pred, i);
    }
}

impl Verdict {
    /// Whether the log passed.
    pub fn is_pass(&self) -> (pass: bool)
        ensures
            pass == (self@ is Pass),
    {
        match self {
            Verdict::Pass => true,
            Verdict::Fail(_) => false,
        }
    }
}

/// Checks every record against the band and gathers those that break it.
///
/// No record is skipped, and the check does not stop at the first offender:
/// a failed verdict names each of them, with its statistic and its seed.
pub fn verify(records: &[MeasurementRecord]) -> (verdict: Verdict)
    ensures
        verdict@ == verdict_of(views(records@)),
{
    let n = records.len();
    let mut offenders: Vec<MeasurementRecord> = Vec::new();
    let mut k: usize = 0;
    let ghost pred = |r: RecordView| is_violation(r);
    proof {
        assert(views(records@.take(0)) =~= Seq::<RecordView>::empty());
        reveal(Seq::filter);
        assert(views(offenders@) =~= Seq::<RecordView>::empty());
    }
    while k < n
        invariant
            k <= n,
            n == records@.len(),
            pred == |r: RecordView| is_violation(r),
            views(offenders@) == views(records@.take(k as int)).filter(pred),
        decreases n - k,
    {
        let ghost seen = views(records@.take(k as int));
        proof {
            assert(views(records@.take(k + 1)) =~= seen.push(records@[k as int]@));
            seen.lemma_filter_push(records@[k as int]@, pred);
        }
        if !records[k].t_statistic.within_threshold() {
            let ghost before = views(offenders@);
            let copy = records[k].duplicate();
            offenders.push(copy);
            assert(views(offenders@) =~= before.push(copy@));
        }
        k += 1;
    }
    assert(records@.take(n as int) =~= records@);
    if offenders.len() == 0 {
        Verdict::Pass
    } else {
        Verdict::Fail(offenders)
    }
}

} // verus!
