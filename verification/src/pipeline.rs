//! The decisions of one run, separated from the work at the edges.
//!
//! A run fetches the page, extracts advisories, loads the stored records
//! for the same year, and then decides what to do. [`plan_run`] makes that
//! decision from plain values: the surrounding program performs the fetch,
//! the store reads and writes, and the sends, and follows the plan. One
//! record's persistence or notification failure is the program's to log
//! and skip; nothing here ever orders a rollback or a retry.

use vstd::prelude::*;

use crate::advisor::{Advisor, AdvisorView};
use crate::novelty::{novel, novel_spec, lemma_second_run_nothing_novel};
use crate::parser::ExtractError;

verus! {

/// What one run does after the fetch and the store read.
pub enum RunPlan {
    /// Extraction failed: the run terminates with a failure, distinct from
    /// a run that merely found nothing new.
    Abort,
    /// The fetched list is no longer than the stored one: report that
    /// there is nothing new and terminate successfully, without computing
    /// the difference. This is sound because advisories are never
    /// retracted upstream and the store only grows.
    NothingNew,
    /// The records to persist and announce, one by one in this order:
    /// oldest first, the reverse of the page's newest-first listing. At
    /// most one record per package name is ever published.
    Publish(Vec<Advisor>),
}

/// Reverses a list of records.
fn reversed(v: Vec<Advisor>) -> (r: Vec<Advisor>)
    ensures
        r.deep_view() == v.deep_view().reverse(),
{
    let n = v.len();
    let mut out: Vec<Advisor> = Vec::new();
    let mut i: usize = n;
    while i > 0
        invariant
            0 <= i <= n,
            n == v@.len(),
            out@.len() == n - i,
            forall|k: int| 0 <= k < out@.len() ==> (#[trigger] out@[k])@ == v@[n - 1 - k]@,
        decreases i,
    {
        i = i - 1;
        out.push(v[i].clone());
    }
    proof {
        assert(out.deep_view() =~= v.deep_view().reverse());
    }
    out
}

/// Decides a run from the extraction result and the records already
/// stored for the year: abort on a failed extraction; nothing new when
/// the fetched list has not grown past the stored one; otherwise publish
/// exactly the novel records, oldest first.
pub fn plan_run(fetched: Result<Vec<Advisor>, ExtractError>, current: &Vec<Advisor>) -> (r:
    RunPlan)
    ensures
        match fetched {
            Err(_) => r is Abort,
            Ok(latest) => {
                if latest@.len() <= current@.len() {
                    r is NothingNew
                } else {
                    r matches RunPlan::Publish(v) && v.deep_view() == novel_spec(
                        latest.deep_view(),
                        current.deep_view(),
                    ).reverse()
                }
            },
        },
{
    match fetched {
        Err(_) => RunPlan::Abort,
        Ok(latest) => {
            if latest.len() <= current.len() {
                RunPlan::NothingNew
            } else {
                RunPlan::Publish(reversed(novel(&latest, current)))
            }
        },
    }
}

/// The announcement sent for one newly inserted advisory.
pub open spec fn notification_text_spec(a: AdvisorView) -> Seq<char> {
    "#slackware security advisory for "@ + a.package_name + " "@ + a.url
}

/// Renders the announcement for one advisory: the fixed template naming
/// the package and linking its advisory page.
pub fn notification_text(a: &Advisor) -> (r: String)
    ensures
        r@ == notification_text_spec(a@),
{
    String::from_str("#slackware security advisory for ").concat(a.package_name.as_str()).concat(
        " ",
    ).concat(a.url.as_str())
}

/// A second run against an unchanged page publishes nothing: once the
/// store also holds what the first run found novel, the same fetched list
/// yields an empty publication list, whichever way the run reaches it.
pub proof fn lemma_second_run_publishes_nothing(latest: Seq<AdvisorView>, current: Seq<
    AdvisorView,
>)
    ensures
        novel_spec(latest, current + novel_spec(latest, current)) == Seq::<AdvisorView>::empty(),
        novel_spec(latest, current + novel_spec(latest, current)).reverse() == Seq::<
            AdvisorView,
        >::empty(),
{
    lemma_second_run_nothing_novel(latest, current);
    assert(Seq::<AdvisorView>::empty().reverse() =~= Seq::<AdvisorView>::empty());
}

} // verus!
