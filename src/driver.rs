//! The sweep over every watcher of the driver.
use vstd::prelude::*;
use crate::counter::CycleError;
use crate::interface::{calls_of, contents_view, cycle_samples, outcome_fits, Interface, InterfaceView};
use crate::report::Report;

verus! {

/// The number of counters over a set of watchers.
pub open spec fn total_entries(ws: Seq<InterfaceView>) -> nat
    decreases ws.len(),
{
    if ws.len() == 0 {
        0
    } else {
        total_entries(ws.drop_last()) + ws.last().entries.len()
    }
}

/// The number of outcomes in the results of a sweep.
pub open spec fn total_outcomes(r: Seq<Vec<Result<(), CycleError>>>) -> nat
    decreases r.len(),
{
    if r.len() == 0 {
        0
    } else {
        total_outcomes(r.drop_last()) + r.last()@.len()
    }
}

/// The calls that a sweep makes on its reporter: those of each watcher's
/// cycle, watcher after watcher.
pub open spec fn sweep_calls(
    ws: Seq<InterfaceView>,
    contents: Seq<Seq<Option<Seq<char>>>>,
    r: Seq<Vec<Result<(), CycleError>>>,
) -> Seq<(Seq<char>, Seq<char>, bool)>
    decreases r.len(),
{
    if r.len() == 0 || ws.len() == 0 || contents.len() == 0 {
        seq![]
    } else {
        sweep_calls(ws.drop_last(), contents.drop_last(), r.drop_last()) + calls_of(
            cycle_samples(ws.last(), contents.last()),
            r.last()@,
        )
    }
}

pub open spec fn all_contents_view(contents: Seq<Vec<Option<String>>>) -> Seq<
    Seq<Option<Seq<char>>>,
> {
    contents.map_values(|c: Vec<Option<String>>| contents_view(c@))
}

/// One full sweep: a report cycle over each watcher, in order. `contents`
/// holds, per watcher and per entry, what reading the counter file gave.
/// Every counter gets exactly one outcome, whatever fails, and the reporter
/// gets the calls of each watcher's cycle, in watcher order.
pub fn sweep<R: Report>(
    report: &Vec<Interface>,
    contents: &Vec<Vec<Option<String>>>,
    reporter: &mut R,
) -> (r: Vec<Vec<Result<(), CycleError>>>)
    requires
        contents@.len() == report@.len(),
        forall|i: int|
            0 <= i < report@.len() ==> (#[trigger] contents@[i])@.len()
                == report@[i].entries@.len(),
    ensures
        r@.len() == report@.len(),
        forall|i: int|
            0 <= i < r@.len() ==> (#[trigger] r@[i])@.len() == report@[i].entries@.len(),
        forall|i: int, j: int|
            0 <= i < r@.len() && 0 <= j < r@[i]@.len() ==> outcome_fits(
                #[trigger] cycle_samples(report@[i]@, contents_view(contents@[i]@))[j],
                r@[i]@[j],
            ),
        total_outcomes(r@) == total_entries(report@.map_values(|w: Interface| w@)),
        final(reporter).sent() == old(reporter).sent() + sweep_calls(
            report@.map_values(|w: Interface| w@),
            all_contents_view(contents@),
            r@,
        ),
{
    let ghost views = report@.map_values(|w: Interface| w@);
    let ghost cviews = all_contents_view(contents@);
    let ghost start = reporter.sent();
    assert(start + seq![] =~= start);
    let mut out: Vec<Vec<Result<(), CycleError>>> = Vec::new();
    let mut i: usize = 0;
    while i < report.len()
        invariant
            i <= report@.len(),
            contents@.len() == report@.len(),
            forall|k: int|
                0 <= k < report@.len() ==> (#[trigger] contents@[k])@.len()
                    == report@[k].entries@.len(),
            views == report@.map_values(|w: Interface| w@),
            out@.len() == i,
            forall|k: int| 0 <= k < i ==> (#[trigger] out@[k])@.len() == report@[k].entries@.len(),
            forall|k: int, j: int|
                0 <= k < i && 0 <= j < out@[k]@.len() ==> outcome_fits(
                    #[trigger] cycle_samples(report@[k]@, contents_view(contents@[k]@))[j],
                    out@[k]@[j],
                ),
            total_outcomes(out@) == total_entries(views.take(i as int)),
            cviews == all_contents_view(contents@),
            reporter.sent() == start + sweep_calls(views.take(i as int), cviews.take(i as int), out@),
        decreases report@.len() - i,
    {
        let ghost before_sent = reporter.sent();
        let results = report[i].report(&contents[i], reporter);
        let ghost before = out@;
        out.push(results);
        proof {
            assert(out@.drop_last() =~= before);
            assert(views.take(i + 1).drop_last() =~= views.take(i as int));
            assert(views.take(i + 1).last() == report@[i as int]@);
            assert(report@[i as int]@.entries.len() == report@[i as int].entries@.len());
            assert(cviews.take(i + 1).drop_last() =~= cviews.take(i as int));
            assert(cviews.take(i + 1).last() == contents_view(contents@[i as int]@));
            assert(reporter.sent() =~= start + sweep_calls(
                views.take(i + 1),
                cviews.take(i + 1),
                out@,
            ));
        }
        i = i + 1;
    }
    assert(views.take(report@.len() as int) =~= views);
    assert(cviews.take(report@.len() as int) =~= cviews);
    out
}

} // verus!
