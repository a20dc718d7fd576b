//! Interface watchers: discovery of an interface's counters and the
//! per-cycle read, parse and report of each of them.
use vstd::prelude::*;
use crate::counter::{counter_value, decimal, parse_counter, to_decimal, CycleError};
use crate::report::Report;

verus! {

/// Why an interface could not be watched.
#[derive(Debug, Clone, Copy, PartialEq, Eq, Structural)]
pub enum WatchError {
    /// The configured identifier is not wrapped in one pair of double quotes.
    InvalidIdentifier,
    /// The statistics directory could not be listed.
    Discovery,
}

/// One counter file and the metric name it is reported under.
pub struct Entry {
    pub path: String,
    pub tag: String,
}

/// A configured interface and the counters found for it at startup.
pub struct Interface {
    pub name: String,
    pub alias: String,
    pub entries: Vec<Entry>,
}

/// What an interface watcher holds, as plain text.
pub struct InterfaceView {
    pub name: Seq<char>,
    pub alias: Seq<char>,
    /// `(path, tag)` of each counter, in discovery order.
    pub entries: Seq<(Seq<char>, Seq<char>)>,
}

impl View for Interface {
    type V = InterfaceView;

    open spec fn view(&self) -> InterfaceView {
        InterfaceView {
            name: self.name@,
            alias: self.alias@,
            entries: self.entries@.map_values(|e: Entry| (e.path@, e.tag@)),
        }
    }
}

/// A configured identifier is a name wrapped in one pair of double quotes,
/// as a JSON string value is written.
pub open spec fn is_wrapped(s: Seq<char>) -> bool {
    s.len() >= 2 && s[0] == '"' && s.last() == '"'
}

/// The interface name inside a wrapped identifier.
pub open spec fn unwrapped(s: Seq<char>) -> Seq<char> {
    s.subrange(1, s.len() - 1)
}

/// The directory that holds an interface's counter files.
pub open spec fn stats_dir_of(iface: Seq<char>) -> Seq<char> {
    "/sys/class/net/"@ + iface + "/statistics/"@
}

/// The metric name of a counter file of an interface.
pub open spec fn tag_of(prefix: Seq<char>, alias: Seq<char>, file: Seq<char>) -> Seq<char> {
    prefix + alias + "."@ + file
}

pub open spec fn names_of(listing: Seq<String>) -> Seq<Seq<char>> {
    listing.map_values(|f: String| f@)
}

/// The counters of an interface whose directory lists the given file names.
pub open spec fn entries_of(
    prefix: Seq<char>,
    name: Seq<char>,
    alias: Seq<char>,
    files: Seq<Seq<char>>,
) -> Seq<(Seq<char>, Seq<char>)> {
    files.map_values(
        |f: Seq<char>| (stats_dir_of(unwrapped(name)) + f, tag_of(prefix, alias, f)),
    )
}

/// The watcher built for a configured interface, given what listing its
/// statistics directory gave (`None` when it could not be listed).
pub open spec fn watcher_of(
    prefix: Seq<char>,
    name: Seq<char>,
    alias: Seq<char>,
    listing: Option<Seq<Seq<char>>>,
) -> Result<InterfaceView, WatchError> {
    if !is_wrapped(name) {
        Err(WatchError::InvalidIdentifier)
    } else {
        match listing {
            None => Err(WatchError::Discovery),
            Some(files) => Ok(
                InterfaceView { name, alias, entries: entries_of(prefix, name, alias, files) },
            ),
        }
    }
}

pub open spec fn listing_view(listing: Option<Vec<String>>) -> Option<Seq<Seq<char>>> {
    match listing {
        None => None,
        Some(v) => Some(names_of(v@)),
    }
}

/// What one cycle makes of one counter, given what reading its file gave
/// (`None` when it could not be read): the `(tag, value)` pair handed to the
/// reporter, or why there is none.
pub open spec fn sample_of(tag: Seq<char>, contents: Option<Seq<char>>) -> Result<
    (Seq<char>, Seq<char>),
    CycleError,
> {
    match contents {
        None => Err(CycleError::Read),
        Some(c) => match counter_value(c) {
            None => Err(CycleError::Parse),
            Some(v) => Ok((tag, decimal(v as nat))),
        },
    }
}

/// What reading a counter file gave, as text.
pub open spec fn contents_of(c: Option<String>) -> Option<Seq<char>> {
    match c {
        None => None,
        Some(s) => Some(s@),
    }
}

pub open spec fn contents_view(contents: Seq<Option<String>>) -> Seq<Option<Seq<char>>> {
    contents.map_values(|c: Option<String>| contents_of(c))
}

/// The samples of one cycle over an interface's counters.
pub open spec fn cycle_samples(
    iface: InterfaceView,
    contents: Seq<Option<Seq<char>>>,
) -> Seq<Result<(Seq<char>, Seq<char>), CycleError>> {
    Seq::new(iface.entries.len(), |i: int| sample_of(iface.entries[i].1, contents[i]))
}

/// The outcome of one counter in a cycle: its sample's failure, or, when a
/// sample was handed to the reporter, success or a report failure.
pub open spec fn outcome_fits(
    sample: Result<(Seq<char>, Seq<char>), CycleError>,
    outcome: Result<(), CycleError>,
) -> bool {
    match sample {
        Err(e) => outcome == Err::<(), CycleError>(e),
        Ok(_) => outcome is Ok || outcome == Err::<(), CycleError>(CycleError::Report),
    }
}

/// The calls that a cycle makes on its reporter: one for each counter with
/// a sample, in entry order, carrying the sample and whether the counter's
/// outcome is a success.
pub open spec fn calls_of(
    samples: Seq<Result<(Seq<char>, Seq<char>), CycleError>>,
    outcomes: Seq<Result<(), CycleError>>,
) -> Seq<(Seq<char>, Seq<char>, bool)>
    decreases samples.len(),
{
    if samples.len() == 0 || outcomes.len() == 0 {
        seq![]
    } else {
        let rest = calls_of(samples.drop_last(), outcomes.drop_last());
        match samples.last() {
            Ok(p) => rest.push((p.0, p.1, outcomes.last() is Ok)),
            Err(_) => rest,
        }
    }
}

/// Whether an identifier is wrapped in one pair of double quotes.
pub fn is_wrapped_identifier(s: &str) -> (r: bool)
    ensures
        r == is_wrapped(s@),
{
    let n = s.unicode_len();
    n >= 2 && s.get_char(0) == '"' && s.get_char(n - 1) == '"'
}

/// The statistics directory of a configured interface identifier.
pub fn stats_dir(name: &String) -> (r: Result<String, WatchError>)
    ensures
        match r {
            Ok(dir) => is_wrapped(name@) && dir@ == stats_dir_of(unwrapped(name@)),
            Err(e) => !is_wrapped(name@) && e == WatchError::InvalidIdentifier,
        },
{
    let s = name.as_str();
    if !is_wrapped_identifier(s) {
        return Err(WatchError::InvalidIdentifier);
    }
    let inner = s.substring_char(1, s.unicode_len() - 1);
    Ok(String::from_str("/sys/class/net/").concat(inner).concat("/statistics/"))
}

impl Entry {
    /// The `(tag, value)` pair of this counter for one cycle, from what
    /// reading its file gave.
    pub fn sample(&self, contents: &Option<String>) -> (r: Result<(String, String), CycleError>)
        ensures
            match r {
                Ok((t, v)) => sample_of(self.tag@, contents_of(*contents)) == Ok::<
                    (Seq<char>, Seq<char>),
                    CycleError,
                >((t@, v@)),
                Err(e) => sample_of(self.tag@, contents_of(*contents)) == Err::<
                    (Seq<char>, Seq<char>),
                    CycleError,
                >(e),
            },
    {
        match contents {
            None => Err(CycleError::Read),
            Some(c) => match parse_counter(c) {
                Err(e) => Err(e),
                Ok(v) => Ok((self.tag.clone(), to_decimal(v))),
            },
        }
    }
}

impl Interface {
    /// Builds the watcher of a configured interface from the listing of its
    /// statistics directory (`None` when it could not be listed): one entry
    /// per listed file, in listing order.
    pub fn from_path(
        prefix: &String,
        name: &String,
        alias: &String,
        listing: &Option<Vec<String>>,
    ) -> (r: Result<Interface, WatchError>)
        ensures
            match r {
                Ok(w) => watcher_of(prefix@, name@, alias@, listing_view(*listing)) == Ok::<
                    InterfaceView,
                    WatchError,
                >(w@),
                Err(e) => watcher_of(prefix@, name@, alias@, listing_view(*listing)) == Err::<
                    InterfaceView,
                    WatchError,
                >(e),
            },
    {
        let dir = match stats_dir(name) {
            Ok(d) => d,
            Err(e) => return Err(e),
        };
        let files = match listing {
            None => return Err(WatchError::Discovery),
            Some(f) => f,
        };
        let ghost want = entries_of(prefix@, name@, alias@, names_of(files@));
        let mut entries: Vec<Entry> = Vec::new();
        let mut i: usize = 0;
        while i < files.len()
            invariant
                i <= files@.len(),
                dir@ == stats_dir_of(unwrapped(name@)),
                want == entries_of(prefix@, name@, alias@, names_of(files@)),
                entries@.len() == i,
                forall|j: int|
                    0 <= j < i ==> (#[trigger] entries@[j]).path@ == want[j].0
                        && entries@[j].tag@ == want[j].1,
            decreases files@.len() - i,
        {
            let f = &files[i];
            let path = dir.clone().concat(f.as_str());
            let tag = prefix.clone().concat(alias.as_str()).concat(".").concat(f.as_str());
            entries.push(Entry { path, tag });
            i = i + 1;
        }
        let w = Interface { name: name.clone(), alias: alias.clone(), entries };
        assert(w@.entries =~= want);
        Ok(w)
    }

    /// One report cycle: every counter is read (from `contents`, what reading
    /// each entry's file gave, in entry order), parsed and handed to the
    /// reporter, each independently of the others. The result holds one
    /// outcome per entry; the reporter gets exactly one call per counter
    /// with a sample, in entry order, and the outcome of such a counter is a
    /// success exactly when the reporter accepted it.
    pub fn report<R: Report>(&self, contents: &Vec<Option<String>>, reporter: &mut R) -> (r: Vec<
        Result<(), CycleError>,
    >)
        requires
            contents@.len() == self.entries@.len(),
        ensures
            r@.len() == self.entries@.len(),
            forall|i: int|
                0 <= i < r@.len() ==> outcome_fits(
                    #[trigger] cycle_samples(self@, contents_view(contents@))[i],
                    r@[i],
                ),
            final(reporter).sent() == old(reporter).sent() + calls_of(
                cycle_samples(self@, contents_view(contents@)),
                r@,
            ),
    {
        let ghost samples = cycle_samples(self@, contents_view(contents@));
        let ghost start = reporter.sent();
        assert(calls_of(samples.take(0), seq![]) =~= seq![]);
        assert(start + seq![] =~= start);
        let mut out: Vec<Result<(), CycleError>> = Vec::new();
        let mut i: usize = 0;
        while i < self.entries.len()
            invariant
                i <= self.entries@.len(),
                contents@.len() == self.entries@.len(),
                samples == cycle_samples(self@, contents_view(contents@)),
                out@.len() == i,
                forall|j: int| 0 <= j < i ==> outcome_fits(#[trigger] samples[j], out@[j]),
                reporter.sent() == start + calls_of(samples.take(i as int), out@),
            decreases self.entries@.len() - i,
        {
            let entry = &self.entries[i];
            let s = entry.sample(&contents[i]);
            let ghost before_sent = reporter.sent();
            let ghost before_out = out@;
            let outcome = match s {
                Err(e) => Err(e),
                Ok((tag, value)) => match reporter.report(tag, value) {
                    Ok(()) => Ok(()),
                    Err(_) => Err(CycleError::Report),
                },
            };
            out.push(outcome);
            proof {
                let taken = samples.take(i + 1);
                assert(taken.drop_last() =~= samples.take(i as int));
                assert(out@.drop_last() =~= before_out);
                assert(taken.last() == samples[i as int]);
                if samples[i as int] is Ok {
                    assert(reporter.sent() =~= start + calls_of(taken, out@));
                } else {
                    assert(calls_of(taken, out@) == calls_of(samples.take(i as int), before_out));
                }
            }
            i = i + 1;
        }
        assert(samples.take(self.entries@.len() as int) =~= samples);
        out
    }
}

} // verus!

verus! {

/// A counter's sample depends on its own file alone: changing what one
/// file gave leaves every other counter's sample of the cycle unchanged, and
/// contents that are not a number give a parse failure for that counter.
pub proof fn lemma_counters_are_isolated(
    iface: InterfaceView,
    contents: Seq<Option<Seq<char>>>,
    j: int,
    changed: Option<Seq<char>>,
)
    requires
        contents.len() == iface.entries.len(),
        0 <= j < contents.len(),
    ensures
        forall|i: int|
            0 <= i < contents.len() && i != j ==> #[trigger] cycle_samples(
                iface,
                contents.update(j, changed),
            )[i] == cycle_samples(iface, contents)[i],
        changed matches Some(c) && counter_value(c) is None ==> cycle_samples(
            iface,
            contents.update(j, changed),
        )[j] == Err::<(Seq<char>, Seq<char>), CycleError>(CycleError::Parse),
{
}

/// Every cycle over an unchanged set of counters yields one sample slot per
/// counter, and a sample, whenever there is one, carries that counter's tag:
/// the tags of two cycles agree whatever the values read.
pub proof fn lemma_tags_are_stable(
    iface: InterfaceView,
    first: Seq<Option<Seq<char>>>,
    second: Seq<Option<Seq<char>>>,
)
    requires
        first.len() == iface.entries.len(),
        second.len() == iface.entries.len(),
    ensures
        cycle_samples(iface, first).len() == cycle_samples(iface, second).len(),
        cycle_samples(iface, first).len() == iface.entries.len(),
        forall|i: int|
            0 <= i < iface.entries.len() && (#[trigger] cycle_samples(iface, first)[i]) is Ok
                ==> cycle_samples(iface, first)[i]->Ok_0.0 == iface.entries[i].1,
        forall|i: int|
            0 <= i < iface.entries.len() && (#[trigger] cycle_samples(iface, first)[i]) is Ok
                && (#[trigger] cycle_samples(iface, second)[i]) is Ok ==> cycle_samples(
                iface,
                first,
            )[i]->Ok_0.0 == cycle_samples(iface, second)[i]->Ok_0.0,
{
}

/// A counter whose file disappears after startup fails that cycle with a
/// read failure and nothing else changes: every other counter's sample is
/// what it would have been. The watcher keeps the entry, so any later cycle
/// reads the same file again and its sample depends only on what that read
/// gives.
pub proof fn lemma_deleted_counter_is_retried(
    iface: InterfaceView,
    contents: Seq<Option<Seq<char>>>,
    j: int,
    later: Seq<Option<Seq<char>>>,
)
    requires
        contents.len() == iface.entries.len(),
        later.len() == iface.entries.len(),
        0 <= j < contents.len(),
    ensures
        cycle_samples(iface, contents.update(j, None))[j] == Err::<
            (Seq<char>, Seq<char>),
            CycleError,
        >(CycleError::Read),
        forall|i: int|
            0 <= i < contents.len() && i != j ==> #[trigger] cycle_samples(
                iface,
                contents.update(j, None),
            )[i] == cycle_samples(iface, contents)[i],
        cycle_samples(iface, later).len() == iface.entries.len(),
        cycle_samples(iface, later)[j] == sample_of(iface.entries[j].1, later[j]),
{
    lemma_counters_are_isolated(iface, contents, j, None);
}

/// The number of counters of a cycle that have a sample.
pub open spec fn good_samples(samples: Seq<Result<(Seq<char>, Seq<char>), CycleError>>) -> nat
    decreases samples.len(),
{
    if samples.len() == 0 {
        0
    } else {
        good_samples(samples.drop_last()) + if samples.last() is Ok {
            1nat
        } else {
            0nat
        }
    }
}

/// A cycle calls the reporter once for each counter that was read and
/// parsed and never for the others; when every counter has a sample, the
/// calls are those samples in entry order, each marked by its outcome.
pub proof fn lemma_one_call_per_good_sample(
    samples: Seq<Result<(Seq<char>, Seq<char>), CycleError>>,
    outcomes: Seq<Result<(), CycleError>>,
)
    requires
        samples.len() == outcomes.len(),
    ensures
        calls_of(samples, outcomes).len() == good_samples(samples),
        (forall|i: int| 0 <= i < samples.len() ==> (#[trigger] samples[i]) is Ok) ==> good_samples(
            samples,
        ) == samples.len(),
        (forall|i: int| 0 <= i < samples.len() ==> (#[trigger] samples[i]) is Ok) ==> forall|
            i: int,
        |
            0 <= i < samples.len() ==> #[trigger] calls_of(samples, outcomes)[i] == (
                samples[i]->Ok_0.0,
                samples[i]->Ok_0.1,
                outcomes[i] is Ok,
            ),
    decreases samples.len(),
{
    if samples.len() > 0 {
        lemma_one_call_per_good_sample(samples.drop_last(), outcomes.drop_last());
        if forall|i: int| 0 <= i < samples.len() ==> (#[trigger] samples[i]) is Ok {
            assert forall|i: int| 0 <= i < samples.drop_last().len() implies (
            #[trigger] samples.drop_last()[i]) is Ok by {
                assert(samples.drop_last()[i] == samples[i]);
            }
            assert(samples.last() is Ok);
            let rest = calls_of(samples.drop_last(), outcomes.drop_last());
            let n = samples.len() - 1;
            assert forall|i: int| 0 <= i < samples.len() implies #[trigger] calls_of(
                samples,
                outcomes,
            )[i] == (samples[i]->Ok_0.0, samples[i]->Ok_0.1, outcomes[i] is Ok) by {
                if i < n {
                    assert(samples.drop_last()[i] == samples[i]);
                    assert(outcomes.drop_last()[i] == outcomes[i]);
                    assert(rest[i] == (samples.drop_last()[i]->Ok_0.0, samples.drop_last()[i]->Ok_0.1, outcomes.drop_last()[i] is Ok));
                }
            }
        }
    }
}

} // verus!
