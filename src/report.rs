//! Destinations for samples.
use vstd::prelude::*;

verus! {

/// Why a reporter could not take a sample.
#[derive(Debug, Clone, Copy, PartialEq, Eq, Structural)]
pub enum ReportError {
    /// The sample could not be transmitted to the metrics agent.
    Transport,
}

/// A sink for `(metric name, value)` pairs. One instance serves every
/// interface for the lifetime of the driver; a failure is never fatal.
pub trait Report {
    /// Every sample handed to the reporter so far, in order, each with
    /// whether the reporter accepted it. A reporter written outside the
    /// verified library keeps no such record.
    closed spec fn sent(&self) -> Seq<(Seq<char>, Seq<char>, bool)> {
        Seq::empty()
    }

    fn report(&mut self, tag: String, value: String) -> (r: Result<(), ReportError>)
        ensures
            final(self).sent() == old(self).sent().push((tag@, value@, r is Ok)),
    ;
}

/// The diagnostic reporter: it renders each sample as `"<tag> <value>"` and
/// keeps the lines until the caller takes them for output.
pub struct LogReporter {
    pub lines: Vec<String>,
    /// Every sample reported so far, including those whose lines were taken.
    pub history: Ghost<Seq<(Seq<char>, Seq<char>, bool)>>,
}

/// The line that the diagnostic reporter writes for a sample.
pub open spec fn log_line(tag: Seq<char>, value: Seq<char>) -> Seq<char> {
    tag + " "@ + value
}

impl LogReporter {
    pub fn new() -> (r: Self)
        ensures
            r.lines@.len() == 0,
            r.history@.len() == 0,
    {
        Self { lines: Vec::new(), history: Ghost(Seq::empty()) }
    }

    /// Records the line for one sample.
    pub fn record(&mut self, tag: &String, value: &String)
        ensures
            final(self).history@ == old(self).history@.push((tag@, value@, true)),
            final(self).lines@.len() == old(self).lines@.len() + 1,
            forall|i: int|
                0 <= i < old(self).lines@.len() ==> #[trigger] final(self).lines@[i] == old(
                    self,
                ).lines@[i],
            final(self).lines@.last()@ == log_line(tag@, value@),
    {
        let line = tag.clone().concat(" ").concat(value.as_str());
        self.lines.push(line);
        self.history = Ghost(self.history@.push((tag@, value@, true)));
    }

    /// Hands out the lines recorded so far and forgets them.
    pub fn take_lines(&mut self) -> (r: Vec<String>)
        ensures
            r@ == old(self).lines@,
            final(self).lines@.len() == 0,
            final(self).history == old(self).history,
    {
        let mut taken: Vec<String> = Vec::new();
        std::mem::swap(&mut taken, &mut self.lines);
        taken
    }
}

impl Report for LogReporter {
    open spec fn sent(&self) -> Seq<(Seq<char>, Seq<char>, bool)> {
        self.history@
    }

    /// Never fails: the sample's line is recorded after the earlier ones.
    fn report(&mut self, tag: String, value: String) -> (r: Result<(), ReportError>)
        ensures
            r == Ok::<(), ReportError>(()),
            final(self).lines@.len() == old(self).lines@.len() + 1,
            forall|i: int|
                0 <= i < old(self).lines@.len() ==> #[trigger] final(self).lines@[i] == old(
                    self,
                ).lines@[i],
            final(self).lines@.last()@ == log_line(tag@, value@),
    {
        self.record(&tag, &value);
        Ok(())
    }
}

} // verus!
