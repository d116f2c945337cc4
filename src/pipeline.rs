use vstd::prelude::*;

verus! {

/// What happened at one turn of a conversion loop.
#[derive(Clone, Copy, Debug, PartialEq, Eq, Structural)]
pub enum Event {
    /// The reader has no more records.
    EndOfInput,
    /// The reader rejected a malformed record.
    ParseError,
    /// A record's output was written.
    Written,
    /// The consumer closed its end of the output pipe.
    BrokenPipe,
    /// Writing the output failed for another reason.
    WriteError,
}

/// What a conversion loop does next.
#[derive(Clone, Copy, Debug, PartialEq, Eq, Structural)]
pub enum Action {
    /// Read and convert the next record.
    ReadNext,
    /// Stop; the conversion has succeeded.
    Finish,
    /// Stop; the conversion has failed with the error just seen.
    Abort,
}

/// The loop's rule: go on after a record is written; stop cleanly at the end
/// of the input and when the consumer has gone away; stop with the error at
/// the first malformed record or failed write. Nothing is retried or
/// skipped.
pub fn next_action(e: Event) -> (a: Action)
    ensures
        a == Action::ReadNext <==> e == Event::Written,
        a == Action::Finish <==> (e == Event::EndOfInput || e == Event::BrokenPipe),
        a == Action::Abort <==> (e == Event::ParseError || e == Event::WriteError),
{
    match e {
        Event::Written => Action::ReadNext,
        Event::EndOfInput => Action::Finish,
        Event::BrokenPipe => Action::Finish,
        Event::ParseError => Action::Abort,
        Event::WriteError => Action::Abort,
    }
}

} // verus!
