//! The stages this library ships, as one type, so that a pipeline can mix
//! them.
use vstd::prelude::*;
use crate::fault::Fault;
use crate::output::{null, StringOut};
use crate::processor::{inherited, Io, IoView, Process};
use crate::util::echo;

verus! {

/// Any of the stages this library ships.
#[derive(Debug)]
pub enum Stage {
    /// A synthetic source.
    Source(echo),
    /// A sink that collects text.
    Text(StringOut),
    /// A sink that discards.
    Null(null),
}

impl Stage {
    /// What the stage answers to a completion check when its upstream
    /// neighbour answered `before`: a source is finished once it has emitted
    /// all its bytes, a sink when its neighbour is.
    pub open spec fn finished(self, before: Option<bool>) -> bool {
        match self {
            Stage::Source(e) => e.cursor() == e.data().len(),
            _ => inherited(before),
        }
    }

    /// Whether `other` is the same kind of stage in the same state: a source
    /// with the same bytes at the same place, a text sink with the same text.
    pub open spec fn kept(self, other: Stage) -> bool {
        match (self, other) {
            (Stage::Source(a), Stage::Source(b)) => a == b,
            (Stage::Text(a), Stage::Text(b)) => a@ == b@,
            (Stage::Null(_), Stage::Null(_)) => true,
            _ => false,
        }
    }
}

impl Process for Stage {
    open spec fn ran(&self, on: IoView, after: &Self, out: Seq<u8>, r: Result<usize, Fault>) -> bool {
        match (*self, *after) {
            (Stage::Source(s), Stage::Source(t)) => s.ran(on, &t, out, r),
            (Stage::Text(s), Stage::Text(t)) => s.ran(on, &t, out, r),
            (Stage::Null(s), Stage::Null(t)) => s.ran(on, &t, out, r),
            _ => false,
        }
    }

    open spec fn polled(&self, before: Option<bool>, after: &Self, r: Result<bool, Fault>) -> bool {
        match (*self, *after) {
            (Stage::Source(s), Stage::Source(t)) => s.polled(before, &t, r),
            (Stage::Text(s), Stage::Text(t)) => s.polled(before, &t, r),
            (Stage::Null(s), Stage::Null(t)) => s.polled(before, &t, r),
            _ => false,
        }
    }

    fn run(&mut self, on: Io<'_>) -> (r: Result<usize, Fault>) {
        match self {
            Stage::Source(s) => s.run(on),
            Stage::Text(s) => s.run(on),
            Stage::Null(s) => s.run(on),
        }
    }

    fn done(&mut self, before: Option<bool>) -> (r: Result<bool, Fault>) {
        match self {
            Stage::Source(s) => s.done(before),
            Stage::Text(s) => s.done(before),
            Stage::Null(s) => s.done(before),
        }
    }

    fn label(&self) -> (s: String)
        ensures
            s@ == (match *self {
                Stage::Source(e) => e.label_text(),
                Stage::Text(_) => "string"@,
                Stage::Null(_) => "/dev/null"@,
            }),
    {
        match self {
            Stage::Source(e) => e.label(),
            Stage::Text(t) => t.label(),
            Stage::Null(n) => n.label(),
        }
    }
}

} // verus!
