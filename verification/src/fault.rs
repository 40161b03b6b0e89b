//! The faults a pipeline run can end with.
use vstd::prelude::*;

verus! {

/// Why a stage, or the engine on its behalf, gave up.
///
/// The engine never retries: the first fault met during a pass or a
/// completion check is what the caller gets.
#[derive(Clone, Copy, Debug, PartialEq, Eq, Structural)]
pub enum Fault {
    /// Reading from or writing to an external stream failed.
    Io,
    /// The operating system refused to start or to poll a process.
    Os,
    /// A text sink received bytes that are not valid UTF-8.
    Encoding,
    /// A stage broke the stage contract: it was run in a position it does
    /// not support, or it claimed to have written more bytes than the slice
    /// it was handed can hold.
    Contract,
    /// The pipeline was still unfinished after [`crate::processor::PASSES`]
    /// passes.
    Stalled,
}

impl Fault {
    /// A short human-readable label for diagnostics.
    pub fn label(&self) -> (s: &'static str)
        ensures
            s@ == (match *self {
                Fault::Io => "i/o fault"@,
                Fault::Os => "os fault"@,
                Fault::Encoding => "encoding fault"@,
                Fault::Contract => "contract fault"@,
                Fault::Stalled => "stalled"@,
            }),
    {
        match self {
            Fault::Io => "i/o fault",
            Fault::Os => "os fault",
            Fault::Encoding => "encoding fault",
            Fault::Contract => "contract fault",
            Fault::Stalled => "stalled",
        }
    }
}

} // verus!
