//! A synthetic source: a fixed byte sequence fed into a pipeline.
use vstd::prelude::*;
use vstd::string::StringExecFns;
use crate::fault::Fault;
use crate::processor::{Io, IoView, Process};

verus! {

/// The text that `String::from_utf8_lossy` makes of `bytes`.
pub uninterp spec fn lossy(bytes: Seq<u8>) -> Seq<char>;

/// The text that `str::escape_debug` makes of `text`.
pub uninterp spec fn escaped(text: Seq<char>) -> Seq<char>;

/// `String::from_utf8_lossy` reads bytes as UTF-8 and puts U+FFFD in place
/// of what is not; the result depends on the bytes alone. Not proved.
#[verifier::external_body]
fn read_lossy(bytes: &[u8]) -> (s: String)
    ensures
        s@ == lossy(bytes@),
{
    String::from_utf8_lossy(bytes).into_owned()
}

/// `str::escape_debug` escapes each character as `char::escape_debug` does;
/// the result depends on the text alone. Not proved.
#[verifier::external_body]
fn escape(text: &str) -> (s: String)
    ensures
        s@ == escaped(text@),
{
    text.escape_debug().collect()
}

/// The label of a source whose bytes, read as text and escaped, are `shown`:
/// the word `echo`, a space, and `shown`.
pub fn prefixed(shown: &str) -> (s: String)
    ensures
        s@ == "echo "@ + shown@,
{
    String::from_str("echo ").concat(shown)
}

/// A source stage that emits a fixed byte sequence, as many bytes per pass
/// as the pipeline's buffer takes.
///
/// It is only valid as the first stage of a pipeline.
#[derive(Debug)]
pub struct echo {
    what: &'static [u8],
    written: usize,
}

impl echo {
    #[verifier::type_invariant]
    spec fn within(self) -> bool {
        self.written <= self.what@.len()
    }

    /// The whole byte sequence this source was made with.
    pub closed spec fn data(&self) -> Seq<u8> {
        self.what@
    }

    /// How many bytes of [`echo::data`] have been emitted so far.
    pub closed spec fn cursor(&self) -> nat {
        self.written as nat
    }

    /// The bytes still to be emitted.
    pub open spec fn pending(&self) -> Seq<u8> {
        self.data().skip(self.cursor() as int)
    }

    /// The source one call of `run` leaves behind when `room` bytes fit.
    pub open spec fn advanced(&self, after: &Self, room: nat) -> bool {
        &&& after.data() == self.data()
        &&& after.cursor() == self.cursor() + vstd::math::min(
            room as int,
            self.pending().len() as int,
        )
    }

    /// A source holds no more bytes than a slice can.
    pub proof fn bounded(&self)
        ensures
            self.data().len() <= usize::MAX,
    {
        assert(self.what.len() == self.what@.len());
    }

    /// A source that will emit `what`, starting at its first byte.
    pub fn new(what: &'static [u8]) -> (e: echo)
        ensures
            e.data() == what@,
            e.cursor() == 0,
    {
        echo { what, written: 0 }
    }

    /// How many bytes have been emitted so far.
    pub fn written(&self) -> (n: usize)
        ensures
            n == self.cursor(),
    {
        self.written
    }

    /// The label of this stage: the word `echo`, a space, and the bytes it
    /// was made with, read as text and escaped.
    pub open spec fn label_text(&self) -> Seq<char> {
        "echo "@ + escaped(lossy(self.data()))
    }

}

impl Process for echo {
    open spec fn ran(&self, on: IoView, after: &Self, out: Seq<u8>, r: Result<usize, Fault>) -> bool {
        match on {
            IoView::First(o) => {
                let n = vstd::math::min(o.len() as int, self.pending().len() as int);
                &&& self.advanced(after, o.len())
                &&& out == self.pending().take(n) + o.skip(n)
                &&& r == Ok::<usize, Fault>(n as usize)
            },
            _ => {
                &&& after == self
                &&& out == on.output()
                &&& r == Err::<usize, Fault>(Fault::Contract)
            },
        }
    }

    open spec fn polled(&self, before: Option<bool>, after: &Self, r: Result<bool, Fault>) -> bool {
        &&& after == self
        &&& r == Ok::<bool, Fault>(self.cursor() == self.data().len())
    }

    fn run(&mut self, on: Io<'_>) -> (r: Result<usize, Fault>) {
        proof {
            use_type_invariant(&*self);
        }
        match on {
            Io::First(out) => {
                let total = self.what.len();
                let left = total - self.written;
                let n = if out.len() < left { out.len() } else { left };
                let ghost before = out@;
                let mut i: usize = 0;
                while i < n
                    invariant
                        i <= n,
                        n <= out@.len(),
                        self.written + n <= self.what@.len() == total,
                        out@.len() == before.len(),
                        forall|j: int| 0 <= j < i ==> out@[j] == self.what@[self.written + j],
                        forall|j: int| i <= j < out@.len() ==> out@[j] == before[j],
                    decreases n - i,
                {
                    out[i] = self.what[self.written + i];
                    i += 1;
                }
                assert(out@ =~= old(self).pending().take(n as int) + before.skip(n as int));
                self.written = self.written + n;
                Ok(n)
            },
            Io::Last(_) => Err(Fault::Contract),
            Io::Middle(_, _) => Err(Fault::Contract),
        }
    }

    fn done(&mut self, before: Option<bool>) -> (r: Result<bool, Fault>) {
        Ok(self.written == self.what.len())
    }

    fn label(&self) -> (s: String)
        ensures
            s@ == self.label_text(),
    {
        let text = read_lossy(self.what);
        let shown = escape(text.as_str());
        prefixed(shown.as_str())
    }
}

} // verus!
