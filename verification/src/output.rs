//! Sink stages: one that collects text, one that discards.
use vstd::prelude::*;
use vstd::string::{StringExecFns, StringSliceAdditionalSpecFns};
use vstd::utf8::{decode_utf8, encode_utf8_decode_utf8, valid_utf8};
use crate::fault::Fault;
use crate::processor::{inherit, inherited, Io, IoView, Process};

verus! {

/// The error of `core::str::from_utf8`; the library only tells it apart
/// from success.
#[verifier::external_type_specification]
#[verifier::external_body]
pub struct ExUtf8Error(core::str::Utf8Error);

/// `core::str::from_utf8` checks that the bytes are valid UTF-8 and, if they
/// are, returns them unchanged as a string slice; otherwise it returns an
/// error. Not proved: taken from the standard library's documentation.
pub assume_specification[ core::str::from_utf8 ](v: &[u8]) -> (r: Result<
    &str,
    core::str::Utf8Error,
>)
    ensures
        r is Ok <==> valid_utf8(v@),
        r matches Ok(s) ==> s.spec_bytes() == v@,
;

/// A sink that discards whatever it receives.
///
/// It is only valid as the last stage of a pipeline.
#[derive(Debug)]
pub struct null {}

impl Process for null {
    open spec fn ran(&self, on: IoView, after: &Self, out: Seq<u8>, r: Result<usize, Fault>) -> bool {
        &&& out == on.output()
        &&& r == (if on is Last {
            Ok::<usize, Fault>(0usize)
        } else {
            Err::<usize, Fault>(Fault::Contract)
        })
    }

    open spec fn polled(&self, before: Option<bool>, after: &Self, r: Result<bool, Fault>) -> bool {
        r == Ok::<bool, Fault>(inherited(before))
    }

    fn run(&mut self, on: Io<'_>) -> (r: Result<usize, Fault>) {
        match on {
            Io::Last(_) => Ok(0),
            Io::First(_) => Err(Fault::Contract),
            Io::Middle(_, _) => Err(Fault::Contract),
        }
    }

    fn done(&mut self, before: Option<bool>) -> (r: Result<bool, Fault>) {
        Ok(inherit(before))
    }

    fn label(&self) -> (s: String)
        ensures
            s@ == "/dev/null"@,
    {
        String::from_str("/dev/null")
    }
}

/// A sink that decodes what it receives as UTF-8 and appends it to a text.
///
/// It is only valid as the last stage of a pipeline. Each pass is decoded
/// on its own: a pass whose bytes are not valid UTF-8 is refused with
/// [`Fault::Encoding`], and what was collected before stays.
#[derive(Debug)]
pub struct StringOut {
    text: String,
}

impl View for StringOut {
    type V = Seq<char>;

    /// The text collected so far.
    closed spec fn view(&self) -> Seq<char> {
        self.text@
    }
}

impl StringOut {
    /// A sink that has collected nothing yet.
    pub fn new() -> (s: StringOut)
        ensures
            s@ == Seq::<char>::empty(),
    {
        StringOut { text: String::new() }
    }

    /// The text collected so far.
    pub fn text(&self) -> (t: &str)
        ensures
            t@ == self@,
    {
        self.text.as_str()
    }

    /// Gives up the sink for the text it collected.
    pub fn into_text(self) -> (t: String)
        ensures
            t@ == self@,
    {
        self.text
    }

    /// Decodes `bytes` and appends them to the text, or refuses them and
    /// leaves the text as it is.
    pub fn take(&mut self, bytes: &[u8]) -> (r: Result<(), Fault>)
        ensures
            valid_utf8(bytes@) ==> r is Ok && final(self)@ == old(self)@ + decode_utf8(bytes@),
            !valid_utf8(bytes@) ==> r == Err::<(), Fault>(Fault::Encoding) && final(self)@ == old(
                self,
            )@,
    {
        match core::str::from_utf8(bytes) {
            Ok(s) => {
                proof {
                    encode_utf8_decode_utf8(s@);
                }
                self.text.append(s);
                Ok(())
            },
            Err(_) => Err(Fault::Encoding),
        }
    }
}

impl Process for StringOut {
    open spec fn ran(&self, on: IoView, after: &Self, out: Seq<u8>, r: Result<usize, Fault>) -> bool {
        &&& out == on.output()
        &&& match on {
            IoView::Last(i) => if valid_utf8(i) {
                after@ == self@ + decode_utf8(i) && r == Ok::<usize, Fault>(0usize)
            } else {
                after@ == self@ && r == Err::<usize, Fault>(Fault::Encoding)
            },
            _ => after@ == self@ && r == Err::<usize, Fault>(Fault::Contract),
        }
    }

    open spec fn polled(&self, before: Option<bool>, after: &Self, r: Result<bool, Fault>) -> bool {
        &&& after@ == self@
        &&& r == Ok::<bool, Fault>(inherited(before))
    }

    fn run(&mut self, on: Io<'_>) -> (r: Result<usize, Fault>) {
        match on {
            Io::Last(bytes) => match self.take(bytes) {
                Ok(()) => Ok(0),
                Err(f) => Err(f),
            },
            Io::First(_) => Err(Fault::Contract),
            Io::Middle(_, _) => Err(Fault::Contract),
        }
    }

    fn done(&mut self, before: Option<bool>) -> (r: Result<bool, Fault>) {
        Ok(inherit(before))
    }

    fn label(&self) -> (s: String)
        ensures
            s@ == "string"@,
    {
        String::from_str("string")
    }
}

} // verus!
