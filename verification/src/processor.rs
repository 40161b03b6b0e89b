//! The stage contract and the engine that pumps bytes through a chain of
//! stages.
use vstd::prelude::*;
use vstd::slice::slice_subrange;
use crate::fault::Fault;
use crate::model::{
    accepted, answered, lemma_pump_at_prefix, pass, pump_at, ran_to, settled, traced, upstream,
    Pipeline, Pump, Turn,
};

verus! {

/// The role a stage plays in one pass, with the buffer slices that go with
/// that role.
pub enum Io<'a> {
    /// The stage opens the pipeline: a slice to fill.
    First(&'a mut [u8]),
    /// The stage closes the pipeline: the bytes its neighbour produced.
    Last(&'a [u8]),
    /// The stage sits in between: the bytes its neighbour produced, and a
    /// slice to fill.
    Middle(&'a [u8], &'a mut [u8]),
}

/// What an [`Io`] holds when it is handed to a stage.
pub enum IoView {
    /// The writable slice, as the stage finds it.
    First(Seq<u8>),
    /// The readable slice.
    Last(Seq<u8>),
    /// The readable slice, then the writable slice as the stage finds it.
    Middle(Seq<u8>, Seq<u8>),
}

impl IoView {
    /// The bytes offered to the stage; none for a first stage.
    pub open spec fn input(self) -> Seq<u8> {
        match self {
            IoView::First(_) => Seq::empty(),
            IoView::Last(i) => i,
            IoView::Middle(i, _) => i,
        }
    }

    /// The writable slice as the stage finds it; empty for a last stage.
    pub open spec fn output(self) -> Seq<u8> {
        match self {
            IoView::First(o) => o,
            IoView::Last(_) => Seq::empty(),
            IoView::Middle(_, o) => o,
        }
    }

    /// How many bytes the stage may write.
    pub open spec fn room(self) -> nat {
        self.output().len()
    }
}

impl<'a> Io<'a> {
    /// Takes the position apart: the bytes to take in, if the stage has a
    /// neighbour before it, and the slice to fill, if it has one after it.
    ///
    /// A stage that stands for something outside, such as a process, first
    /// hands on all of the former and then reads into the latter; with
    /// nothing to fill it reports 0 bytes.
    pub fn parts(self) -> (r: (Option<&'a [u8]>, Option<&'a mut [u8]>))
        ensures
            match self {
                Io::First(o) => {
                    &&& r.0 is None
                    &&& r.1 matches Some(w)
                    &&& w@ == o@
                    &&& final(w)@ == final(o)@
                },
                Io::Last(i) => {
                    &&& r.0 matches Some(t)
                    &&& t@ == i@
                    &&& r.1 is None
                },
                Io::Middle(i, o) => {
                    &&& r.0 matches Some(t)
                    &&& t@ == i@
                    &&& r.1 matches Some(w)
                    &&& w@ == o@
                    &&& final(w)@ == final(o)@
                },
            },
    {
        match self {
            Io::First(o) => (None, Some(o)),
            Io::Last(i) => (Some(i), None),
            Io::Middle(i, o) => (Some(i), Some(o)),
        }
    }
}

impl<'a> View for Io<'a> {
    type V = IoView;

    open spec fn view(&self) -> IoView {
        match self {
            Io::First(o) => IoView::First(o@),
            Io::Last(i) => IoView::Last(i@),
            Io::Middle(i, o) => IoView::Middle(i@, o@),
        }
    }
}

/// What every participant of a pipeline can do: one bounded unit of work,
/// and a completion check.
///
/// Each implementation describes its own behaviour by two relations,
/// [`Process::ran`] and [`Process::polled`]; the engine's contracts are
/// stated over them.
pub trait Process: Sized {
    /// Whether one call of `run` at position `on` can take the stage from
    /// `self` to `after`, leave `out` in the writable slice (empty for a
    /// last stage) and return `r`.
    open spec fn ran(&self, on: IoView, after: &Self, out: Seq<u8>, r: Result<usize, Fault>) -> bool {
        true
    }

    /// Whether one call of `done` with the upstream state `before` can take
    /// the stage from `self` to `after` and return `r`.
    open spec fn polled(&self, before: Option<bool>, after: &Self, r: Result<bool, Fault>) -> bool {
        true
    }

    /// Does one bounded unit of work for the position `on` and returns how
    /// many bytes it placed at the front of the writable slice.
    ///
    /// The count should not exceed the slice's length; the engine checks it
    /// and answers a larger one with [`Fault::Contract`].
    fn run(&mut self, on: Io<'_>) -> (r: Result<usize, Fault>)
        ensures
            old(self).ran(
                on@,
                final(self),
                match on {
                    Io::First(o) => final(o)@,
                    Io::Last(_) => Seq::empty(),
                    Io::Middle(_, o) => final(o)@,
                },
                r,
            ),
            match on {
                Io::First(o) => final(o)@.len() == o@.len(),
                Io::Last(_) => true,
                Io::Middle(_, o) => final(o)@.len() == o@.len(),
            },
    ;

    /// Whether the stage is finished, given the upstream neighbour's answer
    /// from the same check (`None` for the first stage).
    fn done(&mut self, before: Option<bool>) -> (r: Result<bool, Fault>)
        ensures
            old(self).polled(before, final(self), r),
    ;

    /// A human-readable label of the stage, for diagnostics.
    fn label(&self) -> String;
}

/// The stance of a stage that has no completion state of its own: finished
/// when its upstream neighbour is, and unfinished when it has none.
pub open spec fn inherited(before: Option<bool>) -> bool {
    match before {
        Some(d) => d,
        None => false,
    }
}

/// Computes [`inherited`].
pub fn inherit(before: Option<bool>) -> (d: bool)
    ensures
        d == inherited(before),
{
    match before {
        Some(d) => d,
        None => false,
    }
}

/// How many passes [`Processor::complete`] makes before it gives up on a
/// pipeline that is still unfinished.
pub const PASSES: u128 = 0xffff_ffff_ffff_ffff_ffff_ffff_ffff_ffff;

/// The pipeline engine: an ordered chain of stages and the buffer their
/// bytes go through.
///
/// The buffer is one allocation of twice the per-pass capacity. In a pass
/// the first stage fills half A; every middle stage reads the half its
/// neighbour filled and fills the other one.
#[derive(Debug)]
pub struct Processor<P: Process> {
    processes: Vec<P>,
    buffer: Vec<u8>,
    buffer_size: u32,
}

impl<P: Process> View for Processor<P> {
    type V = Pipeline<P>;

    closed spec fn view(&self) -> Pipeline<P> {
        Pipeline {
            stages: self.processes@,
            a: self.buffer@.take(self.buffer_size as int),
            b: self.buffer@.skip(self.buffer_size as int),
        }
    }
}

impl<P: Process> Processor<P> {
    /// The buffer is twice the per-pass capacity long. Every constructor
    /// establishes this and every method keeps it.
    pub closed spec fn wf(&self) -> bool {
        self.buffer@.len() == 2 * self.buffer_size
    }

    /// In a well-formed engine the two halves are equally long.
    pub proof fn halves(&self)
        requires
            self.wf(),
        ensures
            self@.wf(),
            self@.capacity() <= u32::MAX,
    {
    }

    /// An empty pipeline whose stages will exchange at most `buffer` bytes
    /// per pass. The buffer starts zeroed.
    pub fn new(buffer: u32) -> (p: Self)
        requires
            2 * buffer <= usize::MAX,
        ensures
            p.wf(),
            p@.stages.len() == 0,
            p@.a == Seq::new(buffer as nat, |i: int| 0u8),
            p@.b == Seq::new(buffer as nat, |i: int| 0u8),
    {
        Processor {
            processes: Vec::with_capacity(2),
            buffer: vec![0u8; buffer as usize * 2],
            buffer_size: buffer,
        }
    }

    /// Appends `p` as the new last stage.
    pub fn add(&mut self, p: P)
        requires
            old(self).wf(),
        ensures
            final(self).wf(),
            final(self)@.stages == old(self)@.stages.push(p),
            final(self)@.a == old(self)@.a,
            final(self)@.b == old(self)@.b,
    {
        self.processes.push(p);
    }

    /// The stages, first to last.
    pub fn stages(&self) -> (s: &Vec<P>)
        ensures
            s@ == self@.stages,
    {
        &self.processes
    }

    /// Asks every stage, first to last, whether it is finished, telling each
    /// what its upstream neighbour answered, and returns whether all of them
    /// are. No data moves; the first fault ends the check.
    pub fn done(&mut self) -> (r: Result<bool, Fault>)
        requires
            old(self).wf(),
        ensures
            final(self).wf(),
            settled(old(self)@, final(self)@, r),
    {
        let ghost pre = self@;
        let n = self.processes.len();
        let mut done = true;
        let mut last: Option<bool> = None;
        let mut i: usize = 0;
        let ghost mut answers: Seq<Result<bool, Fault>> = Seq::empty();
        while i < n
            invariant
                i <= n,
                n == pre.stages.len(),
                pre == old(self)@,
                self.processes@.len() == n,
                self.wf(),
                self@.a == pre.a,
                self@.b == pre.b,
                answers.len() == i,
                forall|j: int| 0 <= j < i ==> (#[trigger] answers[j]) is Ok,
                last == upstream(answers, i as int),
                done == (forall|j: int| 0 <= j < i ==> #[trigger] answers[j] == Ok::<bool, Fault>(true)),
                forall|j: int|
                    0 <= j < i ==> (#[trigger] pre.stages[j]).polled(
                        upstream(answers, j),
                        &self.processes@[j],
                        answers[j],
                    ),
                forall|j: int| i <= j < n ==> #[trigger] self.processes@[j] == pre.stages[j],
            decreases n - i,
        {
            let ghost before = answers;
            let p = &mut self.processes[i];
            let res = p.done(last);
            proof {
                answers = before.push(res);
                assert forall|j: int| 0 <= j <= i implies upstream(answers, j) == upstream(
                    before,
                    j,
                ) by {}
            }
            match res {
                Err(f) => {
                    assert(answered(pre, self@, Err::<bool, Fault>(f), answers));
                    return Err(f);
                },
                Ok(d) => {
                    proof {
                        let all = forall|j: int|
                            0 <= j < i ==> #[trigger] before[j] == Ok::<bool, Fault>(true);
                        let all_now = forall|j: int|
                            0 <= j < i + 1 ==> #[trigger] answers[j] == Ok::<bool, Fault>(true);
                        if all && d {
                            assert forall|j: int| 0 <= j < i + 1 implies #[trigger] answers[j]
                                == Ok::<bool, Fault>(true) by {
                                if j < i {
                                    assert(answers[j] == before[j]);
                                }
                            }
                        }
                        if all_now {
                            assert(answers[i as int] == Ok::<bool, Fault>(true));
                            assert forall|j: int| 0 <= j < i implies #[trigger] before[j]
                                == Ok::<bool, Fault>(true) by {
                                assert(answers[j] == before[j]);
                            }
                        }
                    }
                    done = done && d;
                    last = Some(d);
                },
            }
            i += 1;
        }
        assert(answered(pre, self@, Ok::<bool, Fault>(done), answers));
        Ok(done)
    }

    /// Makes one pass: runs every stage once, first to last, each on what
    /// its neighbour produced in this same pass.
    ///
    /// The first stage fills half A. Each middle stage reads what its
    /// neighbour produced, by count, and fills the other half. The last of
    /// several stages reads what its neighbour produced and writes nothing;
    /// a lone stage is a first stage. A stage that fails, or that reports
    /// more bytes than a half holds, ends the pass at once, with the stages
    /// after it untouched.
    pub fn step(&mut self) -> (r: Result<(), Fault>)
        requires
            old(self).wf(),
        ensures
            final(self).wf(),
            pass(old(self)@, final(self)@, r),
    {
        let ghost pre = self@;
        let n = self.processes.len();
        let cap = self.buffer_size as usize;
        let mut in_a = true;
        let mut read: usize = 0;
        let mut i: usize = 0;
        let ghost mut turns: Seq<Turn> = Seq::empty();
        while i < n
            invariant
                i <= n,
                n == pre.stages.len(),
                pre == old(self)@,
                pre.wf(),
                pre.capacity() == cap,
                self.processes@.len() == n,
                self.wf(),
                cap == self.buffer_size,
                turns.len() == i,
                read <= cap,
                pump_at(turns, n as int, pre.a, pre.b, i as int) == (Pump {
                    a: self@.a,
                    b: self@.b,
                    in_a,
                    avail: read as nat,
                }),
                forall|j: int|
                    0 <= j < i ==> {
                        let on = pump_at(turns, n as int, pre.a, pre.b, j).handed(j, n as int);
                        &&& (#[trigger] pre.stages[j]).ran(
                            on,
                            &self.processes@[j],
                            turns[j].out,
                            turns[j].res,
                        )
                        &&& turns[j].out.len() == on.room()
                    },
                forall|j: int| 0 <= j < i ==> accepted(j, n as int, pre.capacity(), #[trigger] turns[j]),
                forall|j: int| i <= j < n ==> #[trigger] self.processes@[j] == pre.stages[j],
            decreases n - i,
        {
            let ghost before = turns;
            let ghost pump = Pump { a: self@.a, b: self@.b, in_a, avail: read as nat };
            let (a, b) = self.buffer.as_mut_slice().split_at_mut(cap);
            let p = &mut self.processes[i];
            let ghost stage = *p;
            let ghost a1 = final(a)@;
            let ghost b1 = final(b)@;
            assert(a@ =~= pump.a && b@ =~= pump.b);
            assert(pump.in_a ==> a@.subrange(0, read as int) =~= pump.offered());
            assert(!pump.in_a ==> b@.subrange(0, read as int) =~= pump.offered());
            let res = if i == 0 {
                p.run(Io::First(a))
            } else if i + 1 == n {
                if in_a {
                    p.run(Io::Last(slice_subrange(a, 0, read)))
                } else {
                    p.run(Io::Last(slice_subrange(b, 0, read)))
                }
            } else if in_a {
                p.run(Io::Middle(slice_subrange(a, 0, read), b))
            } else {
                p.run(Io::Middle(slice_subrange(b, 0, read), a))
            };
            let ghost turn = Turn {
                out: if i == 0 {
                    self@.a
                } else if i + 1 == n {
                    Seq::empty()
                } else if in_a {
                    self@.b
                } else {
                    self@.a
                },
                res,
            };
            proof {
                let on = pump.handed(i as int, n as int);
                assert(self.buffer@ == a1 + b1);
                assert(self@.a =~= a1 && self@.b =~= b1);
                assert(pump.after(i as int, n as int, turn).a =~= self@.a);
                assert(pump.after(i as int, n as int, turn).b =~= self@.b);
                assert(stage.ran(on, &self.processes@[i as int], turn.out, res));
                turns = before.push(turn);
                assert forall|j: int| 0 <= j <= i implies pump_at(turns, n as int, pre.a, pre.b, j)
                    == pump_at(before, n as int, pre.a, pre.b, j) by {
                    lemma_pump_at_prefix(before, turns, n as int, pre.a, pre.b, j);
                }
                assert(pump_at(turns, n as int, pre.a, pre.b, i + 1) == pump.after(
                    i as int,
                    n as int,
                    turn,
                ));
            }
            let last = i > 0 && i + 1 == n;
            match res {
                Err(f) => {
                    assert(traced(pre, self@, Err::<(), Fault>(f), turns));
                    return Err(f);
                },
                Ok(c) => {
                    if !last {
                        if c > cap {
                            assert(traced(pre, self@, Err::<(), Fault>(Fault::Contract), turns));
                            return Err(Fault::Contract);
                        }
                        read = c;
                        in_a = i == 0 || !in_a;
                    }
                },
            }
            i += 1;
        }
        assert(traced(pre, self@, Ok::<(), Fault>(()), turns));
        Ok(())
    }

    /// Runs the pipeline to completion: checks whether it is complete and,
    /// while it is not, makes a pass and checks again.
    ///
    /// The first fault, from a check or from a pass, ends the run and is
    /// returned as it is; the pipeline stays as that call left it. A
    /// pipeline still unfinished after [`PASSES`] passes is given up with
    /// [`Fault::Stalled`].
    pub fn complete(&mut self) -> (r: Result<(), Fault>)
        requires
            old(self).wf(),
        ensures
            final(self).wf(),
            ran_to(old(self)@, final(self)@, PASSES as nat, r),
    {
        let ghost pre = self@;
        let mut budget: u128 = PASSES;
        while budget > 0
            invariant
                self.wf(),
                pre == old(self)@,
                forall|post: Pipeline<P>, r: Result<(), Fault>|
                    #![trigger ran_to(self@, post, budget as nat, r)]
                    ran_to(self@, post, budget as nat, r) ==> ran_to(pre, post, PASSES as nat, r),
            decreases budget,
        {
            let ghost cur = self@;
            match self.done() {
                Err(f) => {
                    assert(ran_to(cur, self@, budget as nat, Err::<(), Fault>(f)));
                    return Err(f);
                },
                Ok(true) => {
                    assert(ran_to(cur, self@, budget as nat, Ok::<(), Fault>(())));
                    return Ok(());
                },
                Ok(false) => {},
            }
            let ghost checked = self@;
            match self.step() {
                Err(f) => {
                    assert(ran_to(cur, self@, budget as nat, Err::<(), Fault>(f)));
                    return Err(f);
                },
                Ok(()) => {},
            }
            budget = budget - 1;
            proof {
                let pumped = self@;
                assert forall|post: Pipeline<P>, r: Result<(), Fault>|
                    #![trigger ran_to(pumped, post, budget as nat, r)]
                    ran_to(pumped, post, budget as nat, r) implies ran_to(
                    pre,
                    post,
                    PASSES as nat,
                    r,
                ) by {
                    assert(settled(cur, checked, Ok::<bool, Fault>(false)));
                    assert(pass(checked, pumped, Ok::<(), Fault>(())));
                    assert(ran_to(cur, post, (budget + 1) as nat, r));
                }
            }
        }
        assert(ran_to(self@, self@, 0, Err::<(), Fault>(Fault::Stalled)));
        Err(Fault::Stalled)
    }

    /// Gives up the engine for its stages, first to last.
    pub fn into_stages(self) -> (s: Vec<P>)
        ensures
            s@ == self@.stages,
    {
        self.processes
    }

    /// The number of bytes that can flow between two neighbours in one pass.
    pub fn capacity(&self) -> (c: u32)
        requires
            self.wf(),
        ensures
            c == self@.capacity(),
    {
        self.buffer_size
    }
}

} // verus!
