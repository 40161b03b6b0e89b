//! The mathematical model of a pipeline and of what a pass, a completion
//! check and a run to completion do to it.
use vstd::prelude::*;
use crate::fault::Fault;
use crate::processor::{IoView, Process};

verus! {

/// A pipeline as the contracts see it: the stages in order and the two
/// halves of the buffer.
pub struct Pipeline<P> {
    /// The stages, first to last.
    pub stages: Seq<P>,
    /// Half A of the buffer, the one the first stage writes into.
    pub a: Seq<u8>,
    /// Half B of the buffer.
    pub b: Seq<u8>,
}

impl<P> Pipeline<P> {
    /// The number of bytes that can flow between two neighbours in one pass.
    pub open spec fn capacity(self) -> nat {
        self.a.len()
    }

    /// Both halves have the same length.
    pub open spec fn wf(self) -> bool {
        self.a.len() == self.b.len()
    }
}

/// What one call of `run` handed back: the writable slice as the stage left
/// it (empty for a last stage) and the result.
pub struct Turn {
    /// The writable slice after the call.
    pub out: Seq<u8>,
    /// The result of the call.
    pub res: Result<usize, Fault>,
}

impl Turn {
    /// The byte count the stage reported, 0 if it failed.
    pub open spec fn count(self) -> nat {
        match self.res {
            Ok(c) => c as nat,
            Err(_) => 0,
        }
    }
}

/// The buffer in the middle of a pass.
pub struct Pump {
    /// Half A.
    pub a: Seq<u8>,
    /// Half B.
    pub b: Seq<u8>,
    /// Whether half A holds the bytes the next stage will read.
    pub in_a: bool,
    /// How many bytes the previous stage produced.
    pub avail: nat,
}

impl Pump {
    /// The bytes the previous stage produced: exactly `avail` of them, not
    /// the whole half.
    pub open spec fn offered(self) -> Seq<u8> {
        if self.in_a {
            self.a.take(self.avail as int)
        } else {
            self.b.take(self.avail as int)
        }
    }

    /// The half the next middle stage writes into.
    pub open spec fn spare(self) -> Seq<u8> {
        if self.in_a {
            self.b
        } else {
            self.a
        }
    }

    /// What stage `i` of `n` is handed. Stage 0 is always a first stage, even
    /// when it is the only one; the last of several stages only reads.
    pub open spec fn handed(self, i: int, n: int) -> IoView {
        if i == 0 {
            IoView::First(self.a)
        } else if i + 1 == n {
            IoView::Last(self.offered())
        } else {
            IoView::Middle(self.offered(), self.spare())
        }
    }

    /// The buffer after stage `i` of `n` took its turn. The first stage
    /// writes into half A; each middle stage writes into the spare half,
    /// which then becomes the one to read from; the last stage changes
    /// nothing.
    pub open spec fn after(self, i: int, n: int, t: Turn) -> Pump {
        if i == 0 {
            Pump { a: t.out, b: self.b, in_a: true, avail: t.count() }
        } else if i + 1 == n {
            self
        } else if self.in_a {
            Pump { a: self.a, b: t.out, in_a: false, avail: t.count() }
        } else {
            Pump { a: t.out, b: self.b, in_a: true, avail: t.count() }
        }
    }
}

/// Whether the engine goes on after stage `i` of `n` took the turn `t`: the
/// call succeeded, and the count it reported fits the slice it was handed.
/// What a last stage reports is ignored.
pub open spec fn accepted(i: int, n: int, capacity: nat, t: Turn) -> bool {
    match t.res {
        Ok(c) => (0 < i && i + 1 == n) || c <= capacity,
        Err(_) => false,
    }
}

/// The fault a pass ends with when the turn `t` was not accepted.
pub open spec fn refusal(t: Turn) -> Fault {
    match t.res {
        Ok(_) => Fault::Contract,
        Err(f) => f,
    }
}

/// The buffer before stage `i` of `n` takes its turn, in a pass that starts
/// with the halves `a` and `b` and in which the stages before `i` took the
/// turns `turns`.
pub open spec fn pump_at(turns: Seq<Turn>, n: int, a: Seq<u8>, b: Seq<u8>, i: int) -> Pump
    decreases i,
{
    if i <= 0 {
        Pump { a, b, in_a: true, avail: 0 }
    } else {
        pump_at(turns, n, a, b, i - 1).after(i - 1, n, turns[i - 1])
    }
}

/// The buffer before stage `i` depends on the turns before `i` only.
pub proof fn lemma_pump_at_prefix(turns: Seq<Turn>, more: Seq<Turn>, n: int, a: Seq<u8>, b: Seq<u8>, i: int)
    requires
        i <= turns.len() <= more.len(),
        forall|j: int| 0 <= j < turns.len() ==> turns[j] == more[j],
    ensures
        pump_at(more, n, a, b, i) == pump_at(turns, n, a, b, i),
    decreases i,
{
    if i > 0 {
        lemma_pump_at_prefix(turns, more, n, a, b, i - 1);
    }
}

/// Whether a pass over `pre` in which the stages took the turns `turns`, one
/// after the other, leaves `post` and returns `r`.
pub open spec fn traced<P: Process>(
    pre: Pipeline<P>,
    post: Pipeline<P>,
    r: Result<(), Fault>,
    turns: Seq<Turn>,
) -> bool {
    let n = pre.stages.len() as int;
    let k = turns.len() as int;
    &&& k <= n
    &&& post.stages.len() == n
    &&& forall|i: int|
        0 <= i < k ==> {
            let on = pump_at(turns, n, pre.a, pre.b, i).handed(i, n);
            &&& (#[trigger] pre.stages[i]).ran(on, &post.stages[i], turns[i].out, turns[i].res)
            &&& turns[i].out.len() == on.room()
        }
    &&& forall|i: int| k <= i < n ==> #[trigger] post.stages[i] == pre.stages[i]
    &&& forall|i: int| 0 <= i < k - 1 ==> accepted(i, n, pre.capacity(), #[trigger] turns[i])
    &&& post.a == pump_at(turns, n, pre.a, pre.b, k).a
    &&& post.b == pump_at(turns, n, pre.a, pre.b, k).b
    &&& if k == n && (n == 0 || accepted(n - 1, n, pre.capacity(), turns[n - 1])) {
        r == Ok::<(), Fault>(())
    } else {
        &&& k > 0
        &&& !accepted(k - 1, n, pre.capacity(), turns[k - 1])
        &&& r == Err::<(), Fault>(refusal(turns[k - 1]))
    }
}

/// Whether one pass can take the pipeline from `pre` to `post` and return
/// `r`: every stage is run once, first to last, each on what its neighbour
/// produced in this same pass, until one fails or reports a count that does
/// not fit.
pub open spec fn pass<P: Process>(pre: Pipeline<P>, post: Pipeline<P>, r: Result<(), Fault>) -> bool {
    exists|turns: Seq<Turn>| traced(pre, post, r, turns)
}

/// The upstream state stage `i` is given in a completion check in which the
/// stages before it answered `answers`.
pub open spec fn upstream(answers: Seq<Result<bool, Fault>>, i: int) -> Option<bool> {
    if i <= 0 {
        None
    } else {
        match answers[i - 1] {
            Ok(d) => Some(d),
            Err(_) => None,
        }
    }
}

/// Whether a completion check over `pre` in which the stages answered
/// `answers`, one after the other, leaves `post` and returns `r`.
pub open spec fn answered<P: Process>(
    pre: Pipeline<P>,
    post: Pipeline<P>,
    r: Result<bool, Fault>,
    answers: Seq<Result<bool, Fault>>,
) -> bool {
    let n = pre.stages.len() as int;
    let k = answers.len() as int;
    &&& k <= n
    &&& post.stages.len() == n
    &&& post.a == pre.a
    &&& post.b == pre.b
    &&& forall|i: int|
        0 <= i < k ==> (#[trigger] pre.stages[i]).polled(
            upstream(answers, i),
            &post.stages[i],
            answers[i],
        )
    &&& forall|i: int| k <= i < n ==> #[trigger] post.stages[i] == pre.stages[i]
    &&& forall|i: int| 0 <= i < k - 1 ==> (#[trigger] answers[i]) is Ok
    &&& if k == n && (n == 0 || answers[n - 1] is Ok) {
        r == Ok::<bool, Fault>(forall|i: int| 0 <= i < n ==> #[trigger] answers[i] == Ok::<bool, Fault>(true))
    } else {
        &&& k > 0
        &&& answers[k - 1] is Err
        &&& r == Err::<bool, Fault>(answers[k - 1]->Err_0)
    }
}

/// Whether one completion check can take the pipeline from `pre` to `post`
/// and return `r`: every stage is asked once, first to last, each told what
/// its upstream neighbour answered; the pipeline is complete when all of
/// them are.
pub open spec fn settled<P: Process>(pre: Pipeline<P>, post: Pipeline<P>, r: Result<bool, Fault>) -> bool {
    exists|answers: Seq<Result<bool, Fault>>| answered(pre, post, r, answers)
}

/// Whether a run of at most `budget` passes can take the pipeline from `pre`
/// to `post` and return `r`: check, and unless complete, pass and start
/// over; the first fault ends the run where it stands.
pub open spec fn ran_to<P: Process>(
    pre: Pipeline<P>,
    post: Pipeline<P>,
    budget: nat,
    r: Result<(), Fault>,
) -> bool
    decreases budget,
{
    if budget == 0 {
        post == pre && r == Err::<(), Fault>(Fault::Stalled)
    } else {
        exists|checked: Pipeline<P>, d: Result<bool, Fault>|
            #[trigger] settled(pre, checked, d) && match d {
                Err(f) => post == checked && r == Err::<(), Fault>(f),
                Ok(true) => post == checked && r == Ok::<(), Fault>(()),
                Ok(false) => exists|pumped: Pipeline<P>, s: Result<(), Fault>|
                    #[trigger] pass(checked, pumped, s) && match s {
                        Err(f) => post == pumped && r == Err::<(), Fault>(f),
                        Ok(()) => ran_to(pumped, post, (budget - 1) as nat, r),
                    },
            }
    }
}

/// In a pass, no stage is offered more bytes than the capacity, and every
/// stage that writes is given room for exactly the capacity; the halves keep
/// their length.
pub proof fn law_bounded_handoff<P: Process>(
    pre: Pipeline<P>,
    post: Pipeline<P>,
    r: Result<(), Fault>,
    turns: Seq<Turn>,
    i: int,
)
    requires
        pre.wf(),
        traced(pre, post, r, turns),
        0 <= i <= turns.len(),
    ensures
        ({
            let n = pre.stages.len() as int;
            let pump = pump_at(turns, n, pre.a, pre.b, i);
            &&& pump.a.len() == pre.capacity()
            &&& pump.b.len() == pre.capacity()
            &&& i < turns.len() ==> pump.avail <= pre.capacity()
            &&& i < turns.len() ==> pump.handed(i, n).input().len() <= pre.capacity()
            &&& i < turns.len() && !(pump.handed(i, n) is Last) ==> pump.handed(i, n).room()
                == pre.capacity()
        }),
    decreases i,
{
    let n = pre.stages.len() as int;
    if i > 0 {
        law_bounded_handoff(pre, post, r, turns, i - 1);
        let before = pump_at(turns, n, pre.a, pre.b, i - 1);
        assert(pre.stages[i - 1].ran(
            before.handed(i - 1, n),
            &post.stages[i - 1],
            turns[i - 1].out,
            turns[i - 1].res,
        ));
        if i < turns.len() {
            assert(accepted(i - 1, n, pre.capacity(), turns[i - 1]));
        }
    }
}

/// A pass changes neither the number of stages nor the capacity.
pub proof fn law_pass_keeps_shape<P: Process>(pre: Pipeline<P>, post: Pipeline<P>, r: Result<(), Fault>)
    requires
        pre.wf(),
        pass(pre, post, r),
    ensures
        post.wf(),
        post.capacity() == pre.capacity(),
        post.stages.len() == pre.stages.len(),
{
    let turns = choose|turns: Seq<Turn>| traced(pre, post, r, turns);
    law_bounded_handoff(pre, post, r, turns, turns.len() as int);
}

/// A run to completion changes neither the number of stages nor the
/// capacity, however it ends.
pub proof fn law_run_keeps_shape<P: Process>(
    pre: Pipeline<P>,
    post: Pipeline<P>,
    budget: nat,
    r: Result<(), Fault>,
)
    requires
        pre.wf(),
        ran_to(pre, post, budget, r),
    ensures
        post.wf(),
        post.capacity() == pre.capacity(),
        post.stages.len() == pre.stages.len(),
    decreases budget,
{
    if budget > 0 {
        let (checked, d) = choose|checked: Pipeline<P>, d: Result<bool, Fault>|
            #[trigger] settled(pre, checked, d) && match d {
                Err(f) => post == checked && r == Err::<(), Fault>(f),
                Ok(true) => post == checked && r == Ok::<(), Fault>(()),
                Ok(false) => exists|pumped: Pipeline<P>, s: Result<(), Fault>|
                    #[trigger] pass(checked, pumped, s) && match s {
                        Err(f) => post == pumped && r == Err::<(), Fault>(f),
                        Ok(()) => ran_to(pumped, post, (budget - 1) as nat, r),
                    },
            };
        if d == Ok::<bool, Fault>(false) {
            let (pumped, s) = choose|pumped: Pipeline<P>, s: Result<(), Fault>|
                #[trigger] pass(checked, pumped, s) && match s {
                    Err(f) => post == pumped && r == Err::<(), Fault>(f),
                    Ok(()) => ran_to(pumped, post, (budget - 1) as nat, r),
                };
            law_pass_keeps_shape(checked, pumped, s);
            if s is Ok {
                law_run_keeps_shape(pumped, post, (budget - 1) as nat, r);
            }
        }
    }
}

} // verus!
