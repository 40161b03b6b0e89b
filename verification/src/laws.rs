//! What holds of pipelines built from the stages this library ships.
use vstd::prelude::*;
use vstd::utf8::{decode_utf8, pop_first_scalar, valid_utf8, valid_utf8_concat};
use crate::fault::Fault;
use crate::model::{
    accepted, answered, pass, pump_at, ran_to, settled, traced, upstream, Pipeline, Pump, Turn,
};
use crate::processor::{IoView, Process, PASSES};
use crate::stage::Stage;
use crate::util::echo;

verus! {

/// What stage `i` answers in a completion check of `stages`.
pub open spec fn verdict(stages: Seq<Stage>, i: int) -> bool
    decreases i,
{
    if i <= 0 {
        stages[0].finished(None)
    } else {
        stages[i].finished(Some(verdict(stages, i - 1)))
    }
}

/// Whether a completion check of `stages` finds all of them finished.
pub open spec fn complete(stages: Seq<Stage>) -> bool {
    forall|i: int| 0 <= i < stages.len() ==> #[trigger] verdict(stages, i)
}

proof fn lemma_verdict_like(a: Seq<Stage>, b: Seq<Stage>, i: int)
    requires
        a.len() == b.len(),
        0 <= i < a.len(),
        forall|j: int| 0 <= j < a.len() ==> (#[trigger] a[j]).kept(b[j]),
    ensures
        verdict(a, i) == verdict(b, i),
    decreases i,
{
    if i > 0 {
        lemma_verdict_like(a, b, i - 1);
    }
    assert(a[i].kept(b[i]));
}

proof fn lemma_answers(
    pre: Pipeline<Stage>,
    post: Pipeline<Stage>,
    r: Result<bool, Fault>,
    answers: Seq<Result<bool, Fault>>,
    i: int,
)
    requires
        answered(pre, post, r, answers),
        0 <= i < answers.len(),
    ensures
        answers[i] == Ok::<bool, Fault>(verdict(pre.stages, i)),
    decreases i,
{
    if i > 0 {
        lemma_answers(pre, post, r, answers, i - 1);
    }
    assert(pre.stages[i].polled(upstream(answers, i), &post.stages[i], answers[i]));
}

/// A completion check of a pipeline of shipped stages never fails, says
/// whether every stage is finished, and changes neither a stage nor the
/// buffer.
pub proof fn law_check(pre: Pipeline<Stage>, post: Pipeline<Stage>, r: Result<bool, Fault>)
    requires
        settled(pre, post, r),
    ensures
        r == Ok::<bool, Fault>(complete(pre.stages)),
        post.stages.len() == pre.stages.len(),
        post.a == pre.a,
        post.b == pre.b,
        forall|i: int| 0 <= i < pre.stages.len() ==> (#[trigger] pre.stages[i]).kept(post.stages[i]),
        complete(post.stages) == complete(pre.stages),
{
    let answers = choose|answers: Seq<Result<bool, Fault>>| answered(pre, post, r, answers);
    let n = pre.stages.len() as int;
    let k = answers.len() as int;
    assert forall|i: int| 0 <= i < k implies #[trigger] answers[i] == Ok::<bool, Fault>(
        verdict(pre.stages, i),
    ) by {
        lemma_answers(pre, post, r, answers, i);
    }
    if k > 0 {
        assert(answers[k - 1] is Ok);
    }
    assert forall|i: int| 0 <= i < n implies (#[trigger] pre.stages[i]).kept(
        post.stages[i],
    ) by {
        assert(pre.stages[i].polled(upstream(answers, i), &post.stages[i], answers[i]));
    }
    assert forall|i: int| 0 <= i < n implies verdict(post.stages, i) == verdict(pre.stages, i) by {
        lemma_verdict_like(pre.stages, post.stages, i);
    }
    if complete(pre.stages) {
        assert forall|i: int| 0 <= i < n implies #[trigger] answers[i] == Ok::<bool, Fault>(
            true,
        ) by {
            assert(verdict(pre.stages, i));
        }
        assert forall|i: int| 0 <= i < n implies #[trigger] verdict(post.stages, i) by {
            assert(verdict(pre.stages, i));
        }
    } else {
        let i = choose|i: int| 0 <= i < n && !#[trigger] verdict(pre.stages, i);
    }
}

/// Checking for completion twice, with no pass in between, gives the same
/// answer both times.
pub proof fn law_check_twice(
    pre: Pipeline<Stage>,
    mid: Pipeline<Stage>,
    post: Pipeline<Stage>,
    first: Result<bool, Fault>,
    second: Result<bool, Fault>,
)
    requires
        settled(pre, mid, first),
        settled(mid, post, second),
    ensures
        first == second,
{
    law_check(pre, mid, first);
    law_check(mid, post, second);
}

/// Two valid UTF-8 sequences, one after the other, decode to the two texts,
/// one after the other.
pub proof fn lemma_decode_concat(b1: Seq<u8>, b2: Seq<u8>)
    requires
        valid_utf8(b1),
        valid_utf8(b2),
    ensures
        valid_utf8(b1 + b2),
        decode_utf8(b1 + b2) == decode_utf8(b1) + decode_utf8(b2),
    decreases b1.len(),
{
    valid_utf8_concat(b1, b2);
    if b1.len() > 0 {
        let rest = pop_first_scalar(b1);
        lemma_decode_concat(rest, b2);
        assert(pop_first_scalar(b1 + b2) =~= rest + b2);
        assert(decode_utf8(b1 + b2) =~= decode_utf8(b1) + decode_utf8(b2));
    }
}

/// How many of the bytes `pending` get through a sink when they arrive in
/// chunks of at most `room` bytes: all of them if the sink takes any bytes
/// (`strict` is false), else the chunks before the first one that is not
/// valid UTF-8 on its own.
pub open spec fn clean(pending: Seq<u8>, room: nat, strict: bool) -> nat
    decreases pending.len(),
{
    if pending.len() == 0 || room == 0 {
        0
    } else {
        let n = vstd::math::min(room as int, pending.len() as int);
        if strict && !valid_utf8(pending.take(n)) {
            0
        } else {
            (n + clean(pending.skip(n), room, strict)) as nat
        }
    }
}

/// The text that a text sink gains from the bytes `pending` arriving in
/// chunks of at most `room` bytes.
pub open spec fn gained(pending: Seq<u8>, room: nat) -> Seq<char> {
    decode_utf8(pending.take(clean(pending, room, true) as int))
}

/// The chunks that get through are, taken together, valid UTF-8.
pub proof fn lemma_clean(pending: Seq<u8>, room: nat, strict: bool)
    requires
        room >= 1,
    ensures
        clean(pending, room, strict) <= pending.len(),
        strict ==> valid_utf8(pending.take(clean(pending, room, strict) as int)),
    decreases pending.len(),
{
    let n = vstd::math::min(room as int, pending.len() as int);
    if pending.len() > 0 && !(strict && !valid_utf8(pending.take(n))) {
        let rest = pending.skip(n);
        lemma_clean(rest, room, strict);
        let g = clean(rest, room, strict) as int;
        assert(pending.take(n + g) =~= pending.take(n) + rest.take(g));
        if strict {
            lemma_decode_concat(pending.take(n), rest.take(g));
        }
    } else {
        assert(pending.take(0) =~= Seq::<u8>::empty());
    }
}

/// A pipeline that is a source alone, or a source feeding one sink.
pub open spec fn fed(p: Pipeline<Stage>) -> bool {
    &&& p.wf()
    &&& p.capacity() <= u32::MAX
    &&& 1 <= p.stages.len() <= 2
    &&& p.stages[0] matches Stage::Source(e) && e.cursor() <= e.data().len()
    &&& p.stages.len() == 2 ==> !(p.stages[1] is Source)
}

/// The source of a [`fed`] pipeline.
pub open spec fn source(p: Pipeline<Stage>) -> echo {
    p.stages[0]->Source_0
}

/// Whether a [`fed`] pipeline ends in a text sink.
pub open spec fn strict(p: Pipeline<Stage>) -> bool {
    p.stages.len() == 2 && p.stages[1] is Text
}

/// The text the sink of a [`fed`] pipeline has collected; empty where the
/// sink collects none.
pub open spec fn text(p: Pipeline<Stage>) -> Seq<char> {
    if strict(p) {
        p.stages[1]->Text_0@
    } else {
        Seq::empty()
    }
}

/// Whether `post` has the stages of `pre`, with the source `moved` bytes
/// further and the sink's text longer by `more`.
pub open spec fn moved(pre: Pipeline<Stage>, post: Pipeline<Stage>, by: nat, more: Seq<char>) -> bool {
    &&& fed(post)
    &&& post.stages.len() == pre.stages.len()
    &&& post.capacity() == pre.capacity()
    &&& strict(post) == strict(pre)
    &&& source(post).data() == source(pre).data()
    &&& source(post).cursor() == source(pre).cursor() + by
    &&& text(post) == text(pre) + more
}

/// One pass over a source and its sink moves one chunk: as many of the
/// source's pending bytes as the buffer takes. A text sink refuses the chunk
/// if it is not valid UTF-8 on its own; the source has emitted it all the
/// same.
pub proof fn law_pass(pre: Pipeline<Stage>, post: Pipeline<Stage>, r: Result<(), Fault>)
    requires
        fed(pre),
        pass(pre, post, r),
    ensures
        ({
            let pending = source(pre).pending();
            let n = vstd::math::min(pre.capacity() as int, pending.len() as int);
            let chunk = pending.take(n);
            if strict(pre) && !valid_utf8(chunk) {
                r == Err::<(), Fault>(Fault::Encoding) && moved(pre, post, n as nat, Seq::empty())
            } else {
                r == Ok::<(), Fault>(()) && moved(
                    pre,
                    post,
                    n as nat,
                    if strict(pre) {
                        decode_utf8(chunk)
                    } else {
                        Seq::empty()
                    },
                )
            }
        }),
{
    let turns = choose|turns: Seq<Turn>| traced(pre, post, r, turns);
    let stages = pre.stages.len() as int;
    let k = turns.len() as int;
    let pending = source(pre).pending();
    let n = vstd::math::min(pre.capacity() as int, pending.len() as int);
    let chunk = pending.take(n);
    let at_first = pump_at(turns, stages, pre.a, pre.b, 0);
    assert(pre.stages[0].ran(at_first.handed(0, stages), &post.stages[0], turns[0].out, turns[0].res));
    assert(turns[0].res == Ok::<usize, Fault>(n as usize));
    assert(accepted(0, stages, pre.capacity(), turns[0]));
    assert(text(pre) + Seq::<char>::empty() =~= text(pre));
    if stages == 2 {
        let at_second = pump_at(turns, stages, pre.a, pre.b, 1);
        assert(at_second == at_first.after(0, stages, turns[0]));
        assert(at_second.offered() =~= chunk);
        assert(pre.stages[1].ran(at_second.handed(1, stages), &post.stages[1], turns[1].out, turns[1].res));
        assert(at_second.handed(1, stages) == IoView::Last(chunk));
        assert(pump_at(turns, stages, pre.a, pre.b, 2) == at_second.after(1, stages, turns[1]));
    } else {
        let at_second = pump_at(turns, stages, pre.a, pre.b, 1);
        assert(at_second == at_first.after(0, stages, turns[0]));
    }
}

/// A completion check of a source and its sink says whether the source is
/// drained, and changes nothing.
pub proof fn law_check_fed(pre: Pipeline<Stage>, post: Pipeline<Stage>, d: Result<bool, Fault>)
    requires
        fed(pre),
        settled(pre, post, d),
    ensures
        d == Ok::<bool, Fault>(source(pre).pending().len() == 0),
        moved(pre, post, 0, Seq::empty()),
        source(post) == source(pre),
{
    law_check(pre, post, d);
    assert(pre.stages[0].kept(post.stages[0]));
    assert(verdict(pre.stages, 0) == (source(pre).pending().len() == 0));
    if pre.stages.len() == 2 {
        assert(pre.stages[1].kept(post.stages[1]));
        assert(verdict(pre.stages, 1) == verdict(pre.stages, 0));
    }
    assert(text(pre) + Seq::<char>::empty() =~= text(pre));
}

/// When the first chunk gets through, the count of bytes that get through
/// is its length and the count for the rest, and the text gained is its text
/// followed by the text gained from the rest.
proof fn lemma_first_chunk(pending: Seq<u8>, room: nat, strict: bool)
    requires
        room >= 1,
        pending.len() > 0,
        !strict || valid_utf8(pending.take(vstd::math::min(room as int, pending.len() as int))),
    ensures
        ({
            let n = vstd::math::min(room as int, pending.len() as int);
            &&& clean(pending, room, strict) == n + clean(pending.skip(n), room, strict)
            &&& clean(pending.skip(n), room, strict) <= pending.len() - n
            &&& strict ==> gained(pending, room) == decode_utf8(pending.take(n)) + gained(
                pending.skip(n),
                room,
            )
        }),
{
    let n = vstd::math::min(room as int, pending.len() as int);
    let rest = pending.skip(n);
    lemma_clean(rest, room, strict);
    if strict {
        let g = clean(rest, room, true) as int;
        assert(pending.take(n + g) =~= pending.take(n) + rest.take(g));
        lemma_decode_concat(pending.take(n), rest.take(g));
    }
}

/// Moving on twice is moving on once, by the sum.
proof fn lemma_moved_twice(
    pre: Pipeline<Stage>,
    mid: Pipeline<Stage>,
    post: Pipeline<Stage>,
    by: nat,
    more: Seq<char>,
    then_by: nat,
    then_more: Seq<char>,
)
    requires
        moved(pre, mid, by, more),
        moved(mid, post, then_by, then_more),
    ensures
        moved(pre, post, by + then_by, more + then_more),
{
    assert(text(pre) + (more + then_more) =~= (text(pre) + more) + then_more);
}

/// What a run of a source and its sink comes to: the chunks go through,
/// one per pass, until the source is drained or a text sink refuses one.
pub proof fn law_run(pre: Pipeline<Stage>, post: Pipeline<Stage>, budget: nat, r: Result<(), Fault>)
    requires
        fed(pre),
        pre.capacity() >= 1 || source(pre).pending().len() == 0,
        budget > source(pre).pending().len(),
        ran_to(pre, post, budget, r),
    ensures
        ({
            let pending = source(pre).pending();
            let g = clean(pending, pre.capacity(), strict(pre));
            let more = if strict(pre) {
                gained(pending, pre.capacity())
            } else {
                Seq::empty()
            };
            if g == pending.len() {
                r == Ok::<(), Fault>(()) && moved(pre, post, pending.len(), more)
            } else {
                let last = vstd::math::min(pre.capacity() as int, pending.len() - g);
                r == Err::<(), Fault>(Fault::Encoding) && moved(pre, post, (g + last) as nat, more)
            }
        }),
    decreases budget,
{
    let pending = source(pre).pending();
    let cap = pre.capacity();
    let n = vstd::math::min(cap as int, pending.len() as int);
    let chunk = pending.take(n);
    let (checked, d) = choose|checked: Pipeline<Stage>, d: Result<bool, Fault>|
        #[trigger] settled(pre, checked, d) && match d {
            Err(f) => post == checked && r == Err::<(), Fault>(f),
            Ok(true) => post == checked && r == Ok::<(), Fault>(()),
            Ok(false) => exists|pumped: Pipeline<Stage>, s: Result<(), Fault>|
                #[trigger] pass(checked, pumped, s) && match s {
                    Err(f) => post == pumped && r == Err::<(), Fault>(f),
                    Ok(()) => ran_to(pumped, post, (budget - 1) as nat, r),
                },
        };
    law_check_fed(pre, checked, d);
    let none = Seq::<char>::empty();
    assert(pending.take(0) =~= Seq::<u8>::empty());
    assert(decode_utf8(Seq::<u8>::empty()) =~= none);
    assert(none + none =~= none);
    if pending.len() > 0 {
        let (pumped, s) = choose|pumped: Pipeline<Stage>, s: Result<(), Fault>|
            #[trigger] pass(checked, pumped, s) && match s {
                Err(f) => post == pumped && r == Err::<(), Fault>(f),
                Ok(()) => ran_to(pumped, post, (budget - 1) as nat, r),
            };
        law_pass(checked, pumped, s);
        if strict(pre) && !valid_utf8(chunk) {
            lemma_moved_twice(pre, checked, pumped, 0, none, n as nat, none);
        } else {
            let first = if strict(pre) {
                decode_utf8(chunk)
            } else {
                none
            };
            lemma_moved_twice(pre, checked, pumped, 0, none, n as nat, first);
            assert(none + first =~= first);
            let rest = source(pumped).pending();
            assert(rest =~= pending.skip(n));
            law_run(pumped, post, (budget - 1) as nat, r);
            lemma_first_chunk(pending, cap, strict(pre));
            let g = clean(rest, cap, strict(pre));
            let more = if strict(pre) {
                gained(rest, cap)
            } else {
                none
            };
            if g == rest.len() {
                lemma_moved_twice(pre, pumped, post, n as nat, first, rest.len(), more);
            } else {
                let last = vstd::math::min(cap as int, rest.len() - g);
                lemma_moved_twice(pre, pumped, post, n as nat, first, (g + last) as nat, more);
            }
        }
    }
}

/// A sink that takes any bytes lets every chunk through.
pub proof fn lemma_clean_all(pending: Seq<u8>, room: nat)
    requires
        room >= 1,
    ensures
        clean(pending, room, false) == pending.len(),
    decreases pending.len(),
{
    if pending.len() > 0 {
        let n = vstd::math::min(room as int, pending.len() as int);
        lemma_clean_all(pending.skip(n), room);
    }
}

/// Whether every byte is an ASCII character.
pub open spec fn ascii(bytes: Seq<u8>) -> bool {
    forall|i: int| 0 <= i < bytes.len() ==> #[trigger] bytes[i] <= 0x7f
}

/// ASCII bytes are valid UTF-8 and decode to themselves, byte for
/// character.
pub proof fn lemma_ascii_text(bytes: Seq<u8>)
    requires
        ascii(bytes),
    ensures
        valid_utf8(bytes),
        decode_utf8(bytes) == Seq::new(bytes.len(), |i: int| bytes[i] as char),
    decreases bytes.len(),
{
    if bytes.len() > 0 {
        let b = bytes[0];
        assert((b & 0x7f) as u32 == b as u32) by (bit_vector)
            requires
                b <= 0x7f,
        ;
        let rest = pop_first_scalar(bytes);
        assert(rest =~= bytes.skip(1));
        assert(ascii(rest)) by {
            assert forall|i: int| 0 <= i < rest.len() implies #[trigger] rest[i] <= 0x7f by {
                assert(rest[i] == bytes[i + 1]);
            }
        }
        lemma_ascii_text(rest);
        assert(decode_utf8(bytes) =~= Seq::new(bytes.len(), |i: int| bytes[i] as char));
    } else {
        assert(decode_utf8(bytes) =~= Seq::new(bytes.len(), |i: int| bytes[i] as char));
    }
}

/// ASCII bytes get through a text sink whatever the chunk size.
pub proof fn lemma_clean_ascii(pending: Seq<u8>, room: nat)
    requires
        room >= 1,
        ascii(pending),
    ensures
        clean(pending, room, true) == pending.len(),
    decreases pending.len(),
{
    if pending.len() > 0 {
        let n = vstd::math::min(room as int, pending.len() as int);
        let chunk = pending.take(n);
        let rest = pending.skip(n);
        assert(ascii(chunk)) by {
            assert forall|i: int| 0 <= i < chunk.len() implies #[trigger] chunk[i] <= 0x7f by {
                assert(chunk[i] == pending[i]);
            }
        }
        assert(ascii(rest)) by {
            assert forall|i: int| 0 <= i < rest.len() implies #[trigger] rest[i] <= 0x7f by {
                assert(rest[i] == pending[i + n]);
            }
        }
        lemma_ascii_text(chunk);
        lemma_clean_ascii(rest, room);
    }
}

/// A pipeline that is a source and nothing else runs to completion without
/// a fault, its only stage always in the role of a first stage; it is
/// complete exactly when the source has emitted all its bytes, and running
/// it leaves the source there.
pub proof fn law_lone_source(
    pre: Pipeline<Stage>,
    checked: Pipeline<Stage>,
    d: Result<bool, Fault>,
    post: Pipeline<Stage>,
    r: Result<(), Fault>,
)
    requires
        fed(pre),
        pre.stages.len() == 1,
        pre.capacity() >= 1 || source(pre).pending().len() == 0,
        settled(pre, checked, d),
        ran_to(pre, post, PASSES as nat, r),
    ensures
        forall|p: Pump| (#[trigger] p.handed(0, 1)) is First,
        d == Ok::<bool, Fault>(source(pre).cursor() == source(pre).data().len()),
        checked.stages[0] == pre.stages[0],
        r == Ok::<(), Fault>(()),
        post.stages.len() == 1,
        post.stages[0] is Source,
        source(post).data() == source(pre).data(),
        source(post).cursor() == source(pre).data().len(),
{
    source(pre).bounded();
    if pre.capacity() >= 1 {
        lemma_clean_all(source(pre).pending(), pre.capacity());
    }
    law_run(pre, post, PASSES as nat, r);
    law_check(pre, checked, d);
    assert(pre.stages[0].kept(checked.stages[0]));
    if source(pre).cursor() == source(pre).data().len() {
        assert forall|i: int| 0 <= i < pre.stages.len() implies #[trigger] verdict(pre.stages, i) by {}
    } else {
        assert(!verdict(pre.stages, 0));
    }
}

/// A source feeding a discarding sink runs to completion without a fault:
/// the source ends up drained, and of its bytes nothing is left to see but
/// what the last chunk left in the buffer.
pub proof fn law_source_into_null(pre: Pipeline<Stage>, post: Pipeline<Stage>, r: Result<(), Fault>)
    requires
        fed(pre),
        pre.stages.len() == 2,
        pre.stages[1] is Null,
        pre.capacity() >= 1 || source(pre).pending().len() == 0,
        ran_to(pre, post, PASSES as nat, r),
    ensures
        r == Ok::<(), Fault>(()),
        post.stages.len() == 2,
        post.stages[0] is Source,
        post.stages[1] is Null,
        source(post).data() == source(pre).data(),
        source(post).cursor() == source(pre).data().len(),
{
    source(pre).bounded();
    if pre.capacity() >= 1 {
        lemma_clean_all(source(pre).pending(), pre.capacity());
    }
    law_run(pre, post, PASSES as nat, r);
}

/// A source feeding a text sink, with a buffer of any size from one byte
/// up, runs to completion exactly when every chunk is valid UTF-8 on its
/// own. The sink's text is then what it was, followed by the source's
/// pending bytes, decoded: nothing twice, nothing missing.
pub proof fn law_source_into_text(pre: Pipeline<Stage>, post: Pipeline<Stage>, r: Result<(), Fault>)
    requires
        fed(pre),
        strict(pre),
        pre.capacity() >= 1,
        ran_to(pre, post, PASSES as nat, r),
    ensures
        r == Ok::<(), Fault>(()) <==> clean(source(pre).pending(), pre.capacity(), true) == source(
            pre,
        ).pending().len(),
        r is Ok ==> {
            &&& strict(post)
            &&& text(post) == text(pre) + decode_utf8(source(pre).pending())
            &&& source(post).data() == source(pre).data()
            &&& source(post).cursor() == source(pre).data().len()
        },
{
    let pending = source(pre).pending();
    source(pre).bounded();
    law_run(pre, post, PASSES as nat, r);
    assert(pending.take(pending.len() as int) =~= pending);
}

/// A source of ASCII bytes feeding a text sink runs to completion whatever
/// the buffer's size, be it a single byte, and the sink's text is then what
/// it was, followed by the pending bytes as characters.
pub proof fn law_ascii_into_text(pre: Pipeline<Stage>, post: Pipeline<Stage>, r: Result<(), Fault>)
    requires
        fed(pre),
        strict(pre),
        pre.capacity() >= 1,
        ascii(source(pre).pending()),
        ran_to(pre, post, PASSES as nat, r),
    ensures
        r == Ok::<(), Fault>(()),
        strict(post),
        text(post) == text(pre) + Seq::new(
            source(pre).pending().len(),
            |i: int| source(pre).pending()[i] as char,
        ),
        source(post).cursor() == source(pre).data().len(),
{
    let pending = source(pre).pending();
    lemma_clean_ascii(pending, pre.capacity());
    lemma_ascii_text(pending);
    law_source_into_text(pre, post, r);
}

/// A text sink that is fed a chunk that is not valid UTF-8 ends the run
/// with an encoding fault. The run is not complete: the source has emitted
/// the chunk, and the sink keeps the text of the chunks before it.
pub proof fn law_text_refused(pre: Pipeline<Stage>, post: Pipeline<Stage>, r: Result<(), Fault>)
    requires
        fed(pre),
        strict(pre),
        pre.capacity() >= 1,
        clean(source(pre).pending(), pre.capacity(), true) < source(pre).pending().len(),
        ran_to(pre, post, PASSES as nat, r),
    ensures
        r == Err::<(), Fault>(Fault::Encoding),
        strict(post),
        text(post) == text(pre) + gained(source(pre).pending(), pre.capacity()),
        source(post).cursor() == source(pre).cursor() + clean(
            source(pre).pending(),
            pre.capacity(),
            true,
        ) + vstd::math::min(
            pre.capacity() as int,
            source(pre).pending().len() - clean(source(pre).pending(), pre.capacity(), true),
        ),
{
    source(pre).bounded();
    law_run(pre, post, PASSES as nat, r);
}

/// With a buffer of no bytes a source that has bytes pending never gets
/// rid of them: the run makes all the passes it is allowed, moves nothing,
/// and is given up as stalled.
pub proof fn law_stalled(pre: Pipeline<Stage>, post: Pipeline<Stage>, budget: nat, r: Result<(), Fault>)
    requires
        fed(pre),
        pre.capacity() == 0,
        source(pre).pending().len() > 0,
        ran_to(pre, post, budget, r),
    ensures
        r == Err::<(), Fault>(Fault::Stalled),
        moved(pre, post, 0, Seq::empty()),
    decreases budget,
{
    assert(text(pre) + Seq::<char>::empty() =~= text(pre));
    if budget > 0 {
        let (checked, d) = choose|checked: Pipeline<Stage>, d: Result<bool, Fault>|
            #[trigger] settled(pre, checked, d) && match d {
                Err(f) => post == checked && r == Err::<(), Fault>(f),
                Ok(true) => post == checked && r == Ok::<(), Fault>(()),
                Ok(false) => exists|pumped: Pipeline<Stage>, s: Result<(), Fault>|
                    #[trigger] pass(checked, pumped, s) && match s {
                        Err(f) => post == pumped && r == Err::<(), Fault>(f),
                        Ok(()) => ran_to(pumped, post, (budget - 1) as nat, r),
                    },
            };
        law_check(pre, checked, d);
        assert(pre.stages[0].kept(checked.stages[0]));
        assert(!verdict(pre.stages, 0));
        if pre.stages.len() == 2 {
            assert(pre.stages[1].kept(checked.stages[1]));
        }
        assert(moved(pre, checked, 0, Seq::empty()));
        let (pumped, s) = choose|pumped: Pipeline<Stage>, s: Result<(), Fault>|
            #[trigger] pass(checked, pumped, s) && match s {
                Err(f) => post == pumped && r == Err::<(), Fault>(f),
                Ok(()) => ran_to(pumped, post, (budget - 1) as nat, r),
            };
        law_pass(checked, pumped, s);
        assert(moved(pre, pumped, 0, Seq::empty()));
        law_stalled(pumped, post, (budget - 1) as nat, r);
    }
}

} // verus!
