//! Whole runs of an operation against a stream, and what holds of them.
//!
//! A driver polls an operation afresh, performs each read that is asked for,
//! feeds its outcome back, and polls afresh again whenever the stream was not
//! ready. [`drive`] is that loop as a function of the read attempts that the
//! stream answers with. The lemmas of this module are stated over it, and so
//! over the same `verdict`, `next` and `lend` that the contracts of `poll` and
//! `window` speak of.

use crate::protocol::{ReadOutcome, Step};
use crate::transfer::{Completed, Transfer};
use vstd::math::min;
use vstd::prelude::*;

verus! {

/// One read attempt as the operation sees it: the stream handle and the
/// window as the attempt left them, and what it reported.
pub struct Attempt<A, E> {
    pub stream: A,
    pub window: Seq<u8>,
    pub outcome: ReadOutcome<E>,
}

/// Where a run stands: the state of the operation and its last answer.
pub struct Run<A, E> {
    pub state: Transfer<A>,
    pub step: Step<Completed<A>, E>,
}

/// Polls `s` with `outcome` and goes on as a driver does: a read that is
/// asked for is answered by the next attempt of `script`, and after a stream
/// that was not ready the operation is polled afresh. The run stops when the
/// operation completes or fails, or asks for a read that `script` no longer
/// holds.
///
/// A fresh poll never answers that the stream is not ready, so the guard on
/// that arm excludes nothing; it is there for the sake of termination.
pub open spec fn drive<A, E>(
    s: Transfer<A>,
    outcome: Option<ReadOutcome<E>>,
    script: Seq<Attempt<A, E>>,
) -> Run<A, E>
    decreases script.len(), (if outcome is Some { 1nat } else { 0nat }),
{
    let after = s.next(outcome);
    match s.verdict(outcome) {
        Step::Read if script.len() > 0 => {
            let at = script.first();
            drive(after.lend(at.stream, at.window), Some(at.outcome), script.drop_first())
        },
        Step::NotReady if outcome is Some => drive(after, None, script),
        step => Run { state: after, step },
    }
}

/// The run of a driver that starts by polling `s` afresh.
pub open spec fn run<A, E>(s: Transfer<A>, script: Seq<Attempt<A, E>>) -> Run<A, E> {
    drive(s, None, script)
}

/// Whether the attempts of `script` are possible answers to the reads of an
/// operation that still wants `room` bytes: each leaves a window of the
/// length that was lent and places no more bytes than the window holds.
/// Attempts that follow the end of the run are not looked at.
pub open spec fn fits<A, E>(script: Seq<Attempt<A, E>>, room: nat) -> bool
    decreases script.len(),
{
    room > 0 && script.len() > 0 ==> {
        let at = script.first();
        &&& at.window.len() == room
        &&& match at.outcome {
            ReadOutcome::Placed(k) => k <= room && (0 < k < room ==> fits(
                script.drop_first(),
                (room - k) as nat,
            )),
            ReadOutcome::NotReady => fits(script.drop_first(), room),
            ReadOutcome::Failed(_) => true,
        }
    }
}

/// `script` with the attempts left out that found the stream not ready.
pub open spec fn without_not_ready<A, E>(script: Seq<Attempt<A, E>>) -> Seq<Attempt<A, E>>
    decreases script.len(),
{
    if script.len() == 0 {
        script
    } else if script.first().outcome is NotReady {
        without_not_ready(script.drop_first())
    } else {
        seq![script.first()] + without_not_ready(script.drop_first())
    }
}

/// Whether `script` is what a stream that holds exactly the bytes `content`,
/// and never fails, may answer to the reads of an operation that still wants
/// `room` bytes. Each attempt that places bytes takes them from the front of
/// what is left of `content`; end of input is reported only when nothing is
/// left; the stream may be not ready any number of times.
pub open spec fn serves<A, E>(script: Seq<Attempt<A, E>>, room: nat, content: Seq<u8>) -> bool
    decreases script.len(),
{
    room > 0 && script.len() > 0 ==> {
        let at = script.first();
        &&& at.window.len() == room
        &&& match at.outcome {
            ReadOutcome::Placed(k) => {
                &&& k <= room
                &&& k <= content.len()
                &&& k == 0 ==> content.len() == 0
                &&& at.window.take(k as int) == content.take(k as int)
                &&& 0 < k < room ==> serves(
                    script.drop_first(),
                    (room - k) as nat,
                    content.skip(k as int),
                )
            },
            ReadOutcome::NotReady => serves(script.drop_first(), room, content),
            ReadOutcome::Failed(_) => false,
        }
    }
}

/// The number of bytes that the attempts of `script` report as placed, all
/// taken together.
pub open spec fn placed<A, E>(script: Seq<Attempt<A, E>>) -> nat
    decreases script.len(),
{
    if script.len() == 0 {
        0
    } else {
        let rest = placed(script.drop_first());
        match script.first().outcome {
            ReadOutcome::Placed(k) => k as nat + rest,
            _ => rest,
        }
    }
}

/// One turn of the loop: how the run of an operation that wants bytes goes on
/// from the first attempt of its script.
proof fn lemma_run_unfolds<A, E>(s: Transfer<A>, script: Seq<Attempt<A, E>>)
    requires
        s is Active,
        s->cursor < s->target,
        script.len() > 0,
    ensures
        ({
            let at = script.first();
            let lent = s.lend(at.stream, at.window);
            run(s, script) == match lent.verdict(Some(at.outcome)) {
                Step::Read => run(lent.next(Some(at.outcome)), script.drop_first()),
                Step::NotReady => run(lent, script.drop_first()),
                step => Run { state: Transfer::Consumed, step },
            }
        }),
{
    reveal_with_fuel(drive, 3);
}

/// Lending the window moves nothing outside it: the bytes already placed,
/// the bytes beyond the target, the length of the buffer, the cursor and the
/// target are as before, and the window holds what came back.
pub proof fn lemma_lend_keeps_frame<A>(s: Transfer<A>, stream: A, window: Seq<u8>)
    requires
        s is Active,
        s.wf(),
        window.len() == s->target - s->cursor,
    ensures
        s.lend(stream, window).wf(),
        s.lend(stream, window).filled() == s.filled(),
        s.lend(stream, window).window() == window,
        s.lend(stream, window)->buf.skip(s->target as int) == s->buf.skip(s->target as int),
        s.lend(stream, window)->buf.len() == s->buf.len(),
{
}

/// A run against a stream that holds `content` and never fails ends, if it
/// ends, with as many bytes placed as the stream held, capped at what the
/// operation wanted, and with those bytes of `content`, in order, behind the
/// bytes that had been placed before. Nothing else in the buffer that lies
/// before the old cursor or beyond the target has moved. Such a run does not
/// fail, and it does not end in a suspension: the driver polls again.
pub proof fn lemma_completed_run_holds_content<A, E>(
    s: Transfer<A>,
    script: Seq<Attempt<A, E>>,
    content: Seq<u8>,
)
    requires
        s is Active,
        s.wf(),
        serves(script, (s->target - s->cursor) as nat, content),
    ensures
        run(s, script).step is Ready || run(s, script).step is Read,
        run(s, script).step matches Step::Ready(done) ==> {
            &&& run(s, script).state is Consumed
            &&& done.count == s->cursor + min(content.len() as int, s->target - s->cursor)
            &&& done.buf.len() == s->buf.len()
            &&& done.buf.take(s->cursor as int) == s.filled()
            &&& done.buf.subrange(s->cursor as int, done.count as int) == content.take(
                done.count - s->cursor,
            )
            &&& done.buf.skip(s->target as int) == s->buf.skip(s->target as int)
        },
    decreases script.len(),
{
    let c = s->cursor as int;
    if c < s->target && script.len() > 0 {
        let at = script.first();
        let rest = script.drop_first();
        let lent = s.lend(at.stream, at.window);
        lemma_run_unfolds(s, script);
        lemma_lend_keeps_frame(s, at.stream, at.window);
        match at.outcome {
            ReadOutcome::Placed(k) => {
                if 0 < k && c + k < s->target {
                    let after = lent.next(Some(at.outcome));
                    lemma_completed_run_holds_content(after, rest, content.skip(k as int));
                    if let Step::Ready(done) = run(after, rest).step {
                        assert forall|i: int| 0 <= i < done.count - c implies done.buf[c + i]
                            == content[i] by {
                            if i < k {
                                assert(done.buf[c + i] == done.buf.take(c + k)[c + i]);
                                assert(content[i] == content.take(k as int)[i]);
                            } else {
                                assert(done.buf[c + i] == done.buf.subrange(
                                    c + k,
                                    done.count as int,
                                )[i - k]);
                            }
                        }
                    }
                }
            },
            ReadOutcome::NotReady => {
                lemma_completed_run_holds_content(lent, rest, content);
            },
            ReadOutcome::Failed(_) => {},
        }
    }
}

/// Leaving out the attempts that found the stream not ready leaves a script
/// that still fits.
proof fn lemma_fits_without_not_ready<A, E>(script: Seq<Attempt<A, E>>, room: nat)
    requires
        fits(script, room),
    ensures
        fits(without_not_ready(script), room),
    decreases script.len(),
{
    if room > 0 && script.len() > 0 {
        let at = script.first();
        let rest = script.drop_first();
        match at.outcome {
            ReadOutcome::NotReady => {
                lemma_fits_without_not_ready(rest, room);
            },
            ReadOutcome::Placed(k) => {
                assert(without_not_ready(script).drop_first() =~= without_not_ready(rest));
                if 0 < k < room {
                    lemma_fits_without_not_ready(rest, (room - k) as nat);
                }
            },
            ReadOutcome::Failed(_) => {},
        }
    }
}

/// What an earlier attempt left in the window and in the stream handle is
/// overwritten by the next attempt: a run that has an attempt to go on with
/// does not depend on it.
proof fn lemma_next_attempt_overwrites<A, E>(
    s: Transfer<A>,
    stream: A,
    window: Seq<u8>,
    script: Seq<Attempt<A, E>>,
)
    requires
        s is Active,
        s.wf(),
        s->cursor < s->target,
        window.len() == s->target - s->cursor,
        script.len() > 0,
        script.first().window.len() == s->target - s->cursor,
    ensures
        run(s.lend(stream, window), script) == run(s, script),
{
    let at = script.first();
    let lent = s.lend(stream, window);
    lemma_run_unfolds(s, script);
    lemma_run_unfolds(lent, script);
    assert(lent.lend(at.stream, at.window)->buf =~= s.lend(at.stream, at.window)->buf);
}

/// Resuming loses nothing. Take any script that fits the operation, and the
/// same script without the attempts that found the stream not ready. If the
/// run on the first completes or fails, the run on the second ends in the
/// very same way: the same handle, the same buffer, the same count, or the
/// same error. If the run on the first still asks for a read, so does the
/// other, with the cursor at the same place behind the same bytes. A run
/// never ends in a suspension, since the driver polls again.
pub proof fn lemma_not_ready_is_transparent<A, E>(s: Transfer<A>, script: Seq<Attempt<A, E>>)
    requires
        s is Active,
        s.wf(),
        fits(script, (s->target - s->cursor) as nat),
    ensures
        !(run(s, script).step is NotReady),
        run(s, script).step is Ready || run(s, script).step is Failed ==> run(
            s,
            without_not_ready(script),
        ) == run(s, script),
        run(s, script).step is Read ==> {
            let full = run(s, script);
            let bare = run(s, without_not_ready(script));
            &&& bare.step is Read
            &&& full.state is Active
            &&& bare.state is Active
            &&& bare.state->cursor == full.state->cursor
            &&& bare.state->target == full.state->target
            &&& bare.state.filled() == full.state.filled()
        },
    decreases script.len(),
{
    let room = (s->target - s->cursor) as nat;
    if room > 0 && script.len() > 0 {
        let at = script.first();
        let rest = script.drop_first();
        let lent = s.lend(at.stream, at.window);
        let bare_script = without_not_ready(script);
        lemma_run_unfolds(s, script);
        lemma_lend_keeps_frame(s, at.stream, at.window);
        match at.outcome {
            ReadOutcome::NotReady => {
                lemma_not_ready_is_transparent(lent, rest);
                lemma_fits_without_not_ready(rest, room);
                if bare_script.len() > 0 {
                    lemma_next_attempt_overwrites(s, at.stream, at.window, bare_script);
                }
            },
            ReadOutcome::Placed(k) => {
                assert(bare_script.drop_first() =~= without_not_ready(rest));
                lemma_run_unfolds(s, bare_script);
                if 0 < k < room {
                    lemma_not_ready_is_transparent(lent.next(Some(at.outcome)), rest);
                }
            },
            ReadOutcome::Failed(_) => {
                lemma_run_unfolds(s, bare_script);
            },
        }
    }
}

/// Runs compose: a run that ends asking for a read goes on, when more
/// attempts follow, exactly as a fresh run from the state it had reached.
pub proof fn lemma_run_composes<A, E>(
    s: Transfer<A>,
    script: Seq<Attempt<A, E>>,
    more: Seq<Attempt<A, E>>,
)
    requires
        s is Active,
        run(s, script).step is Read,
    ensures
        run(s, script).state is Active,
        run(s, script).state->cursor < run(s, script).state->target,
        run(s, script + more) == run(run(s, script).state, more),
    decreases script.len(),
{
    if script.len() > 0 {
        let at = script.first();
        let rest = script.drop_first();
        let lent = s.lend(at.stream, at.window);
        assert((script + more).drop_first() =~= rest + more);
        lemma_run_unfolds(s, script);
        lemma_run_unfolds(s, script + more);
        match lent.verdict(Some(at.outcome)) {
            Step::Read => {
                lemma_run_composes(lent.next(Some(at.outcome)), rest, more);
            },
            Step::NotReady => {
                lemma_run_composes(lent, rest, more);
            },
            _ => {},
        }
    }
}

/// A stream that reports end of input completes the operation: a run against
/// a stream that never fails, whose last attempt reports end of input, does
/// not end asking for more.
pub proof fn lemma_end_of_input_completes<A, E>(
    s: Transfer<A>,
    script: Seq<Attempt<A, E>>,
    content: Seq<u8>,
)
    requires
        s is Active,
        s.wf(),
        serves(script, (s->target - s->cursor) as nat, content),
        script.len() > 0,
        script.last().outcome matches ReadOutcome::Placed(k) && k == 0,
    ensures
        run(s, script).step is Ready,
    decreases script.len(),
{
    if s->cursor < s->target {
        let at = script.first();
        let rest = script.drop_first();
        let lent = s.lend(at.stream, at.window);
        lemma_run_unfolds(s, script);
        lemma_lend_keeps_frame(s, at.stream, at.window);
        if rest.len() > 0 {
            match at.outcome {
                ReadOutcome::Placed(k) => {
                    if 0 < k && s->cursor + k < s->target {
                        lemma_end_of_input_completes(
                            lent.next(Some(at.outcome)),
                            rest,
                            content.skip(k as int),
                        );
                    }
                },
                ReadOutcome::NotReady => {
                    lemma_end_of_input_completes(lent, rest, content);
                },
                ReadOutcome::Failed(_) => {},
            }
        }
    }
}

/// Whatever the stream does, a run keeps the operation in order and never
/// touches a byte it has placed. While the operation is active its cursor
/// lies between the old cursor and the target, and the target and the
/// length of the buffer are as they were. On completion the count lies in the
/// same bounds. In both cases the bytes placed before the run stand where
/// they stood.
pub proof fn lemma_run_keeps_placed_bytes<A, E>(s: Transfer<A>, script: Seq<Attempt<A, E>>)
    requires
        s is Active,
        s.wf(),
        fits(script, (s->target - s->cursor) as nat),
    ensures
        run(s, script).state.wf(),
        run(s, script).state matches Transfer::Active { buf, cursor, target, .. } ==> {
            &&& s->cursor <= cursor <= target
            &&& target == s->target
            &&& buf.len() == s->buf.len()
            &&& buf.take(s->cursor as int) == s.filled()
        },
        run(s, script).step matches Step::Ready(done) ==> {
            &&& s->cursor <= done.count <= s->target
            &&& done.buf.len() == s->buf.len()
            &&& done.buf.take(s->cursor as int) == s.filled()
        },
    decreases script.len(),
{
    let c = s->cursor as int;
    if s->cursor < s->target && script.len() > 0 {
        let at = script.first();
        let rest = script.drop_first();
        let lent = s.lend(at.stream, at.window);
        lemma_run_unfolds(s, script);
        lemma_lend_keeps_frame(s, at.stream, at.window);
        match at.outcome {
            ReadOutcome::Placed(k) => {
                if 0 < k && c + k < s->target {
                    lemma_run_keeps_placed_bytes(lent.next(Some(at.outcome)), rest);
                }
            },
            ReadOutcome::NotReady => {
                lemma_run_keeps_placed_bytes(lent, rest);
            },
            ReadOutcome::Failed(_) => {},
        }
    }
}

/// A failed read attempt ends the operation with that very error, whatever
/// came before: the run reports the error of the attempt and leaves the
/// operation consumed. The attempt itself had no way to disturb the bytes
/// placed before it; they stood in the buffer, as they were, when the error
/// was reported.
pub proof fn lemma_failure_is_final<A, E>(
    s: Transfer<A>,
    script: Seq<Attempt<A, E>>,
    stream: A,
    window: Seq<u8>,
    error: E,
)
    requires
        s is Active,
        s.wf(),
        fits(script, (s->target - s->cursor) as nat),
        run(s, script).step is Read,
        window.len() == run(s, script).state->target - run(s, script).state->cursor,
    ensures
        ({
            let before = run(s, script).state;
            let failing = Attempt { stream, window, outcome: ReadOutcome::Failed(error) };
            &&& before.lend(stream, window).filled() == before.filled()
            &&& before.lend(stream, window).verdict(Some(failing.outcome)) == Step::<
                Completed<A>,
                E,
            >::Failed(error)
            &&& before.lend(stream, window).next(Some(failing.outcome)) == Transfer::<
                A,
            >::Consumed
            &&& run(s, script.push(failing)) == Run {
                state: Transfer::<A>::Consumed,
                step: Step::<Completed<A>, E>::Failed(error),
            }
        }),
{
    let before = run(s, script).state;
    let failing = Attempt { stream, window, outcome: ReadOutcome::Failed(error) };
    lemma_run_composes(s, script, seq![failing]);
    lemma_run_keeps_placed_bytes(s, script);
    assert(script.push(failing) =~= script + seq![failing]);
    lemma_run_unfolds(before, seq![failing]);
}

/// What a stream that never fails may answer is, in particular, a script that
/// fits.
pub proof fn lemma_serves_fits<A, E>(script: Seq<Attempt<A, E>>, room: nat, content: Seq<u8>)
    requires
        serves(script, room, content),
    ensures
        fits(script, room),
    decreases script.len(),
{
    if room > 0 && script.len() > 0 {
        match script.first().outcome {
            ReadOutcome::Placed(k) => {
                if 0 < k < room {
                    lemma_serves_fits(script.drop_first(), (room - k) as nat, content.skip(k as int));
                }
            },
            ReadOutcome::NotReady => {
                lemma_serves_fits(script.drop_first(), room, content);
            },
            ReadOutcome::Failed(_) => {},
        }
    }
}

/// A run ends asking for a read only when the stream has given too little: it
/// has then used every attempt of its script, and the cursor stands short of
/// the target, exactly as many bytes beyond the old cursor as the script
/// reports as placed. So a script that places as many bytes as were wanted
/// brings the operation to an end.
pub proof fn lemma_unfinished_run_used_its_script<A, E>(s: Transfer<A>, script: Seq<Attempt<A, E>>)
    requires
        s is Active,
        s.wf(),
        fits(script, (s->target - s->cursor) as nat),
    ensures
        run(s, script).step is Read ==> {
            &&& run(s, script).state is Active
            &&& run(s, script).state->cursor == s->cursor + placed(script)
            &&& run(s, script).state->cursor < s->target
        },
        placed(script) >= s->target - s->cursor ==> !(run(s, script).step is Read),
    decreases script.len(),
{
    if s->cursor < s->target && script.len() > 0 {
        let at = script.first();
        let rest = script.drop_first();
        let lent = s.lend(at.stream, at.window);
        lemma_run_unfolds(s, script);
        lemma_lend_keeps_frame(s, at.stream, at.window);
        match at.outcome {
            ReadOutcome::Placed(k) => {
                if 0 < k && s->cursor + k < s->target {
                    lemma_unfinished_run_used_its_script(lent.next(Some(at.outcome)), rest);
                }
            },
            ReadOutcome::NotReady => {
                lemma_unfinished_run_used_its_script(lent, rest);
            },
            ReadOutcome::Failed(_) => {},
        }
    }
}

} // verus!
