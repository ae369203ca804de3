//! Calls made one after the other on an engine, one for each index, up to
//! the first that fails: the words to state what such a run does, and the
//! loops that make it.

use crate::error::Error;
use vstd::prelude::*;

verus! {

/// What one call does: `call(before, index, result, after)` says whether the
/// call with the index `index`, made on the engine `before`, may return
/// `result` and leave the engine as `after`.
pub type Call<E> = spec_fn(E, usize, Result<(), Error>, E) -> bool;

/// Whether the call with the index `index`, made on `states[index]`, may
/// succeed and leave `states[index + 1]`.
pub open spec fn succeeds_at<E>(call: Call<E>, states: Seq<E>, index: usize) -> bool {
    call(states[index as int], index, Ok(()), states[index + 1])
}

/// Whether the calls with the indices `0`, `1`, ... up to `count - 1`, made
/// in this order up to the first that fails, may go through `states`, return
/// `result` and take `engine` to `next`.
///
/// `states` starts with `engine` and gains one state with every call that
/// succeeds. On `Ok` all `count` calls succeeded and `next` is the last state.
/// On `Err` the call made on the last state failed with that error and left
/// `next`; no call followed it.
pub open spec fn calls_go_through<E>(
    call: Call<E>,
    states: Seq<E>,
    engine: E,
    count: nat,
    result: Result<(), Error>,
    next: E,
) -> bool {
    &&& states.len() > 0
    &&& states[0] == engine
    &&& forall|index: usize| index + 1 < states.len() ==> #[trigger] succeeds_at(call, states, index)
    &&& match result {
        Ok(()) => states.len() == count + 1 && states.last() == next,
        Err(_) => states.len() <= count && call(
            states.last(),
            (states.len() - 1) as usize,
            result,
            next,
        ),
    }
}

/// Whether the calls with the indices `0`, `1`, ... up to `count - 1`, made
/// in this order up to the first that fails, may return `result` and take
/// `engine` to `next`.
pub open spec fn calls_until_failure<E>(
    call: Call<E>,
    engine: E,
    count: nat,
    result: Result<(), Error>,
    next: E,
) -> bool {
    exists|states: Seq<E>| calls_go_through(call, states, engine, count, result, next)
}

/// What each of `buffers` holds.
pub open spec fn contents<T>(buffers: Seq<&mut [T]>) -> Seq<Seq<T>> {
    Seq::new(buffers.len(), |index: int| buffers[index]@)
}

/// Whether `after` holds, from the index `from` on, what `before` holds there.
pub open spec fn unchanged_from<T>(from: nat, before: Seq<Seq<T>>, after: Seq<Seq<T>>) -> bool {
    forall|index: int| from <= index < before.len() ==> after[index] == before[index]
}

/// With no call to make, the run succeeds and leaves the engine as it was.
pub proof fn lemma_no_calls<E>(call: Call<E>, engine: E, result: Result<(), Error>, next: E)
    ensures
        calls_until_failure(call, engine, 0, result, next) <==> result is Ok && next == engine,
{
    if calls_until_failure(call, engine, 0, result, next) {
        let states = choose|states: Seq<E>| calls_go_through(call, states, engine, 0, result, next);
        assert(calls_go_through(call, states, engine, 0, result, next));
    }
    if result is Ok && next == engine {
        assert(result->Ok_0 == ());
        assert(calls_go_through(call, seq![engine], engine, 0, result, next));
    }
}

/// A run of `count + 1` calls is a run of the first `count` calls that is
/// followed, where all of them succeeded, by the call with the index `count`:
/// either one of the first `count` calls failed, and the run ended there, or
/// they took the engine to some state on which the last call was made.
pub proof fn lemma_one_more<E>(
    call: Call<E>,
    engine: E,
    count: nat,
    result: Result<(), Error>,
    next: E,
)
    requires
        count < usize::MAX,
    ensures
        calls_until_failure(call, engine, count + 1, result, next) <==> {
            ||| result is Err && calls_until_failure(call, engine, count, result, next)
            ||| exists|middle: E| #[trigger]
                calls_until_failure(call, engine, count, Ok(()), middle) && call(
                    middle,
                    count as usize,
                    result,
                    next,
                )
        },
{
    let longer: nat = count + 1;
    if calls_until_failure(call, engine, longer, result, next) {
        let states = choose|states: Seq<E>|
            calls_go_through(call, states, engine, longer, result, next);
        assert(calls_go_through(call, states, engine, longer, result, next));
        if result is Ok {
            assert(result->Ok_0 == ());
            let first = states.take(count as int + 1);
            assert forall|index: usize| index + 1 < first.len() implies #[trigger] succeeds_at(
                call,
                first,
                index,
            ) by {
                assert(succeeds_at(call, states, index));
            }
            assert(calls_go_through(call, first, engine, count, Ok(()), states[count as int]));
            assert(succeeds_at(call, states, count as usize));
            assert(calls_until_failure(call, engine, count, Ok(()), states[count as int]));
        } else if states.len() <= count {
            assert(calls_go_through(call, states, engine, count, result, next));
        } else {
            assert(calls_go_through(call, states, engine, count, Ok(()), states.last()));
            assert(calls_until_failure(call, engine, count, Ok(()), states.last()));
        }
    }
    if result is Err && calls_until_failure(call, engine, count, result, next) {
        let states = choose|states: Seq<E>| calls_go_through(call, states, engine, count, result, next);
        assert(calls_go_through(call, states, engine, longer, result, next));
    }
    if exists|middle: E| #[trigger]
        calls_until_failure(call, engine, count, Ok(()), middle) && call(
            middle,
            count as usize,
            result,
            next,
        ) {
        let middle = choose|middle: E| #[trigger]
            calls_until_failure(call, engine, count, Ok(()), middle) && call(
                middle,
                count as usize,
                result,
                next,
            );
        let states = choose|states: Seq<E>|
            calls_go_through(call, states, engine, count, Ok(()), middle);
        assert(calls_go_through(call, states, engine, count, Ok(()), middle));
        if result is Ok {
            assert(result->Ok_0 == ());
            lemma_push_state(call, states, next);
            assert(calls_go_through(call, states.push(next), engine, longer, result, next));
        } else {
            assert(calls_go_through(call, states, engine, longer, result, next));
        }
    }
}

/// A call that succeeds on the last of `states` adds the state it leaves.
proof fn lemma_push_state<E>(call: Call<E>, states: Seq<E>, next: E)
    requires
        0 < states.len() <= usize::MAX,
        forall|index: usize| index + 1 < states.len() ==> #[trigger] succeeds_at(call, states, index),
        call(states.last(), (states.len() - 1) as usize, Ok(()), next),
    ensures
        forall|index: usize|
            index + 1 < states.len() + 1 ==> #[trigger] succeeds_at(
                call,
                states.push(next),
                index,
            ),
{
    assert forall|index: usize| index + 1 < states.len() + 1 implies #[trigger] succeeds_at(
        call,
        states.push(next),
        index,
    ) by {
        if index + 1 < states.len() {
            assert(succeeds_at(call, states, index));
        }
    }
}

/// Asks `get` for the item at each index below `count`, in order, and
/// collects what it hands out.
#[verifier::loop_isolation(false)]
pub(crate) fn collect_each<'a, E: ?Sized, R, F>(engine: &'a E, count: usize, get: F) -> (all: Vec<R>)
    where
        F: Fn(&'a E, usize) -> R,
    requires
        forall|index: usize| call_requires(get, (engine, index)),
    ensures
        all.len() == count,
        forall|index: int|
            0 <= index < count ==> call_ensures(get, (engine, index as usize), #[trigger] all@[index]),
{
    let mut all: Vec<R> = Vec::with_capacity(count);
    let mut index: usize = 0;
    while index < count
        invariant
            index <= count,
            all.len() == index,
            forall|i: int| 0 <= i < index ==> call_ensures(get, (engine, i as usize), #[trigger] all@[i]),
        decreases count - index,
    {
        all.push(get(engine, index));
        index += 1;
    }
    all
}

/// Hands each of `items` with its index to `call`, in order, and stops at the
/// first call that fails.
#[verifier::loop_isolation(false)]
pub(crate) fn try_each<E, A: Copy, F>(engine: &mut E, items: &[A], call: F) -> (result: Result<
    (),
    Error,
>)
    where
        F: Fn(&mut E, usize, A) -> Result<(), Error>,
    requires
        forall|engine: &mut E, index: usize, item: A| call_requires(call, (engine, index, item)),
    ensures
        calls_until_failure(
            |before: E, index: usize, result: Result<(), Error>, after: E|
                exists|engine: &mut E|
                    {
                        &&& *engine == before
                        &&& *final(engine) == after
                        &&& #[trigger] call_ensures(call, (engine, index, items@[index as int]), result)
                    },
            *old(engine),
            items@.len(),
            result,
            *final(engine),
        ),
{
    let ghost step: Call<E> = |before: E, index: usize, result: Result<(), Error>, after: E|
        exists|engine: &mut E|
            {
                &&& *engine == before
                &&& *final(engine) == after
                &&& #[trigger] call_ensures(call, (engine, index, items@[index as int]), result)
            };
    let ghost mut states = seq![*engine];
    let mut index: usize = 0;
    while index < items.len()
        invariant
            index <= items.len(),
            states.len() == index + 1,
            states[0] == *old(engine),
            states.last() == *engine,
            forall|k: usize| k + 1 < states.len() ==> #[trigger] succeeds_at(step, states, k),
        decreases items.len() - index,
    {
        let outcome = call(engine, index, items[index]);
        if outcome.is_err() {
            assert(calls_go_through(step, states, *old(engine), items@.len(), outcome, *engine));
            return outcome;
        }
        proof {
            assert(outcome->Ok_0 == ());
            lemma_push_state(step, states, *engine);
            states = states.push(*engine);
        }
        index += 1;
    }
    assert(calls_go_through(step, states, *old(engine), items@.len(), Ok(()), *engine));
    Ok(())
}

/// Hands each of `buffers` with its index to `call`, in order, and stops at
/// the first call that fails. A buffer that no call was given stays as it is.
#[verifier::loop_isolation(false)]
pub(crate) fn try_each_buffer<E, T, F>(engine: &mut E, buffers: &mut [&mut [T]], call: F) -> (result:
    Result<(), Error>)
    where
        F: Fn(&mut E, usize, &mut [T]) -> Result<(), Error>,
    requires
        forall|engine: &mut E, index: usize, buffer: &mut [T]|
            call_requires(call, (engine, index, buffer)),
    ensures
        final(buffers)@.len() == old(buffers)@.len(),
        exists|states: Seq<E>|
            {
                &&& #[trigger] unchanged_from(
                    states.len(),
                    contents(old(buffers)@),
                    contents(final(buffers)@),
                )
                &&& calls_go_through(
                    |before: E, index: usize, result: Result<(), Error>, after: E|
                        exists|engine: &mut E, buffer: &mut [T]|
                            {
                                &&& *engine == before
                                &&& *final(engine) == after
                                &&& buffer@ == contents(old(buffers)@)[index as int]
                                &&& final(buffer)@ == contents(final(buffers)@)[index as int]
                                &&& #[trigger] call_ensures(call, (engine, index, buffer), result)
                            },
                    states,
                    *old(engine),
                    old(buffers)@.len(),
                    result,
                    *final(engine),
                )
            },
{
    let ghost mut step: Call<E> = |before: E, index: usize, result: Result<(), Error>, after: E|
        exists|engine: &mut E, buffer: &mut [T]|
            {
                &&& *engine == before
                &&& *final(engine) == after
                &&& buffer@ == contents(old(buffers)@)[index as int]
                &&& final(buffer)@ == contents(buffers@)[index as int]
                &&& #[trigger] call_ensures(call, (engine, index, buffer), result)
            };
    let ghost mut states = seq![*engine];
    let mut index: usize = 0;
    while index < buffers.len()
        invariant
            step == (|before: E, index: usize, result: Result<(), Error>, after: E|
                exists|engine: &mut E, buffer: &mut [T]|
                    {
                        &&& *engine == before
                        &&& *final(engine) == after
                        &&& buffer@ == contents(old(buffers)@)[index as int]
                        &&& final(buffer)@ == contents(buffers@)[index as int]
                        &&& #[trigger] call_ensures(call, (engine, index, buffer), result)
                    }),
            index <= buffers.len(),
            buffers@.len() == old(buffers)@.len(),
            states.len() == index + 1,
            states[0] == *old(engine),
            states.last() == *engine,
            unchanged_from(index as nat, contents(old(buffers)@), contents(buffers@)),
            forall|k: usize| k + 1 < states.len() ==> #[trigger] succeeds_at(step, states, k),
        decreases buffers.len() - index,
    {
        let ghost earlier = step;
        let ghost held = contents(buffers@);
        let ghost handed = buffers@[index as int]@;
        let outcome = call(engine, index, buffers[index]);
        proof {
            step = |before: E, index: usize, result: Result<(), Error>, after: E|
                exists|engine: &mut E, buffer: &mut [T]|
                    {
                        &&& *engine == before
                        &&& *final(engine) == after
                        &&& buffer@ == contents(old(buffers)@)[index as int]
                        &&& final(buffer)@ == contents(buffers@)[index as int]
                        &&& #[trigger] call_ensures(call, (engine, index, buffer), result)
                    };
            // The call touched no buffer but its own, so the earlier calls
            // still account for what theirs hold.
            assert forall|k: usize| k + 1 < states.len() implies #[trigger] succeeds_at(
                step,
                states,
                k,
            ) by {
                assert(contents(buffers@)[k as int] == held[k as int]);
                assert(succeeds_at(earlier, states, k));
            }
            assert(handed == held[index as int]);
            assert(contents(buffers@)[index as int] == buffers@[index as int]@);
            assert(step(states.last(), index, outcome, *engine));
            assert(unchanged_from((index + 1) as nat, contents(old(buffers)@), contents(buffers@)))
                by {
                assert forall|j: int| index + 1 <= j < buffers@.len() implies contents(
                    buffers@,
                )[j] == contents(old(buffers)@)[j] by {
                    assert(contents(buffers@)[j] == held[j]);
                }
            }
        }
        if outcome.is_err() {
            assert(calls_go_through(step, states, *old(engine), buffers@.len(), outcome, *engine));
            return outcome;
        }
        proof {
            assert(outcome->Ok_0 == ());
            lemma_push_state(step, states, *engine);
            states = states.push(*engine);
        }
        index += 1;
    }
    assert(unchanged_from(states.len(), contents(old(buffers)@), contents(buffers@)));
    assert(calls_go_through(step, states, *old(engine), buffers@.len(), Ok(()), *engine));
    Ok(())
}

} // verus!
