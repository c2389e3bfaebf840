//! What the two relay handlers decide. A POST offers its body to the pipe,
//! then waits for the body's completion signal, and answers only then; a GET
//! answers with the next body that the pipe yields.

use vstd::prelude::*;

verus! {

/// The status of a relay that went through.
pub const OK: u16 = 200;

/// The status of a request whose own body stream failed.
pub const BAD_REQUEST: u16 = 400;

/// The status of a request whose peer went away without a transfer: the pipe
/// closed, or a completion signal was dropped unfired.
pub const INTERNAL_SERVER_ERROR: u16 = 500;

/// Where a POST stands.
#[derive(Clone, Copy, Debug, PartialEq, Eq, Structural)]
pub enum PostState {
    /// Its body waits for room in the pipe.
    Offering,
    /// Its body is in the pipe or with a reader; it waits for the body's
    /// completion signal.
    Draining,
    /// It has answered with this status.
    Responded(u16),
}

/// What a POST's wait ended with.
#[derive(Clone, Copy, Debug, PartialEq, Eq, Structural)]
pub enum PostEvent {
    /// The offer ended: `true` when the pipe took the body, `false` when the
    /// pipe had closed.
    Offered(bool),
    /// The completion wait ended: `true` when the signal fired, `false` when
    /// its sending half went away without firing.
    Drained(bool),
}

/// The state that `event` leads to from `state`; an event that does not
/// belong to the state's wait leaves it as it is.
pub open spec fn post_next(state: PostState, event: PostEvent) -> PostState {
    match (state, event) {
        (PostState::Offering, PostEvent::Offered(true)) => PostState::Draining,
        (PostState::Offering, PostEvent::Offered(false)) => PostState::Responded(
            INTERNAL_SERVER_ERROR,
        ),
        (PostState::Draining, PostEvent::Drained(true)) => PostState::Responded(OK),
        (PostState::Draining, PostEvent::Drained(false)) => PostState::Responded(
            INTERNAL_SERVER_ERROR,
        ),
        _ => state,
    }
}

/// The state after a whole sequence of events, one after another.
pub open spec fn post_run(state: PostState, events: Seq<PostEvent>) -> PostState
    decreases events.len(),
{
    if events.len() == 0 {
        state
    } else {
        post_next(post_run(state, events.drop_last()), events.last())
    }
}

/// The next state of a POST once one of its waits has ended.
pub fn post_step(state: PostState, event: PostEvent) -> (r: PostState)
    ensures
        r == post_next(state, event),
{
    match (state, event) {
        (PostState::Offering, PostEvent::Offered(taken)) => if taken {
            PostState::Draining
        } else {
            PostState::Responded(INTERNAL_SERVER_ERROR)
        },
        (PostState::Draining, PostEvent::Drained(fired)) => if fired {
            PostState::Responded(OK)
        } else {
            PostState::Responded(INTERNAL_SERVER_ERROR)
        },
        _ => state,
    }
}

/// The status of a GET: it answers with a body where the pipe yielded one,
/// and fails where the pipe closed.
pub fn get_status(received: bool) -> (status: u16)
    ensures
        status == (if received {
            OK
        } else {
            INTERNAL_SERVER_ERROR
        }),
{
    if received {
        OK
    } else {
        INTERNAL_SERVER_ERROR
    }
}

/// A POST answers with success only from its completion wait, once the
/// signal fired: never on the mere hand-over of its body.
pub proof fn lemma_success_needs_drain(state: PostState, event: PostEvent)
    ensures
        post_next(state, event) == PostState::Responded(OK) ==> state == PostState::Responded(OK)
            || (state == PostState::Draining && event == PostEvent::Drained(true)),
{
}

/// Over any run of events, a POST that starts offering and ends in success
/// saw its body taken by the pipe and, later, its completion signal fire.
pub proof fn lemma_success_after_handover_and_drain(events: Seq<PostEvent>)
    ensures
        post_run(PostState::Offering, events) == PostState::Responded(OK) ==> exists|i: int, j: int|
            0 <= i < j < events.len() && events[i] == PostEvent::Offered(true) && events[j]
                == PostEvent::Drained(true),
    decreases events.len(),
{
    if events.len() > 0 && post_run(PostState::Offering, events) == PostState::Responded(OK) {
        let before = events.drop_last();
        let s = post_run(PostState::Offering, before);
        if s == PostState::Responded(OK) {
            lemma_success_after_handover_and_drain(before);
            let (i, j) = choose|i: int, j: int|
                0 <= i < j < before.len() && before[i] == PostEvent::Offered(true) && before[j]
                    == PostEvent::Drained(true);
            assert(events[i] == before[i] && events[j] == before[j]);
        } else {
            lemma_draining_after_handover(before);
            let i = choose|i: int| 0 <= i < before.len() && before[i] == PostEvent::Offered(true);
            assert(events[i] == before[i]);
            assert(events[events.len() - 1] == PostEvent::Drained(true));
        }
    }
}

/// A POST that starts offering is draining only after the pipe took its body.
proof fn lemma_draining_after_handover(events: Seq<PostEvent>)
    ensures
        post_run(PostState::Offering, events) == PostState::Draining ==> exists|i: int|
            0 <= i < events.len() && events[i] == PostEvent::Offered(true),
    decreases events.len(),
{
    if events.len() > 0 && post_run(PostState::Offering, events) == PostState::Draining {
        let before = events.drop_last();
        lemma_draining_after_handover(before);
        if post_run(PostState::Offering, before) == PostState::Draining {
            let i = choose|i: int| 0 <= i < before.len() && before[i] == PostEvent::Offered(true);
            assert(events[i] == before[i]);
        } else {
            assert(events[events.len() - 1] == PostEvent::Offered(true));
        }
    }
}

/// A POST has no deadline of its own: until a wait on the pipe ends, it does
/// not answer. Over any run of events, a POST that has answered saw the pipe
/// close, or saw its completion wait end.
pub proof fn lemma_answer_needs_pipe_event(events: Seq<PostEvent>)
    ensures
        post_run(PostState::Offering, events) is Responded ==> exists|i: int|
            0 <= i < events.len() && (events[i] == PostEvent::Offered(false)
                || events[i] is Drained),
    decreases events.len(),
{
    if events.len() > 0 && post_run(PostState::Offering, events) is Responded {
        let before = events.drop_last();
        if post_run(PostState::Offering, before) is Responded {
            lemma_answer_needs_pipe_event(before);
            let i = choose|i: int|
                0 <= i < before.len() && (before[i] == PostEvent::Offered(false)
                    || before[i] is Drained);
            assert(events[i] == before[i]);
        } else {
            assert(events[events.len() - 1] == events.last());
        }
    }
}

} // verus!
