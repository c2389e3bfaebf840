use pipeserve::relay::{
    get_status, post_step, PostEvent, PostState, INTERNAL_SERVER_ERROR, OK,
};

#[test]
fn post_succeeds_after_handover_and_drain() {
    let s = post_step(PostState::Offering, PostEvent::Offered(true));
    assert_eq!(s, PostState::Draining);
    assert_eq!(post_step(s, PostEvent::Drained(true)), PostState::Responded(200));
}

#[test]
fn post_fails_when_pipe_closed() {
    assert_eq!(
        post_step(PostState::Offering, PostEvent::Offered(false)),
        PostState::Responded(500)
    );
}

#[test]
fn post_fails_when_signal_lost() {
    assert_eq!(
        post_step(PostState::Draining, PostEvent::Drained(false)),
        PostState::Responded(INTERNAL_SERVER_ERROR)
    );
}

#[test]
fn post_ignores_events_of_other_waits() {
    assert_eq!(post_step(PostState::Offering, PostEvent::Drained(true)), PostState::Offering);
    assert_eq!(post_step(PostState::Draining, PostEvent::Offered(true)), PostState::Draining);
    assert_eq!(
        post_step(PostState::Responded(OK), PostEvent::Drained(false)),
        PostState::Responded(OK)
    );
}

#[test]
fn get_status_by_outcome() {
    assert_eq!(get_status(true), 200);
    assert_eq!(get_status(false), 500);
    assert_eq!(INTERNAL_SERVER_ERROR, 500);
}
