use rust_echo_server::config::Config;
use rust_echo_server::listener::{listen, on_accept, AcceptOutcome, Notice};

#[test]
fn created_listener_is_handed_on() {
    let config = Config { port: 5000, backlog: 16 };
    let r = listen(&config, Ok::<u32, String>(7));
    assert_eq!(r.unwrap(), 7);
}

#[test]
fn failed_creation_is_a_bind_error_with_the_port() {
    let config = Config { port: 49152, backlog: 0 };
    let r = listen::<u32>(&config, Err("Address already in use".to_string()));
    let e = r.unwrap_err();
    assert_eq!(e.port, 49152);
    assert_eq!(e.cause, "Address already in use");
}

#[test]
fn failed_accept_is_reported_and_dispatches_nothing() {
    let step = on_accept(AcceptOutcome::Failed);
    assert!(!step.dispatch);
    assert_eq!(step.notices, vec![Notice::AcceptFailed]);
}

#[test]
fn accepted_connection_is_dispatched() {
    let step = on_accept(AcceptOutcome::Accepted { nodelay_set: true });
    assert!(step.dispatch);
    assert_eq!(step.notices, vec![Notice::NewConnection]);
}

#[test]
fn nodelay_failure_still_dispatches() {
    let step = on_accept(AcceptOutcome::Accepted { nodelay_set: false });
    assert!(step.dispatch);
    assert_eq!(step.notices, vec![Notice::NoDelayFailed, Notice::NewConnection]);
}
