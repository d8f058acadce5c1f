use service_demo::error::Error;
use service_demo::protocol::{classify_line, classify_output, frame_one_shot, frame_request};
use service_demo::worker::{
    Action, Event, Exchange, OneShot, Phase, ShotAction, ShotEvent, ShotPhase,
};

fn run_exchange(input: &str, alive: bool, reply: &str) -> Result<String, Error> {
    let mut ex = Exchange::new(input);
    let mut ev = if alive { Event::Alive } else { Event::Exited };
    loop {
        match ex.step(ev) {
            Action::Spawn => ev = Event::Spawned,
            Action::Send => ev = Event::Sent,
            Action::Receive => ev = Event::Received(reply.len(), reply.to_owned()),
            Action::Finish(r) => return r,
        }
    }
}

fn run_one_shot(input: &str, output: &[u8]) -> Result<String, Error> {
    let mut shot = OneShot::new(input);
    let mut ev = ShotEvent::Spawned;
    loop {
        match shot.step(ev) {
            ShotAction::Feed => ev = ShotEvent::Fed,
            ShotAction::Collect => ev = ShotEvent::Collected(output.to_vec()),
            ShotAction::Finish(r) => return r,
        }
    }
}

#[test]
fn test_one_shot() {
    let out = run_one_shot("Hello, world..", "..dlrow ,olleH".as_bytes()).expect("Failed to run task");
    assert_eq!(out, "..dlrow ,olleH");
}

#[test]
fn test_submit() {
    let mut ex = Exchange::new("Hello, world..");
    assert_eq!(ex.request, "Hello, world..\n");
    let reply = ex.request.clone();
    let out = run_exchange("Hello, world..", true, &reply).expect("Failed to run task");
    assert_eq!(out, "Hello, world..");
    assert!(matches!(ex.step(Event::Alive), Action::Send));
}

#[test]
fn request_line_strips_newlines_and_ends_with_one() {
    assert_eq!(frame_request("a\nb\nc"), "abc\n");
    assert_eq!(frame_request(""), "\n");
    assert_eq!(frame_one_shot("x\ny\n"), "xy");
}

#[test]
fn reply_line_is_trimmed() {
    assert_eq!(classify_line(6, "hi \r\n".to_owned()).unwrap(), "hi");
}

#[test]
fn empty_reply_is_empty_output() {
    assert!(matches!(classify_line(0, String::new()), Err(Error::EmptyRet)));
    assert!(matches!(classify_line(1, "\n".to_owned()), Err(Error::EmptyRet)));
    assert!(matches!(classify_output(Vec::new()), Err(Error::EmptyRet)));
}

#[test]
fn sentinel_reply_is_reported_on_every_path() {
    match classify_line(9, "!bad arg\n".to_owned()) {
        Err(Error::RunSubCmdError(d)) => assert_eq!(d, "bad arg"),
        other => panic!("unexpected {:?}", other),
    }
    match run_one_shot("x", b"!bad arg") {
        Err(Error::RunSubCmdError(d)) => assert_eq!(d, "bad arg"),
        other => panic!("unexpected {:?}", other),
    }
    match run_exchange("x", true, "!oops\n") {
        Err(Error::RunSubCmdError(d)) => assert_eq!(d, "oops"),
        other => panic!("unexpected {:?}", other),
    }
    match classify_output(b"!".to_vec()) {
        Err(Error::RunSubCmdError(d)) => assert_eq!(d, ""),
        other => panic!("unexpected {:?}", other),
    }
}

#[test]
fn invalid_utf8_output_is_an_encoding_error() {
    assert!(matches!(classify_output(vec![0xff, 0xfe]), Err(Error::EncodingError(_))));
    assert_eq!(classify_output("h\u{e9}".as_bytes().to_vec()).unwrap(), "h\u{e9}");
}

#[test]
fn exited_worker_is_replaced_and_call_succeeds() {
    let mut ex = Exchange::new("ping");
    assert!(matches!(ex.step(Event::Exited), Action::Spawn));
    assert_eq!(ex.phase, Phase::Respawn);
    assert!(matches!(ex.step(Event::Spawned), Action::Send));
    assert_eq!(ex.phase, Phase::Send);
    assert_eq!(run_exchange("ping", false, "pong\n").unwrap(), "pong");
}

#[test]
fn transport_failures_surface_without_retry() {
    let mut ex = Exchange::new("ping");
    ex.step(Event::Alive);
    match ex.step(Event::SendFailed("broken pipe".to_owned())) {
        Action::Finish(Err(Error::IoError(m))) => assert_eq!(m, "broken pipe"),
        _ => panic!("expected a transport error"),
    }
    assert_eq!(ex.phase, Phase::Done);
    let mut ex = Exchange::new("ping");
    ex.step(Event::Exited);
    assert!(matches!(
        ex.step(Event::SpawnFailed("no such file".to_owned())),
        Action::Finish(Err(Error::IoError(_)))
    ));
    let mut ex = Exchange::new("ping");
    ex.step(Event::Alive);
    ex.step(Event::Sent);
    assert!(matches!(
        ex.step(Event::ReceiveFailed("eof".to_owned())),
        Action::Finish(Err(Error::IoError(_)))
    ));
}

#[test]
fn out_of_order_event_ends_the_exchange() {
    let mut ex = Exchange::new("ping");
    assert!(matches!(ex.step(Event::Sent), Action::Finish(Err(Error::Other(_)))));
    assert_eq!(ex.phase, Phase::Done);
}

#[test]
fn one_shot_with_empty_input_writes_nothing() {
    let mut shot = OneShot::new("");
    assert!(matches!(shot.step(ShotEvent::Spawned), ShotAction::Collect));
    assert_eq!(shot.phase, ShotPhase::Collect);
    let mut shot = OneShot::new("a\nb");
    assert_eq!(shot.request, "ab");
    assert!(matches!(shot.step(ShotEvent::Spawned), ShotAction::Feed));
    assert!(matches!(
        shot.step(ShotEvent::CollectFailed("x".to_owned())),
        ShotAction::Finish(Err(Error::Other(_)))
    ));
}

#[test]
fn one_shot_keeps_output_as_written() {
    assert_eq!(run_one_shot("abc", b"cba\n").unwrap(), "cba\n");
    let mut shot = OneShot::new("abc");
    assert!(matches!(
        shot.step(ShotEvent::SpawnFailed("denied".to_owned())),
        ShotAction::Finish(Err(Error::IoError(_)))
    ));
}
