use stemplayer::auth::{AuthAction, Handshake};
use stemplayer::bundle::{PushStep, Stage};
use stemplayer::device::AsFrame;
use stemplayer::error::Error;
use stemplayer::frame::Frame;
use stemplayer::sequence::{step_notice, Action, FreshUpload, Outcome};
use stemplayer::upload::{upload_song, Stems};

fn lost() -> Error {
    Error::Other("gone".to_string())
}

/// Goes through an upload and tells what was asked for.
fn run(opened: Vec<Outcome>) -> (Vec<String>, Vec<Frame>, Result<(), Error>) {
    let mut outcomes = vec![Outcome::Done, Outcome::Done, Outcome::Done, Outcome::Done];
    outcomes.extend(opened);
    let (asked, frames, end) = run_all(outcomes);
    assert_eq!(asked[..4], ["release", "split", "reopen", "load"]);
    (asked[4..].to_vec(), frames, end)
}

fn run_all(mut outcomes: Vec<Outcome>) -> (Vec<String>, Vec<Frame>, Result<(), Error>) {
    outcomes.reverse();
    let mut asked = Vec::new();
    let mut frames = Vec::new();
    let mut upload = FreshUpload::new();
    loop {
        match upload.action().unwrap() {
            Action::Release => asked.push("release".to_string()),
            Action::Split => asked.push("split".to_string()),
            Action::Reopen => asked.push("reopen".to_string()),
            Action::Load => asked.push("load".to_string()),
            Action::Connect(frame) => {
                asked.push("connect".to_string());
                frames.push(frame);
            }
            Action::Unlock(AuthAction::Exchange(cmd, awaited)) => {
                asked.push(format!("exchange {}", awaited.key));
                frames.push(cmd.as_frame());
            }
            Action::Unlock(AuthAction::Fetch(body)) => asked.push(format!("fetch {}", body)),
            Action::Unlock(AuthAction::Report(body)) => asked.push(format!("report {}", body)),
            Action::Unlock(AuthAction::Stop) => unreachable!(),
            Action::Ask(cmd) => {
                asked.push("ask".to_string());
                frames.push(cmd.as_frame());
            }
            Action::Create(cmd) => {
                asked.push("create".to_string());
                frames.push(cmd.as_frame());
            }
            Action::Push(slot) => asked.push(format!("push {}", slot)),
            Action::Finish => return (asked, frames, Ok(())),
        }
        upload = match upload.next(outcomes.pop().unwrap()) {
            Ok(next) => next,
            Err(e) => return (asked, frames, Err(e)),
        };
    }
}

fn text(t: &str) -> Outcome {
    Outcome::Text(t.to_string())
}

#[test]
fn an_upload_goes_through_the_whole_sequence() {
    let (asked, frames, end) = run(vec![
        Outcome::Done,
        text("sn1"),
        text("80000001"),
        text("ff"),
        text("{}"),
        Outcome::Payload(b"\x03{\"l\":[{\"a\":\"A5\"}]}\0".to_vec()),
        Outcome::Done,
        Outcome::Done,
    ]);
    assert!(end.is_ok());
    assert_eq!(
        asked,
        vec![
            "connect",
            "exchange sn",
            "fetch {\"device_id\":\"sn1\"}",
            "exchange response",
            "report {\"device_id\":\"sn1\",\"challenge_response\":\"ff\"}",
            "ask",
            "create",
            "push A6",
        ]
    );
    assert_eq!(
        frames,
        vec![
            Frame::new(0x02, vec![]),
            Frame::new(0x04, vec![0x01]),
            Frame::new(0x04, b"\x12{\"challenge\":-2147483647}\0".to_vec()),
            Frame::new(0x04, vec![0x03]),
            Frame::new(0x04, b"\x08{\"album\":\"A6\"}\0".to_vec()),
        ]
    );
}

#[test]
fn a_device_that_stays_locked_is_still_tried() {
    for unlocking in 0..4 {
        let mut outcomes = vec![Outcome::Failed(lost())];
        for t in &["sn", "1", "ff"][..unlocking] {
            outcomes.push(text(t));
        }
        outcomes.push(Outcome::Failed(lost()));
        outcomes.push(Outcome::Failed(lost()));
        outcomes.push(Outcome::Done);
        outcomes.push(Outcome::Done);
        let (asked, _, end) = run(outcomes);
        assert!(end.is_ok());
        assert_eq!(asked[asked.len() - 3..], ["ask", "create", "push A10"]);
    }
}

#[test]
fn a_challenge_that_is_no_number_ends_the_handshake() {
    let (asked, _, end) = run(vec![
        Outcome::Done,
        text("sn"),
        text("zz"),
        Outcome::Payload(b"\x03{\"l\":[]}".to_vec()),
        Outcome::Done,
        Outcome::Done,
    ]);
    assert!(end.is_ok());
    assert_eq!(asked[2..], ["fetch {\"device_id\":\"sn\"}", "ask", "create", "push A5"]);
}

#[test]
fn what_cannot_be_sent_ends_the_upload() {
    let upto = |rest: Vec<Outcome>| {
        let mut outcomes = vec![Outcome::Done, Outcome::Done, Outcome::Done];
        outcomes.extend(rest);
        run(outcomes)
    };
    let (asked, _, end) = upto(vec![Outcome::Failed(lost())]);
    assert_eq!((asked.last().unwrap().as_str(), end), ("create", Err(lost())));
    let (asked, _, end) = upto(vec![Outcome::Done, Outcome::Failed(lost())]);
    assert_eq!((asked.last().unwrap().as_str(), end), ("push A10", Err(lost())));
}

#[test]
fn a_handshake_tells_why_it_failed() {
    let failed = Handshake::new().next(Err(lost())).unwrap_err();
    assert_eq!(failed, lost());
    let fetched = Handshake::new().next(Ok("sn".to_string())).unwrap();
    assert_eq!(
        fetched.next(Ok("".to_string())).unwrap_err().message(),
        "challenge hex parse: cannot parse integer from empty string"
    );
    let done = Handshake::Report("sn".to_string(), "ff".to_string());
    assert!(matches!(done.next(Ok(String::new())), Ok(Handshake::Done)));
    assert!(matches!(Handshake::Done.action(), Ok(AuthAction::Stop)));
}

#[test]
fn nothing_is_sent_before_the_stems_are_there() {
    for done in 0..4 {
        let mut outcomes: Vec<Outcome> = Vec::new();
        for _ in 0..done {
            outcomes.push(Outcome::Done);
        }
        outcomes.push(Outcome::Failed(lost()));
        let (asked, frames, end) = run_all(outcomes);
        assert_eq!(asked, ["release", "split", "reopen", "load"][..done + 1]);
        assert!(frames.is_empty());
        assert_eq!(end, Err(lost()));
    }
}

#[test]
fn the_user_is_told_of_every_part() {
    let stems = Stems { other: &[1], vocals: &[2], bass: &[3], drums: &[4] };
    let mut told = Vec::new();
    let mut upload = FreshUpload::new();
    loop {
        for notice in upload.notices() {
            told.push(format!("{} {}", notice.phase(), notice.percent()));
        }
        match upload.action().unwrap() {
            Action::Push(slot) => {
                for step in upload_song(&slot, "t", "t", &stems, 0).unwrap() {
                    if let Some(notice) = step_notice(&step) {
                        told.push(format!("{} {}", notice.phase(), notice.percent()));
                    }
                }
            }
            Action::Finish => break,
            _ => {}
        }
        upload = upload.next(Outcome::Done).unwrap();
    }
    assert_eq!(
        told,
        vec![
            "preparing 1",
            "splitting 5",
            "splitting 60",
            "reopening 62",
            "creating-slot 66",
            "pushing 70",
            "pushing 76",
            "pushing 82",
            "pushing 88",
            "pushing 94",
            "pushing 98",
            "pushing 100",
            "done 100",
        ]
    );
}

#[test]
fn only_stages_are_told() {
    assert!(step_notice(&PushStep::Wait(250)).is_none());
    assert!(step_notice(&PushStep::Send(Frame::ack())).is_none());
    assert_eq!(step_notice(&PushStep::Stage(Stage::Bass)).unwrap().percent(), 82);
}
