use kosmos::client::ClientError;
use kosmos::planet::RegistResponse;
use kosmos::utils::{exit_frame, Cursor, FrameError, Package, ReadEx, Status};
use kosmos::xeno::client::{recv_in, reply, XenoClient, XenoError, XenoHandler};
use kosmos::yukikaze::{Ask, Request};

#[derive(Clone)]
struct Echo;

impl XenoHandler for Echo {
    type In = Ask;
    type Out = Request;

    fn handle(&self, input: Ask) -> Result<Option<Request>, String> {
        Ok(Some(Request::post(input.0, "echo".to_owned())))
    }
}

#[derive(Clone)]
struct Picky;

impl XenoHandler for Picky {
    type In = String;
    type Out = ();

    fn handle(&self, input: String) -> Result<Option<()>, String> {
        if input == "quiet" {
            Ok(None)
        } else if input == "ack" {
            Ok(Some(()))
        } else {
            Err(format!("no {}", input))
        }
    }
}

#[test]
fn echo_session() {
    let mut session = Ask::new("hi".to_owned()).package().unwrap();
    session.extend_from_slice(&exit_frame());
    let mut stream = Cursor::new(session);
    let mut out = Vec::new();
    assert_eq!(recv_in(&Echo, &mut stream, &mut out), Ok(Status::Continue));
    let mut answer = Cursor::new(out.clone());
    let post: Request = answer.expect().unwrap();
    match post {
        Request::Post { msg, node } => {
            assert_eq!(msg, "hi");
            assert_eq!(node, "echo");
        }
    }
    assert_eq!(answer.remaining(), 0);
    assert_eq!(recv_in(&Echo, &mut stream, &mut out), Ok(Status::Exit));
    assert_eq!(stream.remaining(), 0);
}

#[test]
fn no_answer_writes_nothing() {
    let mut stream = Cursor::new("quiet".to_owned().package().unwrap());
    let mut out = vec![1, 2];
    assert_eq!(recv_in(&Picky, &mut stream, &mut out), Ok(Status::Continue));
    assert_eq!(out, vec![1, 2]);
}

#[test]
fn an_empty_answer_is_framed_as_four_zero_bytes() {
    let mut stream = Cursor::new("ack".to_owned().package().unwrap());
    let mut out = vec![1, 2];
    assert_eq!(recv_in(&Picky, &mut stream, &mut out), Ok(Status::Continue));
    assert_eq!(out, vec![1, 2, 0, 0, 0, 0]);
}

#[test]
fn a_handler_error_ends_the_session() {
    let mut stream = Cursor::new("way".to_owned().package().unwrap());
    let mut out = Vec::new();
    assert_eq!(
        recv_in(&Picky, &mut stream, &mut out),
        Err(XenoError::Handler("no way".to_owned()))
    );
    assert!(out.is_empty());
}

#[test]
fn frames_that_cannot_be_read_end_the_session() {
    let mut out = Vec::new();
    assert_eq!(
        recv_in(&Echo, &mut Cursor::new(vec![1]), &mut out),
        Err(XenoError::Frame(FrameError::ShortHeader))
    );
    assert_eq!(
        recv_in(&Echo, &mut Cursor::new(vec![5, 0, 0, 0, 1]), &mut out),
        Err(XenoError::Frame(FrameError::Truncated))
    );
    assert_eq!(
        recv_in(&Echo, &mut Cursor::new(vec![1, 0, 0, 0, 1]), &mut out),
        Err(XenoError::Frame(FrameError::Malformed))
    );
    assert!(out.is_empty());
}

#[test]
fn reply_carries_out_each_verdict() {
    let mut out = Vec::new();
    assert_eq!(reply(Ok(Some(7u32)), &mut out), Ok(Status::Continue));
    assert_eq!(out, vec![4, 0, 0, 0, 7, 0, 0, 0]);
    assert_eq!(reply::<u32>(Ok(None), &mut out), Ok(Status::Continue));
    assert_eq!(
        reply::<u32>(Err("bad".to_owned()), &mut out),
        Err(XenoError::Handler("bad".to_owned()))
    );
    assert_eq!(out, vec![4, 0, 0, 0, 7, 0, 0, 0]);
}

#[test]
fn a_node_runs_only_after_it_registered() {
    let mut node = XenoClient::new("yukikaze", Echo);
    assert_eq!(node.run(), Err(ClientError::NotRegistered));
    assert!(node.regist_request().is_ok());
    let refused = RegistResponse::Fail("no".to_owned()).package().unwrap();
    assert_eq!(
        node.regist(&mut Cursor::new(refused)),
        Err(ClientError::Rejected("no".to_owned()))
    );
    assert_eq!(node.run(), Err(ClientError::NotRegistered));
    let accepted = RegistResponse::Success("yukikaze/abc".to_owned()).package().unwrap();
    assert_eq!(node.regist(&mut Cursor::new(accepted)), Ok(()));
    assert_eq!(node.run(), Ok("/tmp/kosmos/link/yukikaze/abc".to_owned()));
    let mut stream = Cursor::new(Ask::new("x".to_owned()).package().unwrap());
    let mut out = Vec::new();
    assert_eq!(node.recv(&mut stream, &mut out), Ok(Status::Continue));
    assert!(!out.is_empty());
}
