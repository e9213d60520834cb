use kosmos::utils::{
    exit_frame, pack, session_goes_on, Cursor, FrameError, Package, Read, ReadEx, ReadResult, Session, Status,
    DECODE_DEADLINE_MS,
};

#[test]
fn read_ex() {
    let input = "test".to_owned();
    let binary_input = input.package().unwrap();
    let mut cur = Cursor::new(binary_input);
    let len = cur.get_len().unwrap();
    let obj: String = cur.get_obj(len).unwrap();
    assert_eq!(obj, input);
}

#[test]
fn package_of_a_string_is_bit_exact() {
    let pkg = "test".to_owned().package().unwrap();
    assert_eq!(pkg, vec![12, 0, 0, 0, 4, 0, 0, 0, 0, 0, 0, 0, b't', b'e', b's', b't']);
}

#[test]
fn package_matches_bincode() {
    let value = "雪風 unicode".to_owned();
    let body = bincode::serialize(&value).unwrap();
    let mut expected = bincode::serialize(&(body.len() as u32)).unwrap();
    expected.extend_from_slice(&body);
    assert_eq!(value.package().unwrap(), expected);
}

#[test]
fn exit_sentinel_is_four_zero_bytes() {
    assert_eq!(exit_frame(), vec![0u8, 0, 0, 0]);
    assert_eq!(pack(&[]).unwrap(), vec![0u8, 0, 0, 0]);
}

#[test]
fn unpack_stops_at_the_exit_sentinel() {
    let mut cur = Cursor::new(vec![0, 0, 0, 0, 9, 9, 9]);
    let got: ReadResult<String> = cur.unpack().unwrap();
    assert!(matches!(got, ReadResult::Exit));
    assert_eq!(cur.remaining(), 3);
    assert!(Status::from(got).is_exit());
}

#[test]
fn unpack_reports_short_and_truncated_input() {
    let mut short = Cursor::new(vec![1, 0, 0]);
    assert_eq!(short.unpack::<String>().err(), Some(FrameError::ShortHeader));
    let mut cut = Cursor::new(vec![5, 0, 0, 0, 1, 2]);
    assert_eq!(cut.unpack::<String>().err(), Some(FrameError::Truncated));
    let mut bad = Cursor::new(vec![2, 0, 0, 0, 1, 2]);
    assert_eq!(bad.unpack::<String>().err(), Some(FrameError::Malformed));
}

#[test]
fn a_frame_starts_with_the_length_of_its_payload() {
    let payload = vec![7u8; 300];
    let pkg = pack(&payload).unwrap();
    assert_eq!(&pkg[..4], &[44, 1, 0, 0]);
    assert_eq!(&pkg[4..], &payload[..]);
    let mut cur = Cursor::new(pkg);
    assert_eq!(cur.get_len(), Ok(300));
    assert_eq!(cur.take(300), Some(payload));
    assert_eq!(cur.take(1), None);
    assert_eq!(cur.take(0), Some(vec![]));
}

#[test]
fn frames_round_trip_for_every_kind_of_value() {
    let mut session = 4000000000u32.package().unwrap();
    session.extend_from_slice(&"雪風".to_owned().package().unwrap());
    session.extend_from_slice(&().package().unwrap());
    let mut cur = Cursor::new(session);
    assert_eq!(cur.unpack::<u32>(), Ok(ReadResult::Continue(4000000000)));
    assert_eq!(cur.expect::<String>(), Ok("雪風".to_owned()));
    assert_eq!(cur.unpack::<()>(), Ok(ReadResult::Exit));
    assert_eq!(cur.remaining(), 0);
    assert_eq!(Cursor::new(vec![0, 0, 0, 0]).expect::<()>(), Ok(()));
}

#[test]
fn a_payload_may_be_followed_by_bytes_that_are_passed_over() {
    let mut cur = Cursor::new(vec![6, 0, 0, 0, 1, 0, 0, 0, 9, 9, 5]);
    assert_eq!(cur.unpack::<u32>(), Ok(ReadResult::Continue(1)));
    assert_eq!(cur.remaining(), 1);
}

#[test]
fn status_tells_exit_from_continue() {
    assert!(Status::Exit.is_exit());
    assert!(!Status::Exit.is_continue());
    assert!(Status::Continue.is_continue());
    assert!(!Status::Continue.is_exit());
    assert_eq!(ReadResult::Continue(1).status(), Status::Continue);
    assert_eq!(ReadResult::<u8>::Exit.status(), Status::Exit);
    assert_eq!(Status::from(ReadResult::Continue("x")), Status::Continue);
}

#[test]
fn a_session_reads_a_length_then_a_payload_with_a_deadline() {
    let start = Session::new();
    assert_eq!(DECODE_DEADLINE_MS, 500);
    assert_eq!(start.wants(Some(500)), Some(Read { count: 4, deadline_ms: None }));
    let body = start.received(&[3, 1, 0, 0]).unwrap();
    assert_eq!(body, Session::ReadBody(259));
    assert_eq!(body.wants(Some(500)), Some(Read { count: 259, deadline_ms: Some(500) }));
    assert_eq!(body.wants(None), Some(Read { count: 259, deadline_ms: None }));
    assert_eq!(body.received(&[0; 259]), Ok(Session::ReadLen));
    assert_eq!(body.received(&[0; 258]), Err(FrameError::Truncated));
    assert_eq!(start.received(&[0, 0, 0]), Err(FrameError::ShortHeader));
    let exit = start.received(&[0, 0, 0, 0]).unwrap();
    assert!(exit.is_exit());
    assert_eq!(exit.wants(Some(500)), None);
    assert_eq!(exit.received(&[1]), Ok(Session::Exit));
    assert!(body.failed().is_exit());
    assert!(!body.is_exit());
    assert_eq!(kosmos::yukikaze::EXIT.to_vec(), exit_frame());
}

#[test]
fn a_cursor_takes_bytes_as_they_arrive() {
    let mut cur = Cursor::new(vec![5, 0, 0]);
    assert_eq!(cur.get_len(), Err(FrameError::ShortHeader));
    cur.feed(&[0, 9]);
    assert_eq!(cur.get_len(), Ok(5));
    assert_eq!(cur.remaining(), 1);
    cur.feed(&[8, 7, 6, 5]);
    assert_eq!(cur.take(5), Some(vec![9, 8, 7, 6, 5]));
    assert_eq!(cur.remaining(), 0);
}

#[test]
fn a_session_goes_on_after_a_step_that_continues() {
    assert!(session_goes_on::<FrameError>(&Ok(Status::Continue)));
    assert!(!session_goes_on::<FrameError>(&Ok(Status::Exit)));
    assert!(!session_goes_on(&Err::<Status, FrameError>(FrameError::Truncated)));
    assert!(!session_goes_on(&Err::<Status, String>(String::from("handler"))));
}
