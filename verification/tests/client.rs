use kosmos::client::{Attempt, ClientError, UnixClient};
use kosmos::planet::{AirportKind, GetResponse, Planet, RegistResponse, Request};
use kosmos::server::{Handled, UnixSocketServer};
use kosmos::utils::{Cursor, FrameError, Package};

fn fresh(name: &str) -> UnixSocketServer {
    let path = format!("/tmp/kosmos_test/client/{}", name);
    let mut server = UnixSocketServer::with_custom_db_path(name.to_owned(), &path).unwrap();
    server.clear().unwrap();
    server
}

fn serve(server: &mut UnixSocketServer, session: Vec<u8>) -> (Vec<Handled>, Vec<u8>) {
    let mut stream = Cursor::new(session);
    let mut out = Vec::new();
    let mut steps = Vec::new();
    loop {
        let step = server.handle(&mut stream, &mut out).unwrap();
        let done = step == Handled::Exit;
        steps.push(step);
        if done || stream.remaining() == 0 {
            return (steps, out);
        }
    }
}

#[test]
fn ensure_anyhow_msg_error() {
    const MSG: &str = "test";
    let e = ClientError::Rejected(MSG.to_owned());
    assert_eq!(e.message(), MSG);
}

#[test]
fn error_messages() {
    assert_eq!(ClientError::CanNotConnect.message(), "can not connect");
    assert_eq!(ClientError::CanNotResolve.message(), "can not resolve target planet");
    assert_eq!(ClientError::Rejected("full".to_owned()).message(), "full");
    assert_eq!(ClientError::NotRegistered.message(), "not registered");
    assert_eq!(ClientError::UnsupportedTransport.message(), "unsupported transport");
    assert_eq!(ClientError::Frame(FrameError::TooLong).message(), "payload too long");
    assert_eq!(ClientError::Frame(FrameError::ShortHeader).message(), "short read on length");
    assert_eq!(ClientError::Frame(FrameError::Truncated).message(), "truncated payload");
    assert_eq!(ClientError::Frame(FrameError::Malformed).message(), "malformed payload");
}

#[test]
fn listen_before_register_is_an_error() {
    let client = UnixClient::new("early");
    assert_eq!(client.listen(), Err(ClientError::NotRegistered));
}

#[test]
fn register_takes_the_canonical_name() {
    let mut server = fresh("register");
    let mut client = UnixClient::new("alpha");
    assert_eq!(client.name(), "alpha");
    let request = client.regist_request().unwrap();
    assert_eq!(
        request,
        Request::Regist(Planet::new("alpha".to_owned(), AirportKind::UnixSocket))
            .package()
            .unwrap()
    );
    let (_, answer) = serve(&mut server, request);
    let name = client.regist(&mut Cursor::new(answer)).unwrap();
    assert!(name.starts_with("alpha/"));
    assert_eq!(client.name(), name);
    assert_eq!(client.listen(), Ok(format!("/tmp/kosmos/link/{}", name)));
}

#[test]
fn a_refused_registration_is_an_error_and_changes_nothing() {
    let mut client = UnixClient::with_name("alpha".to_owned());
    let answer = RegistResponse::Fail("no room".to_owned()).package().unwrap();
    assert_eq!(
        client.regist(&mut Cursor::new(answer)),
        Err(ClientError::Rejected("no room".to_owned()))
    );
    assert_eq!(client.name(), "alpha");
    assert_eq!(client.listen(), Err(ClientError::NotRegistered));
    assert_eq!(
        client.regist(&mut Cursor::new(vec![0, 0, 0, 0])),
        Err(ClientError::Frame(FrameError::Malformed))
    );
    assert_eq!(
        client.regist(&mut Cursor::new(vec![0, 0])),
        Err(ClientError::Frame(FrameError::ShortHeader))
    );
    assert_eq!(
        client.regist(&mut Cursor::new(vec![8, 0, 0, 0, 0])),
        Err(ClientError::Frame(FrameError::Truncated))
    );
}

#[test]
fn resolve_reads_found_and_not_found() {
    let client = UnixClient::new("asker");
    assert_eq!(
        client.resolve_request("peer").unwrap(),
        Request::Get("peer".to_owned()).package().unwrap()
    );
    let planet = Planet::new("peer/x".to_owned(), AirportKind::UnixSocket);
    let found = GetResponse::Get(planet.clone()).package().unwrap();
    assert_eq!(client.resolve(&mut Cursor::new(found)), Ok(Some(planet)));
    let missing = GetResponse::NotFound.package().unwrap();
    assert_eq!(client.resolve(&mut Cursor::new(missing)), Ok(None));
    let away = GetResponse::NotAvaliable.package().unwrap();
    assert_eq!(client.resolve(&mut Cursor::new(away)), Ok(None));
}

#[test]
fn connect_dials_the_socket_of_the_planet() {
    let client = UnixClient::new("asker");
    let planet = Planet::new("peer/x".to_owned(), AirportKind::UnixSocket);
    assert_eq!(client.connect(Some(planet)), Ok("/tmp/kosmos/link/peer/x".to_owned()));
    assert_eq!(client.connect(None), Err(ClientError::CanNotResolve));
    let far = Planet::new("far/y".to_owned(), AirportKind::DomainName);
    assert_eq!(client.connect(Some(far)), Err(ClientError::UnsupportedTransport));
}

#[test]
fn a_failed_dial_pings_the_registry() {
    let client = UnixClient::new("asker");
    let planet = Planet::new("peer/x".to_owned(), AirportKind::UnixSocket);
    let (session, error) = client.dial_failed(&planet);
    assert_eq!(error, ClientError::CanNotConnect);
    let mut expected = Request::Ping("peer/x".to_owned()).package().unwrap();
    expected.extend_from_slice(&[0, 0, 0, 0]);
    assert_eq!(session, Ok(expected.clone()));
    assert_eq!(client.ping("peer/x"), Ok(expected));
}

#[test]
fn connect_until_success_retries_only_a_failed_dial() {
    let client = UnixClient::new("asker");
    assert!(matches!(
        client.connect_until_success::<u8>(Err(ClientError::CanNotConnect)),
        Attempt::Retry
    ));
    assert!(matches!(
        client.connect_until_success::<u8>(Err(ClientError::CanNotResolve)),
        Attempt::Done(Err(ClientError::CanNotResolve))
    ));
    assert!(matches!(
        client.connect_until_success::<u8>(Err(ClientError::Frame(FrameError::Truncated))),
        Attempt::Done(Err(ClientError::Frame(FrameError::Truncated)))
    ));
    assert!(matches!(client.connect_until_success(Ok(7u8)), Attempt::Done(Ok(7))));
}

#[test]
fn connect_until_success_succeeds_once_the_peer_binds() {
    let mut server = fresh("gamma");
    let mut node = UnixClient::new("gamma");
    let (_, answer) = serve(&mut server, node.regist_request().unwrap());
    let name = node.regist(&mut Cursor::new(answer)).unwrap();
    let client = UnixClient::new("asker");
    let mut bound = false;
    let mut dials = 0;
    let stream = loop {
        let (_, answer) = serve(&mut server, client.resolve_request("gamma").unwrap());
        let resolved = client.resolve(&mut Cursor::new(answer)).unwrap();
        let attempt = match client.connect(resolved.clone()) {
            Ok(path) if bound => Ok(path),
            Ok(_) => Err(client.dial_failed(&resolved.unwrap()).1),
            Err(e) => Err(e),
        };
        dials += 1;
        match client.connect_until_success(attempt) {
            Attempt::Retry => bound = true,
            Attempt::Done(result) => break result,
        }
    };
    assert_eq!(stream, Ok(format!("/tmp/kosmos/link/{}", name)));
    assert_eq!(dials, 2);
}

#[test]
fn a_ping_session_lets_the_registry_evict() {
    let mut server = fresh("evict");
    let mut node = UnixClient::new("beta");
    let (_, answer) = serve(&mut server, node.regist_request().unwrap());
    let name = node.regist(&mut Cursor::new(answer)).unwrap();
    let client = UnixClient::new("asker");
    let (steps, out) = serve(&mut server, client.ping(&name).unwrap());
    assert_eq!(steps, vec![Handled::Probe(name.clone()), Handled::Exit]);
    assert!(out.is_empty());
    server.probed(&name, false, &mut Vec::new()).unwrap();
    let (_, answer) = serve(&mut server, client.resolve_request("beta").unwrap());
    assert_eq!(client.resolve(&mut Cursor::new(answer)), Ok(None));
    assert_eq!(client.connect(None), Err(ClientError::CanNotResolve));
}

#[test]
fn send_once_is_one_frame_and_the_exit_sentinel() {
    let client = UnixClient::new("sora");
    let session = client.send_once(&"hi".to_owned()).unwrap();
    assert_eq!(
        session,
        vec![10, 0, 0, 0, 2, 0, 0, 0, 0, 0, 0, 0, b'h', b'i', 0, 0, 0, 0]
    );
}
