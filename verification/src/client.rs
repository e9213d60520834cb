//! The mesh client: what a node sends to the registry and what it makes
//! of the answers.

use crate::planet::{
    AirportKind, GetResponse, GetResponseView, Planet, PlanetView, RegistResponse,
    RegistResponseView, Request, RequestView,
};
use crate::server::{link_dir, link_path};
use crate::utils::{exit_sentinel, exit_frame, frame, parse_reply, FrameError, Package, ReadEx};
use vstd::prelude::*;
use vstd::std_specs::convert::IntoSpec;

verus! {

/// Why an operation of the client failed.
#[derive(Clone, Debug, PartialEq)]
pub enum ClientError {
    /// The planet was found but its socket did not answer.
    CanNotConnect,
    /// The registry knows no planet of that name.
    CanNotResolve,
    /// The registry refused the registration; this is its reason.
    Rejected(String),
    /// The client has not registered yet.
    NotRegistered,
    /// The planet is reached by a transport that is not in use.
    UnsupportedTransport,
    /// A frame could not be written or read.
    Frame(FrameError),
}

impl ClientError {
    /// The text of the error.
    pub fn message(&self) -> (text: String)
        ensures
            text@ == match *self {
                ClientError::CanNotConnect => "can not connect"@,
                ClientError::CanNotResolve => "can not resolve target planet"@,
                ClientError::Rejected(reason) => reason@,
                ClientError::NotRegistered => "not registered"@,
                ClientError::UnsupportedTransport => "unsupported transport"@,
                ClientError::Frame(e) => e.spec_message(),
            },
    {
        match self {
            ClientError::CanNotConnect => "can not connect".to_owned(),
            ClientError::CanNotResolve => "can not resolve target planet".to_owned(),
            ClientError::Rejected(reason) => reason.clone(),
            ClientError::NotRegistered => "not registered".to_owned(),
            ClientError::UnsupportedTransport => "unsupported transport".to_owned(),
            ClientError::Frame(e) => e.message().to_owned(),
        }
    }
}

/// What `connect_until_success` makes of one attempt to connect.
#[derive(Debug)]
pub enum Attempt<S> {
    /// The socket did not answer: resolve and dial again.
    Retry,
    /// The attempt settled it, for better or worse.
    Done(Result<S, ClientError>),
}

/// The request that registers a node called `name` as a planet on a Unix
/// socket.
pub open spec fn regist_body(name: Seq<char>) -> Seq<u8> {
    Request::wire(
        RequestView::Regist(PlanetView { airport_kind: AirportKind::UnixSocket, name }),
    )
}

/// The bytes of a session that sends one request and then the exit sentinel.
pub open spec fn one_shot(request: Seq<u8>) -> Seq<u8> {
    frame(request) + exit_sentinel()
}

/// A node's handle on the mesh: its name, logical at first and canonical
/// once it has registered.
#[derive(Clone, Debug)]
pub struct UnixClient {
    name: String,
    registered: bool,
}

impl UnixClient {
    /// The name of the client.
    pub closed spec fn spec_name(&self) -> Seq<char> {
        self.name@
    }

    /// Whether the registry has accepted the client.
    pub closed spec fn is_registered(&self) -> bool {
        self.registered
    }

    /// A client with the logical name `name`, not yet registered.
    pub fn new<T: Into<String>>(name: T) -> (client: UnixClient)
        ensures
            !client.is_registered(),
            <T as IntoSpec<String>>::obeys_into_spec() ==> client.spec_name() == <T as IntoSpec<
                String,
            >>::into_spec(name)@,
    {
        let name = name.into();
        UnixClient { name, registered: false }
    }

    /// A client with the logical name `name`, not yet registered.
    pub fn with_name(name: String) -> (client: UnixClient)
        ensures
            !client.is_registered(),
            client.spec_name() == name@,
    {
        UnixClient { name, registered: false }
    }

    /// The name of the client.
    pub fn name(&self) -> (name: String)
        ensures
            name@ == self.spec_name(),
    {
        self.name.clone()
    }

    /// The frame that asks the registry to register this client.
    pub fn regist_request(&self) -> (r: Result<Vec<u8>, FrameError>)
        ensures
            match r {
                Ok(pkg) => regist_body(self.spec_name()).len() <= u32::MAX && pkg@ == frame(
                    regist_body(self.spec_name()),
                ),
                Err(e) => regist_body(self.spec_name()).len() > u32::MAX && e
                    == FrameError::TooLong,
            },
    {
        let me = Planet::new(self.name.clone(), AirportKind::UnixSocket);
        let req = Request::Regist(me);
        req.package()
    }

    /// Reads the registry's answer to a registration. On `Success` the
    /// client takes the canonical name and counts as registered; on `Fail`
    /// the reason is returned as an error and the client is as before.
    pub fn regist<R: ReadEx>(&mut self, stream: &mut R) -> (r: Result<String, ClientError>)
        ensures
            ({
                let before = *old(self);
                let after = *final(self);
                match parse_reply(old(stream).pending()) {
                    Err(e) => r == Err::<String, ClientError>(ClientError::Frame(e)) && after
                        == before,
                    Ok((body, n)) => final(stream).pending() == old(stream).pending().skip(n)
                        && match RegistResponse::parse(body) {
                        Some((RegistResponseView::Success(name), _)) => (r matches Ok(new_name)
                            && new_name@ == name) && after.spec_name() == name
                            && after.is_registered(),
                        Some((RegistResponseView::Fail(reason), _)) => (r matches Err(
                            ClientError::Rejected(text),
                        ) && text@ == reason) && after == before,
                        None => r == Err::<String, ClientError>(
                            ClientError::Frame(FrameError::Malformed),
                        ) && after == before,
                    },
                }
            }),
    {
        let resp = match stream.expect::<RegistResponse>() {
            Ok(resp) => resp,
            Err(e) => { return Err(ClientError::Frame(e)); },
        };
        match resp {
            RegistResponse::Success(new_name) => {
                self.name = new_name.clone();
                self.registered = true;
                Ok(new_name)
            },
            RegistResponse::Fail(e) => Err(ClientError::Rejected(e)),
        }
    }

    /// The frame that asks the registry for the planet called `name`.
    pub fn resolve_request(&self, name: &str) -> (r: Result<Vec<u8>, FrameError>)
        ensures
            ({
                let body = Request::wire(RequestView::Get(name@));
                match r {
                    Ok(pkg) => body.len() <= u32::MAX && pkg@ == frame(body),
                    Err(e) => body.len() > u32::MAX && e == FrameError::TooLong,
                }
            }),
    {
        let req = Request::Get(name.to_owned());
        req.package()
    }

    /// Reads the registry's answer to a lookup: the planet where one was
    /// found, nothing for any other answer.
    pub fn resolve<R: ReadEx>(&self, stream: &mut R) -> (r: Result<Option<Planet>, ClientError>)
        ensures
            match parse_reply(old(stream).pending()) {
                Err(e) => r == Err::<Option<Planet>, ClientError>(ClientError::Frame(e)),
                Ok((body, n)) => final(stream).pending() == old(stream).pending().skip(n)
                    && match GetResponse::parse(body) {
                    Some((GetResponseView::Get(planet), _)) => r matches Ok(Some(found))
                        && found@ == planet,
                    Some(_) => r == Ok::<Option<Planet>, ClientError>(None),
                    None => r == Err::<Option<Planet>, ClientError>(
                        ClientError::Frame(FrameError::Malformed),
                    ),
                },
            },
    {
        let resp = match stream.expect::<GetResponse>() {
            Ok(resp) => resp,
            Err(e) => { return Err(ClientError::Frame(e)); },
        };
        match resp {
            GetResponse::Get(planet) => Ok(Some(planet)),
            _ => Ok(None),
        }
    }

    /// The bytes of a ping session: the frame that asks the registry to
    /// check on `name`, then the exit sentinel.
    pub fn ping(&self, name: &str) -> (r: Result<Vec<u8>, FrameError>)
        ensures
            ({
                let body = Request::wire(RequestView::Ping(name@));
                match r {
                    Ok(session) => body.len() <= u32::MAX && session@ == one_shot(body),
                    Err(e) => body.len() > u32::MAX && e == FrameError::TooLong,
                }
            }),
    {
        let req = Request::Ping(name.to_owned());
        let mut session = match req.package() {
            Ok(pkg) => pkg,
            Err(e) => { return Err(e); },
        };
        let exit = exit_frame();
        session.extend_from_slice(exit.as_slice());
        assert(session@ =~= one_shot(Request::wire(req@)));
        Ok(session)
    }

    /// The socket to dial for what a lookup gave: the path of the planet's
    /// socket, or the error that ends the attempt.
    pub fn connect(&self, resolved: Option<Planet>) -> (r: Result<String, ClientError>)
        ensures
            match resolved {
                Some(planet) => if planet@.airport_kind == AirportKind::UnixSocket {
                    r matches Ok(path) && path@ == link_dir() + planet@.name
                } else {
                    r == Err::<String, ClientError>(ClientError::UnsupportedTransport)
                },
                None => r == Err::<String, ClientError>(ClientError::CanNotResolve),
            },
    {
        match resolved {
            Some(planet) => {
                if planet.is_unix_socket() {
                    let name = planet.name();
                    Ok(link_path(name.as_str()))
                } else {
                    Err(ClientError::UnsupportedTransport)
                }
            },
            None => Err(ClientError::CanNotResolve),
        }
    }

    /// What follows a dial that failed: the ping session that lets the
    /// registry repair its names, and the error of the attempt.
    pub fn dial_failed(&self, planet: &Planet) -> (r: (Result<Vec<u8>, FrameError>, ClientError))
        ensures
            r.1 == ClientError::CanNotConnect,
            ({
                let body = Request::wire(RequestView::Ping(planet@.name));
                match r.0 {
                    Ok(session) => body.len() <= u32::MAX && session@ == one_shot(body),
                    Err(e) => body.len() > u32::MAX && e == FrameError::TooLong,
                }
            }),
    {
        let name = planet.name();
        (self.ping(name.as_str()), ClientError::CanNotConnect)
    }

    /// Whether to try again after one attempt to connect: only an attempt
    /// that ended in `CanNotConnect` is repeated, every other outcome is
    /// handed on as it is.
    pub fn connect_until_success<S>(&self, attempt: Result<S, ClientError>) -> (next: Attempt<S>)
        ensures
            match attempt {
                Err(ClientError::CanNotConnect) => next is Retry,
                _ => next == Attempt::Done(attempt),
            },
    {
        match attempt {
            Err(ClientError::CanNotConnect) => Attempt::Retry,
            other => Attempt::Done(other),
        }
    }

    /// The bytes of a session that sends `pkg` once: its frame, then the
    /// exit sentinel.
    pub fn send_once<T: Package>(&self, pkg: &T) -> (r: Result<Vec<u8>, FrameError>)
        ensures
            match r {
                Ok(session) => T::wire(pkg@).len() <= u32::MAX && session@ == one_shot(
                    T::wire(pkg@),
                ),
                Err(e) => T::wire(pkg@).len() > u32::MAX && e == FrameError::TooLong,
            },
    {
        let mut session = match pkg.package() {
            Ok(session) => session,
            Err(e) => { return Err(e); },
        };
        let exit = exit_frame();
        session.extend_from_slice(exit.as_slice());
        assert(session@ =~= one_shot(T::wire(pkg@)));
        Ok(session)
    }

    /// The path of the socket on which this client listens. It is made of
    /// the canonical name, so a client that has not registered has none.
    pub fn listen(&self) -> (r: Result<String, ClientError>)
        ensures
            match r {
                Ok(path) => self.is_registered() && path@ == link_dir() + self.spec_name(),
                Err(e) => !self.is_registered() && e == ClientError::NotRegistered,
            },
    {
        if !self.registered {
            return Err(ClientError::NotRegistered);
        }
        Ok(link_path(self.name.as_str()))
    }
}

} // verus!
