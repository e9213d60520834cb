//! The registry: the map from names to planets and the dispatch of the
//! registry protocol.

use crate::planet::{
    canonical, suffix_text, GetResponse, GetResponseView, Planet, PlanetError, PlanetView, Pong,
    RegistResponse, RegistResponseView, Request, RequestView,
};
use crate::plugin::store::{
    is_first_with_prefix, key_le, lemma_first_with_prefix_unique, lemma_key_le_reflexive,
    lemma_prefix_comes_first, no_entries, none_with_prefix, Store, StoreError,
};
use crate::utils::{
    frame, parse_frame, FrameError, Package, Read, ReadEx, ReadResult, Session,
    DECODE_DEADLINE_MS,
};
use vstd::prelude::*;
use vstd::std_specs::convert::IntoSpec;
use vstd::string::StringExecFns;
use vstd::utf8::encode_utf8;

verus! {

/// The directory in which every socket of the mesh lives.
pub open spec fn link_dir() -> Seq<char> {
    "/tmp/kosmos/link/"@
}

/// The directory in which the registries keep their name maps.
pub open spec fn db_dir() -> Seq<char> {
    "/tmp/kosmos/db/"@
}

/// The key under which a name is stored: its UTF-8 bytes.
pub open spec fn name_key(name: Seq<char>) -> Seq<u8> {
    encode_utf8(name)
}

/// The path of the socket of the node with the given name.
pub fn link_path(name: &str) -> (path: String)
    ensures
        path@ == link_dir() + name@,
{
    let mut path = "/tmp/kosmos/link/".to_owned();
    path.append(name);
    path
}

/// The path of the socket of the registry.
pub fn registry_path() -> (path: String)
    ensures
        path@ == link_dir() + "kosmos"@,
{
    link_path("kosmos")
}

/// Why the registry could not serve a request.
#[derive(Clone, Debug, PartialEq)]
pub enum ServerError {
    /// The request could not be read, or the answer could not be framed.
    Frame(FrameError),
    /// The name map failed.
    Store(StoreError),
    /// A name could not be made canonical.
    Planet(PlanetError),
}

/// What the caller of `handle` does next.
#[derive(Clone, Debug, PartialEq)]
pub enum Handled {
    /// The peer sent the exit sentinel: end the session.
    Exit,
    /// The request was served: go on with the next frame.
    Continue,
    /// A ping for this name came in: dial its socket and report the
    /// outcome with `probed`.
    Probe(String),
}

/// The planet that `key` holds, where its value is the encoding of one.
pub open spec fn planet_at(names: Map<Seq<u8>, Seq<u8>>, key: Seq<u8>) -> Option<PlanetView> {
    match Planet::parse(names[key]) {
        Some((planet, _)) => Some(planet),
        None => None,
    }
}

/// The answer that the names give to a lookup of `prefix`: the planet
/// stored under the first key that starts with it, or `NotFound`.
pub open spec fn resolves_to(
    names: Map<Seq<u8>, Seq<u8>>,
    prefix: Seq<u8>,
    answer: GetResponseView,
) -> bool {
    match answer {
        GetResponseView::Get(planet) => exists|key: Seq<u8>|
            #![trigger planet_at(names, key)]
            is_first_with_prefix(names, prefix, key) && planet_at(names, key) == Some(planet),
        GetResponseView::NotFound => none_with_prefix(names, prefix),
        GetResponseView::NotAvaliable => false,
    }
}

/// The first key that starts with `prefix` holds bytes that are no planet.
pub open spec fn resolves_to_garbage(names: Map<Seq<u8>, Seq<u8>>, prefix: Seq<u8>) -> bool {
    exists|key: Seq<u8>|
        #![trigger planet_at(names, key)]
        is_first_with_prefix(names, prefix, key) && planet_at(names, key) is None
}

/// The names after `planet` was stored.
pub open spec fn with_planet(names: Map<Seq<u8>, Seq<u8>>, planet: PlanetView) -> Map<
    Seq<u8>,
    Seq<u8>,
> {
    names.insert(name_key(planet.name), Planet::wire(planet))
}

/// `after` is `before` with its name made canonical: a name with a `/`
/// stays, any other gets a `/` and the suffix of some second and nonce,
/// which holds four characters or more.
pub open spec fn made_canonical(before: PlanetView, after: PlanetView) -> bool {
    &&& after.airport_kind == before.airport_kind
    &&& after.name.contains('/')
    &&& if before.name.contains('/') {
        after.name == before.name
    } else {
        exists|secs: u64, nonce: u32|
            after.name == canonical(before.name, #[trigger] suffix_text(secs, nonce))
                && suffix_text(secs, nonce).len() >= 4
    }
}

/// What sending an answer with the encoding `wire` comes to: the answer
/// is framed and the session goes on, unless the encoding is too long for
/// a frame, which is an error and writes nothing.
pub open spec fn sent(wire: Seq<u8>, reply: Seq<u8>, r: Result<Handled, ServerError>) -> bool {
    if wire.len() <= u32::MAX {
        reply == frame(wire) && r == Ok::<Handled, ServerError>(Handled::Continue)
    } else {
        reply.len() == 0 && r == Err::<Handled, ServerError>(
            ServerError::Frame(FrameError::TooLong),
        )
    }
}

/// The answer to a lookup that found `found`.
pub open spec fn lookup_answer(found: Option<PlanetView>) -> GetResponseView {
    match found {
        Some(planet) => GetResponseView::Get(planet),
        None => GetResponseView::NotFound,
    }
}

/// The answer to a registration, given what storing the planet came to:
/// `Success` with the name of the planet where it was stored, `Fail` with
/// the text of the error where the name map failed.
pub open spec fn answer_to(planet: PlanetView, stored: Result<(), StoreError>) -> RegistResponseView {
    match stored {
        Ok(()) => RegistResponseView::Success(planet.name),
        Err(StoreError::Backend(reason)) => RegistResponseView::Fail(reason@),
        Err(StoreError::Malformed) => RegistResponseView::Fail("malformed value"@),
    }
}

/// What a registration of `planet` comes to, whatever the name map did:
/// the planet was made canonical as `stored` and handed to the name map,
/// which stored it or failed as `outcome` says; where it stored it, the
/// names are the old ones with the planet; and `response` is the answer to
/// that outcome.
pub open spec fn registered(
    planet: PlanetView,
    names: Map<Seq<u8>, Seq<u8>>,
    names_after: Map<Seq<u8>, Seq<u8>>,
    stored: PlanetView,
    outcome: Result<(), StoreError>,
    response: RegistResponseView,
) -> bool {
    &&& made_canonical(planet, stored)
    &&& outcome is Ok ==> names_after == with_planet(names, stored)
    &&& outcome is Err ==> outcome->Err_0 is Backend
    &&& response == answer_to(stored, outcome)
}

/// What the registry does with one request, as a relation between the
/// names before and after, the bytes appended to the output, and the
/// result.
///
/// A lookup leaves the names. Where the name map can be read, the one
/// answer that the names give is sent. A ping is handed back to be probed.
/// A registration makes the name canonical, which fails only on the clock
/// and only for a name without a `/`; the planet is then handed to the
/// name map, and the answer to what the name map did is sent.
pub open spec fn dispatched(
    request: RequestView,
    names: Map<Seq<u8>, Seq<u8>>,
    names_after: Map<Seq<u8>, Seq<u8>>,
    reply: Seq<u8>,
    r: Result<Handled, ServerError>,
) -> bool {
    match request {
        RequestView::Get(name) => names_after == names && match r {
            Err(ServerError::Store(StoreError::Malformed)) => reply.len() == 0
                && resolves_to_garbage(names, name_key(name)),
            Err(ServerError::Store(StoreError::Backend(_))) => reply.len() == 0,
            _ => exists|answer: GetResponseView|
                #![trigger GetResponse::wire(answer)]
                resolves_to(names, name_key(name), answer) && sent(
                    GetResponse::wire(answer),
                    reply,
                    r,
                ),
        },
        RequestView::Ping(name) => names_after == names && reply.len() == 0 && (r matches Ok(
            Handled::Probe(target),
        ) && target@ == name),
        RequestView::Regist(planet) => match r {
            Err(ServerError::Planet(_)) => reply.len() == 0 && names_after == names
                && !planet.name.contains('/'),
            _ => exists|stored: PlanetView, outcome: Result<(), StoreError>|
                #![trigger answer_to(stored, outcome)]
                registered(
                    planet,
                    names,
                    names_after,
                    stored,
                    outcome,
                    answer_to(stored, outcome),
                ) && sent(RegistResponse::wire(answer_to(stored, outcome)), reply, r),
        },
    }
}

/// What the registry does with the next frame of `input`.
pub open spec fn handled(
    input: Seq<u8>,
    input_after: Seq<u8>,
    names: Map<Seq<u8>, Seq<u8>>,
    names_after: Map<Seq<u8>, Seq<u8>>,
    reply: Seq<u8>,
    r: Result<Handled, ServerError>,
) -> bool {
    match parse_frame(input) {
        Err(e) => r == Err::<Handled, ServerError>(ServerError::Frame(e)) && names_after == names
            && reply.len() == 0 && input_after == (if e == FrameError::Truncated {
            input.skip(4)
        } else {
            input
        }),
        Ok(None) => r == Ok::<Handled, ServerError>(Handled::Exit) && names_after == names
            && reply.len() == 0 && input_after == input.skip(4),
        Ok(Some((body, n))) => input_after == input.skip(n) && match Request::parse(body) {
            Some((request, _)) => dispatched(request, names, names_after, reply, r),
            None => r == Err::<Handled, ServerError>(ServerError::Frame(FrameError::Malformed))
                && names_after == names && reply.len() == 0,
        },
    }
}

/// The answer to a lookup that found `found`.
pub fn get_response(found: Option<Planet>) -> (response: GetResponse)
    ensures
        response@ == lookup_answer(
            match found {
                Some(planet) => Some(planet@),
                None => None,
            },
        ),
{
    match found {
        Some(planet) => GetResponse::Get(planet),
        None => GetResponse::NotFound,
    }
}

/// The answer to the registration of `planet`, whose name is canonical,
/// given what storing it came to.
pub fn regist_response(planet: &Planet, stored: Result<(), StoreError>) -> (response: RegistResponse)
    ensures
        response@ == answer_to(planet@, stored),
{
    match stored {
        Ok(()) => RegistResponse::Success(planet.name()),
        Err(e) => RegistResponse::Fail(e.message()),
    }
}

/// Sends an answer: its frame is appended to `out` and the session goes
/// on, unless its encoding is too long for a frame, which is an error and
/// writes nothing.
pub fn reply_with<T: Package>(response: &T, out: &mut Vec<u8>) -> (r: Result<Handled, ServerError>)
    ensures
        old(out)@.is_prefix_of(final(out)@),
        sent(T::wire(response@), final(out)@.skip(old(out)@.len() as int), r),
{
    assert(out@.skip(out@.len() as int) =~= Seq::<u8>::empty());
    match response.package() {
        Ok(pkg) => {
            out.extend_from_slice(pkg.as_slice());
            assert(out@ =~= old(out)@ + pkg@);
            assert(out@.skip(old(out)@.len() as int) =~= pkg@);
            Ok(Handled::Continue)
        },
        Err(e) => Err(ServerError::Frame(e)),
    }
}

/// Answers a lookup, given what reading the name map came to: what was
/// found is sent as `Get` or `NotFound`, and an error of the name map ends
/// the step and writes nothing.
pub fn answer_lookup(
    found: Result<Option<Planet>, StoreError>,
    out: &mut Vec<u8>,
) -> (r: Result<Handled, ServerError>)
    ensures
        old(out)@.is_prefix_of(final(out)@),
        match found {
            Ok(Some(planet)) => sent(
                GetResponse::wire(GetResponseView::Get(planet@)),
                final(out)@.skip(old(out)@.len() as int),
                r,
            ),
            Ok(None) => sent(
                GetResponse::wire(GetResponseView::NotFound),
                final(out)@.skip(old(out)@.len() as int),
                r,
            ),
            Err(e) => r == Err::<Handled, ServerError>(ServerError::Store(e)) && final(out)@
                == old(out)@,
        },
{
    match found {
        Ok(found) => {
            let response = get_response(found);
            reply_with(&response, out)
        },
        Err(e) => Err(ServerError::Store(e)),
    }
}

/// Answers the registration of `planet`, whose name is canonical, given
/// what storing it came to: `Success` with its name or `Fail` with the
/// text of the error is sent.
pub fn answer_registration(
    planet: &Planet,
    stored: Result<(), StoreError>,
    out: &mut Vec<u8>,
) -> (r: Result<Handled, ServerError>)
    ensures
        old(out)@.is_prefix_of(final(out)@),
        sent(
            RegistResponse::wire(answer_to(planet@, stored)),
            final(out)@.skip(old(out)@.len() as int),
            r,
        ),
{
    let response = regist_response(planet, stored);
    reply_with(&response, out)
}

/// What a session of the registry reads next: as every session does, and
/// a payload within the decode deadline.
pub fn session_wants(session: Session) -> (read: Option<Read>)
    ensures
        read == match session {
            Session::ReadLen => Some(Read { count: 4, deadline_ms: None }),
            Session::ReadBody(len) => Some(
                Read { count: len, deadline_ms: Some(DECODE_DEADLINE_MS) },
            ),
            Session::Exit => None,
        },
{
    session.wants(Some(DECODE_DEADLINE_MS))
}

/// Whether a session of the registry goes on after a step: it does after
/// every step that succeeded, but for the one that read the exit sentinel.
pub fn session_goes_on(step: &Result<Handled, ServerError>) -> (go: bool)
    ensures
        go == (step is Ok && !(step->Ok_0 is Exit)),
{
    match step {
        Ok(Handled::Exit) => false,
        Ok(_) => true,
        Err(_) => false,
    }
}

/// The registry: a name and the durable map from names to planets.
pub struct UnixSocketServer {
    name: String,
    name_map: Store,
}

impl UnixSocketServer {
    /// The names that are registered, each with the encoding of its planet.
    pub closed spec fn names(&self) -> Map<Seq<u8>, Seq<u8>> {
        self.name_map.entries()
    }

    /// The name under which the registry itself listens.
    pub closed spec fn own_name(&self) -> Seq<char> {
        self.name@
    }

    /// The path at which the name map is kept.
    pub closed spec fn db_path(&self) -> Seq<char> {
        self.name_map.path()
    }

    /// The registry called `name`, with its map in the database directory
    /// under that name.
    pub fn new<T: Into<String>>(name: T) -> (r: Result<UnixSocketServer, StoreError>)
        ensures
            match r {
                Ok(server) => server.db_path() == db_dir() + server.own_name()
                    && (<T as IntoSpec<String>>::obeys_into_spec() ==> server.own_name()
                    == <T as IntoSpec<String>>::into_spec(name)@),
                Err(e) => e is Backend,
            },
    {
        let name: String = name.into();
        let mut path = "/tmp/kosmos/db/".to_owned();
        path.append(name.as_str());
        assert(path@ == db_dir() + name@);
        match Store::open(path.as_str()) {
            Ok(name_map) => Ok(UnixSocketServer { name, name_map }),
            Err(e) => Err(e),
        }
    }

    /// The registry called `name`, with its map kept at `path`.
    pub fn with_custom_db_path(name: String, path: &str) -> (r: Result<UnixSocketServer, StoreError>)
        ensures
            match r {
                Ok(server) => server.own_name() == name@ && server.db_path() == path@,
                Err(e) => e is Backend,
            },
    {
        match Store::open(path) {
            Ok(name_map) => Ok(UnixSocketServer { name, name_map }),
            Err(e) => Err(e),
        }
    }

    /// The path of the socket on which the registry listens.
    pub fn listen(&self) -> (path: String)
        ensures
            path@ == link_dir() + self.own_name(),
    {
        link_path(self.name.as_str())
    }

    /// Forgets every registration.
    pub fn clear(&mut self) -> (r: Result<(), StoreError>)
        ensures
            final(self).own_name() == old(self).own_name(),
            final(self).db_path() == old(self).db_path(),
            match r {
                Ok(()) => final(self).names() == no_entries(),
                Err(e) => e is Backend,
            },
    {
        self.name_map.clear()
    }

    /// Stores `planet` under its name, in place of what the name held.
    pub fn set(&mut self, planet: &Planet) -> (r: Result<(), StoreError>)
        ensures
            final(self).own_name() == old(self).own_name(),
            final(self).db_path() == old(self).db_path(),
            match r {
                Ok(()) => final(self).names() == with_planet(old(self).names(), planet@),
                Err(e) => e is Backend,
            },
    {
        let name = planet.name();
        let mut binary_planet: Vec<u8> = Vec::new();
        planet.write(&mut binary_planet);
        match self.name_map.insert(name.as_str().as_bytes(), binary_planet.as_slice()) {
            Ok(_) => Ok(()),
            Err(e) => Err(e),
        }
    }

    /// The planet stored under the first key, in key order, that starts
    /// with `name`.
    pub fn get(&self, name: &str) -> (r: Result<Option<Planet>, StoreError>)
        ensures
            match r {
                Ok(Some(planet)) => resolves_to(
                    self.names(),
                    name_key(name@),
                    GetResponseView::Get(planet@),
                ),
                Ok(None) => resolves_to(self.names(), name_key(name@), GetResponseView::NotFound),
                Err(StoreError::Malformed) => resolves_to_garbage(self.names(), name_key(name@)),
                Err(StoreError::Backend(_)) => true,
            },
    {
        match self.name_map.first_with_prefix(name.as_bytes()) {
            Ok(Some((key, binary_planet))) => match Planet::read(binary_planet.as_slice()) {
                Some((planet, _)) => {
                    assert(planet_at(self.names(), key@) == Some(planet@));
                    Ok(Some(planet))
                },
                None => {
                    assert(planet_at(self.names(), key@) is None);
                    Err(StoreError::Malformed)
                },
            },
            Ok(None) => Ok(None),
            Err(e) => Err(e),
        }
    }

    /// Removes the registration of `name`.
    pub fn expire(&mut self, name: &str) -> (r: Result<(), StoreError>)
        ensures
            final(self).own_name() == old(self).own_name(),
            final(self).db_path() == old(self).db_path(),
            match r {
                Ok(()) => final(self).names() == old(self).names().remove(name_key(name@)),
                Err(e) => e is Backend,
            },
    {
        match self.name_map.remove(name.as_bytes()) {
            Ok(_) => Ok(()),
            Err(e) => Err(e),
        }
    }

    /// Answers a lookup: `Get` with the planet found, or `NotFound`.
    pub fn resolve(&self, name: &str) -> (r: Result<GetResponse, StoreError>)
        ensures
            match r {
                Ok(answer) => resolves_to(self.names(), name_key(name@), answer@),
                Err(StoreError::Malformed) => resolves_to_garbage(self.names(), name_key(name@)),
                Err(StoreError::Backend(_)) => true,
            },
    {
        match self.get(name) {
            Ok(found) => Ok(get_response(found)),
            Err(e) => Err(e),
        }
    }

    /// Registers `planet`: makes its name canonical and hands it to the
    /// name map. The answer is `Success` with the canonical name where the
    /// name map stored it, and `Fail` with the text of the error where the
    /// name map failed; which of the two is for the name map to say. A
    /// name without a `/` needs the clock for its suffix, and only then
    /// can the call fail; it then changes nothing.
    pub fn register(&mut self, planet: Planet) -> (r: Result<RegistResponse, PlanetError>)
        ensures
            final(self).own_name() == old(self).own_name(),
            final(self).db_path() == old(self).db_path(),
            match r {
                Ok(response) => exists|stored: PlanetView, outcome: Result<(), StoreError>|
                    #![trigger answer_to(stored, outcome)]
                    registered(
                        planet@,
                        old(self).names(),
                        final(self).names(),
                        stored,
                        outcome,
                        response@,
                    ),
                Err(e) => !planet@.name.contains('/') && final(self).names() == old(self).names(),
            },
    {
        let mut planet = planet;
        let ghost before = planet@;
        match planet.update_name() {
            Ok(()) => {},
            Err(e) => { return Err(e); },
        }
        assert(made_canonical(before, planet@));
        let stored = self.set(&planet);
        let ghost outcome = stored;
        let response = regist_response(&planet, stored);
        assert(registered(
            before,
            old(self).names(),
            self.names(),
            planet@,
            outcome,
            answer_to(planet@, outcome),
        ));
        Ok(response)
    }

    /// Serves one request: a lookup is answered, a registration is stored
    /// and answered, and a ping is handed back to be probed. The framed
    /// answer is appended to `out`.
    pub fn dispatch(&mut self, request: Request, out: &mut Vec<u8>) -> (r: Result<
        Handled,
        ServerError,
    >)
        ensures
            final(self).own_name() == old(self).own_name(),
            final(self).db_path() == old(self).db_path(),
            old(out)@.is_prefix_of(final(out)@),
            dispatched(
                request@,
                old(self).names(),
                final(self).names(),
                final(out)@.skip(old(out)@.len() as int),
                r,
            ),
    {
        assert(out@.skip(out@.len() as int) =~= Seq::<u8>::empty());
        match request {
            Request::Get(name) => {
                let found = self.get(name.as_str());
                let ghost was_found = found;
                let r = answer_lookup(found, out);
                proof {
                    let reply = out@.skip(old(out)@.len() as int);
                    match was_found {
                        Ok(Some(planet)) => {
                            assert(sent(GetResponse::wire(GetResponseView::Get(planet@)), reply, r));
                        },
                        Ok(None) => {
                            assert(sent(GetResponse::wire(GetResponseView::NotFound), reply, r));
                        },
                        Err(_) => {
                            assert(reply =~= Seq::<u8>::empty());
                        },
                    }
                }
                r
            },
            Request::Ping(name) => Ok(Handled::Probe(name)),
            Request::Regist(planet) => {
                let mut planet = planet;
                let ghost before = planet@;
                match planet.update_name() {
                    Ok(()) => {},
                    Err(e) => { return Err(ServerError::Planet(e)); },
                }
                assert(made_canonical(before, planet@));
                let stored = self.set(&planet);
                let ghost outcome = stored;
                let r = answer_registration(&planet, stored, out);
                proof {
                    let reply = out@.skip(old(out)@.len() as int);
                    assert(registered(
                        before,
                        old(self).names(),
                        self.names(),
                        planet@,
                        outcome,
                        answer_to(planet@, outcome),
                    ));
                    assert(sent(RegistResponse::wire(answer_to(planet@, outcome)), reply, r));
                    assert(!(r matches Err(ServerError::Planet(_))));
                }
                r
            },
        }
    }

    /// Reads the next frame of `stream` and serves it. The exit sentinel
    /// ends the session; a frame that cannot be read or decoded is an error
    /// and changes nothing.
    pub fn handle<R: ReadEx>(&mut self, stream: &mut R, out: &mut Vec<u8>) -> (r: Result<
        Handled,
        ServerError,
    >)
        ensures
            final(self).own_name() == old(self).own_name(),
            final(self).db_path() == old(self).db_path(),
            old(out)@.is_prefix_of(final(out)@),
            handled(
                old(stream).pending(),
                final(stream).pending(),
                old(self).names(),
                final(self).names(),
                final(out)@.skip(old(out)@.len() as int),
                r,
            ),
    {
        assert(out@.skip(out@.len() as int) =~= Seq::<u8>::empty());
        match stream.unpack::<Request>() {
            Ok(ReadResult::Exit) => Ok(Handled::Exit),
            Ok(ReadResult::Continue(request)) => self.dispatch(request, out),
            Err(e) => Err(ServerError::Frame(e)),
        }
    }

    /// Finishes a ping once its socket was dialled. A planet that answered
    /// is acknowledged; one that did not is removed from the names.
    pub fn probed(&mut self, name: &str, reachable: bool, out: &mut Vec<u8>) -> (r: Result<
        (),
        ServerError,
    >)
        ensures
            final(self).own_name() == old(self).own_name(),
            final(self).db_path() == old(self).db_path(),
            old(out)@.is_prefix_of(final(out)@),
            reachable ==> r is Ok && final(self).names() == old(self).names() && final(out)@
                == old(out)@ + frame(Pong::wire(0)),
            !reachable ==> final(out)@ == old(out)@ && match r {
                Ok(()) => final(self).names() == old(self).names().remove(name_key(name@)),
                Err(e) => e matches ServerError::Store(StoreError::Backend(_)),
            },
    {
        if reachable {
            let resp: Pong = 0;
            proof {
                crate::wire::lemma_le32_round_trip(0, Seq::empty());
            }
            match resp.package() {
                Ok(pkg) => {
                    out.extend_from_slice(pkg.as_slice());
                    assert(out@ =~= old(out)@ + pkg@);
                    Ok(())
                },
                Err(e) => Err(ServerError::Frame(e)),
            }
        } else {
            match self.expire(name) {
                Ok(()) => Ok(()),
                Err(e) => Err(ServerError::Store(e)),
            }
        }
    }
}

/// A lookup has at most one answer.
pub proof fn lemma_resolve_unique(
    names: Map<Seq<u8>, Seq<u8>>,
    prefix: Seq<u8>,
    a: GetResponseView,
    b: GetResponseView,
)
    requires
        resolves_to(names, prefix, a),
        resolves_to(names, prefix, b),
    ensures
        a == b,
{
    match (a, b) {
        (GetResponseView::Get(pa), GetResponseView::Get(pb)) => {
            let ka = choose|key: Seq<u8>|
                #![trigger planet_at(names, key)]
                is_first_with_prefix(names, prefix, key) && planet_at(names, key) == Some(pa);
            let kb = choose|key: Seq<u8>|
                #![trigger planet_at(names, key)]
                is_first_with_prefix(names, prefix, key) && planet_at(names, key) == Some(pb);
            lemma_first_with_prefix_unique(names, prefix, ka, kb);
        },
        (GetResponseView::Get(pa), GetResponseView::NotFound) => {
            let ka = choose|key: Seq<u8>|
                #![trigger planet_at(names, key)]
                is_first_with_prefix(names, prefix, key) && planet_at(names, key) == Some(pa);
            assert(names.contains_key(ka));
        },
        (GetResponseView::NotFound, GetResponseView::Get(pb)) => {
            let kb = choose|key: Seq<u8>|
                #![trigger planet_at(names, key)]
                is_first_with_prefix(names, prefix, key) && planet_at(names, key) == Some(pb);
            assert(names.contains_key(kb));
        },
        _ => {},
    }
}

/// After a planet was stored, a lookup of any prefix of its name is never
/// answered `NotFound`; and where no other name starts with that prefix,
/// the answer is the planet itself.
pub proof fn lemma_resolve_after_register(
    names: Map<Seq<u8>, Seq<u8>>,
    planet: PlanetView,
    prefix: Seq<u8>,
)
    requires
        Planet::encodable(planet),
        prefix.is_prefix_of(name_key(planet.name)),
    ensures
        !resolves_to(with_planet(names, planet), prefix, GetResponseView::NotFound),
        (forall|key: Seq<u8>|
            names.contains_key(key) && prefix.is_prefix_of(key) ==> key == name_key(planet.name))
            ==> resolves_to(with_planet(names, planet), prefix, GetResponseView::Get(planet)),
{
    let key = name_key(planet.name);
    let after = with_planet(names, planet);
    assert(after.contains_key(key));
    if forall|other: Seq<u8>|
        names.contains_key(other) && prefix.is_prefix_of(other) ==> other == key {
        lemma_key_le_reflexive(key);
        assert(is_first_with_prefix(after, prefix, key));
        Planet::lemma_parse_wire(planet, Seq::empty());
        assert(Planet::wire(planet) + Seq::<u8>::empty() =~= Planet::wire(planet));
        assert(planet_at(after, key) == Some(planet));
    }
}

/// After a planet was stored, a lookup of its full name is answered with
/// the planet itself, whatever else is registered.
pub proof fn lemma_resolve_exact(names: Map<Seq<u8>, Seq<u8>>, planet: PlanetView)
    requires
        Planet::encodable(planet),
    ensures
        resolves_to(
            with_planet(names, planet),
            name_key(planet.name),
            GetResponseView::Get(planet),
        ),
{
    let key = name_key(planet.name);
    let after = with_planet(names, planet);
    assert(after.contains_key(key));
    assert(key.is_prefix_of(key));
    assert forall|other: Seq<u8>| after.contains_key(other)
        && key.is_prefix_of(other) implies key_le(
        key,
        other,
    ) by {
        lemma_prefix_comes_first(key, other);
    }
    assert(is_first_with_prefix(after, key, key));
    Planet::lemma_parse_wire(planet, Seq::empty());
    assert(Planet::wire(planet) + Seq::<u8>::empty() =~= Planet::wire(planet));
    assert(planet_at(after, key) == Some(planet));
}

/// Storing a planet twice is storing it once: a registration under a
/// canonical name that is repeated overwrites itself.
pub proof fn lemma_register_overwrites(names: Map<Seq<u8>, Seq<u8>>, planet: PlanetView)
    ensures
        with_planet(with_planet(names, planet), planet) == with_planet(names, planet),
{
    assert(with_planet(with_planet(names, planet), planet) =~= with_planet(names, planet));
}

/// After a name was removed, a lookup of it is answered `NotFound`,
/// unless another name starts with it.
pub proof fn lemma_resolve_after_expire(names: Map<Seq<u8>, Seq<u8>>, name: Seq<u8>)
    requires
        forall|key: Seq<u8>| names.contains_key(key) && name.is_prefix_of(key) ==> key == name,
    ensures
        resolves_to(names.remove(name), name, GetResponseView::NotFound),
{
}

} // verus!
