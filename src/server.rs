//! The request/response protocol and the server's dispatch to an engine.
//!
//! On the wire a request or a response is a MessagePack array of strings: a
//! tag, then its fields.
use vstd::prelude::*;

use crate::codec::{command_fields, command_from_fields, command_of_fields, command_to_fields, Command, CommandView};
use crate::engine::{KvStore, KvsEngine, SledKvsEngine};
use crate::error::{Error, ErrorView};
use crate::msgpack::{
    decode_strings, encode_strings, fields_fit, msgpack_decoding, msgpack_encoding, strings_fit,
};

verus! {

/// A request from a client.
pub enum Request {
    /// Set a key (tag "Set").
    Put(String, String),
    Get(String),
    Remove(String),
}

impl View for Request {
    type V = CommandView;

    open spec fn view(&self) -> CommandView {
        match self {
            Request::Put(k, v) => CommandView::Put(k@, v@),
            Request::Get(k) => CommandView::Get(k@),
            Request::Remove(k) => CommandView::Remove(k@),
        }
    }
}

impl Request {
    /// The strings that stand for the request on the wire.
    pub fn to_fields(&self) -> (r: Vec<String>)
        ensures
            r.deep_view() == command_fields(self@),
    {
        let c = match self {
            Request::Put(k, v) => Command::Put(k.clone(), v.clone()),
            Request::Get(k) => Command::Get(k.clone()),
            Request::Remove(k) => Command::Remove(k.clone()),
        };
        command_to_fields(&c)
    }

    /// The request that these strings stand for, if any.
    pub fn from_fields(f: &Vec<String>) -> (r: Option<Request>)
        ensures
            r matches Some(q) ==> command_of_fields(f.deep_view()) == Some(q@),
            r is None ==> command_of_fields(f.deep_view()) is None,
    {
        match command_from_fields(f) {
            Some(Command::Put(k, v)) => Some(Request::Put(k, v)),
            Some(Command::Get(k)) => Some(Request::Get(k)),
            Some(Command::Remove(k)) => Some(Request::Remove(k)),
            None => None,
        }
    }
}

/// The server's answer to one request.
pub enum Response {
    /// Done, with no value (tag "Ok").
    Done,
    /// The value that was asked for.
    Value(String),
    /// The request failed.
    Error(Error),
}

pub enum ResponseView {
    Done,
    Value(Seq<char>),
    Error(ErrorView),
}

impl View for Response {
    type V = ResponseView;

    open spec fn view(&self) -> ResponseView {
        match self {
            Response::Done => ResponseView::Done,
            Response::Value(v) => ResponseView::Value(v@),
            Response::Error(e) => ResponseView::Error(e@),
        }
    }
}

/// The strings that stand for a response: a tag, then for a value the value,
/// and for an error its kind and message.
pub open spec fn response_fields(r: ResponseView) -> Seq<Seq<char>> {
    match r {
        ResponseView::Done => seq!["Ok"@],
        ResponseView::Value(v) => seq!["Value"@, v],
        ResponseView::Error(e) => match e {
            ErrorView::Generic(m) => seq!["Error"@, "Generic"@, m],
            ErrorView::IOError(m) => seq!["Error"@, "IOError"@, m],
            ErrorView::SerializeError(m) => seq!["Error"@, "SerializeError"@, m],
            ErrorView::DeserializeError(m) => seq!["Error"@, "DeserializeError"@, m],
            ErrorView::SledError(m) => seq!["Error"@, "SledError"@, m],
            ErrorView::KeyNotFound => seq!["Error"@, "KeyNotFound"@, Seq::empty()],
        },
    }
}

/// The error of kind `kind` with message `m`, if `kind` names one.
pub open spec fn error_of_kind(kind: Seq<char>, m: Seq<char>) -> Option<ErrorView> {
    if kind == "Generic"@ {
        Some(ErrorView::Generic(m))
    } else if kind == "IOError"@ {
        Some(ErrorView::IOError(m))
    } else if kind == "SerializeError"@ {
        Some(ErrorView::SerializeError(m))
    } else if kind == "DeserializeError"@ {
        Some(ErrorView::DeserializeError(m))
    } else if kind == "SledError"@ {
        Some(ErrorView::SledError(m))
    } else if kind == "KeyNotFound"@ && m.len() == 0 {
        Some(ErrorView::KeyNotFound)
    } else {
        None
    }
}

/// The response that an array of strings stands for, if any.
pub open spec fn response_of_fields(f: Seq<Seq<char>>) -> Option<ResponseView> {
    if f.len() == 1 && f[0] == "Ok"@ {
        Some(ResponseView::Done)
    } else if f.len() == 2 && f[0] == "Value"@ {
        Some(ResponseView::Value(f[1]))
    } else if f.len() == 3 && f[0] == "Error"@ {
        match error_of_kind(f[1], f[2]) {
            Some(e) => Some(ResponseView::Error(e)),
            None => None,
        }
    } else {
        None
    }
}

/// Reading back the strings of a response gives that response.
pub proof fn lemma_response_round_trip(r: ResponseView)
    ensures
        response_of_fields(response_fields(r)) == Some(r),
{
    reveal_strlit("Ok");
    reveal_strlit("Value");
    reveal_strlit("Error");
    reveal_strlit("Generic");
    reveal_strlit("IOError");
    reveal_strlit("SerializeError");
    reveal_strlit("DeserializeError");
    reveal_strlit("SledError");
    reveal_strlit("KeyNotFound");
    assert("Ok"@ != "Value"@) by {
        assert("Ok"@.len() != "Value"@.len());
    }
    assert("Ok"@ != "Error"@) by {
        assert("Ok"@.len() != "Error"@.len());
    }
    assert("Value"@ != "Error"@) by {
        assert("Value"@[0] != "Error"@[0]);
    }
    assert("Generic"@ != "IOError"@) by {
        assert("Generic"@[0] != "IOError"@[0]);
    }
    assert("Generic"@ != "SerializeError"@) by {
        assert("Generic"@.len() != "SerializeError"@.len());
    }
    assert("Generic"@ != "DeserializeError"@) by {
        assert("Generic"@.len() != "DeserializeError"@.len());
    }
    assert("Generic"@ != "SledError"@) by {
        assert("Generic"@.len() != "SledError"@.len());
    }
    assert("Generic"@ != "KeyNotFound"@) by {
        assert("Generic"@.len() != "KeyNotFound"@.len());
    }
    assert("IOError"@ != "SerializeError"@) by {
        assert("IOError"@.len() != "SerializeError"@.len());
    }
    assert("IOError"@ != "DeserializeError"@) by {
        assert("IOError"@.len() != "DeserializeError"@.len());
    }
    assert("IOError"@ != "SledError"@) by {
        assert("IOError"@.len() != "SledError"@.len());
    }
    assert("IOError"@ != "KeyNotFound"@) by {
        assert("IOError"@.len() != "KeyNotFound"@.len());
    }
    assert("SerializeError"@ != "DeserializeError"@) by {
        assert("SerializeError"@.len() != "DeserializeError"@.len());
    }
    assert("SerializeError"@ != "SledError"@) by {
        assert("SerializeError"@.len() != "SledError"@.len());
    }
    assert("SerializeError"@ != "KeyNotFound"@) by {
        assert("SerializeError"@.len() != "KeyNotFound"@.len());
    }
    assert("DeserializeError"@ != "SledError"@) by {
        assert("DeserializeError"@.len() != "SledError"@.len());
    }
    assert("DeserializeError"@ != "KeyNotFound"@) by {
        assert("DeserializeError"@.len() != "KeyNotFound"@.len());
    }
    assert("SledError"@ != "KeyNotFound"@) by {
        assert("SledError"@.len() != "KeyNotFound"@.len());
    }
}

fn tag(s: &str) -> (r: String)
    ensures
        r@ == s@,
{
    s.to_owned()
}

impl Response {
    /// The strings that stand for the response on the wire.
    pub fn to_fields(&self) -> (r: Vec<String>)
        ensures
            r.deep_view() == response_fields(self@),
    {
        let mut r: Vec<String> = Vec::new();
        match self {
            Response::Done => {
                r.push(tag("Ok"));
            },
            Response::Value(v) => {
                r.push(tag("Value"));
                r.push(v.clone());
            },
            Response::Error(e) => {
                r.push(tag("Error"));
                match e {
                    Error::Generic(m) => {
                        r.push(tag("Generic"));
                        r.push(m.clone());
                    },
                    Error::IOError(m) => {
                        r.push(tag("IOError"));
                        r.push(m.clone());
                    },
                    Error::SerializeError(m) => {
                        r.push(tag("SerializeError"));
                        r.push(m.clone());
                    },
                    Error::DeserializeError(m) => {
                        r.push(tag("DeserializeError"));
                        r.push(m.clone());
                    },
                    Error::SledError(m) => {
                        r.push(tag("SledError"));
                        r.push(m.clone());
                    },
                    Error::KeyNotFound => {
                        r.push(tag("KeyNotFound"));
                        r.push(String::new());
                    },
                }
            },
        }
        assert(r.deep_view() =~= response_fields(self@));
        r
    }

    /// The response that these strings stand for, if any.
    pub fn from_fields(f: &Vec<String>) -> (r: Option<Response>)
        ensures
            r matches Some(x) ==> response_of_fields(f.deep_view()) == Some(x@),
            r is None ==> response_of_fields(f.deep_view()) is None,
    {
        let ghost d = f.deep_view();
        if f.len() == 1 && f[0] == tag("Ok") {
            Some(Response::Done)
        } else if f.len() == 2 && f[0] == tag("Value") {
            Some(Response::Value(f[1].clone()))
        } else if f.len() == 3 && f[0] == tag("Error") {
            let kind = &f[1];
            let m = f[2].clone();
            let e = if *kind == tag("Generic") {
                Error::Generic(m)
            } else if *kind == tag("IOError") {
                Error::IOError(m)
            } else if *kind == tag("SerializeError") {
                Error::SerializeError(m)
            } else if *kind == tag("DeserializeError") {
                Error::DeserializeError(m)
            } else if *kind == tag("SledError") {
                Error::SledError(m)
            } else if *kind == tag("KeyNotFound") && m.as_str().is_empty() {
                Error::KeyNotFound
            } else {
                return None;
            };
            Some(Response::Error(e))
        } else {
            None
        }
    }
}

/// Encodes the strings of a request or a response as bytes for the wire.
/// Fails, with `SerializeError`, where a string or the array is too long for
/// MessagePack or the encoder fails.
pub fn encode_fields(fields: &Vec<String>) -> (r: Result<Vec<u8>, Error>)
    ensures
        r matches Ok(b) ==> b@ == msgpack_encoding(fields.deep_view()),
        r is Ok ==> fields_fit(fields.deep_view()),
        !fields_fit(fields.deep_view()) ==> r is Err,
        r matches Err(e) ==> e is SerializeError,
{
    if !strings_fit(fields) {
        return Err(Error::SerializeError("a string is too long to encode".to_owned()));
    }
    match encode_strings(fields) {
        Ok(b) => Ok(b),
        Err(m) => Err(Error::SerializeError(m)),
    }
}

/// Decodes the strings at the front of `bytes`.
pub fn decode_fields(bytes: &[u8]) -> (r: Result<Vec<String>, Error>)
    ensures
        r matches Ok(f) ==> (msgpack_decoding(bytes@) matches Some(d) && d.0 == f.deep_view()),
        r is Err <==> msgpack_decoding(bytes@) is None,
        r matches Err(e) ==> e is DeserializeError,
{
    match decode_strings(bytes) {
        Ok(d) => Ok(d.0),
        Err(m) => Err(Error::DeserializeError(m)),
    }
}

/// The answer to a get whose engine call ended in `result`.
pub fn get_response(result: Result<Option<String>, Error>) -> (r: Response)
    ensures
        result matches Ok(Some(v)) ==> r == Response::Value(v),
        result matches Ok(None) ==> r is Done,
        result matches Err(e) ==> r == Response::Error(e),
{
    match result {
        Ok(Some(v)) => Response::Value(v),
        Ok(None) => Response::Done,
        Err(e) => Response::Error(e),
    }
}

/// The answer to a set or a remove whose engine call ended in `result`.
pub fn write_response(result: Result<(), Error>) -> (r: Response)
    ensures
        result is Ok ==> r is Done,
        result matches Err(e) ==> r == Response::Error(e),
{
    match result {
        Ok(()) => Response::Done,
        Err(e) => Response::Error(e),
    }
}

/// A server that owns one engine and answers one request at a time.
pub struct KvsServer<E> {
    store: E,
    addr: String,
}

impl<E: KvsEngine> KvsServer<E> {
    /// The engine's live keys and their values.
    pub closed spec fn live(&self) -> Map<Seq<char>, Seq<char>> {
        self.store.live()
    }

    /// The engine's invariant holds.
    pub closed spec fn wf(&self) -> bool {
        self.store.inv()
    }

    /// The address to listen on.
    pub closed spec fn addr_view(&self) -> Seq<char> {
        self.addr@
    }

    /// A server over `store` that is to listen on `addr`.
    pub fn new(store: E, addr: String) -> (r: Result<Self, Error>)
        requires
            store.inv(),
        ensures
            r matches Ok(s) && s.wf() && s.live() == store.live() && s.addr_view() == addr@,
    {
        Ok(KvsServer { store, addr })
    }

    /// The address to listen on.
    pub fn addr(&self) -> (r: &String)
        ensures
            r@ == self.addr_view(),
    {
        &self.addr
    }

    /// Serves one request by one call of the engine, and returns that
    /// call's result: a get's value, or `None` for a set or a remove. The
    /// answer on the wire is `get_response` of it.
    pub fn handle_request(&mut self, request: Request) -> (r: Result<Option<String>, Error>)
        requires
            old(self).wf(),
        ensures
            final(self).wf(),
            final(self).addr_view() == old(self).addr_view(),
            !(request is Get) ==> (r is Ok ==> r == Ok::<Option<String>, Error>(None)),
            request matches Request::Put(k, v) ==> (r is Ok ==> final(self).live() == old(
                self,
            ).live().insert(k@, v@)),
            request matches Request::Get(k) ==> final(self).live() == old(self).live() && (
            r matches Ok(Some(v)) ==> old(self).live().contains_key(k@) && old(self).live()[k@]
                == v@) && (r matches Ok(None) ==> !old(self).live().contains_key(k@)),
            request matches Request::Remove(k) ==> (r is Ok ==> old(self).live().contains_key(k@)
                && final(self).live() == old(self).live().remove(k@)),
            request matches Request::Remove(k) ==> (!old(self).live().contains_key(k@) ==> r is Err
                && final(self).live() == old(self).live()),
    {
        match request {
            Request::Put(k, v) => match self.store.set(k, v) {
                Ok(()) => Ok(None),
                Err(e) => Err(e),
            },
            Request::Get(k) => self.store.get(k),
            Request::Remove(k) => match self.store.remove(k) {
                Ok(()) => Ok(None),
                Err(e) => Err(e),
            },
        }
    }
}

/// The two engines.
#[derive(Clone, Copy, Debug, PartialEq, Eq, Structural)]
pub enum EngineKind {
    Kvs,
    Sled,
}

impl EngineKind {
    /// The engine's name: "kvs" or "sled".
    pub fn name(&self) -> (r: &'static str)
        ensures
            *self is Kvs ==> r@ == "kvs"@,
            *self is Sled ==> r@ == "sled"@,
    {
        match self {
            EngineKind::Kvs => "kvs",
            EngineKind::Sled => "sled",
        }
    }

    /// The engine of this name, if any.
    pub fn from_name(name: &str) -> (r: Option<EngineKind>)
        ensures
            r == Some(EngineKind::Kvs) <==> name@ == "kvs"@,
            r == Some(EngineKind::Sled) <==> name@ == "sled"@,
    {
        proof {
            reveal_strlit("kvs");
            reveal_strlit("sled");
            assert("kvs"@.len() != "sled"@.len());
        }
        let n = tag(name);
        if n == tag("kvs") {
            Some(EngineKind::Kvs)
        } else if n == tag("sled") {
            Some(EngineKind::Sled)
        } else {
            None
        }
    }
}

/// The engine whose marker a directory with these entries holds: the log
/// engine's `kvs.log` first, then sled's `sled`.
pub fn detect_engine(entries: &Vec<String>) -> (r: Option<EngineKind>)
    ensures
        r == Some(EngineKind::Kvs) <==> exists|i: int|
            0 <= i < entries@.len() && (#[trigger] entries@[i])@ == KvStore::LOG_NAME@,
        r == Some(EngineKind::Sled) <==> (!(exists|i: int|
            0 <= i < entries@.len() && (#[trigger] entries@[i])@ == KvStore::LOG_NAME@) && exists|i: int|
            0 <= i < entries@.len() && (#[trigger] entries@[i])@ == SledKvsEngine::LOG_NAME@),
{
    if KvStore::is_log_present(entries) {
        Some(EngineKind::Kvs)
    } else if SledKvsEngine::is_log_present(entries) {
        Some(EngineKind::Sled)
    } else {
        None
    }
}

/// The engine that the directory holds and the one that was asked for, where
/// the two differ.
#[derive(Clone, Copy, Debug, PartialEq, Eq, Structural)]
pub struct EngineMismatch {
    pub current: EngineKind,
    pub requested: EngineKind,
}

/// The engine to start: the one asked for, else the one the directory holds,
/// else the log engine; a mismatch where the directory holds another engine
/// than the one asked for.
pub fn select_engine(requested: Option<EngineKind>, current: Option<EngineKind>) -> (r: Result<
    EngineKind,
    EngineMismatch,
>)
    ensures
        r == (match (requested, current) {
            (Some(q), Some(c)) => if q == c {
                Ok(q)
            } else {
                Err(EngineMismatch { current: c, requested: q })
            },
            (Some(q), None) => Ok(q),
            (None, Some(c)) => Ok(c),
            (None, None) => Ok(EngineKind::Kvs),
        }),
{
    match (requested, current) {
        (Some(q), Some(c)) => if q == c {
            Ok(q)
        } else {
            Err(EngineMismatch { current: c, requested: q })
        },
        (Some(q), None) => Ok(q),
        (None, Some(c)) => Ok(c),
        (None, None) => Ok(EngineKind::Kvs),
    }
}

} // verus!
