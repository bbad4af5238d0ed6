use kvs::client::{get_outcome, write_outcome};
use kvs::memory;
use kvs::server::{
    decode_fields, detect_engine, encode_fields, get_response, select_engine, write_response,
    EngineKind, EngineMismatch, KvsServer, Request, Response,
};
use kvs::{Error, KvsEngine};

fn serve(server: &mut KvsServer<memory::KvStore>, request: Request) -> Response {
    get_response(server.handle_request(request))
}

#[test]
fn network_parity_over_memory_store() {
    let mut server = KvsServer::new(memory::KvStore::new(), "127.0.0.1:4000".to_string()).unwrap();
    assert_eq!(server.addr(), "127.0.0.1:4000");
    let r = serve(&mut server, Request::Put("foo".to_string(), "bar".to_string()));
    assert!(matches!(r, Response::Done));
    let r = serve(&mut server, Request::Get("foo".to_string()));
    assert!(matches!(r, Response::Value(ref v) if v == "bar"));
    let r = serve(&mut server, Request::Remove("foo".to_string()));
    assert!(matches!(r, Response::Done));
    let r = serve(&mut server, Request::Remove("foo".to_string()));
    assert!(matches!(r, Response::Error(Error::KeyNotFound)));
    let r = serve(&mut server, Request::Get("foo".to_string()));
    assert!(matches!(r, Response::Done));
}

#[test]
fn request_fields_round_trip() {
    let requests = vec![
        Request::Put("k".to_string(), "v".to_string()),
        Request::Get("k".to_string()),
        Request::Remove("k".to_string()),
    ];
    for q in requests {
        let fields = q.to_fields();
        let bytes = encode_fields(&fields).unwrap();
        let back = decode_fields(&bytes).unwrap();
        assert_eq!(back, fields);
        let q2 = Request::from_fields(&back).unwrap();
        assert_eq!(q2.to_fields(), fields);
    }
    let f = Request::Put("k".to_string(), "v".to_string()).to_fields();
    assert_eq!(f, vec!["Set".to_string(), "k".to_string(), "v".to_string()]);
    assert!(Request::from_fields(&vec!["Set".to_string(), "k".to_string()]).is_none());
    assert!(Request::from_fields(&vec!["Put".to_string(), "k".to_string(), "v".to_string()]).is_none());
}

#[test]
fn response_fields_round_trip() {
    let responses = vec![
        Response::Done,
        Response::Value("v".to_string()),
        Response::Error(Error::KeyNotFound),
        Response::Error(Error::Generic("g".to_string())),
        Response::Error(Error::IOError("io".to_string())),
        Response::Error(Error::SerializeError("s".to_string())),
        Response::Error(Error::DeserializeError("d".to_string())),
        Response::Error(Error::SledError("sl".to_string())),
    ];
    for r in responses {
        let fields = r.to_fields();
        let bytes = encode_fields(&fields).unwrap();
        let back = Response::from_fields(&decode_fields(&bytes).unwrap()).unwrap();
        assert_eq!(back.to_fields(), fields);
    }
    assert_eq!(
        Response::Error(Error::KeyNotFound).to_fields(),
        vec!["Error".to_string(), "KeyNotFound".to_string(), String::new()]
    );
    assert!(Response::from_fields(&vec!["Error".to_string(), "Nope".to_string(), String::new()]).is_none());
}

#[test]
fn encoded_fields_are_message_pack() {
    let bytes = encode_fields(&vec!["Ok".to_string()]).unwrap();
    assert_eq!(bytes, vec![0x91, 0xa2, b'O', b'k']);
    let mut longer = bytes.clone();
    longer.push(0xc0);
    assert_eq!(decode_fields(&longer).unwrap(), vec!["Ok".to_string()]);
    assert!(matches!(decode_fields(&[0x91]), Err(Error::DeserializeError(_))));
}

#[test]
fn client_outcomes() {
    assert_eq!(get_outcome(Response::Value("v".to_string())).unwrap(), Some("v".to_string()));
    assert_eq!(get_outcome(Response::Done).unwrap(), None);
    assert!(matches!(get_outcome(Response::Error(Error::KeyNotFound)), Err(Error::KeyNotFound)));
    assert!(write_outcome(Response::Done).is_ok());
    assert!(matches!(write_outcome(Response::Error(Error::KeyNotFound)), Err(Error::KeyNotFound)));
    assert!(matches!(write_outcome(Response::Value("v".to_string())), Err(Error::Generic(_))));
}

#[test]
fn engine_mismatch_gate() {
    let entries = vec!["kvs.log".to_string()];
    let current = detect_engine(&entries);
    assert_eq!(current, Some(EngineKind::Kvs));
    let r = select_engine(Some(EngineKind::Sled), current);
    assert_eq!(r, Err(EngineMismatch { current: EngineKind::Kvs, requested: EngineKind::Sled }));
    assert_eq!(EngineKind::Kvs.name(), "kvs");
    assert_eq!(EngineKind::Sled.name(), "sled");
}

#[test]
fn engine_selection() {
    assert_eq!(select_engine(None, None), Ok(EngineKind::Kvs));
    assert_eq!(select_engine(None, Some(EngineKind::Sled)), Ok(EngineKind::Sled));
    assert_eq!(select_engine(Some(EngineKind::Sled), None), Ok(EngineKind::Sled));
    assert_eq!(select_engine(Some(EngineKind::Kvs), Some(EngineKind::Kvs)), Ok(EngineKind::Kvs));
    assert_eq!(detect_engine(&vec!["sled".to_string()]), Some(EngineKind::Sled));
    assert_eq!(detect_engine(&vec!["sled".to_string(), "kvs.log".to_string()]), Some(EngineKind::Kvs));
    assert_eq!(detect_engine(&vec!["kvs.log.new".to_string()]), None);
    assert_eq!(EngineKind::from_name("kvs"), Some(EngineKind::Kvs));
    assert_eq!(EngineKind::from_name("sled"), Some(EngineKind::Sled));
    assert_eq!(EngineKind::from_name("other"), None);
}

#[test]
fn memory_store() {
    let mut s = memory::KvStore::new();
    s.set("a".to_string(), "1".to_string());
    s.set("a".to_string(), "2".to_string());
    s.set("b".to_string(), "3".to_string());
    assert_eq!(s.get("a".to_string()), Some("2".to_string()));
    s.remove("a".to_string());
    assert_eq!(s.get("a".to_string()), None);
    s.remove("a".to_string());
    assert_eq!(s.get("b".to_string()), Some("3".to_string()));
}

#[test]
fn memory_store_as_engine() {
    let mut s = memory::KvStore::new();
    KvsEngine::set(&mut s, "k".to_string(), "v".to_string()).unwrap();
    assert_eq!(KvsEngine::get(&mut s, "k".to_string()).unwrap(), Some("v".to_string()));
    KvsEngine::remove(&mut s, "k".to_string()).unwrap();
    assert!(matches!(KvsEngine::remove(&mut s, "k".to_string()), Err(Error::KeyNotFound)));
}

#[test]
fn error_messages() {
    assert_eq!(Error::KeyNotFound.message(), "Key not found");
    assert_eq!(Error::SerializeError("x".to_string()).message(), "SerializeError: x");
    assert_eq!(Error::DeserializeError("y".to_string()).message(), "DeserializeError: y");
    assert_eq!(Error::SledError("z".to_string()).message(), "SledError: z");
    assert_eq!(Error::Generic("g".to_string()).message(), "g");
    assert_eq!(Error::IOError("io".to_string()).message(), "io");
}

#[test]
fn responses_to_engine_results() {
    assert!(matches!(get_response(Ok(Some("v".to_string()))), Response::Value(ref v) if v == "v"));
    assert!(matches!(get_response(Ok(None)), Response::Done));
    assert!(matches!(get_response(Err(Error::IOError("e".to_string()))), Response::Error(Error::IOError(_))));
    assert!(matches!(write_response(Ok(())), Response::Done));
    assert!(matches!(write_response(Err(Error::KeyNotFound)), Response::Error(Error::KeyNotFound)));
}

#[test]
fn message_pack_length_forms() {
    let s40 = "a".repeat(40);
    let bytes = encode_fields(&vec![s40.clone()]).unwrap();
    assert_eq!(&bytes[0..3], &[0x91, 0xd9, 40]);
    assert_eq!(bytes.len(), 3 + 40);
    let s300 = "b".repeat(300);
    let bytes = encode_fields(&vec![s300.clone()]).unwrap();
    assert_eq!(&bytes[0..4], &[0x91, 0xda, 0x01, 0x2c]);
    assert_eq!(bytes.len(), 4 + 300);
    let many: Vec<String> = (0..20).map(|i| i.to_string()).collect();
    let bytes = encode_fields(&many).unwrap();
    assert_eq!(&bytes[0..3], &[0xdc, 0x00, 0x14]);
    assert_eq!(&bytes[3..5], &[0xa1, b'0']);
    assert_eq!(decode_fields(&bytes).unwrap(), many);
    let utf8 = "é".to_string();
    let bytes = encode_fields(&vec![utf8.clone()]).unwrap();
    assert_eq!(bytes, vec![0x91, 0xa2, 0xc3, 0xa9]);
    assert!(kvs::msgpack::strings_fit(&many));
}

#[test]
fn handle_request_returns_engine_result() {
    let mut server = KvsServer::new(memory::KvStore::new(), "a".to_string()).unwrap();
    assert_eq!(server.handle_request(Request::Put("k".to_string(), "v".to_string())).unwrap(), None);
    assert_eq!(server.handle_request(Request::Get("k".to_string())).unwrap(), Some("v".to_string()));
    assert_eq!(server.handle_request(Request::Remove("k".to_string())).unwrap(), None);
    assert!(matches!(server.handle_request(Request::Remove("k".to_string())), Err(Error::KeyNotFound)));
    assert_eq!(server.handle_request(Request::Get("k".to_string())).unwrap(), None);
}
