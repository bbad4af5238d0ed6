use kvs::engine::sled::{entry_path, remove_outcome, SledFault, SledStore};
use kvs::{Error, KvsEngine, SledKvsEngine};

#[test]
fn sled_engine_operations() {
    let mut e = SledKvsEngine::open("/tmp/kvs_sled_engine_test").unwrap();
    e.set("key1".to_string(), "value1".to_string()).unwrap();
    e.set("key1".to_string(), "value2".to_string()).unwrap();
    assert_eq!(e.get("key1".to_string()).unwrap(), Some("value2".to_string()));
    e.remove("key1".to_string()).unwrap();
    assert_eq!(e.get("key1".to_string()).unwrap(), None);
    assert!(matches!(e.remove("key1".to_string()), Err(Error::KeyNotFound)));
}

#[test]
fn sled_store_operations() {
    let mut s = SledStore::open("/tmp/kvs_sled_store_test").unwrap();
    s.set("a".to_string(), "1".to_string()).unwrap();
    assert_eq!(s.get("a".to_string()).unwrap(), Some("1".to_string()));
    s.remove("a".to_string()).unwrap();
    assert_eq!(s.get("a".to_string()).unwrap(), None);
    s.remove("a".to_string()).unwrap();
}

#[test]
fn sled_markers() {
    assert!(SledKvsEngine::is_log_present(&vec!["sled".to_string()]));
    assert!(!SledKvsEngine::is_log_present(&vec!["sled.log".to_string()]));
    assert!(SledStore::is_log_present(&vec!["sled.log".to_string()]));
    assert_eq!(entry_path("/data", "sled"), "/data/sled");
}

#[test]
fn sled_remove_outcomes() {
    assert!(remove_outcome(true, Ok(())).is_ok());
    assert!(matches!(remove_outcome(false, Ok(())), Err(Error::KeyNotFound)));
    assert!(matches!(remove_outcome(true, Err(SledFault::Other("disk".to_string()))), Err(Error::SledError(ref m)) if m == "disk"));
    assert!(matches!(remove_outcome(false, Err(SledFault::CollectionNotFound)), Err(Error::KeyNotFound)));
}
