use kvs::codec::{encode_record, frame_payload, read_record, Command};
use kvs::{Error, KvStore};

/// A log engine whose log file is a byte vector.
struct Disk {
    log: Vec<u8>,
    store: KvStore,
    compactions: usize,
}

impl Disk {
    fn open(log: Vec<u8>) -> Disk {
        let store = KvStore::open(&log).unwrap();
        Disk { log, store, compactions: 0 }
    }

    fn reopen(self) -> Disk {
        Disk::open(self.log)
    }

    fn append(&mut self, record: Vec<u8>) {
        self.log.extend_from_slice(&record);
        if self.store.record_appended(&record).unwrap() {
            self.compact();
        }
    }

    fn set(&mut self, key: &str, value: &str) {
        let record = KvStore::set_record(&key.to_string(), &value.to_string()).unwrap();
        self.append(record);
    }

    fn get(&self, key: &str) -> Option<String> {
        let key = key.to_string();
        match self.store.locate(&key) {
            None => None,
            Some((pos, size)) => {
                let record = &self.log[pos as usize..(pos + size) as usize];
                Some(self.store.read_value(&key, record).unwrap())
            }
        }
    }

    fn remove(&mut self, key: &str) -> Result<(), Error> {
        let record = self.store.remove_record(&key.to_string())?;
        self.append(record);
        Ok(())
    }

    fn compact(&mut self) {
        let plan = self.store.compaction_plan();
        let mut log = Vec::new();
        for (pos, size) in plan {
            log.extend_from_slice(&self.log[pos as usize..(pos + size) as usize]);
        }
        self.log = log;
        self.store.compacted();
        self.compactions += 1;
    }
}

#[test]
fn basic_round_trip() {
    let mut d = Disk::open(Vec::new());
    d.set("a", "1");
    d.set("b", "2");
    assert_eq!(d.get("a"), Some("1".to_string()));
    assert_eq!(d.get("c"), None);
    d.remove("a").unwrap();
    assert_eq!(d.get("a"), None);
    assert_eq!(d.get("b"), Some("2".to_string()));
}

#[test]
fn get_after_set() {
    let mut d = Disk::open(Vec::new());
    d.set("key", "value");
    assert_eq!(d.get("key"), Some("value".to_string()));
}

#[test]
fn last_set_wins() {
    let mut d = Disk::open(Vec::new());
    d.set("key", "v1");
    d.set("key", "v2");
    assert_eq!(d.get("key"), Some("v2".to_string()));
    assert_eq!(d.store.len(), 1);
}

#[test]
fn get_after_remove() {
    let mut d = Disk::open(Vec::new());
    d.set("key", "v");
    d.remove("key").unwrap();
    assert_eq!(d.get("key"), None);
}

#[test]
fn remove_missing_key() {
    let mut d = Disk::open(Vec::new());
    d.set("a", "1");
    let before = d.log.clone();
    let r = d.remove("b");
    assert!(matches!(r, Err(Error::KeyNotFound)));
    assert_eq!(d.log, before);
    assert_eq!(d.store.len(), 1);
    assert_eq!(d.get("a"), Some("1".to_string()));
}

#[test]
fn persistence() {
    let mut d = Disk::open(Vec::new());
    d.set("k", "v");
    let d = d.reopen();
    assert_eq!(d.get("k"), Some("v".to_string()));
}

#[test]
fn remove_then_reopen() {
    let mut d = Disk::open(Vec::new());
    d.set("x", "1");
    d.remove("x").unwrap();
    let mut d = d.reopen();
    assert_eq!(d.get("x"), None);
    assert!(matches!(d.remove("x"), Err(Error::KeyNotFound)));
}

#[test]
fn reopen_keeps_live_map() {
    let mut d = Disk::open(Vec::new());
    for i in 0..50 {
        d.set(&format!("key{}", i % 7), &format!("value{}", i));
        if i % 5 == 0 {
            let _ = d.remove(&format!("key{}", (i + 3) % 7));
        }
    }
    let expected: Vec<Option<String>> = (0..7).map(|i| d.get(&format!("key{}", i))).collect();
    let len = d.store.len();
    let d = d.reopen();
    let got: Vec<Option<String>> = (0..7).map(|i| d.get(&format!("key{}", i))).collect();
    assert_eq!(got, expected);
    assert_eq!(d.store.len(), len);
}

#[test]
fn scan_is_deterministic() {
    let mut d = Disk::open(Vec::new());
    d.set("a", "1");
    d.set("b", "2");
    d.set("a", "3");
    d.remove("b").unwrap();
    d.set("c", "4");
    let first = KvStore::open(&d.log).unwrap();
    let second = KvStore::open(&d.log).unwrap();
    let third = KvStore::open(&d.log).unwrap();
    for key in ["a", "b", "c", "d"] {
        let key = key.to_string();
        assert_eq!(first.locate(&key), second.locate(&key));
        assert_eq!(second.locate(&key), third.locate(&key));
    }
    assert_eq!(first.compaction_plan(), third.compaction_plan());
    assert_eq!(first.log_pos(), d.log.len() as u64);
}

#[test]
fn scan_counts_dead_bytes() {
    let mut d = Disk::open(Vec::new());
    d.set("a", "1");
    let first = d.log.len() as u64;
    d.set("a", "2");
    let s = KvStore::open(&d.log).unwrap();
    assert_eq!(s.num_uncompacted(), first);
    assert_eq!(s.log_pos(), d.log.len() as u64);
}

#[test]
fn compaction_preserves_values() {
    let mut d = Disk::open(Vec::new());
    for i in 0..20 {
        d.set(&format!("k{}", i % 4), &format!("v{}", i));
    }
    d.remove("k1").unwrap();
    let keys = ["k0", "k1", "k2", "k3", "k4"];
    let before: Vec<Option<String>> = keys.iter().map(|k| d.get(k)).collect();
    d.compact();
    let after: Vec<Option<String>> = keys.iter().map(|k| d.get(k)).collect();
    assert_eq!(before, after);
    assert_eq!(d.store.num_uncompacted(), 0);
    assert_eq!(d.store.log_pos(), d.log.len() as u64);
    let reopened = Disk::open(d.log.clone());
    let again: Vec<Option<String>> = keys.iter().map(|k| reopened.get(k)).collect();
    assert_eq!(again, before);
}

#[test]
fn compaction_of_empty_live_set() {
    let mut d = Disk::open(Vec::new());
    d.set("a", "1");
    d.remove("a").unwrap();
    d.compact();
    assert!(d.log.is_empty());
    assert_eq!(d.store.log_pos(), 0);
}

#[test]
fn compaction_plan_is_ascending() {
    let mut d = Disk::open(Vec::new());
    d.set("a", "1");
    d.set("b", "2");
    d.set("a", "3");
    d.set("c", "4");
    let plan = d.store.compaction_plan();
    assert_eq!(plan.len(), 3);
    for w in plan.windows(2) {
        assert!(w[0].0 < w[1].0);
    }
}

#[test]
fn overwrite_compaction() {
    let mut d = Disk::open(Vec::new());
    let mut last = String::new();
    for i in 0..20000 {
        let mut value = format!("{:08}", i);
        value.push_str(&"x".repeat(1016));
        d.set("k", &value);
        last = value;
    }
    assert_eq!(d.get("k"), Some(last));
    assert!(d.compactions > 0);
    assert!(d.log.len() <= 2 * 1024 * 1024);
    assert!(d.store.num_uncompacted() <= KvStore::MAX_UNCOMPACTED);
    d.compact();
    assert!(d.log.len() <= 4096 + 2 * 1024);
}

#[test]
fn compaction_due_after_threshold() {
    let mut store = KvStore::new();
    let record = KvStore::set_record(&"k".to_string(), &"v".repeat(4096)).unwrap();
    let mut due = false;
    let mut n = 0;
    while !due {
        due = store.record_appended(&record).unwrap();
        n += 1;
    }
    let dead = (n - 1) * record.len() as u64;
    assert_eq!(store.num_uncompacted(), dead);
    assert!(dead > KvStore::MAX_UNCOMPACTED);
    assert!(dead - record.len() as u64 <= KvStore::MAX_UNCOMPACTED);
}

#[test]
fn corrupt_log_fails_open() {
    let mut d = Disk::open(Vec::new());
    d.set("a", "1");
    let mut log = d.log.clone();
    log.pop();
    assert!(matches!(KvStore::open(&log), Err(Error::DeserializeError(_))));
    let mut log = d.log.clone();
    log.extend_from_slice(&[1, 2, 3]);
    assert!(matches!(KvStore::open(&log), Err(Error::DeserializeError(_))));
    let mut log = d.log.clone();
    log[8] = 0xc1;
    assert!(matches!(KvStore::open(&log), Err(Error::DeserializeError(_))));
}

#[test]
fn record_appended_rejects_garbage() {
    let mut store = KvStore::new();
    let r = store.record_appended(&[0, 0, 0]);
    assert!(matches!(r, Err(Error::DeserializeError(_))));
    assert_eq!(store.log_pos(), 0);
    let mut record = KvStore::set_record(&"a".to_string(), &"b".to_string()).unwrap();
    record.push(0);
    assert!(matches!(store.record_appended(&record), Err(Error::DeserializeError(_))));
    assert_eq!(store.len(), 0);
}

#[test]
fn read_value_checks_the_key() {
    let mut d = Disk::open(Vec::new());
    d.set("a", "1");
    let record = KvStore::set_record(&"b".to_string(), &"2".to_string()).unwrap();
    assert!(matches!(d.store.read_value(&"a".to_string(), &record), Err(Error::Generic(_))));
    let tomb = encode_record(&Command::Remove("a".to_string())).unwrap();
    assert!(matches!(d.store.read_value(&"a".to_string(), &tomb), Err(Error::Generic(_))));
}

#[test]
fn record_layout() {
    let record = KvStore::set_record(&"key".to_string(), &"value".to_string()).unwrap();
    let size = u64::from_le_bytes(record[0..8].try_into().unwrap());
    assert_eq!(size as usize + 8, record.len());
    // ["Set", "key", "value"] as a MessagePack array of three strings
    let mut payload = vec![0x93, 0xa3];
    payload.extend_from_slice(b"Set");
    payload.push(0xa3);
    payload.extend_from_slice(b"key");
    payload.push(0xa5);
    payload.extend_from_slice(b"value");
    assert_eq!(&record[8..], &payload[..]);
    match read_record(&record, 0).unwrap() {
        (Command::Put(k, v), n) => {
            assert_eq!(k, "key");
            assert_eq!(v, "value");
            assert_eq!(n, record.len());
        }
        _ => panic!("expected a Put"),
    }
}

#[test]
fn read_record_at_offset() {
    let a = encode_record(&Command::Put("a".to_string(), "1".to_string())).unwrap();
    let b = encode_record(&Command::Remove("a".to_string())).unwrap();
    let mut log = a.clone();
    log.extend_from_slice(&b);
    match read_record(&log, a.len()).unwrap() {
        (Command::Remove(k), n) => {
            assert_eq!(k, "a");
            assert_eq!(n, b.len());
        }
        _ => panic!("expected a Remove"),
    }
    assert!(matches!(read_record(&log, log.len()), Err(Error::DeserializeError(_))));
}

#[test]
fn get_record_in_log_is_dead() {
    let mut log = encode_record(&Command::Put("a".to_string(), "1".to_string())).unwrap();
    let get = encode_record(&Command::Get("a".to_string())).unwrap();
    log.extend_from_slice(&get);
    let s = KvStore::open(&log).unwrap();
    assert_eq!(s.len(), 1);
    assert_eq!(s.num_uncompacted(), get.len() as u64);
}

#[test]
fn log_marker() {
    let entries = vec!["sled".to_string(), "kvs.log".to_string()];
    assert!(KvStore::is_log_present(&entries));
    let entries = vec!["kvs.log.new".to_string()];
    assert!(!KvStore::is_log_present(&entries));
}

#[test]
fn frame_layout() {
    assert_eq!(frame_payload(&[7, 9]), vec![2, 0, 0, 0, 0, 0, 0, 0, 7, 9]);
    assert_eq!(frame_payload(&[]), vec![0u8; 8]);
    let payload = vec![0xaa; 300];
    let framed = frame_payload(&payload);
    assert_eq!(&framed[0..8], &[44, 1, 0, 0, 0, 0, 0, 0]);
    assert_eq!(&framed[8..], &payload[..]);
}

#[test]
fn counters_follow_the_log() {
    let mut d = Disk::open(Vec::new());
    d.set("a", "1");
    let set_len = d.log.len() as u64;
    assert_eq!(d.store.log_pos(), set_len);
    assert_eq!(d.store.num_uncompacted(), 0);
    d.set("a", "2");
    assert_eq!(d.store.log_pos(), 2 * set_len);
    assert_eq!(d.store.num_uncompacted(), set_len);
    d.remove("a").unwrap();
    assert_eq!(d.store.log_pos(), d.log.len() as u64);
    assert_eq!(d.store.num_uncompacted(), d.log.len() as u64);
    let log_pos = d.store.log_pos();
    let uncompacted = d.store.num_uncompacted();
    let d = d.reopen();
    assert_eq!(d.store.log_pos(), log_pos);
    assert_eq!(d.store.num_uncompacted(), uncompacted);
    assert_eq!(d.store.len(), 0);
}

#[test]
fn len_counts_live_keys() {
    let mut d = Disk::open(Vec::new());
    assert_eq!(d.store.len(), 0);
    d.compact();
    assert_eq!(d.store.log_pos(), 0);
    d.set("a", "1");
    d.set("b", "2");
    d.set("a", "3");
    assert_eq!(d.store.len(), 2);
    assert_eq!(d.store.compaction_plan().len(), 2);
}
