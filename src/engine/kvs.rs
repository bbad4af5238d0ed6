//! The log-structured engine: an append-only log of records and an in-memory
//! index from each live key to the place of its latest record.
//!
//! The engine decides and the caller moves bytes: `set_record` and
//! `remove_record` give the record to append, `record_appended` takes it
//! into the index once it is in the log, `locate` and `read_value` serve a
//! lookup, and `compaction_plan` / `compacted` rewrite the log. The ghost
//! field `records` is the log as the engine has been told it stands.
use vstd::prelude::*;

use crate::codec::{
    command_fields, encode_record, framed, parse_log, payload_of, read_record, record_at,
    record_command, Command, CommandView,
};
use crate::msgpack::fields_fit;
use crate::engine::has_entry;
use crate::error::Error;

verus! {

/// The bytes of a log made of `records`, in order.
pub open spec fn flatten(records: Seq<Seq<u8>>) -> Seq<u8>
    decreases records.len(),
{
    if records.len() == 0 {
        Seq::empty()
    } else {
        flatten(records.drop_last()) + records.last()
    }
}

/// Where the latest record of a live key stands, and the value it set.
pub struct Slot {
    pub pos: nat,
    pub size: nat,
    pub value: Seq<char>,
}

/// The live keys after replaying `records` from the start, each with its slot.
pub open spec fn replay(records: Seq<Seq<u8>>) -> Map<Seq<char>, Slot>
    decreases records.len(),
{
    if records.len() == 0 {
        Map::empty()
    } else {
        let prev = records.drop_last();
        let before = replay(prev);
        match record_command(records.last()) {
            Some(CommandView::Put(k, v)) => before.insert(
                k,
                Slot { pos: flatten(prev).len(), size: records.last().len(), value: v },
            ),
            Some(CommandView::Remove(k)) => before.remove(k),
            _ => before,
        }
    }
}

/// The bytes that taking `record` in after a log whose live slots are
/// `before` leaves dead: a set leaves the key's earlier record behind, a
/// remove the key's earlier record and itself, and any other record itself.
pub open spec fn dead_added(before: Map<Seq<char>, Slot>, record: Seq<u8>) -> nat {
    match record_command(record) {
        Some(CommandView::Put(k, _)) => if before.contains_key(k) {
            before[k].size
        } else {
            0
        },
        Some(CommandView::Remove(k)) => if before.contains_key(k) {
            before[k].size + record.len()
        } else {
            record.len()
        },
        _ => record.len(),
    }
}

/// The bytes of a log made of `records` that compaction would reclaim.
pub open spec fn dead_bytes(records: Seq<Seq<u8>>) -> nat
    decreases records.len(),
{
    if records.len() == 0 {
        0
    } else {
        dead_bytes(records.drop_last()) + dead_added(replay(records.drop_last()), records.last())
    }
}

/// The live map of a log made of `records`: each live key and its value.
pub open spec fn live(records: Seq<Seq<u8>>) -> Map<Seq<char>, Seq<char>> {
    replay(records).map_values(|s: Slot| s.value)
}

/// Every record is complete and holds a command.
pub open spec fn all_records(records: Seq<Seq<u8>>) -> bool {
    forall|i: int| 0 <= i < records.len() ==> (#[trigger] record_command(records[i])) is Some
}

/// `rest` behind `records`, or `None` where there is no `rest`.
pub open spec fn prepend(records: Seq<Seq<u8>>, rest: Option<Seq<Seq<u8>>>) -> Option<Seq<Seq<u8>>> {
    match rest {
        Some(r) => Some(records + r),
        None => None,
    }
}

/// The sum of the lengths in `spans`.
pub open spec fn sizes(spans: Seq<(u64, u64)>) -> nat
    decreases spans.len(),
{
    if spans.len() == 0 {
        0
    } else {
        sizes(spans.drop_last()) + spans.last().1 as nat
    }
}

proof fn lemma_sizes_push(spans: Seq<(u64, u64)>, s: (u64, u64))
    ensures
        sizes(spans.push(s)) == sizes(spans) + s.1,
{
    assert(spans.push(s).drop_last() =~= spans);
}

proof fn lemma_sizes_remove(spans: Seq<(u64, u64)>, i: int)
    requires
        0 <= i < spans.len(),
    ensures
        sizes(spans.remove(i)) + spans[i].1 == sizes(spans),
    decreases spans.len(),
{
    if i == spans.len() - 1 {
        assert(spans.remove(i) =~= spans.drop_last());
    } else {
        lemma_sizes_remove(spans.drop_last(), i);
        assert(spans.remove(i).drop_last() =~= spans.drop_last().remove(i));
    }
}

proof fn lemma_flatten_push(records: Seq<Seq<u8>>, r: Seq<u8>)
    ensures
        flatten(records.push(r)) == flatten(records) + r,
{
    assert(records.push(r).drop_last() =~= records);
}

/// A record that holds a command keeps it whatever follows it.
proof fn lemma_record_extend(f: Seq<u8>, t: Seq<u8>)
    requires
        record_command(f) is Some,
    ensures
        record_at(f + t) == Some((f.len(), record_command(f)->0)),
{
    let b = f + t;
    assert(b.take(8) =~= f.take(8));
    let size = vstd::bytes::spec_u64_from_le_bytes(f.take(8)) as nat;
    assert(b.subrange(8, 8 + size as int) =~= f.subrange(8, 8 + size as int));
}

/// The first `n` bytes of `b` are a record of their own where `b` starts with
/// a record of `n` bytes.
proof fn lemma_record_prefix(b: Seq<u8>, n: nat, c: CommandView)
    requires
        record_at(b) == Some((n, c)),
    ensures
        n <= b.len(),
        record_command(b.take(n as int)) == Some(c),
{
    let f = b.take(n as int);
    assert(f.take(8) =~= b.take(8));
    let size = vstd::bytes::spec_u64_from_le_bytes(b.take(8)) as nat;
    assert(f.subrange(8, 8 + size as int) =~= b.subrange(8, 8 + size as int));
}

/// Scanning the bytes of complete records followed by `t` gives back those
/// records, then what scanning `t` gives.
pub proof fn lemma_parse_flatten(records: Seq<Seq<u8>>, t: Seq<u8>)
    requires
        all_records(records),
    ensures
        parse_log(flatten(records) + t) == prepend(records, parse_log(t)),
    decreases records.len(),
{
    if records.len() == 0 {
        assert(flatten(records) + t =~= t);
        assert(records + Seq::<Seq<u8>>::empty() =~= records);
        match parse_log(t) {
            Some(r) => assert(records + r =~= r),
            None => {},
        }
    } else {
        let prev = records.drop_last();
        let f = records.last();
        let t2 = f + t;
        assert(record_command(records[records.len() - 1]) is Some);
        assert forall|i: int| 0 <= i < prev.len() implies (#[trigger] record_command(prev[i])) is Some by {
            assert(prev[i] == records[i]);
        }
        lemma_parse_flatten(prev, t2);
        assert(flatten(prev) + t2 =~= flatten(records) + t);
        lemma_record_extend(f, t);
        assert(t2.take(f.len() as int) =~= f);
        assert(t2.skip(f.len() as int) =~= t);
        match parse_log(t) {
            Some(r) => {
                assert(parse_log(t2) == Some(seq![f] + r));
                assert(prev + (seq![f] + r) =~= records + r);
            },
            None => {},
        }
    }
}

/// The record of a live key's slot stands at that slot in the log's bytes.
pub proof fn lemma_slot_record(records: Seq<Seq<u8>>, k: Seq<char>)
    requires
        replay(records).contains_key(k),
    ensures
        replay(records)[k].pos + replay(records)[k].size <= flatten(records).len(),
        record_command(
            flatten(records).subrange(
                replay(records)[k].pos as int,
                (replay(records)[k].pos + replay(records)[k].size) as int,
            ),
        ) == Some(CommandView::Put(k, replay(records)[k].value)),
    decreases records.len(),
{
    let prev = records.drop_last();
    let f = records.last();
    assert(flatten(records) == flatten(prev) + f);
    match record_command(f) {
        Some(CommandView::Put(k2, v)) => {
            if k2 == k {
                assert(flatten(records).subrange(flatten(prev).len() as int, flatten(records).len() as int) =~= f);
            } else {
                lemma_slot_record(prev, k);
                let s = replay(prev)[k];
                assert(flatten(records).subrange(s.pos as int, (s.pos + s.size) as int)
                    =~= flatten(prev).subrange(s.pos as int, (s.pos + s.size) as int));
            }
        },
        Some(CommandView::Remove(k2)) => {
            lemma_slot_record(prev, k);
            let s = replay(prev)[k];
            assert(flatten(records).subrange(s.pos as int, (s.pos + s.size) as int)
                =~= flatten(prev).subrange(s.pos as int, (s.pos + s.size) as int));
        },
        _ => {
            lemma_slot_record(prev, k);
            let s = replay(prev)[k];
            assert(flatten(records).subrange(s.pos as int, (s.pos + s.size) as int)
                =~= flatten(prev).subrange(s.pos as int, (s.pos + s.size) as int));
        },
    }
}

/// The characters of each key.
pub open spec fn key_views(keys: Seq<String>) -> Seq<Seq<char>> {
    keys.map_values(|k: String| k@)
}

/// `keys` and `spans` list the live keys of `slots` once each, with the
/// position and length of their slots, in ascending order of position.
pub open spec fn index_agrees(keys: Seq<Seq<char>>, spans: Seq<(u64, u64)>, slots: Map<Seq<char>, Slot>) -> bool {
    &&& keys.len() == spans.len()
    &&& forall|i: int|
        0 <= i < keys.len() ==> {
            &&& slots.contains_key(#[trigger] keys[i])
            &&& slots[keys[i]].pos == spans[i].0
            &&& slots[keys[i]].size == spans[i].1
        }
    &&& forall|k: Seq<char>|
        #[trigger] slots.contains_key(k) ==> exists|i: int| 0 <= i < keys.len() && #[trigger] keys[i] == k
    &&& forall|i: int, j: int| 0 <= i < j < keys.len() ==> keys[i] != keys[j]
    &&& forall|i: int, j: int| 0 <= i < j < spans.len() ==> spans[i].0 < spans[j].0
}

proof fn lemma_agrees_remove(keys: Seq<Seq<char>>, spans: Seq<(u64, u64)>, slots: Map<Seq<char>, Slot>, i: int)
    requires
        index_agrees(keys, spans, slots),
        0 <= i < keys.len(),
    ensures
        index_agrees(keys.remove(i), spans.remove(i), slots.remove(keys[i])),
{
    let k = keys[i];
    let keys2 = keys.remove(i);
    let slots2 = slots.remove(k);
    assert forall|j: int| 0 <= j < keys2.len() implies slots2.contains_key(#[trigger] keys2[j]) by {
        if j < i {
            assert(keys2[j] == keys[j]);
        } else {
            assert(keys2[j] == keys[j + 1]);
        }
    }
    assert forall|k2: Seq<char>| #[trigger] slots2.contains_key(k2) implies exists|j: int|
        0 <= j < keys2.len() && #[trigger] keys2[j] == k2 by {
        assert(slots.contains_key(k2));
        let j = choose|j: int| 0 <= j < keys.len() && #[trigger] keys[j] == k2;
        if j < i {
            assert(keys2[j] == k2);
        } else {
            assert(j != i);
            assert(keys2[j - 1] == k2);
        }
    }
    assert forall|a: int, b: int| 0 <= a < b < keys2.len() implies keys2[a] != keys2[b] by {
        let a2 = if a < i { a } else { a + 1 };
        let b2 = if b < i { b } else { b + 1 };
        assert(keys2[a] == keys[a2]);
        assert(keys2[b] == keys[b2]);
    }
    let spans2 = spans.remove(i);
    assert forall|a: int, b: int| 0 <= a < b < spans2.len() implies spans2[a].0 < spans2[b].0 by {
        let a2 = if a < i { a } else { a + 1 };
        let b2 = if b < i { b } else { b + 1 };
        assert(spans2[a] == spans[a2]);
        assert(spans2[b] == spans[b2]);
    }
}

proof fn lemma_agrees_push(
    keys: Seq<Seq<char>>,
    spans: Seq<(u64, u64)>,
    slots: Map<Seq<char>, Slot>,
    k: Seq<char>,
    span: (u64, u64),
    value: Seq<char>,
)
    requires
        index_agrees(keys, spans, slots),
        !slots.contains_key(k),
        forall|j: int| 0 <= j < spans.len() ==> spans[j].0 < span.0,
    ensures
        index_agrees(
            keys.push(k),
            spans.push(span),
            slots.insert(k, Slot { pos: span.0 as nat, size: span.1 as nat, value }),
        ),
{
    let keys2 = keys.push(k);
    let slots2 = slots.insert(k, Slot { pos: span.0 as nat, size: span.1 as nat, value });
    assert forall|j: int| 0 <= j < keys.len() implies keys[j] != k by {
        assert(slots.contains_key(keys[j]));
    }
    assert forall|j: int| 0 <= j < keys2.len() implies {
        &&& slots2.contains_key(#[trigger] keys2[j])
        &&& slots2[keys2[j]].pos == spans.push(span)[j].0
        &&& slots2[keys2[j]].size == spans.push(span)[j].1
    } by {
        if j < keys.len() {
            assert(keys2[j] == keys[j]);
            assert(slots.contains_key(keys[j]));
        }
    }
    assert forall|k2: Seq<char>| #[trigger] slots2.contains_key(k2) implies exists|j: int|
        0 <= j < keys2.len() && #[trigger] keys2[j] == k2 by {
        if k2 == k {
            assert(keys2[keys.len() as int] == k2);
        } else {
            assert(slots.contains_key(k2));
            let j = choose|j: int| 0 <= j < keys.len() && #[trigger] keys[j] == k2;
            assert(keys2[j] == k2);
        }
    }
}

/// Every slot lies inside the log and is at least one record header long, so
/// every indexed position is below the log's length.
proof fn lemma_spans_below(records: Seq<Seq<u8>>, keys: Seq<Seq<char>>, spans: Seq<(u64, u64)>)
    requires
        index_agrees(keys, spans, replay(records)),
    ensures
        forall|j: int| 0 <= j < spans.len() ==> spans[j].0 < flatten(records).len(),
{
    assert forall|j: int| 0 <= j < spans.len() implies spans[j].0 < flatten(records).len() by {
        assert(replay(records).contains_key(keys[j]));
        lemma_slot_record(records, keys[j]);
    }
}

proof fn lemma_sizes_take(spans: Seq<(u64, u64)>, i: int)
    requires
        0 <= i < spans.len(),
    ensures
        sizes(spans.take(i + 1)) == sizes(spans.take(i)) + spans[i].1,
        sizes(spans.take(i + 1)) <= sizes(spans),
    decreases spans.len(),
{
    assert(spans.take(i + 1).drop_last() =~= spans.take(i));
    if i + 1 < spans.len() {
        lemma_sizes_take(spans.drop_last(), i);
        assert(spans.drop_last().take(i + 1) =~= spans.take(i + 1));
        assert(spans.drop_last().take(i) =~= spans.take(i));
    } else {
        assert(spans.take(i + 1) =~= spans);
    }
}

proof fn lemma_sizes_same(a: Seq<(u64, u64)>, b: Seq<(u64, u64)>)
    requires
        a.len() == b.len(),
        forall|j: int| 0 <= j < a.len() ==> a[j].1 == b[j].1,
    ensures
        sizes(a) == sizes(b),
    decreases a.len(),
{
    if a.len() > 0 {
        lemma_sizes_same(a.drop_last(), b.drop_last());
    }
}

/// The log-structured store's index and counters.
pub struct KvStore {
    /// The live keys, in ascending order of the position of their latest record.
    keys: Vec<String>,
    /// For each key of `keys`: the position and whole length of that record.
    spans: Vec<(u64, u64)>,
    /// The length of the log.
    log_pos: u64,
    /// The bytes of the log that compaction would reclaim.
    num_uncompacted: u64,
    /// The records of the log, in order.
    records: Ghost<Seq<Seq<u8>>>,
}

impl View for KvStore {
    type V = Map<Seq<char>, Seq<char>>;

    /// The live keys and their values.
    open spec fn view(&self) -> Map<Seq<char>, Seq<char>> {
        live(self.records())
    }
}

impl KvStore {
    /// The name of the log file in the store's directory.
    pub const LOG_NAME: &'static str = "kvs.log";

    /// Compaction is due once more bytes than this are dead.
    pub const MAX_UNCOMPACTED: u64 = 1048576;

    /// The records of the log, in order.
    pub closed spec fn records(&self) -> Seq<Seq<u8>> {
        self.records@
    }

    /// The bytes of the log.
    pub open spec fn log_bytes(&self) -> Seq<u8> {
        flatten(self.records())
    }

    /// Each live key and the slot of its latest record.
    pub open spec fn slots(&self) -> Map<Seq<char>, Slot> {
        replay(self.records())
    }

    /// The record that the log holds at the slot of live key `k`.
    pub open spec fn stored_record(&self, k: Seq<char>) -> Seq<u8> {
        self.log_bytes().subrange(
            self.slots()[k].pos as int,
            (self.slots()[k].pos + self.slots()[k].size) as int,
        )
    }

    /// The length of the log.
    pub closed spec fn log_len(&self) -> nat {
        self.log_pos as nat
    }

    /// The bytes of the log that compaction would reclaim.
    pub closed spec fn uncompacted(&self) -> nat {
        self.num_uncompacted as nat
    }

    /// The position and whole length of each live key's latest record, in
    /// ascending order of position.
    pub closed spec fn plan(&self) -> Seq<(u64, u64)> {
        self.spans@
    }

    /// The record that the log holds at `span`.
    pub open spec fn record_in(&self, span: (u64, u64)) -> Seq<u8> {
        self.log_bytes().subrange(span.0 as int, (span.0 + span.1) as int)
    }

    /// The total length of the live keys' latest records.
    pub open spec fn live_bytes(&self) -> nat {
        sizes(self.plan())
    }

    /// What the counters are: the log's length is that of its bytes, which
    /// scan back to its records; the uncompacted bytes are the log's dead
    /// bytes, that is all but the live keys' latest records.
    pub proof fn lemma_counters(&self)
        requires
            self.wf(),
        ensures
            self.log_len() == self.log_bytes().len(),
            parse_log(self.log_bytes()) == Some(self.records()),
            self.uncompacted() == dead_bytes(self.records()),
            self.uncompacted() + self.live_bytes() == self.log_len(),
            self.uncompacted() <= self.log_len(),
    {
        lemma_parse_flatten(self.records(), Seq::empty());
        assert(self.log_bytes() + Seq::<u8>::empty() =~= self.log_bytes());
        assert(self.records() + Seq::<Seq<u8>>::empty() =~= self.records());
    }

    /// The index and the counters agree with the log.
    pub closed spec fn wf(&self) -> bool {
        &&& all_records(self.records@)
        &&& self.log_pos == flatten(self.records@).len()
        &&& self.num_uncompacted + sizes(self.spans@) == self.log_pos
        &&& self.num_uncompacted == dead_bytes(self.records@)
        &&& self.keys@.len() == self.spans@.len()
        &&& index_agrees(key_views(self.keys@), self.spans@, replay(self.records@))
    }

    /// An empty store, over an empty log.
    pub fn new() -> (r: KvStore)
        ensures
            r.wf(),
            r.records() == Seq::<Seq<u8>>::empty(),
            r@ == Map::<Seq<char>, Seq<char>>::empty(),
    {
        let r = KvStore {
            keys: Vec::new(),
            spans: Vec::new(),
            log_pos: 0,
            num_uncompacted: 0,
            records: Ghost(Seq::empty()),
        };
        assert(r@ =~= Map::<Seq<char>, Seq<char>>::empty());
        r
    }

    /// The place of `key` in the index, if it is live.
    fn find(&self, key: &String) -> (r: Option<usize>)
        requires
            self.wf(),
        ensures
            r matches Some(i) ==> i < self.keys@.len() && self.keys@[i as int]@ == key@,
            r is None ==> !self.slots().contains_key(key@),
    {
        let mut i: usize = 0;
        while i < self.keys.len()
            invariant
                self.wf(),
                i <= self.keys@.len(),
                forall|j: int| 0 <= j < i ==> self.keys@[j]@ != key@,
            decreases self.keys@.len() - i,
        {
            if self.keys[i] == *key {
                return Some(i);
            }
            i += 1;
        }
        None
    }

    /// Takes one more record of the log into the index: a Put points its key
    /// at the record, a Remove drops its key. The bytes that this leaves
    /// behind (the key's earlier record, a tombstone) count as uncompacted.
    fn process_command(&mut self, command: Command, size: u64, Ghost(record): Ghost<Seq<u8>>)
        requires
            old(self).wf(),
            record_command(record) == Some(command@),
            record.len() == size,
            old(self).log_pos + size <= u64::MAX,
        ensures
            final(self).wf(),
            final(self).records() == old(self).records().push(record),
    {
        let ghost old_records = self.records@;
        let ghost new_records = old_records.push(record);
        let ghost slots = replay(old_records);
        proof {
            lemma_flatten_push(old_records, record);
            assert(new_records.drop_last() =~= old_records);
            assert(new_records.last() == record);
            lemma_spans_below(old_records, key_views(self.keys@), self.spans@);
        }
        match command {
            Command::Put(key, value) => {
                let ghost kv = key@;
                let ghost slot = Slot { pos: flatten(old_records).len(), size: record.len(), value: value@ };
                match self.find(&key) {
                    Some(i) => {
                        let old_span = self.spans[i];
                        proof {
                            assert(key_views(self.keys@)[i as int] == kv);
                            assert(slots[kv].size == old_span.1);
                            lemma_sizes_remove(self.spans@, i as int);
                            lemma_agrees_remove(key_views(self.keys@), self.spans@, slots, i as int);
                        }
                        self.keys.remove(i);
                        self.spans.remove(i);
                        self.num_uncompacted = self.num_uncompacted + old_span.1;
                        assert(key_views(self.keys@) =~= key_views(old(self).keys@).remove(i as int));
                    },
                    None => {
                        assert(slots.remove(kv) =~= slots);
                    },
                }
                let pos = self.log_pos;
                let ghost keys_before = key_views(self.keys@);
                let ghost spans_before = self.spans@;
                proof {
                    lemma_sizes_push(self.spans@, (pos, size));
                    assert forall|j: int| 0 <= j < self.spans@.len() implies self.spans@[j].0 < pos by {
                        let jj = choose|jj: int| 0 <= jj < old(self).spans@.len() && old(self).spans@[jj] == self.spans@[j];
                    }
                }
                self.keys.push(key);
                self.spans.push((pos, size));
                self.log_pos = pos + size;
                proof {
                    lemma_agrees_push(keys_before, spans_before, slots.remove(kv), kv, (pos, size), value@);
                    assert(key_views(self.keys@) =~= keys_before.push(kv));
                    assert(slots.remove(kv).insert(kv, slot) =~= slots.insert(kv, slot));
                    assert(replay(new_records) == slots.insert(kv, slot));
                }
            },
            Command::Remove(key) => {
                match self.find(&key) {
                    Some(i) => {
                        let old_span = self.spans[i];
                        proof {
                            assert(key_views(self.keys@)[i as int] == key@);
                            assert(slots[key@].size == old_span.1);
                            lemma_sizes_remove(self.spans@, i as int);
                            lemma_agrees_remove(key_views(self.keys@), self.spans@, slots, i as int);
                        }
                        self.keys.remove(i);
                        self.spans.remove(i);
                        self.num_uncompacted = self.num_uncompacted + old_span.1;
                        assert(key_views(self.keys@) =~= key_views(old(self).keys@).remove(i as int));
                    },
                    None => {
                        assert(slots.remove(key@) =~= slots);
                    },
                }
                self.num_uncompacted = self.num_uncompacted + size;
                self.log_pos = self.log_pos + size;
            },
            Command::Get(_) => {
                self.num_uncompacted = self.num_uncompacted + size;
                self.log_pos = self.log_pos + size;
            },
        }
        self.records = Ghost(new_records);
    }

    /// The store over a log that holds `log`: the log is scanned from the
    /// start and each record taken into the index in turn. Fails, with
    /// `DeserializeError`, unless `log` is a sequence of complete records with
    /// nothing after the last.
    pub fn open(log: &[u8]) -> (r: Result<KvStore, Error>)
        ensures
            r is Ok <==> parse_log(log@) is Some,
            r matches Ok(s) ==> s.wf() && parse_log(log@) == Some(s.records()),
            r matches Ok(s) ==> s.log_bytes() == log@,
            r matches Ok(s) ==> s.log_len() == log@.len(),
            r matches Ok(s) ==> s.uncompacted() == dead_bytes(s.records()),
            r matches Err(e) ==> e is DeserializeError,
    {
        Self::load_log(log)
    }

    fn load_log(log: &[u8]) -> (r: Result<KvStore, Error>)
        ensures
            r is Ok <==> parse_log(log@) is Some,
            r matches Ok(s) ==> s.wf() && parse_log(log@) == Some(s.records()),
            r matches Ok(s) ==> s.log_bytes() == log@,
            r matches Ok(s) ==> s.log_len() == log@.len(),
            r matches Ok(s) ==> s.uncompacted() == dead_bytes(s.records()),
            r matches Err(e) ==> e is DeserializeError,
    {
        let mut store = KvStore::new();
        let mut pos: usize = 0;
        while pos < log.len()
            invariant
                store.wf(),
                pos <= log@.len(),
                flatten(store.records()) == log@.take(pos as int),
            decreases log@.len() - pos,
        {
            proof {
                lemma_parse_flatten(store.records(), log@.skip(pos as int));
                assert(log@.take(pos as int) + log@.skip(pos as int) =~= log@);
            }
            match read_record(log, pos) {
                Ok(d) => {
                    let (command, n) = d;
                    let ghost b = log@.skip(pos as int);
                    let ghost record = b.take(n as int);
                    proof {
                        lemma_record_prefix(b, n as nat, command@);
                        lemma_flatten_push(store.records(), record);
                        assert(log@.take(pos + n) =~= log@.take(pos as int) + record);
                    }
                    store.process_command(command, n as u64, Ghost(record));
                    pos = pos + n;
                },
                Err(e) => {
                    return Err(e);
                },
            }
        }
        proof {
            lemma_parse_flatten(store.records(), Seq::empty());
            assert(log@.take(pos as int) =~= log@);
            assert(flatten(store.records()) + Seq::<u8>::empty() =~= log@);
            assert(store.records() + Seq::<Seq<u8>>::empty() =~= store.records());
        }
        Ok(store)
    }

    /// The record to append to the log for `set(key, value)`. Fails, with
    /// `SerializeError`, where the key or the value is too long for
    /// MessagePack (4 GiB) or the encoder fails.
    pub fn set_record(key: &String, value: &String) -> (r: Result<Vec<u8>, Error>)
        ensures
            r matches Ok(b) ==> record_command(b@) == Some(CommandView::Put(key@, value@)),
            r matches Ok(b) ==> b@ == framed(payload_of(CommandView::Put(key@, value@))),
            r is Ok ==> fields_fit(command_fields(CommandView::Put(key@, value@))),
            !fields_fit(command_fields(CommandView::Put(key@, value@))) ==> r is Err,
            r matches Err(e) ==> e is SerializeError,
    {
        encode_record(&Command::Put(key.clone(), value.clone()))
    }

    /// The record to append to the log for `remove(key)`: `KeyNotFound`
    /// where `key` is not live, in which case nothing is to be appended.
    pub fn remove_record(&self, key: &String) -> (r: Result<Vec<u8>, Error>)
        requires
            self.wf(),
        ensures
            (r matches Err(e) && e is KeyNotFound) <==> !self@.contains_key(key@),
            r matches Ok(b) ==> record_command(b@) == Some(CommandView::Remove(key@)),
            r matches Ok(b) ==> b@ == framed(payload_of(CommandView::Remove(key@))),
            r is Ok ==> fields_fit(command_fields(CommandView::Remove(key@))),
            self@.contains_key(key@) && !fields_fit(command_fields(CommandView::Remove(key@)))
                ==> (r matches Err(e) && e is SerializeError),
            r matches Err(e) ==> e is KeyNotFound || e is SerializeError,
    {
        match self.find(key) {
            None => Err(Error::KeyNotFound),
            Some(i) => {
                let r = encode_record(&Command::Remove(key.clone()));
                proof {
                    assert(key_views(self.keys@)[i as int] == key@);
                }
                r
            },
        }
    }

    /// Takes into the index the record that was just appended to the log,
    /// and tells whether compaction is now due. Fails, and changes nothing,
    /// where `record` is not one complete record (`DeserializeError`) or the
    /// log would outgrow a `u64` (`Generic`).
    pub fn record_appended(&mut self, record: &[u8]) -> (r: Result<bool, Error>)
        requires
            old(self).wf(),
        ensures
            final(self).wf(),
            r is Ok <==> (record_command(record@) is Some && old(self).log_len() + record@.len()
                <= u64::MAX),
            r is Ok ==> final(self).records() == old(self).records().push(record@),
            r is Ok ==> final(self).log_bytes() == old(self).log_bytes() + record@,
            r is Ok ==> final(self).log_len() == old(self).log_len() + record@.len(),
            r is Ok ==> final(self).uncompacted() == old(self).uncompacted() + dead_added(
                old(self).slots(),
                record@,
            ),
            r is Ok ==> (record_command(record@) matches Some(CommandView::Put(k, v))
                ==> final(self)@ == old(self)@.insert(k, v)),
            r is Ok ==> (record_command(record@) matches Some(CommandView::Remove(k))
                ==> final(self)@ == old(self)@.remove(k)),
            r is Ok ==> (record_command(record@) matches Some(CommandView::Get(_))
                ==> final(self)@ == old(self)@),
            r matches Ok(due) ==> due == (final(self).uncompacted() > Self::MAX_UNCOMPACTED),
            r is Err ==> *final(self) == *old(self),
            r matches Err(e) ==> e is DeserializeError || e is Generic,
    {
        let (command, n) = match read_record(record, 0) {
            Ok(d) => d,
            Err(e) => {
                assert(record@.skip(0) =~= record@);
                return Err(e);
            },
        };
        assert(record@.skip(0) =~= record@);
        if n != record.len() {
            return Err(Error::DeserializeError("bytes after the record".to_owned()));
        }
        if self.log_pos > u64::MAX - n as u64 {
            return Err(Error::Generic("the log is too large".to_owned()));
        }
        proof {
            assert(record@.take(n as int) =~= record@);
            lemma_record_prefix(record@, n as nat, command@);
        }
        let ghost before = self.records@;
        self.process_command(command, n as u64, Ghost(record@));
        proof {
            lemma_flatten_push(before, record@);
            assert(self.records@.drop_last() =~= before);
            let a = replay(before).map_values(|s: Slot| s.value);
            match record_command(record@) {
                Some(CommandView::Put(k, v)) => {
                    assert(live(self.records@) =~= a.insert(k, v));
                },
                Some(CommandView::Remove(k)) => {
                    assert(live(self.records@) =~= a.remove(k));
                },
                _ => {},
            }
        }
        Ok(self.num_uncompacted > Self::MAX_UNCOMPACTED)
    }

    /// The position and whole length of the latest record of `key`, if it is
    /// live.
    pub fn locate(&self, key: &String) -> (r: Option<(u64, u64)>)
        requires
            self.wf(),
        ensures
            r is Some <==> self@.contains_key(key@),
            r matches Some(span) ==> span.0 == self.slots()[key@].pos && span.1
                == self.slots()[key@].size,
    {
        match self.find(key) {
            Some(i) => {
                proof {
                    assert(key_views(self.keys@)[i as int] == key@);
                }
                Some(self.spans[i])
            },
            None => None,
        }
    }

    /// The value that `record` sets for `key`. Where `record` is what the log
    /// holds at the slot of a live `key`, that is the key's value.
    pub fn read_value(&self, key: &String, record: &[u8]) -> (r: Result<String, Error>)
        requires
            self.wf(),
        ensures
            r matches Ok(v) ==> record_command(record@) == Some(CommandView::Put(key@, v@)),
            r is Err ==> !(record_command(record@) matches Some(CommandView::Put(k, _)) && k
                == key@),
            self@.contains_key(key@) && record@ == self.stored_record(key@) ==> (r matches Ok(v)
                && v@ == self@[key@]),
    {
        proof {
            assert(record@.skip(0) =~= record@);
            assert(record@.take(record@.len() as int) =~= record@);
            if self@.contains_key(key@) {
                lemma_slot_record(self.records@, key@);
            }
        }
        match read_record(record, 0) {
            Ok(d) => {
                if d.1 != record.len() {
                    return Err(Error::DeserializeError("bytes after the record".to_owned()));
                }
                match d.0 {
                    Command::Put(k, v) => {
                        if k == *key {
                            Ok(v)
                        } else {
                            Err(Error::Generic("the record holds another key".to_owned()))
                        }
                    },
                    _ => Err(Error::Generic("the record does not set a value".to_owned())),
                }
            },
            Err(e) => Err(e),
        }
    }

    /// The keys of the compaction plan, in its order.
    pub closed spec fn plan_keys(&self) -> Seq<Seq<char>> {
        key_views(self.keys@)
    }

    /// The compaction plan lists each live key's slot once, with the key in
    /// `plan_keys`, in ascending order of position.
    pub proof fn lemma_plan(&self)
        requires
            self.wf(),
        ensures
            index_agrees(self.plan_keys(), self.plan(), self.slots()),
            self.plan_keys().no_duplicates(),
            self.plan_keys().to_set() == self.slots().dom(),
            self.plan().len() == self.slots().dom().len(),
            self.plan().len() == self@.dom().len(),
    {
        let keys = self.plan_keys();
        assert(keys.no_duplicates());
        assert forall|k: Seq<char>| keys.to_set().contains(k) <==> self.slots().dom().contains(k) by {
            if keys.to_set().contains(k) {
                let i = choose|i: int| 0 <= i < keys.len() && keys[i] == k;
                assert(self.slots().contains_key(keys[i]));
            }
            if self.slots().contains_key(k) {
                let i = choose|i: int| 0 <= i < keys.len() && #[trigger] keys[i] == k;
                assert(keys.contains(k));
            }
        }
        assert(keys.to_set() =~= self.slots().dom());
        keys.unique_seq_to_set();
        assert(self@.dom() =~= self.slots().dom());
    }

    /// What compaction copies: the position and whole length of each live
    /// key's latest record, once each, in ascending order of position.
    pub fn compaction_plan(&self) -> (r: Vec<(u64, u64)>)
        ensures
            r@ == self.plan(),
    {
        let mut r: Vec<(u64, u64)> = Vec::new();
        let mut i: usize = 0;
        while i < self.spans.len()
            invariant
                i <= self.spans@.len(),
                r@ == self.spans@.take(i as int),
            decreases self.spans@.len() - i,
        {
            r.push(self.spans[i]);
            i += 1;
            assert(r@ =~= self.spans@.take(i as int));
        }
        assert(r@ =~= self.spans@);
        r
    }

    /// Takes in that the log has been rewritten to hold, in order, the
    /// records of the compaction plan and nothing else: each live key now
    /// points into the new log, whose every byte is live.
    pub fn compacted(&mut self)
        requires
            old(self).wf(),
        ensures
            final(self).wf(),
            final(self).records() == old(self).plan().map_values(|span: (u64, u64)| old(self).record_in(span)),
            final(self)@ == old(self)@,
            final(self).uncompacted() == 0,
            final(self).log_len() == old(self).live_bytes(),
            final(self).log_bytes().len() == old(self).live_bytes(),
            final(self).live_bytes() == old(self).live_bytes(),
    {
        let ghost old_spans = self.spans@;
        let ghost keys = key_views(self.keys@);
        let ghost old_slots = replay(self.records@);
        let ghost mut new_records: Seq<Seq<u8>> = Seq::empty();
        let ghost f = |span: (u64, u64)| old(self).record_in(span);
        let mut new_pos: u64 = 0;
        let mut i: usize = 0;
        proof {
            assert(keys.take(0) =~= Seq::<Seq<char>>::empty());
            assert(self.spans@.take(0) =~= Seq::<(u64, u64)>::empty());
            assert(index_agrees(keys.take(0), self.spans@.take(0), replay(new_records)));
        }
        while i < self.spans.len()
            invariant
                old(self).wf(),
                key_views(self.keys@) == keys,
                self.keys == old(self).keys,
                self.records == old(self).records,
                self.log_pos == old(self).log_pos,
                self.num_uncompacted == old(self).num_uncompacted,
                old_slots == replay(old(self).records@),
                old_spans == old(self).spans@,
                f == (|span: (u64, u64)| old(self).record_in(span)),
                self.spans@.len() == old_spans.len(),
                i <= old_spans.len(),
                forall|j: int| i <= j < old_spans.len() ==> self.spans@[j] == old_spans[j],
                forall|j: int| 0 <= j < old_spans.len() ==> self.spans@[j].1 == old_spans[j].1,
                forall|j: int| 0 <= j < i ==> self.spans@[j].0 < new_pos,
                new_records == old_spans.take(i as int).map_values(f),
                all_records(new_records),
                dead_bytes(new_records) == 0,
                new_pos == flatten(new_records).len(),
                new_pos == sizes(old_spans.take(i as int)),
                index_agrees(keys.take(i as int), self.spans@.take(i as int), replay(new_records)),
                forall|j: int|
                    0 <= j < i ==> #[trigger] replay(new_records)[keys[j]].value
                        == old_slots[keys[j]].value,
            decreases old_spans.len() - i,
        {
            let span = self.spans[i];
            let ghost k = keys[i as int];
            let ghost prefix = self.spans@.take(i as int);
            let ghost record = f(span);
            proof {
                assert(old_slots.contains_key(k));
                lemma_slot_record(old(self).records@, k);
                lemma_sizes_take(old_spans, i as int);
                lemma_flatten_push(new_records, record);
                assert(new_records.push(record).drop_last() =~= new_records);
                assert forall|j: int| 0 <= j < i implies keys.take(i as int)[j] != k by {
                    assert(keys.take(i as int)[j] == keys[j]);
                }
                assert forall|k2: Seq<char>| replay(new_records).contains_key(k2) implies k2 != k by {
                    let j = choose|j: int| 0 <= j < i && #[trigger] keys.take(i as int)[j] == k2;
                    assert(keys.take(i as int)[j] == keys[j]);
                }
                lemma_agrees_push(
                    keys.take(i as int),
                    self.spans@.take(i as int),
                    replay(new_records),
                    k,
                    (new_pos, span.1),
                    old_slots[k].value,
                );
            }
            self.spans[i] = (new_pos, span.1);
            proof {
                assert(!replay(new_records).contains_key(k));
                assert(dead_added(replay(new_records), record) == 0);
                new_records = new_records.push(record);
                assert(keys.take(i + 1) =~= keys.take(i as int).push(k));
                assert(old_spans.take(i + 1).map_values(f) =~= old_spans.take(i as int).map_values(f).push(record));
                assert forall|j: int| 0 <= j < new_records.len() implies (#[trigger] record_command(new_records[j])) is Some by {
                    if j < new_records.len() - 1 {
                        assert(new_records[j] == new_records.drop_last()[j]);
                    }
                }
            }
            new_pos = new_pos + span.1;
            i += 1;
            proof {
                assert(self.spans@.take(i as int) =~= prefix.push(((new_pos - span.1) as u64, span.1)));
            }
        }
        proof {
            assert(keys.take(i as int) =~= keys);
            assert(self.spans@.take(i as int) =~= self.spans@);
            assert(old_spans.take(i as int) =~= old_spans);
            lemma_sizes_same(self.spans@, old_spans);
            let new_slots = replay(new_records);
            assert forall|k: Seq<char>| #[trigger] live(new_records).contains_key(k) == live(old(self).records@).contains_key(k) by {
                if new_slots.contains_key(k) {
                    let j = choose|j: int| 0 <= j < keys.len() && #[trigger] keys[j] == k;
                    assert(old_slots.contains_key(keys[j]));
                }
                if old_slots.contains_key(k) {
                    let j = choose|j: int| 0 <= j < keys.len() && #[trigger] keys[j] == k;
                    assert(new_slots.contains_key(keys[j]));
                }
            }
            assert forall|k: Seq<char>| #[trigger] live(new_records).contains_key(k) implies live(new_records)[k] == live(old(self).records@)[k] by {
                let j = choose|j: int| 0 <= j < keys.len() && #[trigger] keys[j] == k;
                assert(replay(new_records)[keys[j]].value == old_slots[keys[j]].value);
            }
            assert(live(new_records) =~= live(old(self).records@));
        }
        self.records = Ghost(new_records);
        self.log_pos = new_pos;
        self.num_uncompacted = 0;
    }

    /// Whether a directory with these entries holds this engine's log.
    pub fn is_log_present(entries: &Vec<String>) -> (r: bool)
        ensures
            r == exists|i: int| 0 <= i < entries@.len() && (#[trigger] entries@[i])@ == Self::LOG_NAME@,
    {
        has_entry(entries, Self::LOG_NAME)
    }

    /// The length of the log.
    pub fn log_pos(&self) -> (r: u64)
        ensures
            r == self.log_len(),
    {
        self.log_pos
    }

    /// The bytes of the log that compaction would reclaim.
    pub fn num_uncompacted(&self) -> (r: u64)
        ensures
            r == self.uncompacted(),
    {
        self.num_uncompacted
    }

    /// The number of live keys.
    pub fn len(&self) -> (r: usize)
        requires
            self.wf(),
        ensures
            r == self.plan().len(),
            r == self@.dom().len(),
    {
        proof {
            self.lemma_plan();
        }
        self.spans.len()
    }
}

/// Set, then get: once the record that `set_record(k, v)` gives is taken in
/// (`record_appended`), `k` is live with value `v`, which `read_value`
/// returns for the record at its slot.
pub proof fn law_get_after_set(before: KvStore, after: KvStore, record: Seq<u8>, k: Seq<char>, v: Seq<char>)
    requires
        record_command(record) == Some(CommandView::Put(k, v)),
        after.records() == before.records().push(record),
    ensures
        after@.contains_key(k),
        after@[k] == v,
        record_command(after.stored_record(k)) == Some(CommandView::Put(k, v)),
{
    assert(after.records().drop_last() =~= before.records());
    lemma_slot_record(after.records(), k);
}

/// Set twice, then get: of two sets of `k`, the later one decides its value.
pub proof fn law_last_set_wins(
    before: KvStore,
    after: KvStore,
    first: Seq<u8>,
    second: Seq<u8>,
    k: Seq<char>,
    v1: Seq<char>,
    v2: Seq<char>,
)
    requires
        record_command(first) == Some(CommandView::Put(k, v1)),
        record_command(second) == Some(CommandView::Put(k, v2)),
        after.records() == before.records().push(first).push(second),
    ensures
        after@.contains_key(k),
        after@[k] == v2,
        record_command(after.stored_record(k)) == Some(CommandView::Put(k, v2)),
{
    assert(after.records().drop_last() =~= before.records().push(first));
    lemma_slot_record(after.records(), k);
}

/// Set, remove, then get: a key that was set and then removed is not live,
/// so `locate` finds nothing for it.
pub proof fn law_get_after_remove(
    before: KvStore,
    after: KvStore,
    set: Seq<u8>,
    remove: Seq<u8>,
    k: Seq<char>,
    v: Seq<char>,
)
    requires
        record_command(set) == Some(CommandView::Put(k, v)),
        record_command(remove) == Some(CommandView::Remove(k)),
        after.records() == before.records().push(set).push(remove),
    ensures
        !after@.contains_key(k),
{
    assert(after.records().drop_last() =~= before.records().push(set));
}

/// Durability: the bytes of a store's log scan back to its records, so
/// `open` over them succeeds and gives a store with those same records.
pub proof fn law_log_scans_back(s: KvStore)
    requires
        s.wf(),
    ensures
        parse_log(s.log_bytes()) == Some(s.records()),
{
    s.lemma_counters();
}

/// Reopening: a store with the same records as another has the same live
/// map, the same index, the same log length and the same uncompacted bytes.
pub proof fn law_reopen(s: KvStore, t: KvStore)
    requires
        s.wf(),
        t.wf(),
        t.records() == s.records(),
    ensures
        t@ == s@,
        t.slots() == s.slots(),
        t.log_len() == s.log_len(),
        t.uncompacted() == s.uncompacted(),
{
    s.lemma_counters();
    t.lemma_counters();
}

/// Scanning the same bytes twice gives the same live map, the same index,
/// the same log length and the same uncompacted bytes.
pub proof fn law_scan_deterministic(log: Seq<u8>, s: KvStore, t: KvStore)
    requires
        s.wf(),
        t.wf(),
        parse_log(log) == Some(s.records()),
        parse_log(log) == Some(t.records()),
    ensures
        t@ == s@,
        t.slots() == s.slots(),
        t.log_len() == s.log_len(),
        t.uncompacted() == s.uncompacted(),
{
    law_reopen(s, t);
}

} // verus!