//! The log's record format: an 8-byte little-endian length, then the
//! MessagePack array of strings that stands for a command (its tag, then its
//! fields).
use vstd::prelude::*;
use vstd::bytes::{
    lemma_auto_spec_u64_to_from_le_bytes, spec_u64_from_le_bytes, spec_u64_to_le_bytes,
    u64_from_le_bytes, u64_to_le_bytes,
};
use vstd::slice::slice_subrange;

use crate::error::Error;
use crate::msgpack::{
    decode_strings, encode_strings, fields_fit, msgpack_decoding, msgpack_encoding, strings_fit,
};

verus! {

/// One entry of the log; `Put` sets a key (tag "Set"). `Get` belongs to the vocabulary of the protocol and
/// is never written to the log.
pub enum Command {
    Get(String),
    Put(String, String),
    Remove(String),
}

/// A command over the characters of its strings.
pub enum CommandView {
    Get(Seq<char>),
    Put(Seq<char>, Seq<char>),
    Remove(Seq<char>),
}

impl View for Command {
    type V = CommandView;

    open spec fn view(&self) -> CommandView {
        match self {
            Command::Get(k) => CommandView::Get(k@),
            Command::Put(k, v) => CommandView::Put(k@, v@),
            Command::Remove(k) => CommandView::Remove(k@),
        }
    }
}

pub open spec fn get_tag() -> Seq<char> {
    seq!['G', 'e', 't']
}

pub open spec fn set_tag() -> Seq<char> {
    seq!['S', 'e', 't']
}

pub open spec fn remove_tag() -> Seq<char> {
    seq!['R', 'e', 'm', 'o', 'v', 'e']
}

/// The strings that stand for a command: its tag, then its fields.
pub open spec fn command_fields(c: CommandView) -> Seq<Seq<char>> {
    match c {
        CommandView::Get(k) => seq![get_tag(), k],
        CommandView::Put(k, v) => seq![set_tag(), k, v],
        CommandView::Remove(k) => seq![remove_tag(), k],
    }
}

/// The command that an array of strings stands for, if any.
pub open spec fn command_of_fields(f: Seq<Seq<char>>) -> Option<CommandView> {
    if f.len() == 3 && f[0] == set_tag() {
        Some(CommandView::Put(f[1], f[2]))
    } else if f.len() == 2 && f[0] == remove_tag() {
        Some(CommandView::Remove(f[1]))
    } else if f.len() == 2 && f[0] == get_tag() {
        Some(CommandView::Get(f[1]))
    } else {
        None
    }
}

/// The payload of a record that holds `c`.
pub open spec fn payload_of(c: CommandView) -> Seq<u8> {
    msgpack_encoding(command_fields(c))
}

/// A payload behind its 8-byte little-endian length.
pub open spec fn framed(payload: Seq<u8>) -> Seq<u8> {
    spec_u64_to_le_bytes(payload.len() as u64) + payload
}

/// The whole length and the command of the record at the front of `b`, where
/// `b` starts with a complete record: a length, then a payload of exactly
/// that many bytes that decodes to a command.
pub open spec fn record_at(b: Seq<u8>) -> Option<(nat, CommandView)> {
    if b.len() < 8 {
        None
    } else {
        let size = spec_u64_from_le_bytes(b.take(8)) as nat;
        if b.len() < 8 + size {
            None
        } else {
            match msgpack_decoding(b.subrange(8, 8 + size as int)) {
                Some(d) => if d.1 == size {
                    match command_of_fields(d.0) {
                        Some(c) => Some(((8 + size) as nat, c)),
                        None => None,
                    }
                } else {
                    None
                },
                None => None,
            }
        }
    }
}

/// The command of `f`, where `f` is exactly one complete record.
pub open spec fn record_command(f: Seq<u8>) -> Option<CommandView> {
    match record_at(f) {
        Some(r) => if r.0 == f.len() {
            Some(r.1)
        } else {
            None
        },
        None => None,
    }
}

/// The records that make up `b`, front to back, where `b` is a sequence of
/// complete records with nothing after the last.
pub open spec fn parse_log(b: Seq<u8>) -> Option<Seq<Seq<u8>>>
    decreases b.len(),
{
    if b.len() == 0 {
        Some(Seq::empty())
    } else {
        match record_at(b) {
            Some(r) => if 0 < r.0 <= b.len() {
                match parse_log(b.skip(r.0 as int)) {
                    Some(rest) => Some(seq![b.take(r.0 as int)] + rest),
                    None => None,
                }
            } else {
                None
            },
            None => None,
        }
    }
}

pub proof fn lemma_fields_round_trip(c: CommandView)
    ensures
        command_of_fields(command_fields(c)) == Some(c),
{
    assert(set_tag()[0] != get_tag()[0]);
    assert(set_tag() != remove_tag());
    assert(get_tag() != remove_tag());
}

fn tag_string(c: &Command) -> (r: String)
    ensures
        r@ == command_fields(c@)[0],
{
    match c {
        Command::Get(_) => {
            proof {
                reveal_strlit("Get");
            }
            let r = "Get".to_owned();
            assert(r@ =~= get_tag());
            r
        },
        Command::Put(_, _) => {
            proof {
                reveal_strlit("Set");
            }
            let r = "Set".to_owned();
            assert(r@ =~= set_tag());
            r
        },
        Command::Remove(_) => {
            proof {
                reveal_strlit("Remove");
            }
            let r = "Remove".to_owned();
            assert(r@ =~= remove_tag());
            r
        },
    }
}

/// The strings that stand for a command.
pub fn command_to_fields(c: &Command) -> (r: Vec<String>)
    ensures
        r.deep_view() == command_fields(c@),
{
    let mut r: Vec<String> = Vec::new();
    r.push(tag_string(c));
    match c {
        Command::Get(k) => {
            r.push(k.clone());
        },
        Command::Put(k, v) => {
            r.push(k.clone());
            r.push(v.clone());
        },
        Command::Remove(k) => {
            r.push(k.clone());
        },
    }
    assert(r.deep_view() =~= command_fields(c@));
    r
}

/// The command that an array of strings stands for, if any.
pub fn command_from_fields(f: &Vec<String>) -> (r: Option<Command>)
    ensures
        r matches Some(c) ==> command_of_fields(f.deep_view()) == Some(c@),
        r is None ==> command_of_fields(f.deep_view()) is None,
{
    let ghost d = f.deep_view();
    proof {
        reveal_strlit("Get");
        reveal_strlit("Set");
        reveal_strlit("Remove");
        assert("Get"@ =~= get_tag());
        assert("Set"@ =~= set_tag());
        assert("Remove"@ =~= remove_tag());
    }
    let set = "Set".to_owned();
    let remove = "Remove".to_owned();
    let get = "Get".to_owned();
    if f.len() == 3 && f[0] == set {
        assert(d[0] == set_tag());
        Some(Command::Put(f[1].clone(), f[2].clone()))
    } else if f.len() == 2 && f[0] == remove {
        assert(d[0] == remove_tag());
        Some(Command::Remove(f[1].clone()))
    } else if f.len() == 2 && f[0] == get {
        assert(d[0] == get_tag());
        Some(Command::Get(f[1].clone()))
    } else {
        assert(f.len() == 3 ==> d[0] != set_tag());
        assert(f.len() == 2 ==> d[0] != remove_tag() && d[0] != get_tag());
        None
    }
}

/// The record of a payload: the payload behind its 8-byte little-endian
/// length.
pub fn frame_payload(payload: &[u8]) -> (r: Vec<u8>)
    ensures
        r@ == framed(payload@),
        r@.len() == 8 + payload@.len(),
        spec_u64_from_le_bytes(r@.take(8)) == payload@.len(),
        r@.subrange(8, r@.len() as int) == payload@,
{
    let len = payload.len() as u64;
    let mut r = u64_to_le_bytes(len);
    r.extend_from_slice(payload);
    proof {
        lemma_auto_spec_u64_to_from_le_bytes();
        assert(r@ =~= framed(payload@));
        assert(r@.take(8) =~= spec_u64_to_le_bytes(len));
        assert(r@.subrange(8, r@.len() as int) =~= payload@);
    }
    r
}

/// The record that holds `c`: its payload, behind the payload's length.
/// Fails, with `SerializeError`, where a field is too long for MessagePack
/// or the encoder fails.
pub fn encode_record(c: &Command) -> (r: Result<Vec<u8>, Error>)
    ensures
        r matches Ok(b) ==> b@ == framed(payload_of(c@)),
        r matches Ok(b) ==> record_command(b@) == Some(c@),
        r is Ok ==> fields_fit(command_fields(c@)),
        !fields_fit(command_fields(c@)) ==> r is Err,
        r matches Err(e) ==> e is SerializeError,
{
    let fields = command_to_fields(c);
    if !strings_fit(&fields) {
        return Err(Error::SerializeError("a field is too long to encode".to_owned()));
    }
    match encode_strings(&fields) {
        Ok(payload) => {
            let b = frame_payload(payload.as_slice());
            proof {
                lemma_fields_round_trip(c@);
                assert(b@.subrange(8, 8 + payload@.len() as int) =~= payload@);
            }
            Ok(b)
        },
        Err(msg) => Err(Error::SerializeError(msg)),
    }
}

/// Reads the record that starts at `start`: its command and whole length.
pub fn read_record(log: &[u8], start: usize) -> (r: Result<(Command, usize), Error>)
    requires
        start <= log@.len(),
    ensures
        r matches Ok(d) ==> record_at(log@.skip(start as int)) == Some((d.1 as nat, d.0@)),
        r is Err ==> record_at(log@.skip(start as int)) is None,
        r matches Err(e) ==> e is DeserializeError,
{
    let ghost b = log@.skip(start as int);
    if log.len() - start < 8 {
        return Err(Error::DeserializeError("truncated record length".to_owned()));
    }
    let head = slice_subrange(log, start, start + 8);
    assert(head@ =~= b.take(8));
    let size = u64_from_le_bytes(head);
    let room = log.len() - start - 8;
    if size > room as u64 {
        return Err(Error::DeserializeError("truncated record".to_owned()));
    }
    let end = start + 8 + size as usize;
    let payload = slice_subrange(log, start + 8, end);
    assert(payload@ =~= b.subrange(8, 8 + size as int));
    match decode_strings(payload) {
        Err(msg) => Err(Error::DeserializeError(msg)),
        Ok(d) => {
            if d.1 != size {
                Err(Error::DeserializeError("record length does not match its payload".to_owned()))
            } else {
                match command_from_fields(&d.0) {
                    Some(c) => Ok((c, 8 + size as usize)),
                    None => Err(Error::DeserializeError("unknown command in record".to_owned())),
                }
            }
        },
    }
}

} // verus!
