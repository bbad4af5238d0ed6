//! MessagePack encoding of string arrays, through rmp_serde.
use vstd::prelude::*;
use vstd::string::StringSliceAdditionalSpecFns;
use vstd::utf8::encode_utf8;

verus! {

/// The largest length that MessagePack can give a string or an array.
pub open spec fn msgpack_limit() -> nat {
    0x1_0000_0000
}

/// A string whose UTF-8 encoding MessagePack can hold.
pub open spec fn field_fits(s: Seq<char>) -> bool {
    encode_utf8(s).len() < msgpack_limit()
}

/// An array of strings that MessagePack can hold.
pub open spec fn fields_fit(fields: Seq<Seq<char>>) -> bool {
    &&& fields.len() < msgpack_limit()
    &&& forall|i: int| 0 <= i < fields.len() ==> field_fits(#[trigger] fields[i])
}

/// `n` as two big-endian bytes.
pub open spec fn be16(n: nat) -> Seq<u8> {
    seq![(n / 256) as u8, (n % 256) as u8]
}

/// `n` as four big-endian bytes.
pub open spec fn be32(n: nat) -> Seq<u8> {
    seq![(n / 0x100_0000) as u8, (n / 0x1_0000 % 256) as u8, (n / 256 % 256) as u8, (n % 256) as u8]
}

/// The header of an array of `n` items: fixarray, array 16 or array 32.
pub open spec fn array_header(n: nat) -> Seq<u8> {
    if n < 16 {
        seq![(0x90 + n) as u8]
    } else if n < 0x1_0000 {
        seq![0xdcu8] + be16(n)
    } else {
        seq![0xddu8] + be32(n)
    }
}

/// The header of a string of `n` bytes: fixstr, str 8, str 16 or str 32.
pub open spec fn str_header(n: nat) -> Seq<u8> {
    if n < 32 {
        seq![(0xa0 + n) as u8]
    } else if n < 256 {
        seq![0xd9u8, n as u8]
    } else if n < 0x1_0000 {
        seq![0xdau8] + be16(n)
    } else {
        seq![0xdbu8] + be32(n)
    }
}

/// One string: its header, then its UTF-8 bytes.
pub open spec fn msgpack_str(s: Seq<char>) -> Seq<u8> {
    str_header(encode_utf8(s).len()) + encode_utf8(s)
}

/// The strings one after another.
pub open spec fn msgpack_strs(fields: Seq<Seq<char>>) -> Seq<u8>
    decreases fields.len(),
{
    if fields.len() == 0 {
        Seq::empty()
    } else {
        msgpack_strs(fields.drop_last()) + msgpack_str(fields.last())
    }
}

/// The MessagePack array of the strings.
pub open spec fn msgpack_encoding(fields: Seq<Seq<char>>) -> Seq<u8> {
    array_header(fields.len()) + msgpack_strs(fields)
}

/// What rmp_serde reads as an array of strings from the front of `bytes`:
/// the strings, and how many bytes they took; `None` where it fails.
pub uninterp spec fn msgpack_decoding(bytes: Seq<u8>) -> Option<(Seq<Seq<char>>, nat)>;

/// Relies on rmp_serde::to_vec, which writes a `Vec<String>` with rmp's
/// `write_array_len` and `write_str`: the MessagePack array of the strings,
/// which decodes back to the same strings and takes all of its bytes to do
/// so. Lengths are written as at most 32 bits, hence the bound. The writer
/// fails where it cannot reserve memory; the failure comes back as its
/// message.
#[verifier::external_body]
pub(crate) fn encode_strings(fields: &Vec<String>) -> (r: std::result::Result<Vec<u8>, String>)
    requires
        fields_fit(fields.deep_view()),
    ensures
        r matches Ok(b) ==> b@ == msgpack_encoding(fields.deep_view()),
        r matches Ok(b) ==> msgpack_decoding(b@) == Some((fields.deep_view(), b@.len())),
{
    rmp_serde::to_vec(fields).map_err(|e| e.to_string())
}

/// Relies on rmp_serde::Deserializer reading a `Vec<String>` from the front of
/// the bytes, and on its `position`: how many bytes that read. A failure comes
/// back as its message.
#[verifier::external_body]
pub(crate) fn decode_strings(bytes: &[u8]) -> (r: std::result::Result<(Vec<String>, u64), String>)
    ensures
        r matches Ok(d) ==> msgpack_decoding(bytes@) == Some((d.0.deep_view(), d.1 as nat)),
        r matches Ok(d) ==> d.1 <= bytes@.len(),
        r is Err ==> msgpack_decoding(bytes@) is None,
{
    let mut de = rmp_serde::Deserializer::new(std::io::Cursor::new(bytes));
    match <Vec<String> as serde::Deserialize>::deserialize(&mut de) {
        Ok(fields) => Ok((fields, de.position())),
        Err(e) => Err(e.to_string()),
    }
}

/// Whether MessagePack can hold these strings.
pub fn strings_fit(fields: &Vec<String>) -> (r: bool)
    ensures
        r == fields_fit(fields.deep_view()),
{
    let ghost d = fields.deep_view();
    if fields.len() as u64 >= 0x1_0000_0000u64 {
        return false;
    }
    let mut i: usize = 0;
    while i < fields.len()
        invariant
            i <= fields@.len(),
            d == fields.deep_view(),
            forall|j: int| 0 <= j < i ==> field_fits(#[trigger] d[j]),
        decreases fields@.len() - i,
    {
        let st = fields[i].as_str();
        let n = st.as_bytes().len();
        assert(d[i as int] == fields@[i as int]@);
        assert(st.spec_bytes() == encode_utf8(st@));
        if n as u64 >= 0x1_0000_0000u64 {
            assert(!field_fits(d[i as int]));
            return false;
        }
        i += 1;
    }
    true
}

} // verus!
