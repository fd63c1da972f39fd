//! Protobuf wire primitives: the varint and key encodings, as mathematical
//! sequences of bytes, and the calls into `prost::encoding` that produce and
//! read them.

use prost::encoding::{DecodeContext, WireType};
use vstd::prelude::*;
use vstd::utf8::*;

verus! {

/// Smallest field tag that protobuf allows.
pub const MIN_TAG: u32 = 1;

/// Largest field tag that protobuf allows.
pub const MAX_TAG: u32 = 536870911;

/// Wire type of varint fields (bool, int32, int64, uint64).
pub const WIRE_VARINT: u8 = 0;

/// Wire type of length-delimited fields (string, bytes, messages).
pub const WIRE_LEN: u8 = 2;

/// LEB128 encoding of a `u64`: seven bits per byte, low bits first, the high
/// bit set on every byte but the last.
pub open spec fn varint(v: u64) -> Seq<u8>
    decreases v,
{
    if v < 128 {
        seq![v as u8]
    } else {
        seq![((v % 128) + 128) as u8] + varint(v / 128)
    }
}

/// Values that a varint of at most `k` bytes can carry, where the last of
/// `k` bytes may hold a single bit.
pub open spec fn varint_cap(k: nat) -> int
    decreases k,
{
    if k <= 1 {
        2
    } else {
        128 * varint_cap((k - 1) as nat)
    }
}

/// Reads a varint from the front of `b`, using at most `k` bytes, where a
/// `k`-th byte may only be 0 or 1. Gives the value and the bytes consumed.
pub open spec fn read_varint_within(b: Seq<u8>, k: nat) -> Option<(int, nat)>
    decreases k,
{
    if k == 0 || b.len() == 0 {
        None
    } else if b[0] < 128 {
        if k == 1 && b[0] >= 2 {
            None
        } else {
            Some((b[0] as int, 1))
        }
    } else {
        match read_varint_within(b.drop_first(), (k - 1) as nat) {
            Some((v, n)) => Some(((b[0] - 128) + 128 * v, n + 1)),
            None => None,
        }
    }
}

/// What `prost::encoding::decode_varint` reads from the front of `b`: the
/// value and the number of bytes consumed; at most ten bytes, the tenth
/// holding at most one bit.
pub open spec fn read_varint(b: Seq<u8>) -> Option<(int, nat)> {
    read_varint_within(b, 10)
}

/// The key of a field: its tag and wire type, as a varint.
pub open spec fn key(tag: u32, wire: u8) -> Seq<u8> {
    varint((tag * 8 + wire) as u64)
}

/// What `prost::encoding::decode_key` reads from the front of `b`: tag, wire
/// type and bytes consumed. Keys above `u32::MAX`, wire types 6 and 7 and the
/// tag 0 are refused.
pub open spec fn read_key(b: Seq<u8>) -> Option<(u32, u8, nat)> {
    match read_varint(b) {
        None => None,
        Some((k, n)) => if k > u32::MAX || k % 8 > 5 || k / 8 < 1 {
            None
        } else {
            Some(((k / 8) as u32, (k % 8) as u8, n))
        },
    }
}

/// A varint field: key with wire type 0, then the value.
pub open spec fn varint_field(tag: u32, v: u64) -> Seq<u8> {
    key(tag, WIRE_VARINT) + varint(v)
}

/// A length-delimited field: key with wire type 2, the length as a varint,
/// then the payload.
pub open spec fn len_field(tag: u32, payload: Seq<u8>) -> Seq<u8> {
    key(tag, WIRE_LEN) + varint(payload.len() as u64) + payload
}

/// A string field: its UTF-8 bytes, length-delimited.
pub open spec fn string_field(tag: u32, s: Seq<char>) -> Seq<u8> {
    len_field(tag, encode_utf8(s))
}

/// A bool field: 1 or 0 as a varint.
pub open spec fn bool_field(tag: u32, b: bool) -> Seq<u8> {
    varint_field(tag, if b { 1 } else { 0 })
}

/// An int32 field: the value sign-extended to 64 bits.
pub open spec fn int32_field(tag: u32, v: i32) -> Seq<u8> {
    varint_field(tag, v as u64)
}

/// An int64 field: the value's two's complement bits.
pub open spec fn int64_field(tag: u32, v: i64) -> Seq<u8> {
    varint_field(tag, v as u64)
}

/// A proto3 string field as a message writes it: absent when empty.
pub open spec fn opt_string_field(tag: u32, s: Seq<char>) -> Seq<u8> {
    if s.len() == 0 {
        Seq::empty()
    } else {
        string_field(tag, s)
    }
}

/// A proto3 bytes field as a message writes it: absent when empty.
pub open spec fn opt_bytes_field(tag: u32, b: Seq<u8>) -> Seq<u8> {
    if b.len() == 0 {
        Seq::empty()
    } else {
        len_field(tag, b)
    }
}

/// A proto3 bool field as a message writes it: absent when false.
pub open spec fn opt_bool_field(tag: u32, b: bool) -> Seq<u8> {
    if !b {
        Seq::empty()
    } else {
        bool_field(tag, b)
    }
}

/// A proto3 int32 field as a message writes it: absent when zero.
pub open spec fn opt_int32_field(tag: u32, v: i32) -> Seq<u8> {
    if v == 0 {
        Seq::empty()
    } else {
        int32_field(tag, v)
    }
}

/// A proto3 int64 field as a message writes it: absent when zero.
pub open spec fn opt_int64_field(tag: u32, v: i64) -> Seq<u8> {
    if v == 0 {
        Seq::empty()
    } else {
        int64_field(tag, v)
    }
}

/// A proto3 uint64 field as a message writes it: absent when zero.
pub open spec fn opt_uint64_field(tag: u32, v: u64) -> Seq<u8> {
    if v == 0 {
        Seq::empty()
    } else {
        varint_field(tag, v)
    }
}

/// Reads the value of a varint field whose key announced wire type `w`:
/// the value and what follows it.
pub open spec fn read_varint_value(w: u8, b: Seq<u8>) -> Option<(int, Seq<u8>)> {
    if w != WIRE_VARINT {
        None
    } else {
        match read_varint(b) {
            Some((v, n)) => Some((v, b.skip(n as int))),
            None => None,
        }
    }
}

/// Reads the payload of a length-delimited field whose key announced wire
/// type `w`: the payload and what follows it.
pub open spec fn read_len_value(w: u8, b: Seq<u8>) -> Option<(Seq<u8>, Seq<u8>)> {
    if w != WIRE_LEN {
        None
    } else {
        read_delimited(b)
    }
}

/// Reads a length prefix and the payload it announces: the payload and what
/// follows it.
pub open spec fn read_delimited(b: Seq<u8>) -> Option<(Seq<u8>, Seq<u8>)> {
    match read_varint(b) {
        Some((len, n)) => if len > b.len() - n {
            None
        } else {
            Some((b.subrange(n as int, n + len), b.skip(n + len)))
        },
        None => None,
    }
}

/// Reads a string field's value: a length-delimited payload that must be
/// valid UTF-8.
pub open spec fn read_string_value(w: u8, b: Seq<u8>) -> Option<(Seq<char>, Seq<u8>)> {
    match read_len_value(w, b) {
        Some((p, r)) => if valid_utf8(p) {
            Some((decode_utf8(p), r))
        } else {
            None
        },
        None => None,
    }
}

/// How many bytes `prost::encoding::skip_field` passes over for an unknown
/// group (wire type 3) with tag `tag` at the front of `b`, when its decode
/// context allows `depth` more levels of nesting (prost's recursion limit,
/// 100, at the top level of a message): the nested fields up to the matching
/// end-group key; `None` where it fails.
pub uninterp spec fn skipped_group_len(depth: u32, tag: u32, b: Seq<u8>) -> Option<nat>;

/// Nesting levels that a decode context allows at the top level of a
/// message: prost's recursion limit.
pub open spec fn top_depth() -> u32 {
    100
}

/// How many bytes `prost::encoding::skip_field` passes over for an unknown
/// field of a wire type other than a group's: a varint, eight bytes, a
/// length-delimited payload with its length, or four bytes; `None` where
/// they are not there, and for an end-group key.
pub open spec fn skipped_plain_len(w: u8, b: Seq<u8>) -> Option<nat> {
    if w == 0 {
        match read_varint(b) {
            Some((_, n)) => Some(n),
            None => None,
        }
    } else if w == 1 {
        if b.len() >= 8 {
            Some(8)
        } else {
            None
        }
    } else if w == 2 {
        match read_varint(b) {
            Some((len, n)) => if len > b.len() - n {
                None
            } else {
                Some((n + len) as nat)
            },
            None => None,
        }
    } else if w == 5 {
        if b.len() >= 4 {
            Some(4)
        } else {
            None
        }
    } else {
        None
    }
}

/// A field that a message nested in another does not know is passed over,
/// with a decode context that allows `d` more levels of nesting.
pub open spec fn skip_step_at<M>(d: u32, m: M, t: u32, w: u8, b: Seq<u8>) -> Option<(M, Seq<u8>)> {
    let skipped = if w == 3 {
        skipped_group_len(d, t, b)
    } else {
        skipped_plain_len(w, b)
    };
    match skipped {
        Some(n) => if n <= b.len() {
            Some((m, b.skip(n as int)))
        } else {
            None
        },
        None => None,
    }
}

/// A field that a map entry does not know is passed over, one nesting level
/// below the top.
pub open spec fn skip_nested_step<M>(m: M, t: u32, w: u8, b: Seq<u8>) -> Option<(M, Seq<u8>)> {
    skip_step_at((top_depth() - 1) as u32, m, t, w, b)
}

/// Passing over one field of a message that knows no field, `d` levels of
/// nesting allowed.
pub open spec fn pass_step(d: u32, m: (), t: u32, w: u8, b: Seq<u8>) -> Option<((), Seq<u8>)> {
    skip_step_at(d, m, t, w, b)
}

/// `pass_step` as a function value.
pub open spec fn pass_steps(d: u32) -> spec_fn((), u32, u8, Seq<u8>) -> Option<((), Seq<u8>)> {
    |m: (), t: u32, w: u8, b: Seq<u8>| pass_step(d, m, t, w, b)
}

/// Whether prost can pass over every field of the payload `p` of a nested
/// message, with `d` levels of nesting allowed: what any nested message
/// needs before its own fields are read.
pub open spec fn nested_ok(d: u32, p: Seq<u8>) -> bool {
    decode_fields((), p, pass_steps(d)) is Some
}

/// Reads one field of a `map<string, string>` entry (key = 1, value = 2)
/// into the pair `m`.
pub open spec fn map_entry_step(m: (Seq<char>, Seq<char>), t: u32, w: u8, b: Seq<u8>) -> Option<
    ((Seq<char>, Seq<char>), Seq<u8>),
> {
    if t == 1 {
        match read_string_value(w, b) {
            Some((k, r)) => Some(((k, m.1), r)),
            None => None,
        }
    } else if t == 2 {
        match read_string_value(w, b) {
            Some((v, r)) => Some(((m.0, v), r)),
            None => None,
        }
    } else {
        skip_nested_step(m, t, w, b)
    }
}

/// `map_entry_step` as a function value.
pub open spec fn map_entry_steps() -> spec_fn((Seq<char>, Seq<char>), u32, u8, Seq<u8>) -> Option<
    ((Seq<char>, Seq<char>), Seq<u8>),
> {
    |m: (Seq<char>, Seq<char>), t: u32, w: u8, b: Seq<u8>| map_entry_step(m, t, w, b)
}

/// Decoding of the payload of a map entry: key and value, both empty where
/// absent, the last occurrence of each winning.
pub open spec fn decode_map_entry(p: Seq<u8>) -> Option<(Seq<char>, Seq<char>)> {
    decode_fields((Seq::<char>::empty(), Seq::<char>::empty()), p, map_entry_steps())
}

/// What `prost::encoding::btree_map::merge` reads for one entry of a
/// `map<string, string>` field: a length prefix (read whatever the key's wire
/// type), then the entry's payload; the key, the value and what follows.
pub open spec fn read_map_entry(b: Seq<u8>) -> Option<(Seq<char>, Seq<char>, Seq<u8>)> {
    match read_delimited(b) {
        Some((p, r)) => match decode_map_entry(p) {
            Some((k, v)) => Some((k, v, r)),
            None => None,
        },
        None => None,
    }
}

/// The map that entries stand for: each entry inserted in order, so a later
/// entry of a key replaces an earlier one.
pub open spec fn string_map(es: Seq<(Seq<char>, Seq<char>)>) -> Map<Seq<char>, Seq<char>>
    decreases es.len(),
{
    if es.len() == 0 {
        Map::empty()
    } else {
        string_map(es.drop_last()).insert(es.last().0, es.last().1)
    }
}

/// Whether `p` is the payload of a `google.protobuf.Struct` that prost
/// decodes one nesting level below a top-level message.
pub uninterp spec fn struct_payload_decodes(p: Seq<u8>) -> bool;

/// `prost::encoding::string::encode`: appends the key (wire type 2), the
/// length of the UTF-8 bytes and the bytes.
#[verifier::external_body]
pub fn put_string(tag: u32, value: &String, buf: &mut Vec<u8>)
    requires
        MIN_TAG <= tag <= MAX_TAG,
    ensures
        final(buf)@ == old(buf)@ + string_field(tag, value@),
{
    prost::encoding::string::encode(tag, value, buf)
}

/// `prost::encoding::bytes::encode`: appends the key (wire type 2), the
/// length and the bytes.
#[verifier::external_body]
pub fn put_bytes(tag: u32, value: &Vec<u8>, buf: &mut Vec<u8>)
    requires
        MIN_TAG <= tag <= MAX_TAG,
    ensures
        final(buf)@ == old(buf)@ + len_field(tag, value@),
{
    prost::encoding::bytes::encode(tag, value, buf)
}

/// `prost::encoding::bool::encode`: appends the key (wire type 0) and 1 or 0.
#[verifier::external_body]
pub fn put_bool(tag: u32, value: bool, buf: &mut Vec<u8>)
    requires
        MIN_TAG <= tag <= MAX_TAG,
    ensures
        final(buf)@ == old(buf)@ + bool_field(tag, value),
{
    prost::encoding::bool::encode(tag, &value, buf)
}

/// `prost::encoding::int32::encode`: appends the key (wire type 0) and the
/// value sign-extended to 64 bits as a varint.
#[verifier::external_body]
pub fn put_int32(tag: u32, value: i32, buf: &mut Vec<u8>)
    requires
        MIN_TAG <= tag <= MAX_TAG,
    ensures
        final(buf)@ == old(buf)@ + int32_field(tag, value),
{
    prost::encoding::int32::encode(tag, &value, buf)
}

/// `prost::encoding::int64::encode`: appends the key (wire type 0) and the
/// value's bits as a varint.
#[verifier::external_body]
pub fn put_int64(tag: u32, value: i64, buf: &mut Vec<u8>)
    requires
        MIN_TAG <= tag <= MAX_TAG,
    ensures
        final(buf)@ == old(buf)@ + int64_field(tag, value),
{
    prost::encoding::int64::encode(tag, &value, buf)
}

/// `prost::encoding::uint64::encode`: appends the key (wire type 0) and the
/// value as a varint.
#[verifier::external_body]
pub fn put_uint64(tag: u32, value: u64, buf: &mut Vec<u8>)
    requires
        MIN_TAG <= tag <= MAX_TAG,
    ensures
        final(buf)@ == old(buf)@ + varint_field(tag, value),
{
    prost::encoding::uint64::encode(tag, &value, buf)
}

/// `prost::encoding::decode_key`: reads a field key from the front of `buf`
/// and gives its tag, its wire type as a number and the bytes after it.
#[verifier::external_body]
pub fn take_key<'a>(buf: &'a [u8]) -> (res: Option<(u32, u8, &'a [u8])>)
    ensures
        match read_key(buf@) {
            Some((t, w, n)) => res matches Some((t2, w2, r)) && t2 == t && w2 == w && r@
                == buf@.skip(n as int),
            None => res is None,
        },
{
    let mut b = buf;
    match prost::encoding::decode_key(&mut b) {
        Ok((tag, wire_type)) => Some((tag, wire_type as u8, b)),
        Err(_) => None,
    }
}

/// `prost::encoding::bool::merge`: reads a varint value, nonzero meaning
/// true.
#[verifier::external_body]
pub fn merge_bool<'a>(w: u8, value: &mut bool, buf: &'a [u8]) -> (rest: Option<&'a [u8]>)
    requires
        w <= 5,
    ensures
        match read_varint_value(w, buf@) {
            Some((v, r)) => rest matches Some(s) && s@ == r && *final(value) == (v != 0),
            None => rest is None,
        },
{
    let mut b = buf;
    let wt = match WireType::try_from(u64::from(w)) {
        Ok(wt) => wt,
        Err(_) => return None,
    };
    match prost::encoding::bool::merge(wt, value, &mut b, DecodeContext::default()) {
        Ok(()) => Some(b),
        Err(_) => None,
    }
}

/// `prost::encoding::int32::merge`: reads a varint value and keeps its low
/// 32 bits.
#[verifier::external_body]
pub fn merge_int32<'a>(w: u8, value: &mut i32, buf: &'a [u8]) -> (rest: Option<&'a [u8]>)
    requires
        w <= 5,
    ensures
        match read_varint_value(w, buf@) {
            Some((v, r)) => rest matches Some(s) && s@ == r && *final(value) == (v as u64) as i32,
            None => rest is None,
        },
{
    let mut b = buf;
    let wt = match WireType::try_from(u64::from(w)) {
        Ok(wt) => wt,
        Err(_) => return None,
    };
    match prost::encoding::int32::merge(wt, value, &mut b, DecodeContext::default()) {
        Ok(()) => Some(b),
        Err(_) => None,
    }
}

/// `prost::encoding::int64::merge`: reads a varint value as two's
/// complement bits.
#[verifier::external_body]
pub fn merge_int64<'a>(w: u8, value: &mut i64, buf: &'a [u8]) -> (rest: Option<&'a [u8]>)
    requires
        w <= 5,
    ensures
        match read_varint_value(w, buf@) {
            Some((v, r)) => rest matches Some(s) && s@ == r && *final(value) == (v as u64) as i64,
            None => rest is None,
        },
{
    let mut b = buf;
    let wt = match WireType::try_from(u64::from(w)) {
        Ok(wt) => wt,
        Err(_) => return None,
    };
    match prost::encoding::int64::merge(wt, value, &mut b, DecodeContext::default()) {
        Ok(()) => Some(b),
        Err(_) => None,
    }
}

/// `prost::encoding::uint64::merge`: reads a varint value.
#[verifier::external_body]
pub fn merge_uint64<'a>(w: u8, value: &mut u64, buf: &'a [u8]) -> (rest: Option<&'a [u8]>)
    requires
        w <= 5,
    ensures
        match read_varint_value(w, buf@) {
            Some((v, r)) => rest matches Some(s) && s@ == r && *final(value) == v,
            None => rest is None,
        },
{
    let mut b = buf;
    let wt = match WireType::try_from(u64::from(w)) {
        Ok(wt) => wt,
        Err(_) => return None,
    };
    match prost::encoding::uint64::merge(wt, value, &mut b, DecodeContext::default()) {
        Ok(()) => Some(b),
        Err(_) => None,
    }
}

/// `prost::encoding::string::merge`: reads a length-delimited payload that
/// must be valid UTF-8, and takes it as the new value.
#[verifier::external_body]
pub fn merge_string<'a>(w: u8, value: &mut String, buf: &'a [u8]) -> (rest: Option<&'a [u8]>)
    requires
        w <= 5,
    ensures
        match read_string_value(w, buf@) {
            Some((v, r)) => rest matches Some(s) && s@ == r && final(value)@ == v,
            None => rest is None,
        },
{
    let mut b = buf;
    let wt = match WireType::try_from(u64::from(w)) {
        Ok(wt) => wt,
        Err(_) => return None,
    };
    match prost::encoding::string::merge(wt, value, &mut b, DecodeContext::default()) {
        Ok(()) => Some(b),
        Err(_) => None,
    }
}

/// `prost::encoding::bytes::merge`: reads a length-delimited payload and
/// takes it as the new value.
#[verifier::external_body]
pub fn merge_bytes<'a>(w: u8, value: &mut Vec<u8>, buf: &'a [u8]) -> (rest: Option<&'a [u8]>)
    requires
        w <= 5,
    ensures
        match read_len_value(w, buf@) {
            Some((p, r)) => rest matches Some(s) && s@ == r && final(value)@ == p,
            None => rest is None,
        },
{
    let mut b = buf;
    let wt = match WireType::try_from(u64::from(w)) {
        Ok(wt) => wt,
        Err(_) => return None,
    };
    match prost::encoding::bytes::merge(wt, value, &mut b, DecodeContext::default()) {
        Ok(()) => Some(b),
        Err(_) => None,
    }
}

/// `prost::encoding::skip_field` with the top-level decode context: passes
/// over the value of a field that the message does not know. What it skips
/// of a group is left to `skipped_group_len`; the rest is stated. A group
/// that prost can skip with fewer levels of nesting allowed it skips the
/// same way with the whole limit, as the limit is only ever checked to stop.
#[verifier::external_body]
pub fn skip<'a>(w: u8, tag: u32, buf: &'a [u8]) -> (rest: Option<&'a [u8]>)
    requires
        w <= 5,
    ensures
        w == 3 ==> match skipped_group_len(top_depth(), tag, buf@) {
            Some(n) => n <= buf@.len() && (rest matches Some(s) && s@ == buf@.skip(n as int)),
            None => rest is None,
        },
        w != 3 ==> match skipped_plain_len(w, buf@) {
            Some(n) => rest matches Some(s) && s@ == buf@.skip(n as int),
            None => rest is None,
        },
        w == 3 ==> forall|d: u32|
            d <= top_depth() ==> match #[trigger] skipped_group_len(d, tag, buf@) {
                Some(n) => rest matches Some(s) && s@ == buf@.skip(n as int),
                None => true,
            },
{
    let mut b = buf;
    let wt = match WireType::try_from(u64::from(w)) {
        Ok(wt) => wt,
        Err(_) => return None,
    };
    match prost::encoding::skip_field(wt, tag, &mut b, DecodeContext::default()) {
        Ok(()) => Some(b),
        Err(_) => None,
    }
}

/// `prost::encoding::message::merge` into `()`, the message that knows no
/// field, with the top-level decode context: reads a length-delimited
/// payload and passes over each of its fields one nesting level down.
#[verifier::external_body]
pub fn check_message<'a>(w: u8, buf: &'a [u8]) -> (rest: Option<&'a [u8]>)
    requires
        w <= 5,
    ensures
        match read_len_value(w, buf@) {
            Some((p, r)) => if nested_ok((top_depth() - 1) as u32, p) {
                rest matches Some(s) && s@ == r
            } else {
                rest is None
            },
            None => rest is None,
        },
{
    let mut b = buf;
    let wt = match WireType::try_from(u64::from(w)) {
        Ok(wt) => wt,
        Err(_) => return None,
    };
    let mut unit = ();
    match prost::encoding::message::merge(wt, &mut unit, &mut b, DecodeContext::default()) {
        Ok(()) => Some(b),
        Err(_) => None,
    }
}

/// Passing over one field of an entry of a map whose values are messages,
/// one nesting level below the top: a string key, a value whose fields are
/// passed over one level further down.
pub open spec fn message_entry_pass_step(m: (), t: u32, w: u8, b: Seq<u8>) -> Option<((), Seq<u8>)> {
    if t == 1 {
        match read_string_value(w, b) {
            Some((_, r)) => Some(((), r)),
            None => None,
        }
    } else if t == 2 {
        match read_len_value(w, b) {
            Some((p, r)) => if nested_ok((top_depth() - 2) as u32, p) {
                Some(((), r))
            } else {
                None
            },
            None => None,
        }
    } else {
        skip_step_at((top_depth() - 1) as u32, m, t, w, b)
    }
}

/// `message_entry_pass_step` as a function value.
pub open spec fn message_entry_pass_steps() -> spec_fn((), u32, u8, Seq<u8>) -> Option<
    ((), Seq<u8>),
> {
    |m: (), t: u32, w: u8, b: Seq<u8>| message_entry_pass_step(m, t, w, b)
}

/// `prost::encoding::btree_map::merge` with `string::merge` for the key,
/// `message::merge` into `()` for the value, and the top-level decode
/// context: reads one entry of a map field whose values are messages (a
/// length prefix, read whatever the key's wire type, then the entry), and
/// passes over the value's fields.
#[verifier::external_body]
pub fn check_message_map_entry<'a>(buf: &'a [u8]) -> (rest: Option<&'a [u8]>)
    ensures
        match read_delimited(buf@) {
            Some((p, r)) => if decode_fields((), p, message_entry_pass_steps()) is Some {
                rest matches Some(s) && s@ == r
            } else {
                rest is None
            },
            None => rest is None,
        },
{
    let mut b = buf;
    let mut map: std::collections::BTreeMap<String, ()> = std::collections::BTreeMap::new();
    let string_merge = prost::encoding::string::merge;
    let unit_merge = prost::encoding::message::merge::<(), &[u8]>;
    match prost::encoding::btree_map::merge(string_merge, unit_merge, &mut map, &mut b, DecodeContext::default()) {
        Ok(()) => Some(b),
        Err(_) => None,
    }
}

/// Where every field that `s` reads is one that `v` passes over to the same
/// point, bytes that decode with `s` pass `v` too.
pub proof fn lemma_decode_refines<M>(
    m: M,
    p: Seq<u8>,
    s: spec_fn(M, u32, u8, Seq<u8>) -> Option<(M, Seq<u8>)>,
    v: spec_fn((), u32, u8, Seq<u8>) -> Option<((), Seq<u8>)>,
)
    requires
        forall|m2: M, t: u32, w: u8, b: Seq<u8>|
            (#[trigger] s(m2, t, w, b)) matches Some((_, r)) ==> v((), t, w, b) == Some(((), r)),
    ensures
        decode_fields(m, p, s) is Some ==> decode_fields((), p, v) is Some,
    decreases p.len(),
{
    if p.len() > 0 {
        match read_key(p) {
            Some((t, w, n)) => match s(m, t, w, p.skip(n as int)) {
                Some((m2, r)) => {
                    if r.len() < p.len() {
                        lemma_decode_refines(m2, r, s, v);
                    }
                },
                None => {},
            },
            None => {},
        }
    }
}

/// A varint that a known field reads is what prost passes over for it.
pub proof fn lemma_varint_value_passes(d: u32, t: u32, b: Seq<u8>)
    ensures
        read_varint_value(WIRE_VARINT, b) matches Some((_, r)) ==> pass_step(d, (), t, WIRE_VARINT, b)
            == Some(((), r)),
{
    lemma_read_varint_bounds(b);
}

/// A length-delimited value that a known field reads is what prost passes
/// over for it.
pub proof fn lemma_len_value_passes(d: u32, t: u32, b: Seq<u8>)
    ensures
        read_len_value(WIRE_LEN, b) matches Some((_, r)) ==> pass_step(d, (), t, WIRE_LEN, b) == Some(
            ((), r),
        ),
{
    lemma_read_varint_bounds(b);
}

/// `prost::encoding::btree_map::merge` with `string::merge` for keys and
/// values and the top-level decode context: reads one entry of a
/// `map<string, string>` field. The map it fills holds that one entry, which
/// is handed out; its key and value are stated by `read_map_entry`.
#[verifier::external_body]
pub fn merge_string_map_entry<'a>(buf: &'a [u8]) -> (res: Option<(String, String, &'a [u8])>)
    ensures
        match read_map_entry(buf@) {
            Some((k, v, r)) => res matches Some((k2, v2, s)) && k2@ == k && v2@ == v && s@ == r,
            None => res is None,
        },
{
    let mut b = buf;
    let mut map: std::collections::BTreeMap<String, String> = std::collections::BTreeMap::new();
    let string_merge = prost::encoding::string::merge;
    match prost::encoding::btree_map::merge(string_merge, string_merge, &mut map, &mut b, DecodeContext::default()) {
        Ok(()) => map.into_iter().next().map(|(k, v)| (k, v, b)),
        Err(_) => None,
    }
}

/// `prost::encoding::message::merge_repeated` for a repeated
/// `google.protobuf.Struct` field, with the top-level decode context: reads
/// a length-delimited payload and decodes it as a `Struct` one level down.
/// The decoded `Struct` is dropped; its payload is read by `merge_bytes`.
/// Whether a payload decodes does not depend on a `Struct` that it is merged
/// into, so the same check serves an optional `Struct` field.
#[verifier::external_body]
pub fn check_struct<'a>(w: u8, buf: &'a [u8]) -> (rest: Option<&'a [u8]>)
    requires
        w <= 5,
    ensures
        match read_len_value(w, buf@) {
            Some((p, r)) => if struct_payload_decodes(p) {
                rest matches Some(s) && s@ == r
            } else {
                rest is None
            },
            None => rest is None,
        },
{
    let mut b = buf;
    let wt = match WireType::try_from(u64::from(w)) {
        Ok(wt) => wt,
        Err(_) => return None,
    };
    let mut rows: Vec<prost_types::Struct> = Vec::new();
    let ctx = DecodeContext::default();
    match prost::encoding::message::merge_repeated(wt, &mut rows, &mut b, ctx) {
        Ok(()) => Some(b),
        Err(_) => None,
    }
}

/// Repeated string field: one string field per element, in order.
pub open spec fn string_list_fields(tag: u32, ss: Seq<Seq<char>>) -> Seq<u8>
    decreases ss.len(),
{
    if ss.len() == 0 {
        Seq::empty()
    } else {
        string_list_fields(tag, ss.drop_last()) + string_field(tag, ss.last())
    }
}

/// Repeated length-delimited field (bytes or embedded messages): one field
/// per element, in order.
pub open spec fn len_list_fields(tag: u32, ps: Seq<Seq<u8>>) -> Seq<u8>
    decreases ps.len(),
{
    if ps.len() == 0 {
        Seq::empty()
    } else {
        len_list_fields(tag, ps.drop_last()) + len_field(tag, ps.last())
    }
}

/// The payload of one entry of a `map<string, string>` field: key as field
/// 1 and value as field 2, each absent when empty.
pub open spec fn map_entry(k: Seq<char>, v: Seq<char>) -> Seq<u8> {
    opt_string_field(1, k) + opt_string_field(2, v)
}

/// A `map<string, string>` field: one length-delimited entry per pair, in
/// the order given.
pub open spec fn string_map_fields(tag: u32, es: Seq<(Seq<char>, Seq<char>)>) -> Seq<u8>
    decreases es.len(),
{
    if es.len() == 0 {
        Seq::empty()
    } else {
        string_map_fields(tag, es.drop_last()) + len_field(
            tag,
            map_entry(es.last().0, es.last().1),
        )
    }
}

/// Decoding of a whole message as prost's `Message::merge` does it: read a
/// key, let `step` read that field's value into the message, repeat until
/// the bytes run out. `None` where any key or value is malformed.
pub open spec fn decode_fields<M>(
    m: M,
    b: Seq<u8>,
    step: spec_fn(M, u32, u8, Seq<u8>) -> Option<(M, Seq<u8>)>,
) -> Option<M>
    decreases b.len(),
{
    if b.len() == 0 {
        Some(m)
    } else {
        match read_key(b) {
            None => None,
            Some((t, w, n)) => match step(m, t, w, b.skip(n as int)) {
                None => None,
                Some((m2, r)) => if r.len() < b.len() {
                    decode_fields(m2, r, step)
                } else {
                    None
                },
            },
        }
    }
}

/// A field that a message does not know is passed over.
pub open spec fn skip_step<M>(m: M, t: u32, w: u8, b: Seq<u8>) -> Option<(M, Seq<u8>)> {
    let skipped = if w == 3 {
        skipped_group_len(top_depth(), t, b)
    } else {
        skipped_plain_len(w, b)
    };
    match skipped {
        Some(n) => Some((m, b.skip(n as int))),
        None => None,
    }
}

/// Appends a proto3 string field, leaving it out when the string is empty.
pub fn put_opt_string(tag: u32, value: &String, buf: &mut Vec<u8>)
    requires
        MIN_TAG <= tag <= MAX_TAG,
    ensures
        final(buf)@ == old(buf)@ + opt_string_field(tag, value@),
{
    if value.as_str().is_empty() {
        assert(old(buf)@ + opt_string_field(tag, value@) =~= old(buf)@);
    } else {
        put_string(tag, value, buf);
    }
}

/// Appends a proto3 bytes field, leaving it out when empty.
pub fn put_opt_bytes(tag: u32, value: &Vec<u8>, buf: &mut Vec<u8>)
    requires
        MIN_TAG <= tag <= MAX_TAG,
    ensures
        final(buf)@ == old(buf)@ + opt_bytes_field(tag, value@),
{
    if value.len() == 0 {
        assert(old(buf)@ + opt_bytes_field(tag, value@) =~= old(buf)@);
    } else {
        put_bytes(tag, value, buf);
    }
}

/// Appends a proto3 bool field, leaving it out when false.
pub fn put_opt_bool(tag: u32, value: bool, buf: &mut Vec<u8>)
    requires
        MIN_TAG <= tag <= MAX_TAG,
    ensures
        final(buf)@ == old(buf)@ + opt_bool_field(tag, value),
{
    if !value {
        assert(old(buf)@ + opt_bool_field(tag, value) =~= old(buf)@);
    } else {
        put_bool(tag, value, buf);
    }
}

/// Appends a proto3 int32 field, leaving it out when zero.
pub fn put_opt_int32(tag: u32, value: i32, buf: &mut Vec<u8>)
    requires
        MIN_TAG <= tag <= MAX_TAG,
    ensures
        final(buf)@ == old(buf)@ + opt_int32_field(tag, value),
{
    if value == 0 {
        assert(old(buf)@ + opt_int32_field(tag, value) =~= old(buf)@);
    } else {
        put_int32(tag, value, buf);
    }
}

/// Appends a proto3 int64 field, leaving it out when zero.
pub fn put_opt_int64(tag: u32, value: i64, buf: &mut Vec<u8>)
    requires
        MIN_TAG <= tag <= MAX_TAG,
    ensures
        final(buf)@ == old(buf)@ + opt_int64_field(tag, value),
{
    if value == 0 {
        assert(old(buf)@ + opt_int64_field(tag, value) =~= old(buf)@);
    } else {
        put_int64(tag, value, buf);
    }
}

/// Appends a proto3 uint64 field, leaving it out when zero.
pub fn put_opt_uint64(tag: u32, value: u64, buf: &mut Vec<u8>)
    requires
        MIN_TAG <= tag <= MAX_TAG,
    ensures
        final(buf)@ == old(buf)@ + opt_uint64_field(tag, value),
{
    if value == 0 {
        assert(old(buf)@ + opt_uint64_field(tag, value) =~= old(buf)@);
    } else {
        put_uint64(tag, value, buf);
    }
}

/// An optional embedded message, given by its encoded payload: a
/// length-delimited field when present, even when the payload is empty.
pub open spec fn opt_message_field(tag: u32, value: Option<Seq<u8>>) -> Seq<u8> {
    match value {
        Some(p) => len_field(tag, p),
        None => Seq::empty(),
    }
}

/// The bytes of an optional embedded payload.
pub open spec fn payload_view(value: Option<Vec<u8>>) -> Option<Seq<u8>> {
    match value {
        Some(p) => Some(p@),
        None => None,
    }
}

/// Appends an optional embedded message, given by its encoded payload.
pub fn put_opt_message(tag: u32, value: &Option<Vec<u8>>, buf: &mut Vec<u8>)
    requires
        MIN_TAG <= tag <= MAX_TAG,
    ensures
        final(buf)@ == old(buf)@ + opt_message_field(tag, payload_view(*value)),
{
    match value {
        Some(p) => put_bytes(tag, p, buf),
        None => {
            assert(old(buf)@ + Seq::<u8>::empty() =~= old(buf)@);
        },
    }
}

/// Appends a repeated string field, every element included.
pub fn put_string_list(tag: u32, values: &Vec<String>, buf: &mut Vec<u8>)
    requires
        MIN_TAG <= tag <= MAX_TAG,
    ensures
        final(buf)@ == old(buf)@ + string_list_fields(tag, values.deep_view()),
{
    let ghost start = buf@;
    let ghost vs = values.deep_view();
    let mut i: usize = 0;
    assert(vs.take(0) =~= Seq::<Seq<char>>::empty());
    assert(start + string_list_fields(tag, vs.take(0)) =~= start);
    while i < values.len()
        invariant
            MIN_TAG <= tag <= MAX_TAG,
            0 <= i <= values.len(),
            vs == values.deep_view(),
            buf@ == start + string_list_fields(tag, vs.take(i as int)),
        decreases values.len() - i,
    {
        put_string(tag, &values[i], buf);
        assert(vs.take(i + 1).drop_last() =~= vs.take(i as int));
        assert(vs.take(i + 1).last() == values[i as int]@);
        i += 1;
    }
    assert(vs.take(values.len() as int) =~= vs);
}

/// Appends a repeated length-delimited field, every element included.
pub fn put_len_list(tag: u32, values: &Vec<Vec<u8>>, buf: &mut Vec<u8>)
    requires
        MIN_TAG <= tag <= MAX_TAG,
    ensures
        final(buf)@ == old(buf)@ + len_list_fields(tag, values.deep_view()),
{
    let ghost start = buf@;
    let ghost vs = values.deep_view();
    let mut i: usize = 0;
    assert(vs.take(0) =~= Seq::<Seq<u8>>::empty());
    assert(start + len_list_fields(tag, vs.take(0)) =~= start);
    while i < values.len()
        invariant
            MIN_TAG <= tag <= MAX_TAG,
            0 <= i <= values.len(),
            vs == values.deep_view(),
            buf@ == start + len_list_fields(tag, vs.take(i as int)),
        decreases values.len() - i,
    {
        put_bytes(tag, &values[i], buf);
        assert(vs.take(i + 1).drop_last() =~= vs.take(i as int));
        assert(vs.take(i + 1).last() == values[i as int]@);
        i += 1;
    }
    assert(vs.take(values.len() as int) =~= vs);
}

/// Appends a `map<string, string>` field, one entry per pair in the order
/// given, as `prost::encoding::btree_map::encode` writes each entry.
pub fn put_string_map(tag: u32, entries: &Vec<(String, String)>, buf: &mut Vec<u8>)
    requires
        MIN_TAG <= tag <= MAX_TAG,
    ensures
        final(buf)@ == old(buf)@ + string_map_fields(tag, entries.deep_view()),
{
    let ghost start = buf@;
    let ghost es = entries.deep_view();
    let mut i: usize = 0;
    assert(es.take(0) =~= Seq::<(Seq<char>, Seq<char>)>::empty());
    assert(start + string_map_fields(tag, es.take(0)) =~= start);
    while i < entries.len()
        invariant
            MIN_TAG <= tag <= MAX_TAG,
            0 <= i <= entries.len(),
            es == entries.deep_view(),
            buf@ == start + string_map_fields(tag, es.take(i as int)),
        decreases entries.len() - i,
    {
        let mut entry: Vec<u8> = Vec::new();
        put_opt_string(1, &entries[i].0, &mut entry);
        put_opt_string(2, &entries[i].1, &mut entry);
        assert(entry@ =~= map_entry(entries[i as int].0@, entries[i as int].1@));
        put_bytes(tag, &entry, buf);
        assert(es.take(i + 1).drop_last() =~= es.take(i as int));
        assert(es.take(i + 1).last() == es[i as int]);
        i += 1;
    }
    assert(es.take(entries.len() as int) =~= es);
}

/// Reading a varint field back gives its tag and value.
pub proof fn lemma_read_varint_field(tag: u32, v: u64, rest: Seq<u8>)
    requires
        MIN_TAG <= tag <= MAX_TAG,
    ensures
        read_key(varint_field(tag, v) + rest) == Some(
            (tag, WIRE_VARINT, key(tag, WIRE_VARINT).len()),
        ),
        read_varint_value(
            WIRE_VARINT,
            (varint_field(tag, v) + rest).skip(key(tag, WIRE_VARINT).len() as int),
        ) == Some((v as int, rest)),
        varint_field(tag, v).len() > 0,
{
    let k = key(tag, WIRE_VARINT);
    let b = varint_field(tag, v) + rest;
    assert(b =~= k + (varint(v) + rest));
    lemma_key_roundtrip(tag, WIRE_VARINT, varint(v) + rest);
    assert(b.skip(k.len() as int) =~= varint(v) + rest);
    lemma_varint_roundtrip(v, rest);
    assert((varint(v) + rest).skip(varint(v).len() as int) =~= rest);
}

/// Reading a length-delimited field back gives its tag and payload.
pub proof fn lemma_read_len_field(tag: u32, p: Seq<u8>, rest: Seq<u8>)
    requires
        MIN_TAG <= tag <= MAX_TAG,
        p.len() <= u64::MAX,
    ensures
        read_key(len_field(tag, p) + rest) == Some((tag, WIRE_LEN, key(tag, WIRE_LEN).len())),
        read_len_value(WIRE_LEN, (len_field(tag, p) + rest).skip(key(tag, WIRE_LEN).len() as int))
            == Some((p, rest)),
        len_field(tag, p).len() > 0,
{
    let k = key(tag, WIRE_LEN);
    let l = varint(p.len() as u64);
    let b = len_field(tag, p) + rest;
    assert(b =~= k + (l + p + rest));
    lemma_key_roundtrip(tag, WIRE_LEN, l + p + rest);
    let b2 = b.skip(k.len() as int);
    assert(b2 =~= l + (p + rest));
    lemma_varint_roundtrip(p.len() as u64, p + rest);
    assert(b2.subrange(l.len() as int, (l.len() + p.len()) as int) =~= p);
    assert(b2.skip((l.len() + p.len()) as int) =~= rest);
}

/// Reading a string field back gives its tag and the string.
pub proof fn lemma_read_string_field(tag: u32, s: Seq<char>, rest: Seq<u8>)
    requires
        MIN_TAG <= tag <= MAX_TAG,
        encode_utf8(s).len() <= u64::MAX,
    ensures
        read_key(string_field(tag, s) + rest) == Some((tag, WIRE_LEN, key(tag, WIRE_LEN).len())),
        read_string_value(
            WIRE_LEN,
            (string_field(tag, s) + rest).skip(key(tag, WIRE_LEN).len() as int),
        ) == Some((s, rest)),
        string_field(tag, s).len() > 0,
{
    lemma_read_len_field(tag, encode_utf8(s), rest);
    encode_utf8_valid_utf8(s);
    encode_utf8_decode_utf8(s);
}

/// A map entry's payload decodes back to its key and value.
pub proof fn lemma_map_entry_roundtrip(k: Seq<char>, v: Seq<char>)
    requires
        encode_utf8(k).len() <= u64::MAX,
        encode_utf8(v).len() <= u64::MAX,
    ensures
        decode_map_entry(map_entry(k, v)) == Some((k, v)),
{
    let f1 = opt_string_field(1, k);
    let f2 = opt_string_field(2, v);
    let s = map_entry_steps();
    let e = Seq::<char>::empty();
    if k.len() > 0 {
        lemma_read_string_field(1, k, f2);
        lemma_decode_fields_front((e, e), f1, f2, s, (k, e));
    } else {
        lemma_empty_prefix(f2);
        assert(k =~= e);
    }
    assert(decode_fields((e, e), f1 + f2, s) == decode_fields((k, e), f2, s));
    if v.len() > 0 {
        lemma_read_string_field(2, v, Seq::empty());
        assert(f2 + Seq::<u8>::empty() =~= f2);
        lemma_decode_fields_front((k, e), f2, Seq::empty(), s, (k, v));
    } else {
        assert(v =~= e);
    }
}

/// Reading back an entry of a map field gives its key and value.
pub proof fn lemma_read_map_entry_field(tag: u32, k: Seq<char>, v: Seq<char>, rest: Seq<u8>)
    requires
        MIN_TAG <= tag <= MAX_TAG,
        encode_utf8(k).len() <= u64::MAX,
        encode_utf8(v).len() <= u64::MAX,
        map_entry(k, v).len() <= u64::MAX,
    ensures
        read_key(len_field(tag, map_entry(k, v)) + rest) == Some(
            (tag, WIRE_LEN, key(tag, WIRE_LEN).len()),
        ),
        read_map_entry((len_field(tag, map_entry(k, v)) + rest).skip(key(tag, WIRE_LEN).len() as int))
            == Some((k, v, rest)),
        len_field(tag, map_entry(k, v)).len() > 0,
{
    lemma_read_len_field(tag, map_entry(k, v), rest);
    lemma_map_entry_roundtrip(k, v);
}

/// One field at the front of the bytes: decoding goes on after it with the
/// message that its step gave.
pub proof fn lemma_decode_fields_front<M>(
    m: M,
    field: Seq<u8>,
    rest: Seq<u8>,
    step: spec_fn(M, u32, u8, Seq<u8>) -> Option<(M, Seq<u8>)>,
    m2: M,
)
    requires
        field.len() > 0,
        read_key(field + rest) matches Some((t, w, n)) && step(m, t, w, (field + rest).skip(
            n as int,
        )) == Some((m2, rest)),
    ensures
        decode_fields(m, field + rest, step) == decode_fields(m2, rest, step),
{
}

/// Absent fields leave the bytes as they are.
pub proof fn lemma_empty_prefix(b: Seq<u8>)
    ensures
        Seq::<u8>::empty() + b == b,
{
    assert(Seq::<u8>::empty() + b =~= b);
}

pub proof fn lemma_varint_cap_10()
    ensures
        varint_cap(10) == 0x1_0000_0000_0000_0000,
{
    reveal_with_fuel(varint_cap, 10);
}

proof fn lemma_read_varint_within_bounds(b: Seq<u8>, k: nat)
    ensures
        read_varint_within(b, k) matches Some((v, n)) ==> 1 <= n <= b.len() && n <= k && 0 <= v
            < varint_cap(k),
    decreases k,
{
    if k == 0 || b.len() == 0 {
    } else if b[0] < 128 {
        if k > 1 {
            lemma_varint_cap_ge_2(k);
        }
    } else {
        lemma_read_varint_within_bounds(b.drop_first(), (k - 1) as nat);
    }
}

proof fn lemma_varint_cap_ge_2(k: nat)
    ensures
        varint_cap(k) >= 2,
    decreases k,
{
    if k > 1 {
        lemma_varint_cap_ge_2((k - 1) as nat);
    }
}

/// A varint read consumes at least one byte and at most what is there, and
/// its value fits a `u64`.
pub proof fn lemma_read_varint_bounds(b: Seq<u8>)
    ensures
        read_varint(b) matches Some((v, n)) ==> 1 <= n <= b.len() && 0 <= v <= u64::MAX,
{
    lemma_read_varint_within_bounds(b, 10);
    lemma_varint_cap_10();
}

/// A key read consumes at least one byte and at most what is there.
pub proof fn lemma_read_key_bounds(b: Seq<u8>)
    ensures
        read_key(b) matches Some((t, w, n)) ==> 1 <= n <= b.len() && w <= 5 && t >= 1,
{
    lemma_read_varint_bounds(b);
}

proof fn lemma_varint_within(v: u64, k: nat, rest: Seq<u8>)
    requires
        k >= 1,
        v < varint_cap(k),
    ensures
        read_varint_within(varint(v) + rest, k) == Some((v as int, varint(v).len())),
        1 <= varint(v).len() <= k,
    decreases v,
{
    let b = varint(v) + rest;
    if v < 128 {
        assert(b[0] == v as u8);
    } else {
        if k <= 1 {
            assert(false);
        }
        let hi = v / 128;
        assert(v < 128 * varint_cap((k - 1) as nat));
        assert(hi < varint_cap((k - 1) as nat));
        lemma_varint_within(hi, (k - 1) as nat, rest);
        assert(b.drop_first() =~= varint(hi) + rest);
        assert(b[0] == ((v % 128) + 128) as u8);
    }
}

/// Reading back a varint gives the value written and consumes exactly its
/// bytes, whatever follows.
pub proof fn lemma_varint_roundtrip(v: u64, rest: Seq<u8>)
    ensures
        read_varint(varint(v) + rest) == Some((v as int, varint(v).len())),
        1 <= varint(v).len() <= 10,
{
    lemma_varint_cap_10();
    lemma_varint_within(v, 10, rest);
}

/// Reading back a key gives the tag and wire type written.
pub proof fn lemma_key_roundtrip(tag: u32, wire: u8, rest: Seq<u8>)
    requires
        MIN_TAG <= tag <= MAX_TAG,
        wire <= 5,
    ensures
        read_key(key(tag, wire) + rest) == Some((tag, wire, key(tag, wire).len())),
        1 <= key(tag, wire).len() <= 5,
{
    let k: u64 = (tag * 8 + wire) as u64;
    lemma_varint_roundtrip(k, rest);
    assert(k / 8 == tag);
    assert(k % 8 == wire);
    assert(k < 0x8_0000_0000);
    lemma_varint_short(k);
}

proof fn lemma_varint_short(v: u64)
    requires
        v < 0x8_0000_0000,
    ensures
        varint(v).len() <= 5,
{
    reveal_with_fuel(varint, 5);
    assert(v / 128 < 0x1000_0000);
    assert(v / 128 / 128 < 0x20_0000);
    assert(v / 128 / 128 / 128 < 0x4000);
    assert(v / 128 / 128 / 128 / 128 < 128);
}

} // verus!
