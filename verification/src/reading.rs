//! How any protobuf reader sees the bytes of a message, whatever its
//! schema: a sequence of fields, each a tag with a varint value or a
//! length-delimited payload. A reader that knows a field's number takes the
//! last occurrence of a singular field (the default where it is absent), and
//! every occurrence of a repeated one, in order.
//!
//! The laws of `schema` state what each message's encoding holds in these
//! terms, field number by field number.

use crate::wire::{
    bool_field, decode_fields, int32_field, int64_field, lemma_decode_fields_front,
    lemma_read_len_field, lemma_read_varint_field, len_field, len_list_fields, map_entry,
    opt_bool_field, opt_bytes_field, opt_int32_field, opt_int64_field, opt_message_field,
    opt_string_field, opt_uint64_field, read_len_value, read_varint_value, string_field,
    string_list_fields, string_map_fields, varint_field, skip_step, skipped_plain_len,
    lemma_read_varint_bounds, read_key, decode_map_entry, MAX_TAG, MIN_TAG, WIRE_LEN, WIRE_VARINT,
};
use vstd::prelude::*;
use vstd::utf8::*;

verus! {

/// One field of a message as a reader sees it: its tag, its wire type, the
/// value of a varint, the payload of a length-delimited field.
pub ghost struct WireField {
    pub tag: u32,
    pub wire: u8,
    pub value: int,
    pub payload: Seq<u8>,
}

/// Reads one field, of wire type varint or length-delimited, whatever its
/// tag.
pub open spec fn wire_field_step(fs: Seq<WireField>, t: u32, w: u8, b: Seq<u8>) -> Option<
    (Seq<WireField>, Seq<u8>),
> {
    if w == WIRE_VARINT {
        match read_varint_value(w, b) {
            Some((v, r)) => Some(
                (fs.push(WireField { tag: t, wire: w, value: v, payload: Seq::empty() }), r),
            ),
            None => None,
        }
    } else if w == WIRE_LEN {
        match read_len_value(w, b) {
            Some((p, r)) => Some((fs.push(WireField { tag: t, wire: w, value: 0, payload: p }), r)),
            None => None,
        }
    } else {
        None
    }
}

/// `wire_field_step` as a function value.
pub open spec fn wire_field_steps() -> spec_fn(Seq<WireField>, u32, u8, Seq<u8>) -> Option<
    (Seq<WireField>, Seq<u8>),
> {
    |fs: Seq<WireField>, t: u32, w: u8, b: Seq<u8>| wire_field_step(fs, t, w, b)
}

/// The fields of `b` in order; `None` where `b` is not a sequence of
/// well-formed varint and length-delimited fields.
pub open spec fn wire_fields(b: Seq<u8>) -> Option<Seq<WireField>> {
    decode_fields(Seq::empty(), b, wire_field_steps())
}

/// The fields of `fs` with tag `tag`, in order.
pub open spec fn occurrences(fs: Seq<WireField>, tag: u32) -> Seq<WireField>
    decreases fs.len(),
{
    if fs.len() == 0 {
        fs
    } else {
        let o = occurrences(fs.drop_last(), tag);
        if fs.last().tag == tag {
            o.push(fs.last())
        } else {
            o
        }
    }
}

/// Whether every field of `o` has wire type `w`.
pub open spec fn all_wire(o: Seq<WireField>, w: u8) -> bool {
    forall|i: int| 0 <= i < o.len() ==> (#[trigger] o[i]).wire == w
}

/// Whether every field of `fs` has a tag from 1 to `n`.
pub open spec fn tags_within(fs: Seq<WireField>, n: u32) -> bool {
    forall|i: int| 0 <= i < fs.len() ==> 1 <= (#[trigger] fs[i]).tag <= n
}

/// What a reader of the varint field `tag` takes: the last occurrence's
/// value, 0 where it is absent; `None` where an occurrence is no varint.
pub open spec fn scalar_of(fs: Seq<WireField>, tag: u32) -> Option<int> {
    let o = occurrences(fs, tag);
    if !all_wire(o, WIRE_VARINT) {
        None
    } else if o.len() == 0 {
        Some(0)
    } else {
        Some(o.last().value)
    }
}

/// What a reader of the string or bytes field `tag` takes: the last
/// occurrence's payload, empty where it is absent; `None` where an
/// occurrence is not length-delimited.
pub open spec fn bytes_of(fs: Seq<WireField>, tag: u32) -> Option<Seq<u8>> {
    let o = occurrences(fs, tag);
    if !all_wire(o, WIRE_LEN) {
        None
    } else if o.len() == 0 {
        Some(Seq::empty())
    } else {
        Some(o.last().payload)
    }
}

/// What a reader of the repeated length-delimited field `tag` takes: every
/// occurrence's payload, in order.
pub open spec fn repeated_of(fs: Seq<WireField>, tag: u32) -> Option<Seq<Seq<u8>>> {
    let o = occurrences(fs, tag);
    if !all_wire(o, WIRE_LEN) {
        None
    } else {
        Some(o.map_values(|f: WireField| f.payload))
    }
}

/// What a reader of the embedded message field `tag` takes: absent, or the
/// payloads of its occurrences one after the other (prost merges them).
pub open spec fn message_of(fs: Seq<WireField>, tag: u32) -> Option<Option<Seq<u8>>> {
    let o = occurrences(fs, tag);
    if !all_wire(o, WIRE_LEN) {
        None
    } else if o.len() == 0 {
        Some(None)
    } else {
        Some(Some(o.map_values(|f: WireField| f.payload).flatten()))
    }
}

/// A varint field with tag `tag` and value `v` where `present`, else
/// nothing.
pub open spec fn opt_varint_run(tag: u32, present: bool, v: int) -> Seq<WireField> {
    if present {
        seq![WireField { tag, wire: WIRE_VARINT, value: v, payload: Seq::empty() }]
    } else {
        Seq::empty()
    }
}

/// A length-delimited field with tag `tag` and payload `p` where `present`,
/// else nothing.
pub open spec fn opt_len_run(tag: u32, present: bool, p: Seq<u8>) -> Seq<WireField> {
    if present {
        seq![WireField { tag, wire: WIRE_LEN, value: 0, payload: p }]
    } else {
        Seq::empty()
    }
}

/// One length-delimited field with tag `tag` per payload of `ps`.
pub open spec fn len_run(tag: u32, ps: Seq<Seq<u8>>) -> Seq<WireField> {
    ps.map_values(|p: Seq<u8>| WireField { tag, wire: WIRE_LEN, value: 0, payload: p })
}

/// The UTF-8 bytes of each string.
pub open spec fn utf8_all(ss: Seq<Seq<char>>) -> Seq<Seq<u8>> {
    ss.map_values(|s: Seq<char>| encode_utf8(s))
}

/// The payload of each map entry.
pub open spec fn entry_payloads(es: Seq<(Seq<char>, Seq<char>)>) -> Seq<Seq<u8>> {
    es.map_values(|e: (Seq<char>, Seq<char>)| map_entry(e.0, e.1))
}

/// The payload of an optional embedded message, empty where absent.
pub open spec fn payload_or_empty(o: Option<Seq<u8>>) -> Seq<u8> {
    match o {
        Some(p) => p,
        None => Seq::empty(),
    }
}

// ---------------------------------------------------------------------------
// Reading the encoding of each kind of field
// ---------------------------------------------------------------------------

/// A length-delimited field is read as one field.
pub proof fn lemma_fields_len(tag: u32, p: Seq<u8>, fs: Seq<WireField>, r: Seq<u8>)
    requires
        MIN_TAG <= tag <= MAX_TAG,
        p.len() <= u64::MAX,
    ensures
        decode_fields(fs, len_field(tag, p) + r, wire_field_steps()) == decode_fields(
            fs + opt_len_run(tag, true, p),
            r,
            wire_field_steps(),
        ),
{
    lemma_read_len_field(tag, p, r);
    let f = WireField { tag, wire: WIRE_LEN, value: 0, payload: p };
    lemma_decode_fields_front(fs, len_field(tag, p), r, wire_field_steps(), fs.push(f));
    assert(fs.push(f) =~= fs + opt_len_run(tag, true, p));
}

/// A varint field is read as one field.
pub proof fn lemma_fields_varint(tag: u32, v: u64, fs: Seq<WireField>, r: Seq<u8>)
    requires
        MIN_TAG <= tag <= MAX_TAG,
    ensures
        decode_fields(fs, varint_field(tag, v) + r, wire_field_steps()) == decode_fields(
            fs + opt_varint_run(tag, true, v as int),
            r,
            wire_field_steps(),
        ),
{
    lemma_read_varint_field(tag, v, r);
    let f = WireField { tag, wire: WIRE_VARINT, value: v as int, payload: Seq::empty() };
    lemma_decode_fields_front(fs, varint_field(tag, v), r, wire_field_steps(), fs.push(f));
    assert(fs.push(f) =~= fs + opt_varint_run(tag, true, v as int));
}

/// Nothing written, nothing read.
proof fn lemma_fields_none(fs: Seq<WireField>, r: Seq<u8>)
    ensures
        decode_fields(fs, Seq::<u8>::empty() + r, wire_field_steps()) == decode_fields(
            fs + Seq::<WireField>::empty(),
            r,
            wire_field_steps(),
        ),
{
    assert(Seq::<u8>::empty() + r =~= r);
    assert(fs + Seq::<WireField>::empty() =~= fs);
}

/// A proto3 string field is read as its UTF-8 bytes, where not empty.
pub proof fn lemma_fields_opt_string(tag: u32, s: Seq<char>, fs: Seq<WireField>, r: Seq<u8>)
    requires
        MIN_TAG <= tag <= MAX_TAG,
        encode_utf8(s).len() <= u64::MAX,
    ensures
        decode_fields(fs, opt_string_field(tag, s) + r, wire_field_steps()) == decode_fields(
            fs + opt_len_run(tag, s.len() > 0, encode_utf8(s)),
            r,
            wire_field_steps(),
        ),
{
    if s.len() > 0 {
        lemma_fields_len(tag, encode_utf8(s), fs, r);
    } else {
        lemma_fields_none(fs, r);
    }
}

/// A proto3 bytes field is read as its bytes, where not empty.
pub proof fn lemma_fields_opt_bytes(tag: u32, p: Seq<u8>, fs: Seq<WireField>, r: Seq<u8>)
    requires
        MIN_TAG <= tag <= MAX_TAG,
        p.len() <= u64::MAX,
    ensures
        decode_fields(fs, opt_bytes_field(tag, p) + r, wire_field_steps()) == decode_fields(
            fs + opt_len_run(tag, p.len() > 0, p),
            r,
            wire_field_steps(),
        ),
{
    if p.len() > 0 {
        lemma_fields_len(tag, p, fs, r);
    } else {
        lemma_fields_none(fs, r);
    }
}

/// An embedded message field is read as its payload, where present.
pub proof fn lemma_fields_opt_message(
    tag: u32,
    o: Option<Seq<u8>>,
    fs: Seq<WireField>,
    r: Seq<u8>,
)
    requires
        MIN_TAG <= tag <= MAX_TAG,
        payload_or_empty(o).len() <= u64::MAX,
    ensures
        decode_fields(fs, opt_message_field(tag, o) + r, wire_field_steps()) == decode_fields(
            fs + opt_len_run(tag, o is Some, payload_or_empty(o)),
            r,
            wire_field_steps(),
        ),
{
    match o {
        Some(p) => lemma_fields_len(tag, p, fs, r),
        None => lemma_fields_none(fs, r),
    }
}

/// A proto3 bool field is read as the varint 1, where true.
pub proof fn lemma_fields_opt_bool(tag: u32, b: bool, fs: Seq<WireField>, r: Seq<u8>)
    requires
        MIN_TAG <= tag <= MAX_TAG,
    ensures
        decode_fields(fs, opt_bool_field(tag, b) + r, wire_field_steps()) == decode_fields(
            fs + opt_varint_run(tag, b, 1),
            r,
            wire_field_steps(),
        ),
{
    if b {
        assert(bool_field(tag, b) == varint_field(tag, 1));
        lemma_fields_varint(tag, 1, fs, r);
    } else {
        lemma_fields_none(fs, r);
    }
}

/// A proto3 int32 field is read as its value sign-extended to 64 bits,
/// where not zero.
pub proof fn lemma_fields_opt_int32(tag: u32, v: i32, fs: Seq<WireField>, r: Seq<u8>)
    requires
        MIN_TAG <= tag <= MAX_TAG,
    ensures
        decode_fields(fs, opt_int32_field(tag, v) + r, wire_field_steps()) == decode_fields(
            fs + opt_varint_run(tag, v != 0, (v as u64) as int),
            r,
            wire_field_steps(),
        ),
{
    if v != 0 {
        assert(int32_field(tag, v) == varint_field(tag, v as u64));
        lemma_fields_varint(tag, v as u64, fs, r);
    } else {
        lemma_fields_none(fs, r);
    }
}

/// A proto3 int64 field is read as its two's complement bits, where not
/// zero.
pub proof fn lemma_fields_opt_int64(tag: u32, v: i64, fs: Seq<WireField>, r: Seq<u8>)
    requires
        MIN_TAG <= tag <= MAX_TAG,
    ensures
        decode_fields(fs, opt_int64_field(tag, v) + r, wire_field_steps()) == decode_fields(
            fs + opt_varint_run(tag, v != 0, (v as u64) as int),
            r,
            wire_field_steps(),
        ),
{
    if v != 0 {
        assert(int64_field(tag, v) == varint_field(tag, v as u64));
        lemma_fields_varint(tag, v as u64, fs, r);
    } else {
        lemma_fields_none(fs, r);
    }
}

/// A proto3 uint64 field is read as its value, where not zero.
pub proof fn lemma_fields_opt_uint64(tag: u32, v: u64, fs: Seq<WireField>, r: Seq<u8>)
    requires
        MIN_TAG <= tag <= MAX_TAG,
    ensures
        decode_fields(fs, opt_uint64_field(tag, v) + r, wire_field_steps()) == decode_fields(
            fs + opt_varint_run(tag, v != 0, v as int),
            r,
            wire_field_steps(),
        ),
{
    if v != 0 {
        lemma_fields_varint(tag, v, fs, r);
    } else {
        lemma_fields_none(fs, r);
    }
}

/// A repeated length-delimited field is read as one field per element.
pub proof fn lemma_fields_lens(tag: u32, ps: Seq<Seq<u8>>, fs: Seq<WireField>, r: Seq<u8>)
    requires
        MIN_TAG <= tag <= MAX_TAG,
        forall|i: int| 0 <= i < ps.len() ==> (#[trigger] ps[i]).len() <= u64::MAX,
    ensures
        decode_fields(fs, len_list_fields(tag, ps) + r, wire_field_steps()) == decode_fields(
            fs + len_run(tag, ps),
            r,
            wire_field_steps(),
        ),
    decreases ps.len(),
{
    if ps.len() == 0 {
        lemma_fields_none(fs, r);
        assert(len_run(tag, ps) =~= Seq::<WireField>::empty());
    } else {
        let init = ps.drop_last();
        let f = len_field(tag, ps.last());
        assert(len_list_fields(tag, ps) + r =~= len_list_fields(tag, init) + (f + r));
        assert forall|i: int| 0 <= i < init.len() implies (#[trigger] init[i]).len() <= u64::MAX by {
            assert(init[i] == ps[i]);
        }
        lemma_fields_lens(tag, init, fs, f + r);
        assert(ps[ps.len() - 1].len() <= u64::MAX);
        lemma_fields_len(tag, ps.last(), fs + len_run(tag, init), r);
        assert(fs + len_run(tag, init) + opt_len_run(tag, true, ps.last()) =~= fs + len_run(tag, ps));
    }
}

/// A repeated string field is read as one field per string, holding its
/// UTF-8 bytes.
pub proof fn lemma_fields_strings(tag: u32, ss: Seq<Seq<char>>, fs: Seq<WireField>, r: Seq<u8>)
    requires
        MIN_TAG <= tag <= MAX_TAG,
        forall|i: int| 0 <= i < ss.len() ==> encode_utf8(#[trigger] ss[i]).len() <= u64::MAX,
    ensures
        decode_fields(fs, string_list_fields(tag, ss) + r, wire_field_steps()) == decode_fields(
            fs + len_run(tag, utf8_all(ss)),
            r,
            wire_field_steps(),
        ),
    decreases ss.len(),
{
    if ss.len() == 0 {
        lemma_fields_none(fs, r);
        assert(len_run(tag, utf8_all(ss)) =~= Seq::<WireField>::empty());
    } else {
        let init = ss.drop_last();
        let f = string_field(tag, ss.last());
        assert(string_list_fields(tag, ss) + r =~= string_list_fields(tag, init) + (f + r));
        assert forall|i: int| 0 <= i < init.len() implies encode_utf8(#[trigger] init[i]).len()
            <= u64::MAX by {
            assert(init[i] == ss[i]);
        }
        lemma_fields_strings(tag, init, fs, f + r);
        assert(encode_utf8(ss[ss.len() - 1]).len() <= u64::MAX);
        lemma_fields_len(tag, encode_utf8(ss.last()), fs + len_run(tag, utf8_all(init)), r);
        assert(fs + len_run(tag, utf8_all(init)) + opt_len_run(tag, true, encode_utf8(ss.last()))
            =~= fs + len_run(tag, utf8_all(ss)));
    }
}

/// A `map<string, string>` field is read as one field per entry, holding
/// the entry's payload.
pub proof fn lemma_fields_entries(
    tag: u32,
    es: Seq<(Seq<char>, Seq<char>)>,
    fs: Seq<WireField>,
    r: Seq<u8>,
)
    requires
        MIN_TAG <= tag <= MAX_TAG,
        forall|i: int|
            0 <= i < es.len() ==> map_entry((#[trigger] es[i]).0, es[i].1).len() <= u64::MAX,
    ensures
        decode_fields(fs, string_map_fields(tag, es) + r, wire_field_steps()) == decode_fields(
            fs + len_run(tag, entry_payloads(es)),
            r,
            wire_field_steps(),
        ),
    decreases es.len(),
{
    if es.len() == 0 {
        lemma_fields_none(fs, r);
        assert(len_run(tag, entry_payloads(es)) =~= Seq::<WireField>::empty());
    } else {
        let init = es.drop_last();
        let last = es.last();
        let f = len_field(tag, map_entry(last.0, last.1));
        assert(string_map_fields(tag, es) + r =~= string_map_fields(tag, init) + (f + r));
        assert forall|i: int| 0 <= i < init.len() implies map_entry(
            (#[trigger] init[i]).0,
            init[i].1,
        ).len() <= u64::MAX by {
            assert(init[i] == es[i]);
        }
        lemma_fields_entries(tag, init, fs, f + r);
        assert(map_entry(es[es.len() - 1].0, es[es.len() - 1].1).len() <= u64::MAX);
        lemma_fields_len(
            tag,
            map_entry(last.0, last.1),
            fs + len_run(tag, entry_payloads(init)),
            r,
        );
        assert(fs + len_run(tag, entry_payloads(init)) + opt_len_run(
            tag,
            true,
            map_entry(last.0, last.1),
        ) =~= fs + len_run(tag, entry_payloads(es)));
    }
}

/// Six runs of bytes one after the other, regrouped from the right.
pub proof fn lemma_regroup6(
    a: Seq<u8>,
    b: Seq<u8>,
    c: Seq<u8>,
    d: Seq<u8>,
    f: Seq<u8>,
    g: Seq<u8>,
)
    ensures
        a + b + c + d + f + g == a + (b + (c + (d + (f + (g + Seq::<u8>::empty()))))),
{
    assert(a + b + c + d + f + g =~= a + (b + (c + (d + (f + (g + Seq::<u8>::empty()))))));
}

/// Bytes read field by field to the end give the fields read.
pub proof fn lemma_fields_end(fs: Seq<WireField>)
    ensures
        decode_fields(fs, Seq::<u8>::empty(), wire_field_steps()) == Some(fs),
{
}

// ---------------------------------------------------------------------------
// What a reader takes from fields
// ---------------------------------------------------------------------------

/// The occurrences of a tag in two runs of fields are those of each.
pub proof fn lemma_occurrences_add(a: Seq<WireField>, b: Seq<WireField>, tag: u32)
    ensures
        occurrences(a + b, tag) == occurrences(a, tag) + occurrences(b, tag),
    decreases b.len(),
{
    if b.len() == 0 {
        assert(a + b =~= a);
        assert(occurrences(a, tag) + occurrences(b, tag) =~= occurrences(a, tag));
    } else {
        lemma_occurrences_add(a, b.drop_last(), tag);
        assert((a + b).drop_last() =~= a + b.drop_last());
        assert((a + b).last() == b.last());
        if b.last().tag == tag {
            assert(occurrences(a, tag) + occurrences(b, tag) =~= (occurrences(a, tag)
                + occurrences(b.drop_last(), tag)).push(b.last()));
        }
    }
}

/// Fields that all have tag `tag` are all its occurrences; fields that all
/// have another tag hold none.
pub proof fn lemma_occurrences_uniform(fs: Seq<WireField>, tag: u32, t: u32)
    requires
        forall|i: int| 0 <= i < fs.len() ==> (#[trigger] fs[i]).tag == t,
    ensures
        t == tag ==> occurrences(fs, tag) == fs,
        t != tag ==> occurrences(fs, tag) == Seq::<WireField>::empty(),
    decreases fs.len(),
{
    if fs.len() > 0 {
        let init = fs.drop_last();
        assert forall|i: int| 0 <= i < init.len() implies (#[trigger] init[i]).tag == t by {
            assert(init[i] == fs[i]);
        }
        lemma_occurrences_uniform(init, tag, t);
        assert(fs.last() == fs[fs.len() - 1]);
        if t == tag {
            assert(init.push(fs.last()) =~= fs);
        }
    }
}

/// Appending a run of fields that all have tag `t` adds them to the
/// occurrences of `t` and to no other tag's.
pub proof fn lemma_occurrences_run(a: Seq<WireField>, run: Seq<WireField>, t: u32, tag: u32)
    requires
        forall|i: int| 0 <= i < run.len() ==> (#[trigger] run[i]).tag == t,
    ensures
        occurrences(a + run, tag) == if t == tag {
            occurrences(a, tag) + run
        } else {
            occurrences(a, tag)
        },
{
    lemma_occurrences_add(a, run, tag);
    lemma_occurrences_uniform(run, tag, t);
    if t != tag {
        assert(occurrences(a, tag) + Seq::<WireField>::empty() =~= occurrences(a, tag));
    }
}

/// Two runs of fields whose tags are all from 1 to `n` make one.
pub proof fn lemma_tags_within_add(a: Seq<WireField>, b: Seq<WireField>, n: u32)
    requires
        tags_within(a, n),
        tags_within(b, n),
    ensures
        tags_within(a + b, n),
{
    assert forall|i: int| 0 <= i < (a + b).len() implies 1 <= (#[trigger] (a + b)[i]).tag <= n by {
        if i < a.len() {
            assert((a + b)[i] == a[i]);
        } else {
            assert((a + b)[i] == b[i - a.len()]);
        }
    }
}

/// Where a tag occurs as one optional varint field, a reader takes its
/// value, or 0 where it is absent.
pub proof fn lemma_scalar_of(fs: Seq<WireField>, tag: u32, present: bool, v: int)
    requires
        occurrences(fs, tag) == opt_varint_run(tag, present, v),
        present || v == 0,
    ensures
        scalar_of(fs, tag) == Some(v),
{
}

/// Where a tag occurs as one optional length-delimited field, a reader
/// takes its payload, or nothing where it is absent.
pub proof fn lemma_bytes_of(fs: Seq<WireField>, tag: u32, present: bool, p: Seq<u8>)
    requires
        occurrences(fs, tag) == opt_len_run(tag, present, p),
        present || p.len() == 0,
    ensures
        bytes_of(fs, tag) == Some(p),
{
    if !present {
        assert(p =~= Seq::<u8>::empty());
    }
}

/// Where a tag occurs as one optional embedded message, a reader takes its
/// payload where present.
pub proof fn lemma_message_of(fs: Seq<WireField>, tag: u32, o: Option<Seq<u8>>)
    requires
        occurrences(fs, tag) == opt_len_run(tag, o is Some, payload_or_empty(o)),
    ensures
        message_of(fs, tag) == Some(o),
{
    if let Some(p) = o {
        let ps = occurrences(fs, tag).map_values(|f: WireField| f.payload);
        assert(ps =~= seq![p]);
        ps.lemma_flatten_one_element();
    }
}

/// Where a tag occurs as a run of length-delimited fields, a reader takes
/// their payloads in order.
pub proof fn lemma_repeated_of(fs: Seq<WireField>, tag: u32, ps: Seq<Seq<u8>>)
    requires
        occurrences(fs, tag) == len_run(tag, ps),
    ensures
        repeated_of(fs, tag) == Some(ps),
{
    assert(occurrences(fs, tag).map_values(|f: WireField| f.payload) =~= ps);
}

// ---------------------------------------------------------------------------
// Decoding that follows the fields
// ---------------------------------------------------------------------------

/// The payload of the last field with tag `tag`, empty where there is none.
pub open spec fn last_payload(fs: Seq<WireField>, tag: u32) -> Seq<u8> {
    let o = occurrences(fs, tag);
    if o.len() == 0 {
        Seq::empty()
    } else {
        o.last().payload
    }
}

/// The value of the last field with tag `tag`, 0 where there is none.
pub open spec fn last_value(fs: Seq<WireField>, tag: u32) -> int {
    let o = occurrences(fs, tag);
    if o.len() == 0 {
        0
    } else {
        o.last().value
    }
}

/// The payloads of every field with tag `tag`, in order.
pub open spec fn all_payloads(fs: Seq<WireField>, tag: u32) -> Seq<Seq<u8>> {
    occurrences(fs, tag).map_values(|f: WireField| f.payload)
}

/// One more field adds to the occurrences of its own tag only.
pub proof fn lemma_occurrences_push(fs: Seq<WireField>, f: WireField, tag: u32)
    ensures
        occurrences(fs.push(f), tag) == if f.tag == tag {
            occurrences(fs, tag).push(f)
        } else {
            occurrences(fs, tag)
        },
{
    assert(fs.push(f).drop_last() =~= fs);
}

/// Fields read after others keep those in front.
pub proof fn lemma_fields_extend(fs0: Seq<WireField>, b: Seq<u8>)
    ensures
        decode_fields(fs0, b, wire_field_steps()) matches Some(fs) ==> fs.len() >= fs0.len()
            && forall|i: int| 0 <= i < fs0.len() ==> fs[i] == fs0[i],
    decreases b.len(),
{
    if b.len() > 0 {
        if let Some((t, w, n)) = read_key(b) {
            if let Some((fs1, r)) = wire_field_step(fs0, t, w, b.skip(n as int)) {
                if r.len() < b.len() {
                    lemma_fields_extend(fs1, r);
                }
            }
        }
    }
}

/// A field that a message does not know, of a wire type that a reader
/// reads, is passed over to where the reader goes on.
pub proof fn lemma_skip_follows<M>(m: M, fs: Seq<WireField>, t: u32, w: u8, b: Seq<u8>)
    ensures
        wire_field_step(fs, t, w, b) matches Some((_, r)) ==> skip_step(m, t, w, b) == Some((m, r)),
{
    lemma_read_varint_bounds(b);
}

/// Where each field that a reader sees moves a message's decoder from the
/// message that the fields before it stand for (`read`) to the one that the
/// fields up to it stand for, and every field is one the decoder accepts
/// (`good`), decoding follows the fields to the message they stand for.
pub proof fn lemma_decode_follows_fields<M>(
    fs0: Seq<WireField>,
    b: Seq<u8>,
    s: spec_fn(M, u32, u8, Seq<u8>) -> Option<(M, Seq<u8>)>,
    read: spec_fn(Seq<WireField>) -> M,
    good: spec_fn(WireField) -> bool,
)
    requires
        forall|fs: Seq<WireField>, t: u32, w: u8, bb: Seq<u8>|
            (#[trigger] wire_field_step(fs, t, w, bb)) matches Some((fs2, r)) ==> (good(fs2.last())
                ==> s(read(fs), t, w, bb) == Some((read(fs2), r))),
    ensures
        decode_fields(fs0, b, wire_field_steps()) matches Some(fs) ==> ((forall|i: int|
            fs0.len() <= i < fs.len() ==> #[trigger] good(fs[i])) ==> decode_fields(read(fs0), b, s)
            == Some(read(fs))),
    decreases b.len(),
{
    if b.len() > 0 {
        if let Some((t, w, n)) = read_key(b) {
            if let Some((fs1, r)) = wire_field_step(fs0, t, w, b.skip(n as int)) {
                if r.len() < b.len() {
                    lemma_decode_follows_fields(fs1, r, s, read, good);
                    lemma_fields_extend(fs1, r);
                    if let Some(fs) = decode_fields(fs1, r, wire_field_steps()) {
                        if forall|i: int| fs0.len() <= i < fs.len() ==> #[trigger] good(fs[i]) {
                            assert(fs1.len() == fs0.len() + 1);
                            assert(fs[fs0.len() as int] == fs1[fs0.len() as int]);
                            assert(good(fs[fs0.len() as int]));
                            assert(fs1.last() == fs1[fs0.len() as int]);
                        }
                    }
                }
            }
        }
    }
}

/// The key and value that each map entry's payload decodes to (empty ones
/// where it does not).
pub open spec fn decoded_entries(ps: Seq<Seq<u8>>) -> Seq<(Seq<char>, Seq<char>)> {
    ps.map_values(
        |p: Seq<u8>|
            match decode_map_entry(p) {
                Some(e) => e,
                None => (Seq::<char>::empty(), Seq::<char>::empty()),
            },
    )
}

/// One more field adds its payload to those of its own tag only.
pub proof fn lemma_all_payloads_push(fs: Seq<WireField>, f: WireField, tag: u32)
    ensures
        all_payloads(fs.push(f), tag) == if f.tag == tag {
            all_payloads(fs, tag).push(f.payload)
        } else {
            all_payloads(fs, tag)
        },
        decoded_entries(all_payloads(fs.push(f), tag)) == if f.tag == tag {
            decoded_entries(all_payloads(fs, tag)).push(
                match decode_map_entry(f.payload) {
                    Some(e) => e,
                    None => (Seq::<char>::empty(), Seq::<char>::empty()),
                },
            )
        } else {
            decoded_entries(all_payloads(fs, tag))
        },
{
    lemma_occurrences_push(fs, f, tag);
    if f.tag == tag {
        assert(all_payloads(fs.push(f), tag) =~= all_payloads(fs, tag).push(f.payload));
        assert(decoded_entries(all_payloads(fs.push(f), tag)) =~= decoded_entries(
            all_payloads(fs, tag),
        ).push(
            match decode_map_entry(f.payload) {
                Some(e) => e,
                None => (Seq::<char>::empty(), Seq::<char>::empty()),
            },
        ));
    }
}

/// No field, no payload.
pub proof fn lemma_all_payloads_empty(tag: u32)
    ensures
        all_payloads(Seq::empty(), tag) == Seq::<Seq<u8>>::empty(),
        decoded_entries(all_payloads(Seq::empty(), tag)) == Seq::<(Seq<char>, Seq<char>)>::empty(),
{
    assert(all_payloads(Seq::empty(), tag) =~= Seq::<Seq<u8>>::empty());
    assert(decoded_entries(all_payloads(Seq::empty(), tag)) =~= Seq::<(Seq<char>, Seq<char>)>::empty());
}

} // verus!
