//! The messages that the host sends to the plugin's entry points, with
//! their decoders: the request of `init`, of an event handler, and of an
//! HTTP handler or middleware.
//!
//! An embedded `google.protobuf.Struct` is kept as its encoded payload. Where
//! a message field occurs more than once, prost merges the occurrences; for
//! a `Struct` that is what decoding the payloads one after the other gives,
//! so the payloads are joined.

use crate::wire::{
    check_message, check_message_map_entry, check_struct, decode_fields, lemma_decode_refines,
    lemma_len_value_passes, lemma_read_key_bounds, lemma_read_varint_bounds,
    lemma_varint_value_passes, merge_bool, merge_bytes, merge_int64, merge_string,
    message_entry_pass_steps, nested_ok, pass_step, pass_steps, payload_view, read_delimited,
    read_len_value, read_string_value, read_varint_value, skip, skip_step, skip_step_at,
    struct_payload_decodes, take_key, top_depth, WIRE_LEN,
};
use crate::wire::{
    len_field, len_list_fields, lemma_decode_fields_front, lemma_empty_prefix, lemma_read_len_field,
    lemma_read_string_field, lemma_read_varint_field, opt_bool_field, opt_bytes_field,
    opt_int64_field, opt_message_field, opt_string_field, string_field, string_list_fields,
};
use crate::reading::payload_or_empty;
use vstd::prelude::*;
use vstd::utf8::*;

verus! {

/// The payload of an embedded message after one more occurrence `p` of its
/// field: the occurrences' payloads one after the other.
pub open spec fn merged_payload(prev: Option<Seq<u8>>, p: Seq<u8>) -> Seq<u8> {
    match prev {
        Some(q) => q + p,
        None => p,
    }
}

/// Joins one more occurrence `p` of an embedded message field to `slot`.
fn merge_payload(slot: &mut Option<Vec<u8>>, p: Vec<u8>)
    ensures
        payload_view(*final(slot)) == Some(merged_payload(payload_view(*old(slot)), p@)),
{
    let mut p = p;
    match slot.take() {
        Some(mut q) => {
            q.append(&mut p);
            *slot = Some(q);
        },
        None => {
            *slot = Some(p);
        },
    }
}

/// Nesting levels allowed one level below the top of a message.
pub open spec fn nested_depth() -> u32 {
    (top_depth() - 1) as u32
}

// ---------------------------------------------------------------------------
// EmitEventRequest
// ---------------------------------------------------------------------------

/// Request of an event handler: the event's name and its payload, an
/// encoded `google.protobuf.Struct`.
#[derive(Debug)]
pub struct EmitEventRequest {
    pub event: String,
    pub payload: Option<Vec<u8>>,
}

/// The fields of an `EmitEventRequest` as mathematical values.
pub ghost struct EmitEventRequestView {
    pub event: Seq<char>,
    pub payload: Option<Seq<u8>>,
}

impl View for EmitEventRequest {
    type V = EmitEventRequestView;

    open spec fn view(&self) -> EmitEventRequestView {
        EmitEventRequestView { event: self.event@, payload: payload_view(self.payload) }
    }
}

/// The default `EmitEventRequest`: no event name, no payload.
pub open spec fn emit_event_request_default() -> EmitEventRequestView {
    EmitEventRequestView { event: Seq::empty(), payload: None }
}

/// Reads one field of an `EmitEventRequest` (`event` = 1, `payload` = 2).
pub open spec fn emit_event_request_step(
    m: EmitEventRequestView,
    t: u32,
    w: u8,
    b: Seq<u8>,
) -> Option<(EmitEventRequestView, Seq<u8>)> {
    if t == 1 {
        match read_string_value(w, b) {
            Some((e, r)) => Some((EmitEventRequestView { event: e, ..m }, r)),
            None => None,
        }
    } else if t == 2 {
        match read_len_value(w, b) {
            Some((p, r)) => if struct_payload_decodes(p) {
                Some(
                    (
                        EmitEventRequestView {
                            payload: Some(merged_payload(m.payload, p)),
                            ..m
                        },
                        r,
                    ),
                )
            } else {
                None
            },
            None => None,
        }
    } else {
        skip_step(m, t, w, b)
    }
}

/// `emit_event_request_step` as a function value.
pub open spec fn emit_event_request_steps() -> spec_fn(
    EmitEventRequestView,
    u32,
    u8,
    Seq<u8>,
) -> Option<(EmitEventRequestView, Seq<u8>)> {
    |m: EmitEventRequestView, t: u32, w: u8, b: Seq<u8>| emit_event_request_step(m, t, w, b)
}

/// What decoding `b` as an `EmitEventRequest` gives; `None` where prost
/// refuses it.
pub open spec fn decode_emit_event_request(b: Seq<u8>) -> Option<EmitEventRequestView> {
    decode_fields(emit_event_request_default(), b, emit_event_request_steps())
}

impl EmitEventRequest {
    /// Decodes an `EmitEventRequest`; `None` where the bytes are malformed.
    pub fn decode(buf: &[u8]) -> (res: Option<EmitEventRequest>)
        ensures
            match decode_emit_event_request(buf@) {
                Some(v) => res matches Some(m) && m@ == v,
                None => res is None,
            },
    {
        let mut m = EmitEventRequest { event: String::new(), payload: None };
        let mut rest = buf;
        while rest.len() > 0
            invariant
                decode_fields(m@, rest@, emit_event_request_steps()) == decode_emit_event_request(
                    buf@,
                ),
            decreases rest.len(),
        {
            proof {
                lemma_read_key_bounds(rest@);
            }
            let (t, w, r) = match take_key(rest) {
                Some(k) => k,
                None => return None,
            };
            let ghost m0 = m@;
            proof {
                lemma_read_varint_bounds(r@);
            }
            let next = if t == 1 {
                merge_string(w, &mut m.event, r)
            } else if t == 2 {
                match check_struct(w, r) {
                    Some(_) => {
                        let mut p: Vec<u8> = Vec::new();
                        let r2 = merge_bytes(w, &mut p, r);
                        merge_payload(&mut m.payload, p);
                        r2
                    },
                    None => None,
                }
            } else {
                skip(w, t, r)
            };
            match next {
                Some(r2) => {
                    assert(emit_event_request_step(m0, t, w, r@) == Some((m@, r2@)));
                    rest = r2;
                },
                None => {
                    assert(emit_event_request_step(m0, t, w, r@) is None);
                    return None;
                },
            }
        }
        Some(m)
    }
}

// ---------------------------------------------------------------------------
// HostConfig and InitRequest
// ---------------------------------------------------------------------------

/// What the host tells a plugin of itself at `init`.
#[derive(Debug)]
pub struct HostConfig {
    pub site_name: String,
}

/// The fields of a `HostConfig` as mathematical values.
pub ghost struct HostConfigView {
    pub site_name: Seq<char>,
}

impl View for HostConfig {
    type V = HostConfigView;

    open spec fn view(&self) -> HostConfigView {
        HostConfigView { site_name: self.site_name@ }
    }
}

/// Reads one field of a nested `HostConfig` (`site_name` = 1).
pub open spec fn host_config_step(m: HostConfigView, t: u32, w: u8, b: Seq<u8>) -> Option<
    (HostConfigView, Seq<u8>),
> {
    if t == 1 {
        match read_string_value(w, b) {
            Some((s, r)) => Some((HostConfigView { site_name: s }, r)),
            None => None,
        }
    } else {
        skip_step_at(nested_depth(), m, t, w, b)
    }
}

/// `host_config_step` as a function value.
pub open spec fn host_config_steps() -> spec_fn(HostConfigView, u32, u8, Seq<u8>) -> Option<
    (HostConfigView, Seq<u8>),
> {
    |m: HostConfigView, t: u32, w: u8, b: Seq<u8>| host_config_step(m, t, w, b)
}

/// Every field that a `HostConfig` reads is one that prost passes over to
/// the same point.
proof fn lemma_host_config_refines()
    ensures
        forall|m: HostConfigView, t: u32, w: u8, b: Seq<u8>|
            (#[trigger] host_config_steps()(m, t, w, b)) matches Some((_, r)) ==> pass_steps(
                nested_depth(),
            )((), t, w, b) == Some(((), r)),
{
    assert forall|m: HostConfigView, t: u32, w: u8, b: Seq<u8>|
        (#[trigger] host_config_steps()(m, t, w, b)) matches Some((_, r)) ==> pass_steps(
            nested_depth(),
        )((), t, w, b) == Some(((), r)) by {
        lemma_len_value_passes(nested_depth(), t, b);
    }
}

/// Reads the fields of a nested `HostConfig` payload `p` into `m`, as prost
/// merges an occurrence of the field into an earlier one; false where prost
/// refuses them.
fn merge_host_config(m: &mut HostConfig, p: &[u8]) -> (ok: bool)
    requires
        nested_ok(nested_depth(), p@),
    ensures
        match decode_fields(old(m)@, p@, host_config_steps()) {
            Some(v) => ok && final(m)@ == v,
            None => !ok,
        },
{
    let mut rest = p;
    while rest.len() > 0
        invariant
            decode_fields(m@, rest@, host_config_steps()) == decode_fields(
                old(m)@,
                p@,
                host_config_steps(),
            ),
            nested_ok(nested_depth(), rest@),
        decreases rest.len(),
    {
        proof {
            lemma_read_key_bounds(rest@);
        }
        let (t, w, r) = match take_key(rest) {
            Some(k) => k,
            None => return false,
        };
        let ghost m0 = m@;
        proof {
            lemma_read_varint_bounds(r@);
            lemma_len_value_passes(nested_depth(), t, r@);
        }
        let next = if t == 1 {
            merge_string(w, &mut m.site_name, r)
        } else {
            skip(w, t, r)
        };
        match next {
            Some(r2) => {
                assert(host_config_step(m0, t, w, r@) == Some((m@, r2@)));
                assert(pass_step(nested_depth(), (), t, w, r@) == Some(((), r2@)));
                rest = r2;
            },
            None => {
                assert(host_config_step(m0, t, w, r@) is None);
                return false;
            },
        }
    }
    true
}

/// Request of `init`: what the host tells of itself, and the plugin's
/// configuration, an encoded `google.protobuf.Struct`.
#[derive(Debug)]
pub struct InitRequest {
    pub host_config: Option<HostConfig>,
    pub config: Option<Vec<u8>>,
}

/// The fields of an `InitRequest` as mathematical values.
pub ghost struct InitRequestView {
    pub host_config: Option<HostConfigView>,
    pub config: Option<Seq<u8>>,
}

impl View for InitRequest {
    type V = InitRequestView;

    open spec fn view(&self) -> InitRequestView {
        InitRequestView {
            host_config: match self.host_config {
                Some(h) => Some(h@),
                None => None,
            },
            config: payload_view(self.config),
        }
    }
}

/// The default `InitRequest`: neither field present.
pub open spec fn init_request_default() -> InitRequestView {
    InitRequestView { host_config: None, config: None }
}

/// The `HostConfig` that a further occurrence of the field is merged into:
/// the earlier one, or the default one.
pub open spec fn host_config_or_default(h: Option<HostConfigView>) -> HostConfigView {
    match h {
        Some(v) => v,
        None => HostConfigView { site_name: Seq::empty() },
    }
}

/// Reads one field of an `InitRequest` (`host_config` = 1, `config` = 2).
pub open spec fn init_request_step(m: InitRequestView, t: u32, w: u8, b: Seq<u8>) -> Option<
    (InitRequestView, Seq<u8>),
> {
    if t == 1 {
        match read_len_value(w, b) {
            Some((p, r)) => match decode_fields(
                host_config_or_default(m.host_config),
                p,
                host_config_steps(),
            ) {
                Some(h) => Some((InitRequestView { host_config: Some(h), ..m }, r)),
                None => None,
            },
            None => None,
        }
    } else if t == 2 {
        match read_len_value(w, b) {
            Some((p, r)) => if struct_payload_decodes(p) {
                Some((InitRequestView { config: Some(merged_payload(m.config, p)), ..m }, r))
            } else {
                None
            },
            None => None,
        }
    } else {
        skip_step(m, t, w, b)
    }
}

/// `init_request_step` as a function value.
pub open spec fn init_request_steps() -> spec_fn(InitRequestView, u32, u8, Seq<u8>) -> Option<
    (InitRequestView, Seq<u8>),
> {
    |m: InitRequestView, t: u32, w: u8, b: Seq<u8>| init_request_step(m, t, w, b)
}

/// What decoding `b` as an `InitRequest` gives; `None` where prost refuses
/// it.
pub open spec fn decode_init_request(b: Seq<u8>) -> Option<InitRequestView> {
    decode_fields(init_request_default(), b, init_request_steps())
}

impl InitRequest {
    /// Decodes an `InitRequest`; `None` where the bytes are malformed.
    pub fn decode(buf: &[u8]) -> (res: Option<InitRequest>)
        ensures
            match decode_init_request(buf@) {
                Some(v) => res matches Some(m) && m@ == v,
                None => res is None,
            },
    {
        let mut m = InitRequest { host_config: None, config: None };
        let mut rest = buf;
        while rest.len() > 0
            invariant
                decode_fields(m@, rest@, init_request_steps()) == decode_init_request(buf@),
            decreases rest.len(),
        {
            proof {
                lemma_read_key_bounds(rest@);
            }
            let (t, w, r) = match take_key(rest) {
                Some(k) => k,
                None => return None,
            };
            let ghost m0 = m@;
            proof {
                lemma_read_varint_bounds(r@);
            }
            let next = if t == 1 {
                match check_message(w, r) {
                    Some(r2) => {
                        let mut p: Vec<u8> = Vec::new();
                        let _ = merge_bytes(w, &mut p, r);
                        let mut h = match m.host_config.take() {
                            Some(h) => h,
                            None => HostConfig { site_name: String::new() },
                        };
                        if !merge_host_config(&mut h, p.as_slice()) {
                            return None;
                        }
                        m.host_config = Some(h);
                        Some(r2)
                    },
                    None => {
                        proof {
                            if let Some((p, _)) = read_len_value(w, r@) {
                                lemma_host_config_refines();
                                lemma_decode_refines(
                                    host_config_or_default(m0.host_config),
                                    p,
                                    host_config_steps(),
                                    pass_steps(nested_depth()),
                                );
                            }
                        }
                        None
                    },
                }
            } else if t == 2 {
                match check_struct(w, r) {
                    Some(_) => {
                        let mut p: Vec<u8> = Vec::new();
                        let r2 = merge_bytes(w, &mut p, r);
                        merge_payload(&mut m.config, p);
                        r2
                    },
                    None => None,
                }
            } else {
                skip(w, t, r)
            };
            match next {
                Some(r2) => {
                    assert(init_request_step(m0, t, w, r@) == Some((m@, r2@)));
                    rest = r2;
                },
                None => {
                    assert(init_request_step(m0, t, w, r@) is None);
                    return None;
                },
            }
        }
        Some(m)
    }
}


// ---------------------------------------------------------------------------
// HandleRequest
// ---------------------------------------------------------------------------

/// Nesting levels allowed in the value of a map entry: two levels below the
/// top of a message.
pub open spec fn entry_value_depth() -> u32 {
    (top_depth() - 2) as u32
}

/// Reads one field of a `StringList` (`values` = 1, repeated) that is the
/// value of a map entry.
pub open spec fn string_list_step(m: Seq<Seq<char>>, t: u32, w: u8, b: Seq<u8>) -> Option<
    (Seq<Seq<char>>, Seq<u8>),
> {
    if t == 1 {
        match read_string_value(w, b) {
            Some((s, r)) => Some((m.push(s), r)),
            None => None,
        }
    } else {
        skip_step_at(entry_value_depth(), m, t, w, b)
    }
}

/// `string_list_step` as a function value.
pub open spec fn string_list_steps() -> spec_fn(Seq<Seq<char>>, u32, u8, Seq<u8>) -> Option<
    (Seq<Seq<char>>, Seq<u8>),
> {
    |m: Seq<Seq<char>>, t: u32, w: u8, b: Seq<u8>| string_list_step(m, t, w, b)
}

/// Reads one field of an entry of a `map<string, StringList>` (key = 1,
/// value = 2) into the pair `m`; a second value is merged into the first,
/// its strings appended.
pub open spec fn list_entry_step(m: (Seq<char>, Seq<Seq<char>>), t: u32, w: u8, b: Seq<u8>) -> Option<
    ((Seq<char>, Seq<Seq<char>>), Seq<u8>),
> {
    if t == 1 {
        match read_string_value(w, b) {
            Some((k, r)) => Some(((k, m.1), r)),
            None => None,
        }
    } else if t == 2 {
        match read_len_value(w, b) {
            Some((p, r)) => match decode_fields(m.1, p, string_list_steps()) {
                Some(vs) => Some(((m.0, vs), r)),
                None => None,
            },
            None => None,
        }
    } else {
        skip_step_at(nested_depth(), m, t, w, b)
    }
}

/// `list_entry_step` as a function value.
pub open spec fn list_entry_steps() -> spec_fn((Seq<char>, Seq<Seq<char>>), u32, u8, Seq<u8>) -> Option<
    ((Seq<char>, Seq<Seq<char>>), Seq<u8>),
> {
    |m: (Seq<char>, Seq<Seq<char>>), t: u32, w: u8, b: Seq<u8>| list_entry_step(m, t, w, b)
}

/// Decoding of the payload of an entry of a `map<string, StringList>`: the
/// key, empty where absent, and the strings of the value.
pub open spec fn decode_list_entry(p: Seq<u8>) -> Option<(Seq<char>, Seq<Seq<char>>)> {
    decode_fields((Seq::<char>::empty(), Seq::<Seq<char>>::empty()), p, list_entry_steps())
}

/// Every field that a `StringList` reads is one that prost passes over to
/// the same point.
proof fn lemma_string_list_refines()
    ensures
        forall|m: Seq<Seq<char>>, t: u32, w: u8, b: Seq<u8>|
            (#[trigger] string_list_steps()(m, t, w, b)) matches Some((_, r)) ==> pass_steps(
                entry_value_depth(),
            )((), t, w, b) == Some(((), r)),
{
    assert forall|m: Seq<Seq<char>>, t: u32, w: u8, b: Seq<u8>|
        (#[trigger] string_list_steps()(m, t, w, b)) matches Some((_, r)) ==> pass_steps(
            entry_value_depth(),
        )((), t, w, b) == Some(((), r)) by {
        lemma_len_value_passes(entry_value_depth(), t, b);
    }
}

/// Every field that a map entry reads is one that prost passes over to the
/// same point.
proof fn lemma_list_entry_refines()
    ensures
        forall|m: (Seq<char>, Seq<Seq<char>>), t: u32, w: u8, b: Seq<u8>|
            (#[trigger] list_entry_steps()(m, t, w, b)) matches Some((_, r))
                ==> message_entry_pass_steps()((), t, w, b) == Some(((), r)),
{
    assert forall|m: (Seq<char>, Seq<Seq<char>>), t: u32, w: u8, b: Seq<u8>|
        (#[trigger] list_entry_steps()(m, t, w, b)) matches Some((_, r))
            ==> message_entry_pass_steps()((), t, w, b) == Some(((), r)) by {
        if t == 2 {
            if let Some((p, _)) = read_len_value(w, b) {
                lemma_string_list_refines();
                lemma_decode_refines(m.1, p, string_list_steps(), pass_steps(entry_value_depth()));
            }
        }
    }
}

/// Appends the strings of a nested `StringList` payload `p` to `vals`;
/// false where prost refuses them.
fn merge_string_list(vals: &mut Vec<String>, p: &[u8]) -> (ok: bool)
    requires
        nested_ok(entry_value_depth(), p@),
    ensures
        match decode_fields(old(vals).deep_view(), p@, string_list_steps()) {
            Some(v) => ok && final(vals).deep_view() == v,
            None => !ok,
        },
{
    let mut rest = p;
    while rest.len() > 0
        invariant
            decode_fields(vals.deep_view(), rest@, string_list_steps()) == decode_fields(
                old(vals).deep_view(),
                p@,
                string_list_steps(),
            ),
            nested_ok(entry_value_depth(), rest@),
        decreases rest.len(),
    {
        proof {
            lemma_read_key_bounds(rest@);
        }
        let (t, w, r) = match take_key(rest) {
            Some(k) => k,
            None => return false,
        };
        let ghost m0 = vals.deep_view();
        proof {
            lemma_read_varint_bounds(r@);
            lemma_len_value_passes(entry_value_depth(), t, r@);
        }
        let next = if t == 1 {
            let mut s = String::new();
            let r2 = merge_string(w, &mut s, r);
            if r2.is_some() {
                let ghost sv = s@;
                vals.push(s);
                assert(vals.deep_view() =~= m0.push(sv));
            }
            r2
        } else {
            skip(w, t, r)
        };
        match next {
            Some(r2) => {
                assert(string_list_step(m0, t, w, r@) == Some((vals.deep_view(), r2@)));
                assert(pass_step(entry_value_depth(), (), t, w, r@) == Some(((), r2@)));
                rest = r2;
            },
            None => {
                assert(string_list_step(m0, t, w, r@) is None);
                return false;
            },
        }
    }
    true
}

/// Decodes the payload of an entry of a `map<string, StringList>`; `None`
/// where prost refuses it.
fn decode_list_entry_payload(p: &[u8]) -> (res: Option<(String, Vec<String>)>)
    requires
        decode_fields((), p@, message_entry_pass_steps()) is Some,
    ensures
        match decode_list_entry(p@) {
            Some(e) => res matches Some((k, vs)) && k@ == e.0 && vs.deep_view() == e.1,
            None => res is None,
        },
{
    let mut k = String::new();
    let mut vs: Vec<String> = Vec::new();
    let mut rest = p;
    assert(vs.deep_view() =~= Seq::<Seq<char>>::empty());
    while rest.len() > 0
        invariant
            decode_fields((k@, vs.deep_view()), rest@, list_entry_steps()) == decode_list_entry(
                p@,
            ),
            decode_fields((), rest@, message_entry_pass_steps()) is Some,
        decreases rest.len(),
    {
        proof {
            lemma_read_key_bounds(rest@);
        }
        let (t, w, r) = match take_key(rest) {
            Some(kk) => kk,
            None => return None,
        };
        let ghost m0 = (k@, vs.deep_view());
        proof {
            lemma_read_varint_bounds(r@);
        }
        let next = if t == 1 {
            merge_string(w, &mut k, r)
        } else if t == 2 {
            let mut p2: Vec<u8> = Vec::new();
            match merge_bytes(w, &mut p2, r) {
                Some(r2) => {
                    if merge_string_list(&mut vs, p2.as_slice()) {
                        Some(r2)
                    } else {
                        return None;
                    }
                },
                None => None,
            }
        } else {
            skip(w, t, r)
        };
        match next {
            Some(r2) => {
                assert(list_entry_step(m0, t, w, r@) == Some(((k@, vs.deep_view()), r2@)));
                assert(message_entry_pass_steps()((), t, w, r@) == Some(((), r2@)));
                rest = r2;
            },
            None => {
                assert(list_entry_step(m0, t, w, r@) is None);
                return None;
            },
        }
    }
    Some((k, vs))
}

// ---------------------------------------------------------------------------
// RequestContext
// ---------------------------------------------------------------------------

/// Who made an HTTP request: the user, whether an admin, and the client's
/// address.
#[derive(Debug)]
pub struct RequestContext {
    pub user_id: i64,
    pub is_admin: bool,
    pub client_ip: String,
}

/// The fields of a `RequestContext` as mathematical values.
pub ghost struct RequestContextView {
    pub user_id: i64,
    pub is_admin: bool,
    pub client_ip: Seq<char>,
}

impl View for RequestContext {
    type V = RequestContextView;

    open spec fn view(&self) -> RequestContextView {
        RequestContextView {
            user_id: self.user_id,
            is_admin: self.is_admin,
            client_ip: self.client_ip@,
        }
    }
}

/// Reads one field of a nested `RequestContext` (`user_id` = 1, `is_admin`
/// = 2, `client_ip` = 3).
pub open spec fn request_context_step(m: RequestContextView, t: u32, w: u8, b: Seq<u8>) -> Option<
    (RequestContextView, Seq<u8>),
> {
    if t == 1 {
        match read_varint_value(w, b) {
            Some((v, r)) => Some((RequestContextView { user_id: (v as u64) as i64, ..m }, r)),
            None => None,
        }
    } else if t == 2 {
        match read_varint_value(w, b) {
            Some((v, r)) => Some((RequestContextView { is_admin: v != 0, ..m }, r)),
            None => None,
        }
    } else if t == 3 {
        match read_string_value(w, b) {
            Some((s, r)) => Some((RequestContextView { client_ip: s, ..m }, r)),
            None => None,
        }
    } else {
        skip_step_at(nested_depth(), m, t, w, b)
    }
}

/// `request_context_step` as a function value.
pub open spec fn request_context_steps() -> spec_fn(RequestContextView, u32, u8, Seq<u8>) -> Option<
    (RequestContextView, Seq<u8>),
> {
    |m: RequestContextView, t: u32, w: u8, b: Seq<u8>| request_context_step(m, t, w, b)
}

/// Every field that a `RequestContext` reads is one that prost passes over
/// to the same point.
proof fn lemma_request_context_refines()
    ensures
        forall|m: RequestContextView, t: u32, w: u8, b: Seq<u8>|
            (#[trigger] request_context_steps()(m, t, w, b)) matches Some((_, r)) ==> pass_steps(
                nested_depth(),
            )((), t, w, b) == Some(((), r)),
{
    assert forall|m: RequestContextView, t: u32, w: u8, b: Seq<u8>|
        (#[trigger] request_context_steps()(m, t, w, b)) matches Some((_, r)) ==> pass_steps(
            nested_depth(),
        )((), t, w, b) == Some(((), r)) by {
        lemma_len_value_passes(nested_depth(), t, b);
        lemma_varint_value_passes(nested_depth(), t, b);
    }
}

/// Reads the fields of a nested `RequestContext` payload `p` into `m`, as
/// prost merges an occurrence of the field into an earlier one; false where
/// prost refuses them.
fn merge_request_context(m: &mut RequestContext, p: &[u8]) -> (ok: bool)
    requires
        nested_ok(nested_depth(), p@),
    ensures
        match decode_fields(old(m)@, p@, request_context_steps()) {
            Some(v) => ok && final(m)@ == v,
            None => !ok,
        },
{
    let mut rest = p;
    while rest.len() > 0
        invariant
            decode_fields(m@, rest@, request_context_steps()) == decode_fields(
                old(m)@,
                p@,
                request_context_steps(),
            ),
            nested_ok(nested_depth(), rest@),
        decreases rest.len(),
    {
        proof {
            lemma_read_key_bounds(rest@);
        }
        let (t, w, r) = match take_key(rest) {
            Some(k) => k,
            None => return false,
        };
        let ghost m0 = m@;
        proof {
            lemma_read_varint_bounds(r@);
            lemma_len_value_passes(nested_depth(), t, r@);
            lemma_varint_value_passes(nested_depth(), t, r@);
        }
        let next = if t == 1 {
            merge_int64(w, &mut m.user_id, r)
        } else if t == 2 {
            merge_bool(w, &mut m.is_admin, r)
        } else if t == 3 {
            merge_string(w, &mut m.client_ip, r)
        } else {
            skip(w, t, r)
        };
        match next {
            Some(r2) => {
                assert(request_context_step(m0, t, w, r@) == Some((m@, r2@)));
                assert(pass_step(nested_depth(), (), t, w, r@) == Some(((), r2@)));
                rest = r2;
            },
            None => {
                assert(request_context_step(m0, t, w, r@) is None);
                return false;
            },
        }
    }
    true
}

// ---------------------------------------------------------------------------
// HandleRequest
// ---------------------------------------------------------------------------

/// Request of an HTTP handler or middleware. `query` and `headers` hold the
/// entries of a `map<string, StringList>` in the order they are written; a
/// later entry of a key replaces an earlier one.
#[derive(Debug)]
pub struct HandleRequest {
    pub method: String,
    pub path: String,
    pub query: Vec<(String, Vec<String>)>,
    pub headers: Vec<(String, Vec<String>)>,
    pub body: Vec<u8>,
    pub context: Option<RequestContext>,
}

/// The fields of a `HandleRequest` as mathematical values.
pub ghost struct HandleRequestView {
    pub method: Seq<char>,
    pub path: Seq<char>,
    pub query: Seq<(Seq<char>, Seq<Seq<char>>)>,
    pub headers: Seq<(Seq<char>, Seq<Seq<char>>)>,
    pub body: Seq<u8>,
    pub context: Option<RequestContextView>,
}

impl View for HandleRequest {
    type V = HandleRequestView;

    open spec fn view(&self) -> HandleRequestView {
        HandleRequestView {
            method: self.method@,
            path: self.path@,
            query: self.query.deep_view(),
            headers: self.headers.deep_view(),
            body: self.body@,
            context: match self.context {
                Some(c) => Some(c@),
                None => None,
            },
        }
    }
}

/// The default `HandleRequest`: every field empty or absent.
pub open spec fn handle_request_default() -> HandleRequestView {
    HandleRequestView {
        method: Seq::empty(),
        path: Seq::empty(),
        query: Seq::empty(),
        headers: Seq::empty(),
        body: Seq::empty(),
        context: None,
    }
}

/// The `RequestContext` that a further occurrence of the field is merged
/// into: the earlier one, or the default one.
pub open spec fn request_context_or_default(c: Option<RequestContextView>) -> RequestContextView {
    match c {
        Some(v) => v,
        None => RequestContextView { user_id: 0, is_admin: false, client_ip: Seq::empty() },
    }
}

/// What prost reads for one entry of a `map<string, StringList>` field: a
/// length prefix (read whatever the key's wire type), then the entry.
pub open spec fn read_list_entry(b: Seq<u8>) -> Option<((Seq<char>, Seq<Seq<char>>), Seq<u8>)> {
    match read_delimited(b) {
        Some((p, r)) => match decode_list_entry(p) {
            Some(e) => Some((e, r)),
            None => None,
        },
        None => None,
    }
}

/// Reads one field of a `HandleRequest` (`method` = 1, `path` = 2, `query`
/// = 3, `headers` = 4, `body` = 5, `context` = 6).
pub open spec fn handle_request_step(m: HandleRequestView, t: u32, w: u8, b: Seq<u8>) -> Option<
    (HandleRequestView, Seq<u8>),
> {
    if t == 1 {
        match read_string_value(w, b) {
            Some((s, r)) => Some((HandleRequestView { method: s, ..m }, r)),
            None => None,
        }
    } else if t == 2 {
        match read_string_value(w, b) {
            Some((s, r)) => Some((HandleRequestView { path: s, ..m }, r)),
            None => None,
        }
    } else if t == 3 {
        match read_list_entry(b) {
            Some((e, r)) => Some((HandleRequestView { query: m.query.push(e), ..m }, r)),
            None => None,
        }
    } else if t == 4 {
        match read_list_entry(b) {
            Some((e, r)) => Some((HandleRequestView { headers: m.headers.push(e), ..m }, r)),
            None => None,
        }
    } else if t == 5 {
        match read_len_value(w, b) {
            Some((p, r)) => Some((HandleRequestView { body: p, ..m }, r)),
            None => None,
        }
    } else if t == 6 {
        match read_len_value(w, b) {
            Some((p, r)) => match decode_fields(
                request_context_or_default(m.context),
                p,
                request_context_steps(),
            ) {
                Some(c) => Some((HandleRequestView { context: Some(c), ..m }, r)),
                None => None,
            },
            None => None,
        }
    } else {
        skip_step(m, t, w, b)
    }
}

/// `handle_request_step` as a function value.
pub open spec fn handle_request_steps() -> spec_fn(HandleRequestView, u32, u8, Seq<u8>) -> Option<
    (HandleRequestView, Seq<u8>),
> {
    |m: HandleRequestView, t: u32, w: u8, b: Seq<u8>| handle_request_step(m, t, w, b)
}

/// What decoding `b` as a `HandleRequest` gives; `None` where prost refuses
/// it.
pub open spec fn decode_handle_request(b: Seq<u8>) -> Option<HandleRequestView> {
    decode_fields(handle_request_default(), b, handle_request_steps())
}

/// Reads one entry of a `map<string, StringList>` field from the front of
/// `buf`: the entry and the bytes after it; `None` where prost refuses it.
fn take_list_entry<'a>(buf: &'a [u8]) -> (res: Option<((String, Vec<String>), &'a [u8])>)
    ensures
        match read_list_entry(buf@) {
            Some((e, r)) => res matches Some((x, s)) && x.0@ == e.0 && x.1.deep_view() == e.1
                && s@ == r,
            None => res is None,
        },
{
    match check_message_map_entry(buf) {
        Some(r2) => {
            let mut p: Vec<u8> = Vec::new();
            let _ = merge_bytes(WIRE_LEN, &mut p, buf);
            match decode_list_entry_payload(p.as_slice()) {
                Some(e) => Some((e, r2)),
                None => None,
            }
        },
        None => {
            proof {
                if let Some((p, _)) = read_delimited(buf@) {
                    lemma_list_entry_refines();
                    lemma_decode_refines(
                        (Seq::<char>::empty(), Seq::<Seq<char>>::empty()),
                        p,
                        list_entry_steps(),
                        message_entry_pass_steps(),
                    );
                }
            }
            None
        },
    }
}

impl HandleRequest {
    /// Decodes a `HandleRequest`; `None` where the bytes are malformed.
    pub fn decode(buf: &[u8]) -> (res: Option<HandleRequest>)
        ensures
            match decode_handle_request(buf@) {
                Some(v) => res matches Some(m) && m@ == v,
                None => res is None,
            },
    {
        let mut m = HandleRequest {
            method: String::new(),
            path: String::new(),
            query: Vec::new(),
            headers: Vec::new(),
            body: Vec::new(),
            context: None,
        };
        let mut rest = buf;
        assert(m.query.deep_view() =~= Seq::<(Seq<char>, Seq<Seq<char>>)>::empty());
        assert(m.headers.deep_view() =~= Seq::<(Seq<char>, Seq<Seq<char>>)>::empty());
        while rest.len() > 0
            invariant
                decode_fields(m@, rest@, handle_request_steps()) == decode_handle_request(buf@),
            decreases rest.len(),
        {
            proof {
                lemma_read_key_bounds(rest@);
            }
            let (t, w, r) = match take_key(rest) {
                Some(k) => k,
                None => return None,
            };
            let ghost m0 = m@;
            proof {
                lemma_read_varint_bounds(r@);
            }
            let next = if t == 1 {
                merge_string(w, &mut m.method, r)
            } else if t == 2 {
                merge_string(w, &mut m.path, r)
            } else if t == 3 {
                match take_list_entry(r) {
                    Some((e, r2)) => {
                        let ghost ev = (e.0@, e.1.deep_view());
                        m.query.push(e);
                        assert(m.query.deep_view() =~= m0.query.push(ev));
                        Some(r2)
                    },
                    None => None,
                }
            } else if t == 4 {
                match take_list_entry(r) {
                    Some((e, r2)) => {
                        let ghost ev = (e.0@, e.1.deep_view());
                        m.headers.push(e);
                        assert(m.headers.deep_view() =~= m0.headers.push(ev));
                        Some(r2)
                    },
                    None => None,
                }
            } else if t == 5 {
                merge_bytes(w, &mut m.body, r)
            } else if t == 6 {
                match check_message(w, r) {
                    Some(r2) => {
                        let mut p: Vec<u8> = Vec::new();
                        let _ = merge_bytes(w, &mut p, r);
                        let mut c = match m.context.take() {
                            Some(c) => c,
                            None => RequestContext {
                                user_id: 0,
                                is_admin: false,
                                client_ip: String::new(),
                            },
                        };
                        if !merge_request_context(&mut c, p.as_slice()) {
                            return None;
                        }
                        m.context = Some(c);
                        Some(r2)
                    },
                    None => {
                        proof {
                            if let Some((p, _)) = read_len_value(w, r@) {
                                lemma_request_context_refines();
                                lemma_decode_refines(
                                    request_context_or_default(m0.context),
                                    p,
                                    request_context_steps(),
                                    pass_steps(nested_depth()),
                                );
                            }
                        }
                        None
                    },
                }
            } else {
                skip(w, t, r)
            };
            match next {
                Some(r2) => {
                    assert(handle_request_step(m0, t, w, r@) == Some((m@, r2@)));
                    rest = r2;
                },
                None => {
                    assert(handle_request_step(m0, t, w, r@) is None);
                    return None;
                },
            }
        }
        Some(m)
    }
}

// ---------------------------------------------------------------------------
// What an entry point receives of what the host sends
// ---------------------------------------------------------------------------

/// The bytes of an `EmitEventRequest` as the host's schema writes them: the
/// event's name as field 1, its payload as field 2.
pub open spec fn sent_emit_event_request(event: Seq<char>, payload: Option<Seq<u8>>) -> Seq<u8> {
    opt_string_field(1, event) + opt_message_field(2, payload)
}

/// An event handler receives the event that the host sends: bytes that
/// hold the event's name as field 1 and its payload as field 2 decode to
/// that name and payload.
pub proof fn law_emit_event_request_decodes(event: Seq<char>, payload: Option<Seq<u8>>)
    requires
        encode_utf8(event).len() <= u64::MAX,
        payload_or_empty(payload).len() <= u64::MAX,
        payload matches Some(p) ==> struct_payload_decodes(p),
    ensures
        decode_emit_event_request(sent_emit_event_request(event, payload)) == Some(
            EmitEventRequestView { event, payload },
        ),
{
    let s = emit_event_request_steps();
    let d = emit_event_request_default();
    let f1 = opt_string_field(1, event);
    let f2 = opt_message_field(2, payload);
    let m1 = EmitEventRequestView { event, ..d };
    if event.len() > 0 {
        lemma_read_string_field(1, event, f2);
        lemma_decode_fields_front(d, f1, f2, s, m1);
    } else {
        lemma_empty_prefix(f2);
        assert(event =~= Seq::<char>::empty());
    }
    assert(decode_fields(d, f1 + f2, s) == decode_fields(m1, f2, s));
    if let Some(p) = payload {
        lemma_read_len_field(2, p, Seq::empty());
        assert(f2 + Seq::<u8>::empty() =~= f2);
        lemma_decode_fields_front(m1, f2, Seq::empty(), s, EmitEventRequestView { event, payload });
    }
}

/// The payload of a `HostConfig` as the host's schema writes it: the site's
/// name as field 1.
pub open spec fn sent_host_config(h: HostConfigView) -> Seq<u8> {
    opt_string_field(1, h.site_name)
}

/// The bytes of an `InitRequest` as the host's schema writes them: what the
/// host tells of itself as field 1, the plugin's configuration as field 2.
pub open spec fn sent_init_request(host_config: Option<HostConfigView>, config: Option<Seq<u8>>) -> Seq<u8> {
    opt_message_field(1, sent_host_config_value(host_config)) + opt_message_field(2, config)
}

/// The payload of an optional `HostConfig`.
pub open spec fn sent_host_config_value(host_config: Option<HostConfigView>) -> Option<Seq<u8>> {
    match host_config {
        Some(h) => Some(sent_host_config(h)),
        None => None,
    }
}

/// A `HostConfig` payload decodes to the site's name it holds.
proof fn lemma_host_config_decodes(h: HostConfigView)
    requires
        encode_utf8(h.site_name).len() <= u64::MAX,
    ensures
        decode_fields(host_config_or_default(None), sent_host_config(h), host_config_steps())
            == Some(h),
{
    let d = host_config_or_default(None);
    if h.site_name.len() > 0 {
        lemma_read_string_field(1, h.site_name, Seq::empty());
        assert(sent_host_config(h) + Seq::<u8>::empty() =~= sent_host_config(h));
        lemma_decode_fields_front(d, sent_host_config(h), Seq::empty(), host_config_steps(), h);
    } else {
        assert(h.site_name =~= Seq::<char>::empty());
    }
}

/// `init` receives what the host sends: bytes that hold the host's
/// description as field 1 (its site's name as field 1 within) and the
/// plugin's configuration as field 2 decode to them.
pub proof fn law_init_request_decodes(host_config: Option<HostConfigView>, config: Option<Seq<u8>>)
    requires
        host_config matches Some(h) ==> encode_utf8(h.site_name).len() <= u64::MAX
            && sent_host_config(h).len() <= u64::MAX,
        payload_or_empty(config).len() <= u64::MAX,
        config matches Some(p) ==> struct_payload_decodes(p),
    ensures
        decode_init_request(sent_init_request(host_config, config)) == Some(
            InitRequestView { host_config, config },
        ),
{
    let s = init_request_steps();
    let d = init_request_default();
    let f2 = opt_message_field(2, config);
    let m1 = InitRequestView { host_config, ..d };
    let f1 = opt_message_field(1, sent_host_config_value(host_config));
    if let Some(h) = host_config {
        lemma_read_len_field(1, sent_host_config(h), f2);
        lemma_host_config_decodes(h);
        lemma_decode_fields_front(d, f1, f2, s, m1);
    } else {
        lemma_empty_prefix(f2);
    }
    assert(decode_fields(d, f1 + f2, s) == decode_fields(m1, f2, s));
    if let Some(p) = config {
        lemma_read_len_field(2, p, Seq::empty());
        assert(f2 + Seq::<u8>::empty() =~= f2);
        lemma_decode_fields_front(m1, f2, Seq::empty(), s, InitRequestView { host_config, config });
    }
}

/// The payload of a `StringList` as the host's schema writes it: each
/// string as field 1, in order.
pub open spec fn sent_string_list(vs: Seq<Seq<char>>) -> Seq<u8> {
    string_list_fields(1, vs)
}

/// The list of an entry of a `map<string, StringList>`, absent where empty.
pub open spec fn sent_list_value(vs: Seq<Seq<char>>) -> Option<Seq<u8>> {
    if vs.len() == 0 {
        None
    } else {
        Some(sent_string_list(vs))
    }
}

/// The payload of an entry of a `map<string, StringList>` as the host's
/// schema writes it: the key as field 1, the list as field 2 where it is
/// not empty.
pub open spec fn sent_list_entry(e: (Seq<char>, Seq<Seq<char>>)) -> Seq<u8> {
    opt_string_field(1, e.0) + opt_message_field(2, sent_list_value(e.1))
}

/// The payload of each entry.
pub open spec fn sent_list_entry_payloads(es: Seq<(Seq<char>, Seq<Seq<char>>)>) -> Seq<Seq<u8>> {
    es.map_values(|e: (Seq<char>, Seq<Seq<char>>)| sent_list_entry(e))
}

/// A `map<string, StringList>` field as the host's schema writes it: one
/// entry per pair, in order.
pub open spec fn sent_list_entries(tag: u32, es: Seq<(Seq<char>, Seq<Seq<char>>)>) -> Seq<u8> {
    len_list_fields(tag, sent_list_entry_payloads(es))
}

/// The payload of a `RequestContext` as the host's schema writes it:
/// `user_id` = 1, `is_admin` = 2, `client_ip` = 3.
pub open spec fn sent_request_context(c: RequestContextView) -> Seq<u8> {
    opt_int64_field(1, c.user_id) + opt_bool_field(2, c.is_admin) + opt_string_field(3, c.client_ip)
}

/// The bytes of a `HandleRequest` as the host's schema writes them:
/// `method` = 1, `path` = 2, `query` = 3, `headers` = 4, `body` = 5,
/// `context` = 6.
pub open spec fn sent_handle_request(m: HandleRequestView) -> Seq<u8> {
    opt_string_field(1, m.method) + opt_string_field(2, m.path) + sent_list_entries(3, m.query)
        + sent_list_entries(4, m.headers) + opt_bytes_field(5, m.body) + opt_message_field(
        6,
        sent_context_value(m.context),
    )
}

/// The payload of an optional `RequestContext`.
pub open spec fn sent_context_value(context: Option<RequestContextView>) -> Option<Seq<u8>> {
    match context {
        Some(c) => Some(sent_request_context(c)),
        None => None,
    }
}

/// Whether an entry of a `map<string, StringList>` is small enough for its
/// lengths to be written.
pub open spec fn list_entry_fits(e: (Seq<char>, Seq<Seq<char>>)) -> bool {
    &&& encode_utf8(e.0).len() <= u64::MAX
    &&& forall|i: int| 0 <= i < e.1.len() ==> encode_utf8(#[trigger] e.1[i]).len() <= u64::MAX
    &&& sent_string_list(e.1).len() <= u64::MAX
    &&& sent_list_entry(e).len() <= u64::MAX
}

/// The strings of a `StringList` payload are appended in order.
proof fn lemma_string_list_decodes(prev: Seq<Seq<char>>, vs: Seq<Seq<char>>, r: Seq<u8>)
    requires
        forall|i: int| 0 <= i < vs.len() ==> encode_utf8(#[trigger] vs[i]).len() <= u64::MAX,
    ensures
        decode_fields(prev, string_list_fields(1, vs) + r, string_list_steps()) == decode_fields(
            prev + vs,
            r,
            string_list_steps(),
        ),
    decreases vs.len(),
{
    let s = string_list_steps();
    if vs.len() == 0 {
        lemma_empty_prefix(r);
        assert(prev + vs =~= prev);
    } else {
        let init = vs.drop_last();
        let f = string_field(1, vs.last());
        assert(string_list_fields(1, vs) + r =~= string_list_fields(1, init) + (f + r));
        assert forall|i: int| 0 <= i < init.len() implies encode_utf8(#[trigger] init[i]).len()
            <= u64::MAX by {
            assert(init[i] == vs[i]);
        }
        lemma_string_list_decodes(prev, init, f + r);
        assert(encode_utf8(vs[vs.len() - 1]).len() <= u64::MAX);
        lemma_read_string_field(1, vs.last(), r);
        lemma_decode_fields_front(prev + init, f, r, s, (prev + init).push(vs.last()));
        assert((prev + init).push(vs.last()) =~= prev + vs);
    }
}

/// An entry's payload decodes to its key and list.
proof fn lemma_list_entry_decodes(e: (Seq<char>, Seq<Seq<char>>))
    requires
        list_entry_fits(e),
    ensures
        decode_list_entry(sent_list_entry(e)) == Some(e),
{
    let s = list_entry_steps();
    let d = (Seq::<char>::empty(), Seq::<Seq<char>>::empty());
    let f1 = opt_string_field(1, e.0);
    let f2 = opt_message_field(2, sent_list_value(e.1));
    let m1 = (e.0, d.1);
    if e.0.len() > 0 {
        lemma_read_string_field(1, e.0, f2);
        lemma_decode_fields_front(d, f1, f2, s, m1);
    } else {
        lemma_empty_prefix(f2);
        assert(e.0 =~= Seq::<char>::empty());
    }
    assert(decode_fields(d, f1 + f2, s) == decode_fields(m1, f2, s));
    if e.1.len() > 0 {
        lemma_read_len_field(2, sent_string_list(e.1), Seq::empty());
        lemma_string_list_decodes(d.1, e.1, Seq::empty());
        assert(sent_string_list(e.1) + Seq::<u8>::empty() =~= sent_string_list(e.1));
        assert(d.1 + e.1 =~= e.1);
        assert(f2 + Seq::<u8>::empty() =~= f2);
        lemma_decode_fields_front(m1, f2, Seq::empty(), s, e);
    } else {
        assert(e.1 =~= Seq::<Seq<char>>::empty());
    }
}

/// The entries of a `query` (3) or `headers` (4) field are appended to it,
/// in order.
proof fn lemma_list_entries_decode(
    m: HandleRequestView,
    tag: u32,
    es: Seq<(Seq<char>, Seq<Seq<char>>)>,
    r: Seq<u8>,
)
    requires
        tag == 3 || tag == 4,
        forall|i: int| 0 <= i < es.len() ==> #[trigger] list_entry_fits(es[i]),
    ensures
        decode_fields(m, sent_list_entries(tag, es) + r, handle_request_steps()) == decode_fields(
            if tag == 3 {
                HandleRequestView { query: m.query + es, ..m }
            } else {
                HandleRequestView { headers: m.headers + es, ..m }
            },
            r,
            handle_request_steps(),
        ),
    decreases es.len(),
{
    let s = handle_request_steps();
    if es.len() == 0 {
        assert(sent_list_entry_payloads(es) =~= Seq::<Seq<u8>>::empty());
        lemma_empty_prefix(r);
        assert(m.query + es =~= m.query);
        assert(m.headers + es =~= m.headers);
    } else {
        let init = es.drop_last();
        let last = es.last();
        let f = len_field(tag, sent_list_entry(last));
        assert(sent_list_entries(tag, es) == sent_list_entries(tag, init) + f) by {
            assert(sent_list_entry_payloads(es).drop_last() =~= sent_list_entry_payloads(init));
            assert(sent_list_entry_payloads(es).last() == sent_list_entry(last));
        }
        let a = sent_list_entries(tag, init);
        assert(a + f + r =~= a + (f + r));
        assert forall|i: int| 0 <= i < init.len() implies #[trigger] list_entry_fits(init[i]) by {
            assert(init[i] == es[i]);
        }
        lemma_list_entries_decode(m, tag, init, f + r);
        assert(list_entry_fits(es[es.len() - 1]));
        assert(decode_list_entry(sent_list_entry(last)) == Some(last)) by {
            lemma_list_entry_decodes(last);
        }
        lemma_read_len_field(tag, sent_list_entry(last), r);
        let mi = if tag == 3 {
            HandleRequestView { query: m.query + init, ..m }
        } else {
            HandleRequestView { headers: m.headers + init, ..m }
        };
        let mf = if tag == 3 {
            HandleRequestView { query: m.query + es, ..m }
        } else {
            HandleRequestView { headers: m.headers + es, ..m }
        };
        assert((m.query + init).push(last) =~= m.query + es);
        assert((m.headers + init).push(last) =~= m.headers + es);
        lemma_decode_fields_front(mi, f, r, s, mf);
    }
}

/// A `RequestContext` payload decodes to the context it holds.
proof fn lemma_request_context_decodes(c: RequestContextView)
    requires
        encode_utf8(c.client_ip).len() <= u64::MAX,
    ensures
        decode_fields(request_context_or_default(None), sent_request_context(c), request_context_steps())
            == Some(c),
{
    let s = request_context_steps();
    let d = request_context_or_default(None);
    let e = Seq::<u8>::empty();
    let g1 = opt_int64_field(1, c.user_id);
    let g2 = opt_bool_field(2, c.is_admin);
    let g3 = opt_string_field(3, c.client_ip);
    let m1 = RequestContextView { user_id: c.user_id, ..d };
    let m2 = RequestContextView { is_admin: c.is_admin, ..m1 };
    assert(sent_request_context(c) =~= g1 + (g2 + (g3 + e)));
    let x: i64 = c.user_id;
    assert(((x as u64) as i64) == x) by (bit_vector);
    if c.user_id != 0 {
        lemma_read_varint_field(1, c.user_id as u64, g2 + (g3 + e));
        lemma_decode_fields_front(d, g1, g2 + (g3 + e), s, m1);
    } else {
        lemma_empty_prefix(g2 + (g3 + e));
    }
    if c.is_admin {
        lemma_read_varint_field(2, 1, g3 + e);
        lemma_decode_fields_front(m1, g2, g3 + e, s, m2);
    } else {
        lemma_empty_prefix(g3 + e);
    }
    if c.client_ip.len() > 0 {
        lemma_read_string_field(3, c.client_ip, e);
        lemma_decode_fields_front(m2, g3, e, s, c);
    } else {
        lemma_empty_prefix(e);
        assert(c.client_ip =~= Seq::<char>::empty());
        assert(g3 + e =~= e);
    }
}

/// Whether a `HandleRequest` is small enough for its lengths to be written.
pub open spec fn handle_request_fits(m: HandleRequestView) -> bool {
    &&& encode_utf8(m.method).len() <= u64::MAX
    &&& encode_utf8(m.path).len() <= u64::MAX
    &&& forall|i: int| 0 <= i < m.query.len() ==> #[trigger] list_entry_fits(m.query[i])
    &&& forall|i: int| 0 <= i < m.headers.len() ==> #[trigger] list_entry_fits(m.headers[i])
    &&& m.body.len() <= u64::MAX
    &&& m.context matches Some(c) ==> encode_utf8(c.client_ip).len() <= u64::MAX
        && sent_request_context(c).len() <= u64::MAX
}

/// A handler or middleware receives the request that the host sends: bytes
/// that hold the method as field 1, the path as field 2, the query's and the
/// headers' entries as fields 3 and 4 (key as field 1, list of strings as
/// field 2 within), the body as field 5 and the caller as field 6 (user id,
/// admin flag and address as fields 1, 2, 3 within) decode to them.
pub proof fn law_handle_request_decodes(m: HandleRequestView)
    requires
        handle_request_fits(m),
    ensures
        decode_handle_request(sent_handle_request(m)) == Some(m),
{
    let s = handle_request_steps();
    let d = handle_request_default();
    let e = Seq::<u8>::empty();
    let f1 = opt_string_field(1, m.method);
    let f2 = opt_string_field(2, m.path);
    let f3 = sent_list_entries(3, m.query);
    let f4 = sent_list_entries(4, m.headers);
    let f5 = opt_bytes_field(5, m.body);
    let f6 = opt_message_field(6, sent_context_value(m.context));
    assert(sent_handle_request(m) == f1 + (f2 + (f3 + (f4 + (f5 + (f6 + e)))))) by {
        crate::reading::lemma_regroup6(f1, f2, f3, f4, f5, f6);
    }
    let t5 = f6 + e;
    let t4 = f5 + t5;
    let t3 = f4 + t4;
    let t2 = f3 + t3;
    let t1 = f2 + t2;
    let m1 = HandleRequestView { method: m.method, ..d };
    let m2 = HandleRequestView { path: m.path, ..m1 };
    let m3 = HandleRequestView { query: m.query, ..m2 };
    let m4 = HandleRequestView { headers: m.headers, ..m3 };
    let m5 = HandleRequestView { body: m.body, ..m4 };
    assert(decode_fields(d, f1 + t1, s) == decode_fields(m1, t1, s)) by {
        if m.method.len() > 0 {
            lemma_read_string_field(1, m.method, t1);
            lemma_decode_fields_front(d, f1, t1, s, m1);
        } else {
            lemma_empty_prefix(t1);
            assert(m.method =~= Seq::<char>::empty());
        }
    }
    assert(decode_fields(m1, t1, s) == decode_fields(m2, t2, s)) by {
        if m.path.len() > 0 {
            lemma_read_string_field(2, m.path, t2);
            lemma_decode_fields_front(m1, f2, t2, s, m2);
        } else {
            lemma_empty_prefix(t2);
            assert(m.path =~= Seq::<char>::empty());
        }
    }
    assert(decode_fields(m2, t2, s) == decode_fields(m3, t3, s)) by {
        lemma_list_entries_decode(m2, 3, m.query, t3);
        assert(Seq::<(Seq<char>, Seq<Seq<char>>)>::empty() + m.query =~= m.query);
    }
    assert(decode_fields(m3, t3, s) == decode_fields(m4, t4, s)) by {
        lemma_list_entries_decode(m3, 4, m.headers, t4);
        assert(Seq::<(Seq<char>, Seq<Seq<char>>)>::empty() + m.headers =~= m.headers);
    }
    assert(decode_fields(m4, t4, s) == decode_fields(m5, t5, s)) by {
        if m.body.len() > 0 {
            lemma_read_len_field(5, m.body, t5);
            lemma_decode_fields_front(m4, f5, t5, s, m5);
        } else {
            lemma_empty_prefix(t5);
            assert(m.body =~= Seq::<u8>::empty());
        }
    }
    assert(decode_fields(m5, t5, s) == Some(m)) by {
        match m.context {
            Some(c) => {
                lemma_read_len_field(6, sent_request_context(c), e);
                lemma_request_context_decodes(c);
                lemma_decode_fields_front(m5, f6, e, s, m);
            },
            None => {
                assert(f6 + e =~= e);
                assert(m5 =~= m);
            },
        }
    }
}

} // verus!
