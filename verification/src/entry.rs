//! The rules behind the plugin's entry points: the WASM export name of each
//! handler, the checks on the attributes that name it, and the replies that
//! an entry point gives when it cannot run the plugin's function.
//!
//! | Entry point     | WASM export        | Function                                   |
//! |-----------------|--------------------|--------------------------------------------|
//! | `init`          | `init`             | `fn(InitRequest) -> Result<(), String>`    |
//! | `handler`       | `handle_<fn_name>` | `fn(HandleRequest) -> HandleResponse`      |
//! | `start`         | `start`            | `fn() -> Result<(), String>`               |
//! | `stop`          | `stop`             | `fn() -> Result<(), String>`               |
//! | `event_handler` | `on_<fn_name>`     | `fn(EmitEventRequest) -> BoolResult`       |
//! | `middleware`    | `mw_<fn_name>`     | `fn(HandleRequest) -> MiddlewareResponse`  |

use crate::proto::{BoolResult, HandleResponse, MiddlewareResponse};
use vstd::prelude::*;
use vstd::slice::slice_to_vec;
use vstd::string::*;
use vstd::utf8::*;

verus! {

/// The kinds of entry point whose export name can be chosen.
#[derive(Debug, Clone, Copy, PartialEq, Eq)]
pub enum NamedEntry {
    Handler,
    EventHandler,
    Middleware,
}

/// The prefix of an entry point's default export name.
pub open spec fn export_prefix(kind: NamedEntry) -> Seq<char> {
    match kind {
        NamedEntry::Handler => "handle_"@,
        NamedEntry::EventHandler => "on_"@,
        NamedEntry::Middleware => "mw_"@,
    }
}

/// The export name of an entry point whose attribute names none: the
/// prefix of its kind, then the function's name.
pub fn default_export(kind: NamedEntry, fn_name: &str) -> (res: String)
    ensures
        res@ == export_prefix(kind) + fn_name@,
{
    let mut res = match kind {
        NamedEntry::Handler => String::from_str("handle_"),
        NamedEntry::EventHandler => String::from_str("on_"),
        NamedEntry::Middleware => String::from_str("mw_"),
    };
    res.append(fn_name);
    res
}

/// The value given to an attribute key.
#[derive(Debug)]
pub enum AttrValue {
    /// A string literal, with its text.
    Str(String),
    /// A literal of another kind.
    OtherLiteral,
    /// An expression that is no literal.
    NotLiteral,
}

/// One `key = value` pair of an entry point's attribute.
#[derive(Debug)]
pub struct AttrPair {
    /// The key, where it is a single identifier.
    pub key: Option<String>,
    pub value: AttrValue,
}

/// An entry point's attribute, as the tokens parse.
#[derive(Debug)]
pub enum ExportAttr {
    /// No attribute tokens.
    Empty,
    /// Tokens that are no comma-separated list of `key = value` pairs, with
    /// the parser's message.
    Unparsable(String),
    /// The pairs, in order.
    Pairs(Vec<AttrPair>),
}

/// The message for an attribute given to an entry point that takes none.
pub open spec fn no_attr_message(macro_name: Seq<char>) -> Seq<char> {
    "#[ppanel_sdk::"@ + macro_name + "] does not accept attributes"@
}

/// The message for attribute tokens that do not parse.
pub open spec fn invalid_attr_message(macro_name: Seq<char>, err: Seq<char>) -> Seq<char> {
    "invalid #[ppanel_sdk::"@ + macro_name + "] attribute: "@ + err
}

/// The message for a key other than `export`.
pub open spec fn unsupported_key_message(macro_name: Seq<char>, key: Seq<char>) -> Seq<char> {
    "unsupported #[ppanel_sdk::"@ + macro_name + "("@ + key
        + " = ...)] attribute; use export = \"wasm_export_name\""@
}

/// The message for a key that is no single identifier.
pub open spec fn key_not_ident_message() -> Seq<char> {
    "attribute key must be an identifier"@
}

/// The message for an `export` value that is no string literal.
pub open spec fn export_not_string_message() -> Seq<char> {
    "export must be a string literal"@
}

/// Checks that an entry point that takes no attribute got none.
pub fn ensure_no_attr(attr_is_empty: bool, macro_name: &str) -> (res: Result<(), String>)
    ensures
        attr_is_empty ==> res is Ok,
        !attr_is_empty ==> (res matches Err(e) && e@ == no_attr_message(macro_name@)),
{
    if attr_is_empty {
        Ok(())
    } else {
        let mut msg = String::from_str("#[ppanel_sdk::");
        msg.append(macro_name);
        msg.append("] does not accept attributes");
        Err(msg)
    }
}

/// A pair's key and value, as plain sequences: `None` for a key that is no
/// identifier; the value's text for a string literal, else `None`.
pub open spec fn pair_view(p: AttrPair) -> (Option<Seq<char>>, Option<Seq<char>>) {
    (
        match p.key {
            Some(k) => Some(k@),
            None => None,
        },
        match p.value {
            AttrValue::Str(s) => Some(s@),
            _ => None,
        },
    )
}

/// The export name that the pairs choose, starting from `export`: each
/// pair must have the key `export` and a string value, which becomes the
/// name; the last one wins. The first pair that breaks the rule gives the
/// error.
pub open spec fn pairs_outcome(
    pairs: Seq<(Option<Seq<char>>, Option<Seq<char>>)>,
    export: Seq<char>,
    macro_name: Seq<char>,
) -> Result<Seq<char>, Seq<char>>
    decreases pairs.len(),
{
    if pairs.len() == 0 {
        Ok(export)
    } else {
        let (k, v) = pairs[0];
        match k {
            None => Err(key_not_ident_message()),
            Some(key) => if key != "export"@ {
                Err(unsupported_key_message(macro_name, key))
            } else {
                match v {
                    None => Err(export_not_string_message()),
                    Some(s) => pairs_outcome(pairs.drop_first(), s, macro_name),
                }
            },
        }
    }
}

/// The export name that an attribute chooses, or the message of the error
/// it causes.
pub open spec fn export_attr_outcome(
    attr: ExportAttr,
    default_export: Seq<char>,
    macro_name: Seq<char>,
) -> Result<Seq<char>, Seq<char>> {
    match attr {
        ExportAttr::Empty => Ok(default_export),
        ExportAttr::Unparsable(e) => Err(invalid_attr_message(macro_name, e@)),
        ExportAttr::Pairs(ps) => pairs_outcome(
            ps@.map_values(|p: AttrPair| pair_view(p)),
            default_export,
            macro_name,
        ),
    }
}

/// Whether a pair is `export = "<string>"`.
pub open spec fn is_export_pair(p: (Option<Seq<char>>, Option<Seq<char>>)) -> bool {
    p.0 == Some("export"@) && p.1 is Some
}

/// An attribute's pairs are accepted exactly when each of them is
/// `export = "<string>"`; then the export name is the string of the last
/// one, and the default where there is none.
pub proof fn law_export_pairs(
    pairs: Seq<(Option<Seq<char>>, Option<Seq<char>>)>,
    export: Seq<char>,
    macro_name: Seq<char>,
)
    ensures
        pairs_outcome(pairs, export, macro_name) is Ok <==> forall|i: int|
            0 <= i < pairs.len() ==> #[trigger] is_export_pair(pairs[i]),
        pairs_outcome(pairs, export, macro_name) matches Ok(name) ==> name == if pairs.len() == 0 {
            export
        } else {
            pairs.last().1.unwrap()
        },
    decreases pairs.len(),
{
    if pairs.len() > 0 {
        let rest = pairs.drop_first();
        let (k, v) = pairs[0];
        if is_export_pair(pairs[0]) {
            law_export_pairs(rest, v.unwrap(), macro_name);
            assert forall|j: int| 0 <= j < rest.len() implies rest[j] == pairs[j + 1] by {}
            if forall|j: int| 0 <= j < rest.len() ==> #[trigger] is_export_pair(rest[j]) {
                assert forall|i: int| 0 <= i < pairs.len() implies #[trigger] is_export_pair(
                    pairs[i],
                ) by {
                    if i > 0 {
                        assert(pairs[i] == rest[i - 1]);
                    }
                }
            } else {
                let j = choose|j: int| 0 <= j < rest.len() && !#[trigger] is_export_pair(rest[j]);
                assert(!is_export_pair(pairs[j + 1]));
            }
            if rest.len() > 0 {
                assert(rest.last() == pairs.last());
            }
        } else {
            assert(!is_export_pair(pairs[0]));
            if k is Some && k.unwrap() == "export"@ {
                assert(v is None);
            }
        }
    }
}

/// Chooses the export name of an entry point from its attribute: the
/// default where there is none, else the string given to `export`.
pub fn parse_export_attr(attr: &ExportAttr, default_export: String, macro_name: &str) -> (res:
    Result<String, String>)
    ensures
        match export_attr_outcome(*attr, default_export@, macro_name@) {
            Ok(name) => res matches Ok(s) && s@ == name,
            Err(msg) => res matches Err(s) && s@ == msg,
        },
{
    match attr {
        ExportAttr::Empty => Ok(default_export),
        ExportAttr::Unparsable(e) => {
            let mut msg = String::from_str("invalid #[ppanel_sdk::");
            msg.append(macro_name);
            msg.append("] attribute: ");
            msg.append(e.as_str());
            Err(msg)
        },
        ExportAttr::Pairs(pairs) => {
            let ghost views = pairs@.map_values(|p: AttrPair| pair_view(p));
            let mut export = default_export;
            let mut i: usize = 0;
            let export_key = String::from_str("export");
            assert(views.skip(0) =~= views);
            while i < pairs.len()
                invariant
                    0 <= i <= pairs.len(),
                    views == pairs@.map_values(|p: AttrPair| pair_view(p)),
                    export_key@ == "export"@,
                    export_attr_outcome(*attr, default_export@, macro_name@) == pairs_outcome(
                        views,
                        default_export@,
                        macro_name@,
                    ),
                    pairs_outcome(views, default_export@, macro_name@) == pairs_outcome(
                        views.skip(i as int),
                        export@,
                        macro_name@,
                    ),
                decreases pairs.len() - i,
            {
                let pair = &pairs[i];
                assert(views.skip(i as int).len() > 0);
                assert(views.skip(i as int)[0] == pair_view(*pair));
                assert(views.skip(i as int).drop_first() =~= views.skip(i + 1));
                match &pair.key {
                    None => {
                        return Err(String::from_str("attribute key must be an identifier"));
                    },
                    Some(key) => {
                        if !(*key == export_key) {
                            let mut msg = String::from_str("unsupported #[ppanel_sdk::");
                            msg.append(macro_name);
                            msg.append("(");
                            msg.append(key.as_str());
                            msg.append(" = ...)] attribute; use export = \"wasm_export_name\"");
                            return Err(msg);
                        }
                        match &pair.value {
                            AttrValue::Str(s) => {
                                export = s.clone();
                            },
                            _ => {
                                return Err(String::from_str("export must be a string literal"));
                            },
                        }
                    },
                }
                i += 1;
            }
            assert(views.skip(pairs.len() as int) =~= Seq::<
                (Option<Seq<char>>, Option<Seq<char>>),
            >::empty());
            Ok(export)
        },
    }
}

/// The JSON body of an error response: `{"error":"<detail>"}`.
pub open spec fn error_body_text(detail: Seq<char>) -> Seq<char> {
    "{\"error\":\""@ + detail + "\"}"@
}

fn error_body(detail: &str) -> (res: Vec<u8>)
    ensures
        res@ == encode_utf8(error_body_text(detail@)),
{
    let mut text = String::from_str("{\"error\":\"");
    text.append(detail);
    text.append("\"}");
    slice_to_vec(text.as_str().as_bytes())
}

/// What a handler answers when it cannot run: status 500, no headers, and
/// the JSON error body with `detail` (`decode request: ...` where the
/// request does not decode, `block_on: ...` where an async handler fails).
pub fn handler_error_response(detail: &str) -> (res: HandleResponse)
    ensures
        res.status == 500,
        res.headers@.len() == 0,
        res.body@ == encode_utf8(error_body_text(detail@)),
{
    HandleResponse { status: 500, headers: Vec::new(), body: error_body(detail) }
}

/// What a middleware answers when it cannot run: action `abort`, status
/// 500, no headers, and the JSON error body with `detail`.
pub fn middleware_error_response(detail: &str) -> (res: MiddlewareResponse)
    ensures
        res.action@ == "abort"@,
        res.status == 500,
        res.headers@.len() == 0,
        res.body@ == encode_utf8(error_body_text(detail@)),
{
    MiddlewareResponse {
        action: String::from_str("abort"),
        status: 500,
        headers: Vec::new(),
        body: error_body(detail),
    }
}

/// What `init` and event handlers answer when they cannot run: failure with
/// `message` (`decode init request: ...`, `decode event: ...` or
/// `block_on: ...`).
pub fn failure_reply(message: &str) -> (res: BoolResult)
    ensures
        !res.success,
        res.error@ == message@,
{
    BoolResult { success: false, error: message.to_owned() }
}

/// What `init` answers for the outcome of the plugin's init function:
/// success, or failure with its error text.
pub fn init_reply(outcome: Result<(), String>) -> (res: BoolResult)
    ensures
        outcome is Ok ==> res.success && res.error@.len() == 0,
        outcome matches Err(e) ==> !res.success && res.error@ == e@,
{
    match outcome {
        Ok(()) => BoolResult { success: true, error: String::new() },
        Err(e) => BoolResult { success: false, error: e },
    }
}

} // verus!
