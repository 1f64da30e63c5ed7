//! The envelope codec: encoding and decoding of one wire message
//! (`{"src": ..., "dest": ..., "body": {...}}`) to and from one line of
//! JSON text, with the body's variant fields flattened beside `type`,
//! `msg_id` and `in_reply_to`.
//!
//! A decode failure — malformed text, an unknown `type` tag, a missing
//! required field — is surfaced as a `WireError`, never swallowed.

use vstd::prelude::*;

use crate::json::append_lit;
use crate::json::chars_to_string;
use crate::json::num_chars;
use crate::json::quote_chars;
use crate::json::sp_num;
use crate::json::sp_quote;
use crate::json::key_is;
use crate::json::lit_at;
use crate::json::number_at;
use crate::json::skip_value;
use crate::json::sp_lit_at;
use crate::json::sp_number;
use crate::json::sp_skip_value;
use crate::json::is_digit_char;
use crate::json::is_ws_char;
use crate::json::lemma_char_at;
use crate::json::lemma_num_round_trip;
use crate::json::lemma_quote_round_trip;
use crate::json::lemma_sp_num_digits;
use crate::json::lemma_escape_plain;
use crate::json::lemma_newline_free_concat;
use crate::json::lemma_num_newline_free;
use crate::json::lemma_quote_newline_free;
use crate::json::newline_free;
use crate::json::lemma_subrange_split;
use crate::json::sp_str_array;
use crate::json::sp_str_items;
use crate::json::sp_string;
use crate::json::sp_ws;
use crate::json::str_array;
use crate::json::str_chars;
use crate::json::string_at;
use crate::json::ws;
use crate::message::Body;
use crate::message::BodyV;
use crate::message::Init;
use crate::message::InitV;
use crate::message::Message;
use crate::message::MessageV;
use crate::message::Payload;
use crate::message::PayloadV;

verus! {

/// Why a line failed to decode.
#[derive(Debug, Clone, Copy, PartialEq, Eq, Structural)]
pub enum WireError {
    /// The line is not a well-formed object of the supported JSON subset.
    Malformed,
    /// A field the envelope or its tagged variant requires is absent.
    MissingField,
    /// The body's `type` tag names no supported variant.
    UnknownTag,
}

/// The body fields gathered while walking a body object, each `None` until
/// its key has been seen.
pub struct BodyAccV {
    pub tag: Option<Seq<char>>,
    pub msg_id: Option<u64>,
    pub in_reply_to: Option<u64>,
    pub node_id: Option<Seq<char>>,
    pub node_ids: Option<Seq<Seq<char>>>,
    pub echo: Option<Seq<char>>,
    pub id: Option<u64>,
}

/// The envelope fields gathered while walking the top-level object.
pub struct EnvAccV {
    pub src: Option<Seq<char>>,
    pub dst: Option<Seq<char>>,
    pub body: Option<BodyAccV>,
}

/// The accumulator a body walk starts from: nothing seen yet.
pub open spec fn body_acc_empty() -> BodyAccV {
    BodyAccV {
        tag: None,
        msg_id: None,
        in_reply_to: None,
        node_id: None,
        node_ids: None,
        echo: None,
        id: None,
    }
}

/// The accumulator an envelope walk starts from.
pub open spec fn env_acc_empty() -> EnvAccV {
    EnvAccV { src: None, dst: None, body: None }
}

/// Parses a string field value (whitespace, then a string literal).
pub open spec fn sp_str_value(s: Seq<char>, i: int) -> Option<(Seq<char>, int)> {
    sp_string(s, sp_ws(s, i))
}

/// Parses a number field value.
pub open spec fn sp_u64_value(s: Seq<char>, i: int) -> Option<(u64, int)> {
    sp_number(s, sp_ws(s, i))
}

/// Parses a field value that is a number or `null` (`null` counts as the
/// field being absent).
pub open spec fn sp_opt_u64_value(s: Seq<char>, i: int) -> Option<(Option<u64>, int)> {
    let j = sp_ws(s, i);
    if j < s.len() && s[j] == 'n' {
        if sp_lit_at(s, j, "null"@) {
            Some((None, j + 4))
        } else {
            None
        }
    } else {
        match sp_number(s, j) {
            Some((n, e)) => Some((Some(n), e)),
            None => None,
        }
    }
}

/// Parses one body field value: a known key parses strictly by its type
/// and lands in the accumulator (of a repeated key the last value wins);
/// an unknown key's value is skipped.
pub open spec fn sp_body_value(s: Seq<char>, i: int, key: Seq<char>, acc: BodyAccV) -> Option<
    (BodyAccV, int),
> {
    if key == "type"@ {
        match sp_str_value(s, i) {
            Some((v, e)) => Some((BodyAccV { tag: Some(v), ..acc }, e)),
            None => None,
        }
    } else if key == "msg_id"@ {
        match sp_opt_u64_value(s, i) {
            Some((v, e)) => Some((BodyAccV { msg_id: v, ..acc }, e)),
            None => None,
        }
    } else if key == "in_reply_to"@ {
        match sp_opt_u64_value(s, i) {
            Some((v, e)) => Some((BodyAccV { in_reply_to: v, ..acc }, e)),
            None => None,
        }
    } else if key == "node_id"@ {
        match sp_str_value(s, i) {
            Some((v, e)) => Some((BodyAccV { node_id: Some(v), ..acc }, e)),
            None => None,
        }
    } else if key == "node_ids"@ {
        match sp_str_array(s, i) {
            Some((v, e)) => Some((BodyAccV { node_ids: Some(v), ..acc }, e)),
            None => None,
        }
    } else if key == "echo"@ {
        match sp_str_value(s, i) {
            Some((v, e)) => Some((BodyAccV { echo: Some(v), ..acc }, e)),
            None => None,
        }
    } else if key == "id"@ {
        match sp_u64_value(s, i) {
            Some((v, e)) => Some((BodyAccV { id: Some(v), ..acc }, e)),
            None => None,
        }
    } else {
        match sp_skip_value(s, i) {
            Some(e) => Some((acc, e)),
            None => None,
        }
    }
}

/// Parses the fields of a body object, the first key's quote standing at
/// `i`; yields the filled accumulator and the position after `}`.
pub open spec fn sp_body_fields(s: Seq<char>, i: int, acc: BodyAccV, fuel: nat) -> Option<
    (BodyAccV, int),
>
    decreases fuel,
{
    if fuel == 0 {
        None
    } else {
        match sp_string(s, i) {
            None => None,
            Some((key, e)) => {
                let j = sp_ws(s, e);
                if j < s.len() && s[j] == ':' {
                    match sp_body_value(s, j + 1, key, acc) {
                        None => None,
                        Some((acc2, e2)) => {
                            let k = sp_ws(s, e2);
                            if k < s.len() && s[k] == ',' {
                                sp_body_fields(s, sp_ws(s, k + 1), acc2, (fuel - 1) as nat)
                            } else if k < s.len() && s[k] == '}' {
                                Some((acc2, k + 1))
                            } else {
                                None
                            }
                        },
                    }
                } else {
                    None
                }
            },
        }
    }
}

/// Parses a body object starting at or after `i`.
pub open spec fn sp_body_obj(s: Seq<char>, i: int) -> Option<(BodyAccV, int)> {
    let j = sp_ws(s, i);
    if j < s.len() && s[j] == '{' {
        let k = sp_ws(s, j + 1);
        if k < s.len() && s[k] == '}' {
            Some((body_acc_empty(), k + 1))
        } else {
            sp_body_fields(s, k, body_acc_empty(), s.len() as nat)
        }
    } else {
        None
    }
}

/// Parses one envelope field value: `src` and `dest` are strings, `body`
/// is an object; an unknown key's value is skipped.
pub open spec fn sp_env_value(s: Seq<char>, i: int, key: Seq<char>, acc: EnvAccV) -> Option<
    (EnvAccV, int),
> {
    if key == "src"@ {
        match sp_str_value(s, i) {
            Some((v, e)) => Some((EnvAccV { src: Some(v), ..acc }, e)),
            None => None,
        }
    } else if key == "dest"@ {
        match sp_str_value(s, i) {
            Some((v, e)) => Some((EnvAccV { dst: Some(v), ..acc }, e)),
            None => None,
        }
    } else if key == "body"@ {
        match sp_body_obj(s, i) {
            Some((b, e)) => Some((EnvAccV { body: Some(b), ..acc }, e)),
            None => None,
        }
    } else {
        match sp_skip_value(s, i) {
            Some(e) => Some((acc, e)),
            None => None,
        }
    }
}

/// Parses the fields of the top-level envelope object.
pub open spec fn sp_env_fields(s: Seq<char>, i: int, acc: EnvAccV, fuel: nat) -> Option<
    (EnvAccV, int),
>
    decreases fuel,
{
    if fuel == 0 {
        None
    } else {
        match sp_string(s, i) {
            None => None,
            Some((key, e)) => {
                let j = sp_ws(s, e);
                if j < s.len() && s[j] == ':' {
                    match sp_env_value(s, j + 1, key, acc) {
                        None => None,
                        Some((acc2, e2)) => {
                            let k = sp_ws(s, e2);
                            if k < s.len() && s[k] == ',' {
                                sp_env_fields(s, sp_ws(s, k + 1), acc2, (fuel - 1) as nat)
                            } else if k < s.len() && s[k] == '}' {
                                Some((acc2, k + 1))
                            } else {
                                None
                            }
                        },
                    }
                } else {
                    None
                }
            },
        }
    }
}

/// Parses the whole top-level envelope object.
pub open spec fn sp_envelope(s: Seq<char>) -> Option<(EnvAccV, int)> {
    let j = sp_ws(s, 0);
    if j < s.len() && s[j] == '{' {
        let k = sp_ws(s, j + 1);
        if k < s.len() && s[k] == '}' {
            Some((env_acc_empty(), k + 1))
        } else {
            sp_env_fields(s, k, env_acc_empty(), s.len() as nat)
        }
    } else {
        None
    }
}

/// Builds the tagged payload a filled body accumulator stands for: the
/// `type` tag selects the variant, whose required fields must have been
/// seen.
pub open spec fn sp_payload(b: BodyAccV) -> Result<PayloadV, WireError> {
    match b.tag {
        None => Err(WireError::MissingField),
        Some(t) => {
            if t == "init"@ {
                match (b.node_id, b.node_ids) {
                    (Some(nid), Some(nids)) => Ok(
                        PayloadV::Init(InitV { node_id: nid, node_ids: nids }),
                    ),
                    _ => Err(WireError::MissingField),
                }
            } else if t == "init_ok"@ {
                Ok(PayloadV::InitOk)
            } else if t == "echo"@ {
                match b.echo {
                    Some(e) => Ok(PayloadV::Echo(e)),
                    None => Err(WireError::MissingField),
                }
            } else if t == "echo_ok"@ {
                match b.echo {
                    Some(e) => Ok(PayloadV::EchoOk(e)),
                    None => Err(WireError::MissingField),
                }
            } else if t == "generate"@ {
                Ok(PayloadV::Generate)
            } else if t == "generate_ok"@ {
                match b.id {
                    Some(id) => Ok(PayloadV::GenerateOk(id)),
                    None => Err(WireError::MissingField),
                }
            } else {
                Err(WireError::UnknownTag)
            }
        },
    }
}

/// What one line of text decodes to: the message it denotes, or the error
/// that rejects it. The whole line must be consumed (trailing whitespace
/// aside).
pub open spec fn sp_decode_message(s: Seq<char>) -> Result<MessageV<PayloadV>, WireError> {
    match sp_envelope(s) {
        None => Err(WireError::Malformed),
        Some((acc, e)) => {
            if sp_ws(s, e) != s.len() {
                Err(WireError::Malformed)
            } else {
                match (acc.src, acc.dst, acc.body) {
                    (Some(src), Some(dst), Some(b)) => match sp_payload(b) {
                        Ok(p) => Ok(
                            MessageV {
                                src: src,
                                dst: dst,
                                body: BodyV { msg_id: b.msg_id, in_reply_to: b.in_reply_to, message: p },
                            },
                        ),
                        Err(err) => Err(err),
                    },
                    _ => Err(WireError::MissingField),
                }
            }
        },
    }
}

// ---------------------------------------------------------------------
// Executable decoding
// ---------------------------------------------------------------------

/// The view of an optional string field.
pub open spec fn opt_chars_v(o: Option<Vec<char>>) -> Option<Seq<char>> {
    match o {
        Some(v) => Some(v@),
        None => None,
    }
}

/// The view of an optional string-array field.
pub open spec fn opt_charses_v(o: Option<Vec<Vec<char>>>) -> Option<Seq<Seq<char>>> {
    match o {
        Some(v) => Some(v.deep_view()),
        None => None,
    }
}

/// Runtime counterpart of `BodyAccV`.
pub(crate) struct BodyAcc {
    pub tag: Option<Vec<char>>,
    pub msg_id: Option<u64>,
    pub in_reply_to: Option<u64>,
    pub node_id: Option<Vec<char>>,
    pub node_ids: Option<Vec<Vec<char>>>,
    pub echo: Option<Vec<char>>,
    pub id: Option<u64>,
}

impl View for BodyAcc {
    type V = BodyAccV;

    closed spec fn view(&self) -> BodyAccV {
        BodyAccV {
            tag: opt_chars_v(self.tag),
            msg_id: self.msg_id,
            in_reply_to: self.in_reply_to,
            node_id: opt_chars_v(self.node_id),
            node_ids: opt_charses_v(self.node_ids),
            echo: opt_chars_v(self.echo),
            id: self.id,
        }
    }
}

/// Runtime counterpart of `EnvAccV`.
pub(crate) struct EnvAcc {
    pub src: Option<Vec<char>>,
    pub dst: Option<Vec<char>>,
    pub body: Option<BodyAcc>,
}

impl View for EnvAcc {
    type V = EnvAccV;

    closed spec fn view(&self) -> EnvAccV {
        EnvAccV {
            src: opt_chars_v(self.src),
            dst: opt_chars_v(self.dst),
            body: match self.body {
                Some(b) => Some(b@),
                None => None,
            },
        }
    }
}

/// A body accumulator with nothing seen yet.
fn body_acc_new() -> (r: BodyAcc)
    ensures
        r@ == body_acc_empty(),
{
    BodyAcc {
        tag: None,
        msg_id: None,
        in_reply_to: None,
        node_id: None,
        node_ids: None,
        echo: None,
        id: None,
    }
}

/// Parses a string field value.
fn str_value(s: &Vec<char>, i: usize) -> (r: Option<(Vec<char>, usize)>)
    requires
        i <= s@.len(),
    ensures
        ({
            let sp = sp_str_value(s@, i as int);
            match r {
                Some((v, e)) => sp == Some((v@, e as int)) && i <= e <= s@.len(),
                None => sp is None,
            }
        }),
{
    let j = ws(s, i);
    string_at(s, j)
}

/// Parses a number field value.
fn u64_value(s: &Vec<char>, i: usize) -> (r: Option<(u64, usize)>)
    requires
        i <= s@.len(),
    ensures
        ({
            let sp = sp_u64_value(s@, i as int);
            match r {
                Some((v, e)) => sp == Some((v, e as int)) && i <= e <= s@.len(),
                None => sp is None,
            }
        }),
{
    let j = ws(s, i);
    number_at(s, j)
}

/// Parses a number-or-`null` field value.
fn opt_u64_value(s: &Vec<char>, i: usize) -> (r: Option<(Option<u64>, usize)>)
    requires
        i <= s@.len(),
    ensures
        ({
            let sp = sp_opt_u64_value(s@, i as int);
            match r {
                Some((v, e)) => sp == Some((v, e as int)) && i <= e <= s@.len(),
                None => sp is None,
            }
        }),
{
    let j = ws(s, i);
    if j < s.len() && s[j] == 'n' {
        if lit_at(s, j, "null") {
            proof {
                reveal_strlit("null");
            }
            Some((None, j + 4))
        } else {
            None
        }
    } else {
        match number_at(s, j) {
            Some((n, e)) => Some((Some(n), e)),
            None => None,
        }
    }
}

/// Parses one body field value, keyed by the field name.
fn body_value(s: &Vec<char>, i: usize, key: &Vec<char>, acc: BodyAcc) -> (r: Option<
    (BodyAcc, usize),
>)
    requires
        i <= s@.len(),
    ensures
        ({
            let sp = sp_body_value(s@, i as int, key@, acc@);
            match r {
                Some((a2, e)) => sp == Some((a2@, e as int)) && i <= e <= s@.len(),
                None => sp is None,
            }
        }),
{
    if key_is(key, "type") {
        match str_value(s, i) {
            Some((v, e)) => Some((BodyAcc { tag: Some(v), ..acc }, e)),
            None => None,
        }
    } else if key_is(key, "msg_id") {
        match opt_u64_value(s, i) {
            Some((v, e)) => Some((BodyAcc { msg_id: v, ..acc }, e)),
            None => None,
        }
    } else if key_is(key, "in_reply_to") {
        match opt_u64_value(s, i) {
            Some((v, e)) => Some((BodyAcc { in_reply_to: v, ..acc }, e)),
            None => None,
        }
    } else if key_is(key, "node_id") {
        match str_value(s, i) {
            Some((v, e)) => Some((BodyAcc { node_id: Some(v), ..acc }, e)),
            None => None,
        }
    } else if key_is(key, "node_ids") {
        match str_array(s, i) {
            Some((v, e)) => Some((BodyAcc { node_ids: Some(v), ..acc }, e)),
            None => None,
        }
    } else if key_is(key, "echo") {
        match str_value(s, i) {
            Some((v, e)) => Some((BodyAcc { echo: Some(v), ..acc }, e)),
            None => None,
        }
    } else if key_is(key, "id") {
        match u64_value(s, i) {
            Some((v, e)) => Some((BodyAcc { id: Some(v), ..acc }, e)),
            None => None,
        }
    } else {
        match skip_value(s, i) {
            Some(e) => Some((acc, e)),
            None => None,
        }
    }
}

/// Parses the fields of a body object.
fn body_fields(s: &Vec<char>, i: usize, acc: BodyAcc, fuel: usize) -> (r: Option<(BodyAcc, usize)>)
    requires
        i <= s@.len(),
    ensures
        ({
            let sp = sp_body_fields(s@, i as int, acc@, fuel as nat);
            match r {
                Some((a2, e)) => sp == Some((a2@, e as int)) && i <= e <= s@.len(),
                None => sp is None,
            }
        }),
    decreases fuel,
{
    if fuel == 0 {
        return None;
    }
    match string_at(s, i) {
        None => None,
        Some((key, e)) => {
            let j = ws(s, e);
            if j < s.len() && s[j] == ':' {
                match body_value(s, j + 1, &key, acc) {
                    None => None,
                    Some((acc2, e2)) => {
                        let k = ws(s, e2);
                        if k < s.len() && s[k] == ',' {
                            let k2 = ws(s, k + 1);
                            body_fields(s, k2, acc2, fuel - 1)
                        } else if k < s.len() && s[k] == '}' {
                            Some((acc2, k + 1))
                        } else {
                            None
                        }
                    },
                }
            } else {
                None
            }
        },
    }
}

/// Parses a body object starting at or after `i`.
fn body_obj(s: &Vec<char>, i: usize) -> (r: Option<(BodyAcc, usize)>)
    requires
        i <= s@.len(),
    ensures
        ({
            let sp = sp_body_obj(s@, i as int);
            match r {
                Some((a2, e)) => sp == Some((a2@, e as int)) && i <= e <= s@.len(),
                None => sp is None,
            }
        }),
{
    let j = ws(s, i);
    if j < s.len() && s[j] == '{' {
        let k = ws(s, j + 1);
        if k < s.len() && s[k] == '}' {
            Some((body_acc_new(), k + 1))
        } else {
            body_fields(s, k, body_acc_new(), s.len())
        }
    } else {
        None
    }
}

/// Parses one envelope field value, keyed by the field name.
fn env_value(s: &Vec<char>, i: usize, key: &Vec<char>, acc: EnvAcc) -> (r: Option<(EnvAcc, usize)>)
    requires
        i <= s@.len(),
    ensures
        ({
            let sp = sp_env_value(s@, i as int, key@, acc@);
            match r {
                Some((a2, e)) => sp == Some((a2@, e as int)) && i <= e <= s@.len(),
                None => sp is None,
            }
        }),
{
    if key_is(key, "src") {
        match str_value(s, i) {
            Some((v, e)) => Some((EnvAcc { src: Some(v), ..acc }, e)),
            None => None,
        }
    } else if key_is(key, "dest") {
        match str_value(s, i) {
            Some((v, e)) => Some((EnvAcc { dst: Some(v), ..acc }, e)),
            None => None,
        }
    } else if key_is(key, "body") {
        match body_obj(s, i) {
            Some((b, e)) => Some((EnvAcc { body: Some(b), ..acc }, e)),
            None => None,
        }
    } else {
        match skip_value(s, i) {
            Some(e) => Some((acc, e)),
            None => None,
        }
    }
}

/// Parses the fields of the top-level envelope object.
fn env_fields(s: &Vec<char>, i: usize, acc: EnvAcc, fuel: usize) -> (r: Option<(EnvAcc, usize)>)
    requires
        i <= s@.len(),
    ensures
        ({
            let sp = sp_env_fields(s@, i as int, acc@, fuel as nat);
            match r {
                Some((a2, e)) => sp == Some((a2@, e as int)) && e <= s@.len(),
                None => sp is None,
            }
        }),
    decreases fuel,
{
    if fuel == 0 {
        return None;
    }
    match string_at(s, i) {
        None => None,
        Some((key, e)) => {
            let j = ws(s, e);
            if j < s.len() && s[j] == ':' {
                match env_value(s, j + 1, &key, acc) {
                    None => None,
                    Some((acc2, e2)) => {
                        let k = ws(s, e2);
                        if k < s.len() && s[k] == ',' {
                            let k2 = ws(s, k + 1);
                            env_fields(s, k2, acc2, fuel - 1)
                        } else if k < s.len() && s[k] == '}' {
                            Some((acc2, k + 1))
                        } else {
                            None
                        }
                    },
                }
            } else {
                None
            }
        },
    }
}

/// Parses the whole top-level envelope object.
fn envelope(s: &Vec<char>) -> (r: Option<(EnvAcc, usize)>)
    ensures
        ({
            let sp = sp_envelope(s@);
            match r {
                Some((a2, e)) => sp == Some((a2@, e as int)) && e <= s@.len(),
                None => sp is None,
            }
        }),
{
    let j = ws(s, 0);
    if j < s.len() && s[j] == '{' {
        let k = ws(s, j + 1);
        if k < s.len() && s[k] == '}' {
            Some((EnvAcc { src: None, dst: None, body: None }, k + 1))
        } else {
            env_fields(s, k, EnvAcc { src: None, dst: None, body: None }, s.len())
        }
    } else {
        None
    }
}

/// Pushing one element extends a vector's deep view by that element's view.
proof fn lemma_deep_view_push<T: DeepView>(v: Vec<T>, prev: Vec<T>, x: T)
    requires
        v@ == prev@.push(x),
    ensures
        v.deep_view() =~= prev.deep_view().push(x.deep_view()),
{
}

/// Turns parsed string contents into owned strings, keeping the characters.
pub(crate) fn strings_from(items: &Vec<Vec<char>>) -> (r: Vec<String>)
    ensures
        r.deep_view() == items.deep_view(),
{
    let mut out: Vec<String> = Vec::new();
    proof {
        assert(out.deep_view() =~= items.deep_view().subrange(0, 0));
    }
    let mut i: usize = 0;
    while i < items.len()
        invariant
            i <= items@.len(),
            out.deep_view() == items.deep_view().subrange(0, i as int),
        decreases items@.len() - i,
    {
        let ghost prev = out;
        let item = chars_to_string(&items[i]);
        out.push(item);
        proof {
            lemma_deep_view_push(out, prev, item);
            assert(items@[i as int].deep_view() =~= items@[i as int]@);
            assert(items.deep_view().subrange(0, i as int + 1) =~= items.deep_view().subrange(
                0,
                i as int,
            ).push(items.deep_view()[i as int]));
        }
        i = i + 1;
    }
    proof {
        assert(items.deep_view().subrange(0, items.deep_view().len() as int) =~= items.deep_view());
    }
    out
}

/// Builds the tagged payload the accumulated body fields stand for.
fn payload_of(b: BodyAcc) -> (r: Result<Payload, WireError>)
    ensures
        ({
            let sp = sp_payload(b@);
            match r {
                Ok(p) => sp is Ok && p@ == sp->Ok_0,
                Err(err) => sp == Err::<PayloadV, WireError>(err),
            }
        }),
{
    match b.tag {
        None => Err(WireError::MissingField),
        Some(t) => {
            if key_is(&t, "init") {
                match (b.node_id, b.node_ids) {
                    (Some(nid), Some(nids)) => Ok(
                        Payload::Init(
                            Init {
                                node_id: chars_to_string(&nid),
                                node_ids: strings_from(&nids),
                            },
                        ),
                    ),
                    _ => Err(WireError::MissingField),
                }
            } else if key_is(&t, "init_ok") {
                Ok(Payload::InitOk)
            } else if key_is(&t, "echo") {
                match b.echo {
                    Some(e) => Ok(Payload::Echo(chars_to_string(&e))),
                    None => Err(WireError::MissingField),
                }
            } else if key_is(&t, "echo_ok") {
                match b.echo {
                    Some(e) => Ok(Payload::EchoOk(chars_to_string(&e))),
                    None => Err(WireError::MissingField),
                }
            } else if key_is(&t, "generate") {
                Ok(Payload::Generate)
            } else if key_is(&t, "generate_ok") {
                match b.id {
                    Some(id) => Ok(Payload::GenerateOk(id)),
                    None => Err(WireError::MissingField),
                }
            } else {
                Err(WireError::UnknownTag)
            }
        },
    }
}

/// Decodes one line of text as a wire message; yields exactly the message
/// the line denotes under the wire grammar, or the error rejecting it.
pub fn decode_message(line: &str) -> (r: Result<Message<Payload>, WireError>)
    ensures
        ({
            let sp = sp_decode_message(line@);
            match r {
                Ok(m) => sp is Ok && m@ == sp->Ok_0,
                Err(err) => sp == Err::<MessageV<PayloadV>, WireError>(err),
            }
        }),
{
    let cs = str_chars(line);
    match envelope(&cs) {
        None => Err(WireError::Malformed),
        Some((acc, e)) => {
            if ws(&cs, e) != cs.len() {
                return Err(WireError::Malformed);
            }
            match (acc.src, acc.dst, acc.body) {
                (Some(src), Some(dst), Some(b)) => {
                    let msg_id = b.msg_id;
                    let in_reply_to = b.in_reply_to;
                    match payload_of(b) {
                        Ok(p) => Ok(
                            Message {
                                src: chars_to_string(&src),
                                dst: chars_to_string(&dst),
                                body: Body { msg_id, in_reply_to, message: p },
                            },
                        ),
                        Err(err) => Err(err),
                    }
                },
                _ => Err(WireError::MissingField),
            }
        },
    }
}

// ---------------------------------------------------------------------
// Round trip at the field level
// ---------------------------------------------------------------------

/// The body accumulator a decoder ends up with after reading exactly the
/// fields the encoder writes for `b`: the variant's tag, the two optional
/// ids, and the variant's own fields.
pub open spec fn acc_of_body(b: BodyV<PayloadV>) -> BodyAccV {
    let base = BodyAccV {
        tag: None,
        msg_id: b.msg_id,
        in_reply_to: b.in_reply_to,
        node_id: None,
        node_ids: None,
        echo: None,
        id: None,
    };
    match b.message {
        PayloadV::Init(iv) => BodyAccV {
            tag: Some("init"@),
            node_id: Some(iv.node_id),
            node_ids: Some(iv.node_ids),
            ..base
        },
        PayloadV::InitOk => BodyAccV { tag: Some("init_ok"@), ..base },
        PayloadV::Echo(e) => BodyAccV { tag: Some("echo"@), echo: Some(e), ..base },
        PayloadV::EchoOk(e) => BodyAccV { tag: Some("echo_ok"@), echo: Some(e), ..base },
        PayloadV::Generate => BodyAccV { tag: Some("generate"@), ..base },
        PayloadV::GenerateOk(id) => BodyAccV { tag: Some("generate_ok"@), id: Some(id), ..base },
    }
}

/// Reading back exactly the fields the encoder writes for a body recovers
/// that body's payload: the tags of the six variants are pairwise distinct
/// and each variant's required fields are all written.
pub proof fn lemma_payload_fields_round_trip(b: BodyV<PayloadV>)
    ensures
        sp_payload(acc_of_body(b)) == Ok::<PayloadV, WireError>(b.message),
{
    reveal_strlit("init");
    reveal_strlit("init_ok");
    reveal_strlit("echo");
    reveal_strlit("echo_ok");
    reveal_strlit("generate");
    reveal_strlit("generate_ok");
    assert("init"@.len() == 4);
    assert("init_ok"@.len() == 7);
    assert("echo"@.len() == 4);
    assert("echo_ok"@.len() == 7);
    assert("generate"@.len() == 8);
    assert("generate_ok"@.len() == 11);
    assert("echo"@[0] == 'e' && "init"@[0] == 'i' && "generate"@[0] == 'g');
    assert("echo_ok"@[0] == 'e' && "init_ok"@[0] == 'i' && "generate_ok"@[0] == 'g');
    match b.message {
        PayloadV::Init(iv) => {
            assert(iv == (InitV { node_id: iv.node_id, node_ids: iv.node_ids }));
            assert(sp_payload(acc_of_body(b)) == Ok::<PayloadV, WireError>(b.message));
        },
        PayloadV::InitOk => {
            assert("init_ok"@ != "init"@);
            assert(sp_payload(acc_of_body(b)) == Ok::<PayloadV, WireError>(b.message));
        },
        PayloadV::Echo(e) => {
            assert("echo"@ != "init"@ && "echo"@ != "init_ok"@);
            assert(sp_payload(acc_of_body(b)) == Ok::<PayloadV, WireError>(b.message));
        },
        PayloadV::EchoOk(e) => {
            assert("echo_ok"@ != "init"@ && "echo_ok"@ != "init_ok"@ && "echo_ok"@ != "echo"@);
            assert(sp_payload(acc_of_body(b)) == Ok::<PayloadV, WireError>(b.message));
        },
        PayloadV::Generate => {
            assert("generate"@ != "init"@ && "generate"@ != "init_ok"@ && "generate"@ != "echo"@
                && "generate"@ != "echo_ok"@);
            assert(sp_payload(acc_of_body(b)) == Ok::<PayloadV, WireError>(b.message));
        },
        PayloadV::GenerateOk(id) => {
            assert("generate_ok"@ != "init"@ && "generate_ok"@ != "init_ok"@ && "generate_ok"@
                != "echo"@ && "generate_ok"@ != "echo_ok"@ && "generate_ok"@ != "generate"@);
            assert(sp_payload(acc_of_body(b)) == Ok::<PayloadV, WireError>(b.message));
        },
    }
}

// ---------------------------------------------------------------------
// Encoding
// ---------------------------------------------------------------------

/// The `type` tag written for a payload variant.
pub open spec fn sp_tag(p: PayloadV) -> Seq<char> {
    match p {
        PayloadV::Init(_) => "init"@,
        PayloadV::InitOk => "init_ok"@,
        PayloadV::Echo(_) => "echo"@,
        PayloadV::EchoOk(_) => "echo_ok"@,
        PayloadV::Generate => "generate"@,
        PayloadV::GenerateOk(_) => "generate_ok"@,
    }
}

/// The items of an encoded array of strings, comma-separated.
pub open spec fn sp_strarr_items(ids: Seq<Seq<char>>) -> Seq<char>
    decreases ids.len(),
{
    if ids.len() == 0 {
        Seq::empty()
    } else if ids.len() == 1 {
        sp_quote(ids[0])
    } else {
        sp_quote(ids[0]) + seq![','] + sp_strarr_items(ids.skip(1))
    }
}

/// An encoded array of strings.
pub open spec fn sp_strarr(ids: Seq<Seq<char>>) -> Seq<char> {
    "["@ + sp_strarr_items(ids) + "]"@
}

/// The variant-specific fields written after the tag (flattened into the
/// body object; empty for variants that carry nothing).
pub open spec fn sp_variant_fields(p: PayloadV) -> Seq<char> {
    match p {
        PayloadV::Init(iv) => ",\"node_id\":"@ + sp_quote(iv.node_id) + ",\"node_ids\":"@
            + sp_strarr(iv.node_ids),
        PayloadV::InitOk => Seq::empty(),
        PayloadV::Echo(e) => ",\"echo\":"@ + sp_quote(e),
        PayloadV::EchoOk(e) => ",\"echo\":"@ + sp_quote(e),
        PayloadV::Generate => Seq::empty(),
        PayloadV::GenerateOk(id) => ",\"id\":"@ + sp_num(id as int),
    }
}

/// The `msg_id` field, written only when present.
pub open spec fn sp_msg_id_field(v: Option<u64>) -> Seq<char> {
    match v {
        None => Seq::empty(),
        Some(n) => ",\"msg_id\":"@ + sp_num(n as int),
    }
}

/// The `in_reply_to` field, written only when present.
pub open spec fn sp_in_reply_to_field(v: Option<u64>) -> Seq<char> {
    match v {
        None => Seq::empty(),
        Some(n) => ",\"in_reply_to\":"@ + sp_num(n as int),
    }
}

/// The encoded body object: the tag, the two optional ids, then the
/// variant's own fields, all in one flat object.
pub open spec fn sp_encode_body(b: BodyV<PayloadV>) -> Seq<char> {
    "{\"type\":"@ + sp_quote(sp_tag(b.message)) + sp_msg_id_field(b.msg_id)
        + sp_in_reply_to_field(b.in_reply_to) + sp_variant_fields(b.message) + "}"@
}

/// The encoded envelope: one flat JSON object, `dst` written as `"dest"`.
pub open spec fn sp_encode_message(m: MessageV<PayloadV>) -> Seq<char> {
    "{\"src\":"@ + sp_quote(m.src) + ",\"dest\":"@ + sp_quote(m.dst) + ",\"body\":"@
        + sp_encode_body(m.body) + "}"@
}

/// The encoded items of a non-empty array take at least one character per
/// item.
proof fn lemma_strarr_items_len(ids: Seq<Seq<char>>)
    ensures
        sp_strarr_items(ids).len() >= ids.len(),
    decreases ids.len(),
{
    if ids.len() > 1 {
        lemma_strarr_items_len(ids.skip(1));
    }
}

/// The encoded items of a non-empty array of strings, standing at `i` with
/// the closing bracket after them, parse back to exactly those strings,
/// appended to the accumulator.
proof fn lemma_strarr_items_round_trip(
    s: Seq<char>,
    i: int,
    ids: Seq<Seq<char>>,
    acc: Seq<Seq<char>>,
    fuel: nat,
)
    requires
        0 <= i,
        ids.len() >= 1,
        fuel >= ids.len(),
        i + sp_strarr_items(ids).len() + 1 <= s.len(),
        s.subrange(i, i + sp_strarr_items(ids).len() + 1) == sp_strarr_items(ids) + seq![']'],
    ensures
        sp_str_items(s, i, acc, fuel) == Some((acc + ids, i + sp_strarr_items(ids).len() + 1)),
    decreases ids.len(),
{
    let q = sp_quote(ids[0]);
    if ids.len() == 1 {
        assert(sp_strarr_items(ids) == q);
        lemma_subrange_split(s, i, q, seq![']']);
        crate::json::lemma_quote_round_trip(s, i, ids[0]);
        let e = i + q.len();
        lemma_char_at(s, e, seq![']'], 0);
        assert(s[e] == ']');
        assert(sp_ws(s, e) == e);
        assert(acc.push(ids[0]) =~= acc + ids);
    } else {
        let rest = sp_strarr_items(ids.skip(1));
        assert(sp_strarr_items(ids) == q + seq![','] + rest);
        let tail = (seq![','] + rest) + seq![']'];
        assert(((q + seq![',']) + rest) + seq![']'] =~= q + tail);
        lemma_subrange_split(s, i, q, tail);
        crate::json::lemma_quote_round_trip(s, i, ids[0]);
        let e = i + q.len();
        assert((seq![','] + rest) + seq![']'] =~= seq![','] + (rest + seq![']']));
        lemma_subrange_split(s, e, seq![','], rest + seq![']']);
        lemma_char_at(s, e, seq![','], 0);
        assert(s[e] == ',');
        assert(sp_ws(s, e) == e);
        let q1 = sp_quote(ids.skip(1)[0]);
        assert(rest == q1 + seq![','] + sp_strarr_items(ids.skip(1).skip(1)) || rest == q1);
        assert(rest[0] == '"');
        lemma_char_at(s, e + 1, rest + seq![']'], 0);
        assert(s[e + 1] == '"');
        assert(sp_ws(s, e + 1) == e + 1);
        lemma_strarr_items_round_trip(s, e + 1, ids.skip(1), acc.push(ids[0]), (fuel - 1) as nat);
        assert(acc.push(ids[0]) + ids.skip(1) =~= acc + ids);
    }
}

/// An encoded array of strings standing at `i` parses back to exactly its
/// strings, ending just past its closing bracket.
pub proof fn lemma_strarr_round_trip(s: Seq<char>, i: int, ids: Seq<Seq<char>>)
    requires
        0 <= i,
        i + sp_strarr(ids).len() <= s.len(),
        s.subrange(i, i + sp_strarr(ids).len()) == sp_strarr(ids),
        sp_ws(s, i) == i,
    ensures
        sp_str_array(s, i) == Some((ids, i + sp_strarr(ids).len())),
{
    let items = sp_strarr_items(ids);
    assert(("["@ + items) + "]"@ =~= "["@ + (items + "]"@));
    reveal_strlit("[");
    reveal_strlit("]");
    assert("["@ =~= seq!['[']);
    assert("]"@ =~= seq![']']);
    assert(items + "]"@ =~= items + seq![']']);
    lemma_subrange_split(s, i, seq!['['], items + seq![']']);
    lemma_char_at(s, i, seq!['['], 0);
    assert(s[i] == '[');
    if ids.len() == 0 {
        assert(items =~= Seq::<char>::empty());
        assert(Seq::<char>::empty() + seq![']'] =~= seq![']']);
        lemma_char_at(s, i + 1, seq![']'], 0);
        assert(s[i + 1] == ']');
        assert(sp_ws(s, i + 1) == i + 1);
    } else {
        let q0 = sp_quote(ids[0]);
        assert(items == q0 + seq![','] + sp_strarr_items(ids.skip(1)) || items == q0);
        assert(items[0] == '"');
        lemma_char_at(s, i + 1, items + seq![']'], 0);
        assert(s[i + 1] == '"');
        assert(sp_ws(s, i + 1) == i + 1);
        lemma_strarr_items_len(ids);
        lemma_strarr_items_round_trip(s, i + 1, ids, Seq::empty(), s.len() as nat);
        assert(Seq::empty() + ids =~= ids);
    }
}

/// The encoded items of an array of strings are newline-free.
proof fn lemma_strarr_items_newline_free(ids: Seq<Seq<char>>)
    ensures
        newline_free(sp_strarr_items(ids)),
    decreases ids.len(),
{
    if ids.len() == 0 {
    } else if ids.len() == 1 {
        lemma_quote_newline_free(ids[0]);
    } else {
        lemma_quote_newline_free(ids[0]);
        lemma_strarr_items_newline_free(ids.skip(1));
        assert(newline_free(seq![',']));
        lemma_newline_free_concat(sp_quote(ids[0]), seq![',']);
        lemma_newline_free_concat(sp_quote(ids[0]) + seq![','], sp_strarr_items(ids.skip(1)));
    }
}

/// An encoded array of strings is newline-free.
proof fn lemma_strarr_newline_free(ids: Seq<Seq<char>>)
    ensures
        newline_free(sp_strarr(ids)),
{
    reveal_strlit("[");
    reveal_strlit("]");
    assert(newline_free("["@));
    assert(newline_free("]"@));
    lemma_strarr_items_newline_free(ids);
    lemma_newline_free_concat("["@, sp_strarr_items(ids));
    lemma_newline_free_concat("["@ + sp_strarr_items(ids), "]"@);
}

/// The encoded body object is newline-free.
proof fn lemma_body_newline_free(b: BodyV<PayloadV>)
    ensures
        newline_free(sp_encode_body(b)),
{
    reveal_strlit("{\"type\":");
    reveal_strlit("}");
    reveal_strlit("init");
    reveal_strlit("init_ok");
    reveal_strlit("echo");
    reveal_strlit("echo_ok");
    reveal_strlit("generate");
    reveal_strlit("generate_ok");
    reveal_strlit(",\"msg_id\":");
    reveal_strlit(",\"in_reply_to\":");
    reveal_strlit(",\"node_id\":");
    reveal_strlit(",\"node_ids\":");
    reveal_strlit(",\"echo\":");
    reveal_strlit(",\"id\":");
    assert(newline_free("{\"type\":"@));
    assert(newline_free("}"@));
    assert(newline_free(sp_tag(b.message)));
    lemma_quote_newline_free(sp_tag(b.message));
    let head = "{\"type\":"@ + sp_quote(sp_tag(b.message));
    lemma_newline_free_concat("{\"type\":"@, sp_quote(sp_tag(b.message)));
    match b.msg_id {
        None => {
            assert(sp_msg_id_field(b.msg_id) =~= Seq::<char>::empty());
        },
        Some(n) => {
            assert(newline_free(",\"msg_id\":"@));
            lemma_num_newline_free(n as int);
            lemma_newline_free_concat(",\"msg_id\":"@, sp_num(n as int));
        },
    }
    lemma_newline_free_concat(head, sp_msg_id_field(b.msg_id));
    let head2 = head + sp_msg_id_field(b.msg_id);
    match b.in_reply_to {
        None => {
            assert(sp_in_reply_to_field(b.in_reply_to) =~= Seq::<char>::empty());
        },
        Some(n) => {
            assert(newline_free(",\"in_reply_to\":"@));
            lemma_num_newline_free(n as int);
            lemma_newline_free_concat(",\"in_reply_to\":"@, sp_num(n as int));
        },
    }
    lemma_newline_free_concat(head2, sp_in_reply_to_field(b.in_reply_to));
    let head3 = head2 + sp_in_reply_to_field(b.in_reply_to);
    match b.message {
        PayloadV::Init(iv) => {
            assert(newline_free(",\"node_id\":"@));
            assert(newline_free(",\"node_ids\":"@));
            lemma_quote_newline_free(iv.node_id);
            lemma_strarr_newline_free(iv.node_ids);
            lemma_newline_free_concat(",\"node_id\":"@, sp_quote(iv.node_id));
            lemma_newline_free_concat(
                ",\"node_id\":"@ + sp_quote(iv.node_id),
                ",\"node_ids\":"@,
            );
            lemma_newline_free_concat(
                ",\"node_id\":"@ + sp_quote(iv.node_id) + ",\"node_ids\":"@,
                sp_strarr(iv.node_ids),
            );
        },
        PayloadV::InitOk => {
        },
        PayloadV::Echo(e) => {
            assert(newline_free(",\"echo\":"@));
            lemma_quote_newline_free(e);
            lemma_newline_free_concat(",\"echo\":"@, sp_quote(e));
        },
        PayloadV::EchoOk(e) => {
            assert(newline_free(",\"echo\":"@));
            lemma_quote_newline_free(e);
            lemma_newline_free_concat(",\"echo\":"@, sp_quote(e));
        },
        PayloadV::Generate => {
        },
        PayloadV::GenerateOk(id) => {
            assert(newline_free(",\"id\":"@));
            lemma_num_newline_free(id as int);
            lemma_newline_free_concat(",\"id\":"@, sp_num(id as int));
        },
    }
    lemma_newline_free_concat(head3, sp_variant_fields(b.message));
    lemma_newline_free_concat(head3 + sp_variant_fields(b.message), "}"@);
}

/// An encoded message never contains the line terminator, so writing it
/// followed by one newline keeps the channel's framing: every line carries
/// exactly one message.
pub proof fn lemma_encoded_message_is_one_line(m: MessageV<PayloadV>)
    ensures
        newline_free(sp_encode_message(m)),
{
    reveal_strlit("{\"src\":");
    reveal_strlit(",\"dest\":");
    reveal_strlit(",\"body\":");
    reveal_strlit("}");
    assert(newline_free("{\"src\":"@));
    assert(newline_free(",\"dest\":"@));
    assert(newline_free(",\"body\":"@));
    assert(newline_free("}"@));
    lemma_quote_newline_free(m.src);
    lemma_quote_newline_free(m.dst);
    lemma_body_newline_free(m.body);
    lemma_newline_free_concat("{\"src\":"@, sp_quote(m.src));
    let p1 = "{\"src\":"@ + sp_quote(m.src);
    lemma_newline_free_concat(p1, ",\"dest\":"@);
    let p2 = p1 + ",\"dest\":"@;
    lemma_newline_free_concat(p2, sp_quote(m.dst));
    let p3 = p2 + sp_quote(m.dst);
    lemma_newline_free_concat(p3, ",\"body\":"@);
    let p4 = p3 + ",\"body\":"@;
    lemma_newline_free_concat(p4, sp_encode_body(m.body));
    let p5 = p4 + sp_encode_body(m.body);
    lemma_newline_free_concat(p5, "}"@);
}

/// The text the encoder writes around each field name is that name, quoted,
/// with its colon (and the separator before it); and the field names are
/// pairwise distinct, so the decoder's dispatch lands on the right field.
proof fn lemma_key_texts()
    ensures
        "{\"type\":"@ == seq!['{'] + sp_quote("type"@) + seq![':'],
        ",\"msg_id\":"@ == seq![','] + sp_quote("msg_id"@) + seq![':'],
        ",\"in_reply_to\":"@ == seq![','] + sp_quote("in_reply_to"@) + seq![':'],
        ",\"node_id\":"@ == seq![','] + sp_quote("node_id"@) + seq![':'],
        ",\"node_ids\":"@ == seq![','] + sp_quote("node_ids"@) + seq![':'],
        ",\"echo\":"@ == seq![','] + sp_quote("echo"@) + seq![':'],
        ",\"id\":"@ == seq![','] + sp_quote("id"@) + seq![':'],
        "{\"src\":"@ == seq!['{'] + sp_quote("src"@) + seq![':'],
        ",\"dest\":"@ == seq![','] + sp_quote("dest"@) + seq![':'],
        ",\"body\":"@ == seq![','] + sp_quote("body"@) + seq![':'],
        "msg_id"@ != "type"@,
        "in_reply_to"@ != "type"@ && "in_reply_to"@ != "msg_id"@,
        "node_id"@ != "type"@ && "node_id"@ != "msg_id"@ && "node_id"@ != "in_reply_to"@,
        "node_ids"@ != "type"@ && "node_ids"@ != "msg_id"@ && "node_ids"@ != "in_reply_to"@
            && "node_ids"@ != "node_id"@,
        "echo"@ != "type"@ && "echo"@ != "msg_id"@ && "echo"@ != "in_reply_to"@ && "echo"@
            != "node_id"@ && "echo"@ != "node_ids"@,
        "id"@ != "type"@ && "id"@ != "msg_id"@ && "id"@ != "in_reply_to"@ && "id"@ != "node_id"@
            && "id"@ != "node_ids"@ && "id"@ != "echo"@,
        "dest"@ != "src"@,
        "body"@ != "src"@ && "body"@ != "dest"@,
{
    reveal_strlit("{\"type\":");
    reveal_strlit(",\"msg_id\":");
    reveal_strlit(",\"in_reply_to\":");
    reveal_strlit(",\"node_id\":");
    reveal_strlit(",\"node_ids\":");
    reveal_strlit(",\"echo\":");
    reveal_strlit(",\"id\":");
    reveal_strlit("{\"src\":");
    reveal_strlit(",\"dest\":");
    reveal_strlit(",\"body\":");
    reveal_strlit("type");
    reveal_strlit("msg_id");
    reveal_strlit("in_reply_to");
    reveal_strlit("node_id");
    reveal_strlit("node_ids");
    reveal_strlit("echo");
    reveal_strlit("id");
    reveal_strlit("src");
    reveal_strlit("dest");
    reveal_strlit("body");
    lemma_escape_plain("type"@);
    lemma_escape_plain("msg_id"@);
    lemma_escape_plain("in_reply_to"@);
    lemma_escape_plain("node_id"@);
    lemma_escape_plain("node_ids"@);
    lemma_escape_plain("echo"@);
    lemma_escape_plain("id"@);
    lemma_escape_plain("src"@);
    lemma_escape_plain("dest"@);
    lemma_escape_plain("body"@);
    assert("{\"type\":"@ =~= seq!['{'] + sp_quote("type"@) + seq![':']);
    assert(",\"msg_id\":"@ =~= seq![','] + sp_quote("msg_id"@) + seq![':']);
    assert(",\"in_reply_to\":"@ =~= seq![','] + sp_quote("in_reply_to"@) + seq![':']);
    assert(",\"node_id\":"@ =~= seq![','] + sp_quote("node_id"@) + seq![':']);
    assert(",\"node_ids\":"@ =~= seq![','] + sp_quote("node_ids"@) + seq![':']);
    assert(",\"echo\":"@ =~= seq![','] + sp_quote("echo"@) + seq![':']);
    assert(",\"id\":"@ =~= seq![','] + sp_quote("id"@) + seq![':']);
    assert("{\"src\":"@ =~= seq!['{'] + sp_quote("src"@) + seq![':']);
    assert(",\"dest\":"@ =~= seq![','] + sp_quote("dest"@) + seq![':']);
    assert(",\"body\":"@ =~= seq![','] + sp_quote("body"@) + seq![':']);
    assert("type"@.len() == 4 && "msg_id"@.len() == 6 && "in_reply_to"@.len() == 11
        && "node_id"@.len() == 7 && "node_ids"@.len() == 8 && "echo"@.len() == 4 && "id"@.len()
        == 2);
    assert("echo"@[0] != "type"@[0]);
    assert("src"@.len() == 3 && "dest"@.len() == 4 && "body"@.len() == 4);
    assert("body"@[0] != "dest"@[0]);
}

/// One encoded body field's value, abstracted by its shape.
enum BField {
    FStr(Seq<char>),
    FNum(u64),
    FArr(Seq<Seq<char>>),
}

/// The text the encoder writes for one field value.
spec fn bfield_text(f: BField) -> Seq<char> {
    match f {
        BField::FStr(c) => sp_quote(c),
        BField::FNum(n) => sp_num(n as int),
        BField::FArr(a) => sp_strarr(a),
    }
}

/// The text the encoder writes for one whole field: quoted name, colon,
/// value.
spec fn field_text(k: Seq<char>, f: BField) -> Seq<char> {
    sp_quote(k) + seq![':'] + bfield_text(f)
}

/// The text of a run of fields, comma-separated.
spec fn fields_text(fs: Seq<(Seq<char>, BField)>) -> Seq<char>
    decreases fs.len(),
{
    if fs.len() == 0 {
        Seq::empty()
    } else if fs.len() == 1 {
        field_text(fs[0].0, fs[0].1)
    } else {
        field_text(fs[0].0, fs[0].1) + seq![','] + fields_text(fs.skip(1))
    }
}

/// The field name carries a value of the shape the decoder expects there.
spec fn kind_ok(k: Seq<char>, f: BField) -> bool {
    match f {
        BField::FStr(_) => k == "type"@ || k == "node_id"@ || k == "echo"@,
        BField::FNum(_) => k == "msg_id"@ || k == "in_reply_to"@ || k == "id"@,
        BField::FArr(_) => k == "node_ids"@,
    }
}

/// What reading one field does to the accumulator.
spec fn upd(k: Seq<char>, f: BField, acc: BodyAccV) -> BodyAccV {
    match f {
        BField::FStr(c) => if k == "type"@ {
            BodyAccV { tag: Some(c), ..acc }
        } else if k == "node_id"@ {
            BodyAccV { node_id: Some(c), ..acc }
        } else {
            BodyAccV { echo: Some(c), ..acc }
        },
        BField::FNum(n) => if k == "msg_id"@ {
            BodyAccV { msg_id: Some(n), ..acc }
        } else if k == "in_reply_to"@ {
            BodyAccV { in_reply_to: Some(n), ..acc }
        } else {
            BodyAccV { id: Some(n), ..acc }
        },
        BField::FArr(a) => BodyAccV { node_ids: Some(a), ..acc },
    }
}

/// What reading a run of fields in order does to the accumulator.
spec fn fold_upd(fs: Seq<(Seq<char>, BField)>, acc: BodyAccV) -> BodyAccV
    decreases fs.len(),
{
    if fs.len() == 0 {
        acc
    } else {
        fold_upd(fs.skip(1), upd(fs[0].0, fs[0].1, acc))
    }
}

/// One encoded field value, standing at `p` with a separator or closing
/// brace after it, is read back as exactly the accumulator update the
/// encoder meant.
proof fn lemma_body_value_parses(s: Seq<char>, p: int, k: Seq<char>, f: BField, acc: BodyAccV)
    requires
        kind_ok(k, f),
        0 <= p,
        p + bfield_text(f).len() <= s.len(),
        s.subrange(p, p + bfield_text(f).len()) == bfield_text(f),
        p + bfield_text(f).len() < s.len(),
        s[p + bfield_text(f).len()] == ',' || s[p + bfield_text(f).len()] == '}',
    ensures
        sp_body_value(s, p, k, acc) == Some((upd(k, f, acc), p + bfield_text(f).len())),
{
    lemma_key_texts();
    match f {
        BField::FStr(c) => {
            lemma_char_at(s, p, sp_quote(c), 0);
            assert(sp_quote(c)[0] == '"');
            assert(sp_ws(s, p) == p);
            lemma_quote_round_trip(s, p, c);
        },
        BField::FNum(n) => {
            lemma_sp_num_digits(n as int);
            lemma_char_at(s, p, sp_num(n as int), 0);
            assert(is_digit_char(s[p]));
            assert(!is_ws_char(s[p]));
            assert(sp_ws(s, p) == p);
            assert(s[p] != 'n');
            assert(!is_digit_char(s[p + bfield_text(f).len()]));
            lemma_num_round_trip(s, p, n);
        },
        BField::FArr(a) => {
            reveal_strlit("[");
            lemma_char_at(s, p, sp_strarr(a), 0);
            assert(sp_strarr(a)[0] == '[');
            assert(sp_ws(s, p) == p);
            lemma_strarr_round_trip(s, p, a);
        },
    }
}

/// A run of encoded fields standing at `i`, closed by `}`, walks the
/// decoder's field loop to exactly the folded accumulator, ending just past
/// the brace.
proof fn lemma_body_fields_walk(
    s: Seq<char>,
    i: int,
    fs: Seq<(Seq<char>, BField)>,
    acc: BodyAccV,
    fuel: nat,
)
    requires
        fs.len() >= 1,
        fuel >= fs.len(),
        forall|m: int| 0 <= m < fs.len() ==> kind_ok(#[trigger] fs[m].0, fs[m].1),
        0 <= i,
        i + fields_text(fs).len() + 1 <= s.len(),
        s.subrange(i, i + fields_text(fs).len() + 1) == fields_text(fs) + seq!['}'],
    ensures
        sp_body_fields(s, i, acc, fuel) == Some((fold_upd(fs, acc), i + fields_text(fs).len() + 1)),
    decreases fs.len(),
{
    let k0 = fs[0].0;
    let f0 = fs[0].1;
    let q = sp_quote(k0);
    let vt = bfield_text(f0);
    assert(kind_ok(fs[0].0, fs[0].1));
    if fs.len() == 1 {
        assert(fields_text(fs) == field_text(k0, f0));
        let r1 = (seq![':'] + vt) + seq!['}'];
        assert(((q + seq![':']) + vt) + seq!['}'] =~= q + r1);
        lemma_subrange_split(s, i, q, r1);
        lemma_quote_round_trip(s, i, k0);
        let e = i + q.len();
        assert((seq![':'] + vt) + seq!['}'] =~= seq![':'] + (vt + seq!['}']));
        lemma_subrange_split(s, e, seq![':'], vt + seq!['}']);
        lemma_char_at(s, e, seq![':'], 0);
        assert(s[e] == ':');
        assert(sp_ws(s, e) == e);
        let p = e + 1;
        assert(vt + seq!['}'] =~= vt + seq!['}']);
        lemma_subrange_split(s, p, vt, seq!['}']);
        let end = p + vt.len();
        lemma_char_at(s, end, seq!['}'], 0);
        assert(s[end] == '}');
        lemma_body_value_parses(s, p, k0, f0, acc);
        assert(sp_ws(s, end) == end);
        assert(fold_upd(fs.skip(1), upd(k0, f0, acc)) == upd(k0, f0, acc));
        assert(fold_upd(fs, acc) == upd(k0, f0, acc));
    } else {
        let rest = fields_text(fs.skip(1));
        assert(fields_text(fs) == (field_text(k0, f0) + seq![',']) + rest);
        let r1 = ((seq![':'] + vt) + seq![',']) + (rest + seq!['}']);
        assert(fields_text(fs) + seq!['}'] =~= q + r1);
        lemma_subrange_split(s, i, q, r1);
        lemma_quote_round_trip(s, i, k0);
        let e = i + q.len();
        assert(r1 =~= seq![':'] + ((vt + seq![',']) + (rest + seq!['}'])));
        lemma_subrange_split(s, e, seq![':'], (vt + seq![',']) + (rest + seq!['}']));
        lemma_char_at(s, e, seq![':'], 0);
        assert(s[e] == ':');
        assert(sp_ws(s, e) == e);
        let p = e + 1;
        assert((vt + seq![',']) + (rest + seq!['}']) =~= vt + (seq![','] + (rest + seq!['}'])));
        lemma_subrange_split(s, p, vt, seq![','] + (rest + seq!['}']));
        let end = p + vt.len();
        lemma_char_at(s, end, seq![','] + (rest + seq!['}']), 0);
        assert(s[end] == ',');
        lemma_body_value_parses(s, p, k0, f0, acc);
        assert(sp_ws(s, end) == end);
        lemma_subrange_split(s, end, seq![','], rest + seq!['}']);
        let nk = end + 1;
        let q1 = sp_quote(fs.skip(1)[0].0);
        assert(fields_text(fs.skip(1))[0] == q1[0]);
        assert(q1[0] == '"');
        lemma_char_at(s, nk, rest + seq!['}'], 0);
        assert(s[nk] == '"');
        assert(sp_ws(s, nk) == nk);
        lemma_body_fields_walk(s, nk, fs.skip(1), upd(k0, f0, acc), (fuel - 1) as nat);
    }
}

/// Joining two non-empty field runs joins their texts with a comma.
proof fn lemma_fields_text_concat(a: Seq<(Seq<char>, BField)>, b: Seq<(Seq<char>, BField)>)
    requires
        a.len() >= 1,
        b.len() >= 1,
    ensures
        fields_text(a + b) == fields_text(a) + seq![','] + fields_text(b),
    decreases a.len(),
{
    if a.len() == 1 {
        assert((a + b)[0] == a[0]);
        assert((a + b).skip(1) =~= b);
        assert(fields_text(a + b) =~= fields_text(a) + seq![','] + fields_text(b));
    } else {
        assert((a + b)[0] == a[0]);
        assert((a + b).skip(1) =~= a.skip(1) + b);
        lemma_fields_text_concat(a.skip(1), b);
        assert(fields_text(a + b) =~= fields_text(a) + seq![','] + fields_text(b));
    }
}

/// Folding a joined field run folds its parts in order.
proof fn lemma_fold_upd_concat(
    a: Seq<(Seq<char>, BField)>,
    b: Seq<(Seq<char>, BField)>,
    acc: BodyAccV,
)
    ensures
        fold_upd(a + b, acc) == fold_upd(b, fold_upd(a, acc)),
    decreases a.len(),
{
    if a.len() == 0 {
        assert(a + b =~= b);
    } else {
        assert((a + b)[0] == a[0]);
        assert((a + b).skip(1) =~= a.skip(1) + b);
        lemma_fold_upd_concat(a.skip(1), b, upd(a[0].0, a[0].1, acc));
    }
}

/// A field run's text has at least one character per field.
proof fn lemma_fields_text_len(fs: Seq<(Seq<char>, BField)>)
    ensures
        fields_text(fs).len() >= fs.len(),
    decreases fs.len(),
{
    if fs.len() > 1 {
        lemma_fields_text_len(fs.skip(1));
    }
}

/// The optional numeric field as a field run: empty when absent.
spec fn opt_num_fields(k: Seq<char>, v: Option<u64>) -> Seq<(Seq<char>, BField)> {
    match v {
        None => Seq::empty(),
        Some(n) => seq![(k, BField::FNum(n))],
    }
}

/// The variant's own fields as a field run.
spec fn variant_fields_of(p: PayloadV) -> Seq<(Seq<char>, BField)> {
    match p {
        PayloadV::Init(iv) => seq![
            ("node_id"@, BField::FStr(iv.node_id)),
            ("node_ids"@, BField::FArr(iv.node_ids)),
        ],
        PayloadV::InitOk => Seq::empty(),
        PayloadV::Echo(e) => seq![("echo"@, BField::FStr(e))],
        PayloadV::EchoOk(e) => seq![("echo"@, BField::FStr(e))],
        PayloadV::Generate => Seq::empty(),
        PayloadV::GenerateOk(id) => seq![("id"@, BField::FNum(id))],
    }
}

/// All the fields the encoder writes for a body, in the order it writes
/// them.
spec fn body_fields_of(b: BodyV<PayloadV>) -> Seq<(Seq<char>, BField)> {
    seq![("type"@, BField::FStr(sp_tag(b.message)))] + opt_num_fields("msg_id"@, b.msg_id)
        + opt_num_fields("in_reply_to"@, b.in_reply_to) + variant_fields_of(b.message)
}

/// The encoded body is exactly the brace-wrapped text of its field run.
#[verifier::rlimit(100)]
proof fn lemma_body_text_shape(b: BodyV<PayloadV>)
    ensures
        sp_encode_body(b) == seq!['{'] + fields_text(body_fields_of(b)) + seq!['}'],
        body_fields_of(b).len() >= 1,
{
    lemma_key_texts();
    reveal_strlit("}");
    let tf = ("type"@, BField::FStr(sp_tag(b.message)));
    let p1 = seq![tf];
    let mf = opt_num_fields("msg_id"@, b.msg_id);
    let rf = opt_num_fields("in_reply_to"@, b.in_reply_to);
    let vf = variant_fields_of(b.message);
    let fb = body_fields_of(b);
    assert(fields_text(p1) == field_text("type"@, BField::FStr(sp_tag(b.message))));
    let text1 = "{\"type\":"@ + sp_quote(sp_tag(b.message));
    assert(text1 =~= seq!['{'] + fields_text(p1));
    let p2 = p1 + mf;
    let text2 = text1 + sp_msg_id_field(b.msg_id);
    match b.msg_id {
        None => {
            assert(p2 =~= p1);
            assert(text2 =~= seq!['{'] + fields_text(p2));
        },
        Some(n) => {
            lemma_fields_text_concat(p1, mf);
            assert(fields_text(mf) == field_text("msg_id"@, BField::FNum(n)));
            assert(text2 =~= seq!['{'] + fields_text(p2));
        },
    }
    let p3 = p2 + rf;
    let text3 = text2 + sp_in_reply_to_field(b.in_reply_to);
    match b.in_reply_to {
        None => {
            assert(p3 =~= p2);
            assert(text3 =~= seq!['{'] + fields_text(p3));
        },
        Some(n) => {
            lemma_fields_text_concat(p2, rf);
            assert(fields_text(rf) == field_text("in_reply_to"@, BField::FNum(n)));
            assert(text3 =~= seq!['{'] + fields_text(p3));
        },
    }
    let p4 = p3 + vf;
    let text4 = text3 + sp_variant_fields(b.message);
    match b.message {
        PayloadV::Init(iv) => {
            lemma_fields_text_concat(p3, vf);
            let n2 = ("node_ids"@, BField::FArr(iv.node_ids));
            assert(vf.skip(1) =~= seq![n2]);
            assert(seq![n2][0] == n2);
            assert(fields_text(seq![n2]) == field_text("node_ids"@, BField::FArr(iv.node_ids)));
            assert(vf[0] == ("node_id"@, BField::FStr(iv.node_id)));
            assert(fields_text(vf) == field_text("node_id"@, BField::FStr(iv.node_id))
                + seq![','] + field_text("node_ids"@, BField::FArr(iv.node_ids)));
            assert(text4 =~= seq!['{'] + fields_text(p4));
        },
        PayloadV::InitOk => {
            assert(p4 =~= p3);
            assert(text4 =~= seq!['{'] + fields_text(p4));
        },
        PayloadV::Echo(e) => {
            lemma_fields_text_concat(p3, vf);
            assert(fields_text(vf) == field_text("echo"@, BField::FStr(e)));
            assert(text4 =~= seq!['{'] + fields_text(p4));
        },
        PayloadV::EchoOk(e) => {
            lemma_fields_text_concat(p3, vf);
            assert(fields_text(vf) == field_text("echo"@, BField::FStr(e)));
            assert(text4 =~= seq!['{'] + fields_text(p4));
        },
        PayloadV::Generate => {
            assert(p4 =~= p3);
            assert(text4 =~= seq!['{'] + fields_text(p4));
        },
        PayloadV::GenerateOk(id) => {
            lemma_fields_text_concat(p3, vf);
            assert(fields_text(vf) == field_text("id"@, BField::FNum(id)));
            assert(text4 =~= seq!['{'] + fields_text(p4));
        },
    }
    assert(fb =~= p4);
    assert("}"@ =~= seq!['}']);
    assert(sp_encode_body(b) =~= text4 + seq!['}']);
    assert(text4 + seq!['}'] =~= seq!['{'] + fields_text(fb) + seq!['}']);
}

/// Reading back the encoder's field run fills exactly the accumulator the
/// decoder's finalization expects.
#[verifier::rlimit(100)]
proof fn lemma_body_fold(b: BodyV<PayloadV>)
    ensures
        fold_upd(body_fields_of(b), body_acc_empty()) == acc_of_body(b),
{
    lemma_key_texts();
    let tf = ("type"@, BField::FStr(sp_tag(b.message)));
    let p1 = seq![tf];
    let mf = opt_num_fields("msg_id"@, b.msg_id);
    let rf = opt_num_fields("in_reply_to"@, b.in_reply_to);
    let vf = variant_fields_of(b.message);
    let fb = body_fields_of(b);
    let none = Seq::<(Seq<char>, BField)>::empty();
    lemma_fold_upd_concat(p1, mf, body_acc_empty());
    lemma_fold_upd_concat(p2_of(b), rf, body_acc_empty());
    lemma_fold_upd_concat(p3_of(b), vf, body_acc_empty());
    assert(p1.skip(1) =~= none);
    let a1 = fold_upd(p1, body_acc_empty());
    assert(fold_upd(none, upd(tf.0, tf.1, body_acc_empty())) == upd(
        tf.0,
        tf.1,
        body_acc_empty(),
    ));
    assert(a1 == upd("type"@, BField::FStr(sp_tag(b.message)), body_acc_empty()));
    let a2 = fold_upd(p2_of(b), body_acc_empty());
    match b.msg_id {
        None => {
            assert(mf =~= none);
            assert(fold_upd(none, a1) == a1);
            assert(a2 == a1);
        },
        Some(n) => {
            assert(mf.skip(1) =~= none);
            assert(fold_upd(none, upd("msg_id"@, BField::FNum(n), a1)) == upd(
                "msg_id"@,
                BField::FNum(n),
                a1,
            ));
            assert(a2 == upd("msg_id"@, BField::FNum(n), a1));
        },
    }
    let a3 = fold_upd(p3_of(b), body_acc_empty());
    match b.in_reply_to {
        None => {
            assert(rf =~= none);
            assert(fold_upd(none, a2) == a2);
            assert(a3 == a2);
        },
        Some(n) => {
            assert(rf.skip(1) =~= none);
            assert(fold_upd(none, upd("in_reply_to"@, BField::FNum(n), a2)) == upd(
                "in_reply_to"@,
                BField::FNum(n),
                a2,
            ));
            assert(a3 == upd("in_reply_to"@, BField::FNum(n), a2));
        },
    }
    assert(a3.tag == Some(sp_tag(b.message)));
    assert(a3.msg_id == b.msg_id);
    assert(a3.in_reply_to == b.in_reply_to);
    assert(a3.node_id is None && a3.node_ids is None && a3.echo is None && a3.id is None);
    assert(fb == p3_of(b) + vf);
    assert(fold_upd(fb, body_acc_empty()) == fold_upd(vf, a3));
    match b.message {
        PayloadV::Init(iv) => {
            let n1 = ("node_id"@, BField::FStr(iv.node_id));
            let n2 = ("node_ids"@, BField::FArr(iv.node_ids));
            assert(vf[0] == n1);
            assert(vf.skip(1) =~= seq![n2]);
            let b1 = upd(n1.0, n1.1, a3);
            let b2 = upd(n2.0, n2.1, b1);
            assert(seq![n2][0] == n2);
            assert(seq![n2].skip(1) =~= none);
            assert(fold_upd(none, b2) == b2);
            assert(fold_upd(seq![n2], b1) == b2);
            assert(fold_upd(vf, a3) == b2);
            assert(b2 == acc_of_body(b));
        },
        PayloadV::InitOk => {
            assert(vf =~= none);
            assert(fold_upd(none, a3) == a3);
            assert(a3 == acc_of_body(b));
        },
        PayloadV::Echo(e) => {
            let n1 = ("echo"@, BField::FStr(e));
            assert(vf[0] == n1);
            assert(vf.skip(1) =~= none);
            let b1 = upd(n1.0, n1.1, a3);
            assert(fold_upd(none, b1) == b1);
            assert(fold_upd(vf, a3) == b1);
            assert(b1 == acc_of_body(b));
        },
        PayloadV::EchoOk(e) => {
            let n1 = ("echo"@, BField::FStr(e));
            assert(vf[0] == n1);
            assert(vf.skip(1) =~= none);
            let b1 = upd(n1.0, n1.1, a3);
            assert(fold_upd(none, b1) == b1);
            assert(fold_upd(vf, a3) == b1);
            assert(b1 == acc_of_body(b));
        },
        PayloadV::Generate => {
            assert(vf =~= none);
            assert(fold_upd(none, a3) == a3);
            assert(a3 == acc_of_body(b));
        },
        PayloadV::GenerateOk(id) => {
            let n1 = ("id"@, BField::FNum(id));
            assert(vf[0] == n1);
            assert(vf.skip(1) =~= none);
            let b1 = upd(n1.0, n1.1, a3);
            assert(fold_upd(none, b1) == b1);
            assert(fold_upd(vf, a3) == b1);
            assert(b1 == acc_of_body(b));
        },
    }
}

/// The first stages of a body's field run, shared by the proofs above.
spec fn p2_of(b: BodyV<PayloadV>) -> Seq<(Seq<char>, BField)> {
    seq![("type"@, BField::FStr(sp_tag(b.message)))] + opt_num_fields("msg_id"@, b.msg_id)
}

spec fn p3_of(b: BodyV<PayloadV>) -> Seq<(Seq<char>, BField)> {
    p2_of(b) + opt_num_fields("in_reply_to"@, b.in_reply_to)
}

/// Every field the encoder writes carries the shape its name demands.
proof fn lemma_body_kinds(b: BodyV<PayloadV>)
    ensures
        forall|m: int|
            0 <= m < body_fields_of(b).len() ==> kind_ok(
                #[trigger] body_fields_of(b)[m].0,
                body_fields_of(b)[m].1,
            ),
{
    let tf = ("type"@, BField::FStr(sp_tag(b.message)));
    let p1 = seq![tf];
    let mf = opt_num_fields("msg_id"@, b.msg_id);
    let rf = opt_num_fields("in_reply_to"@, b.in_reply_to);
    let vf = variant_fields_of(b.message);
    let fb = body_fields_of(b);
    assert forall|m: int| 0 <= m < fb.len() implies kind_ok(fb[m].0, fb[m].1) by {
        if m == 0 {
            assert(fb[m] == tf);
        } else if m < p2_of(b).len() {
            assert(fb[m] == mf[m - 1]);
        } else if m < p3_of(b).len() {
            assert(fb[m] == rf[m - p2_of(b).len()]);
        } else {
            assert(fb[m] == vf[m - p3_of(b).len()]);
        }
    }
}

/// A field run's text opens with the first field name's quote.
proof fn lemma_fields_text_first(fs: Seq<(Seq<char>, BField)>)
    requires
        fs.len() >= 1,
    ensures
        fields_text(fs)[0] == '"',
{
    let q = sp_quote(fs[0].0);
    assert(q[0] == '"');
    if fs.len() == 1 {
        assert(fields_text(fs)[0] == q[0]);
    } else {
        assert(fields_text(fs)[0] == q[0]);
    }
}

/// An encoded body object standing at `i` decodes to exactly the
/// accumulator of its fields, ending just past its closing brace.
proof fn lemma_body_obj_round_trip(s: Seq<char>, i: int, b: BodyV<PayloadV>)
    requires
        0 <= i,
        i + sp_encode_body(b).len() <= s.len(),
        s.subrange(i, i + sp_encode_body(b).len()) == sp_encode_body(b),
    ensures
        sp_body_obj(s, i) == Some((acc_of_body(b), i + sp_encode_body(b).len())),
{
    lemma_body_text_shape(b);
    lemma_body_fold(b);
    lemma_body_kinds(b);
    let fb = body_fields_of(b);
    let ft = fields_text(fb);
    assert((seq!['{'] + ft) + seq!['}'] =~= seq!['{'] + (ft + seq!['}']));
    lemma_subrange_split(s, i, seq!['{'], ft + seq!['}']);
    lemma_char_at(s, i, seq!['{'], 0);
    assert(s[i] == '{');
    assert(sp_ws(s, i) == i);
    lemma_fields_text_first(fb);
    lemma_char_at(s, i + 1, ft + seq!['}'], 0);
    assert(s[i + 1] == '"');
    assert(sp_ws(s, i + 1) == i + 1);
    lemma_fields_text_len(fb);
    lemma_body_fields_walk(s, i + 1, fb, body_acc_empty(), s.len() as nat);
}

/// The positions of every piece of an encoded message within the line.
#[verifier::rlimit(100)]
proof fn lemma_message_pieces(m: MessageV<PayloadV>)
    ensures
        ({
            let s = sp_encode_message(m);
            let qsrc = sp_quote("src"@);
            let qdest = sp_quote("dest"@);
            let qbody = sp_quote("body"@);
            let va = sp_quote(m.src);
            let vb = sp_quote(m.dst);
            let c = sp_encode_body(m.body);
            let e1 = 1 + qsrc.len() as int;
            let pa = e1 + 1;
            let ea = pa + va.len() as int;
            let kd = ea + 1;
            let e2 = kd + qdest.len() as int;
            let pb = e2 + 1;
            let eb = pb + vb.len() as int;
            let kb = eb + 1;
            let e3 = kb + qbody.len() as int;
            let pc = e3 + 1;
            let ec = pc + c.len() as int;
            &&& ec + 1 == s.len()
            &&& s[0] == '{'
            &&& s.subrange(1, e1) == qsrc
            &&& s[e1] == ':'
            &&& s.subrange(pa, ea) == va
            &&& s[ea] == ','
            &&& s.subrange(kd, e2) == qdest
            &&& s[e2] == ':'
            &&& s.subrange(pb, eb) == vb
            &&& s[eb] == ','
            &&& s.subrange(kb, e3) == qbody
            &&& s[e3] == ':'
            &&& s.subrange(pc, ec) == c
            &&& s[ec] == '}'
        }),
{
    lemma_key_texts();
    reveal_strlit("}");
    let s = sp_encode_message(m);
    let qsrc = sp_quote("src"@);
    let qdest = sp_quote("dest"@);
    let qbody = sp_quote("body"@);
    let va = sp_quote(m.src);
    let vb = sp_quote(m.dst);
    let c = sp_encode_body(m.body);
    let a1 = "{\"src\":"@;
    let a2 = a1 + va;
    let a3 = a2 + ",\"dest\":"@;
    let a4 = a3 + vb;
    let a5 = a4 + ",\"body\":"@;
    let a6 = a5 + c;
    assert(s == a6 + "}"@);
    assert(s.subrange(0, s.len() as int) =~= s);
    assert("}"@ =~= seq!['}']);
    assert(s.subrange(0, s.len() as int) =~= a6 + seq!['}']);
    lemma_subrange_split(s, 0, a6, seq!['}']);
    lemma_char_at(s, a6.len() as int, seq!['}'], 0);
    lemma_subrange_split(s, 0, a5, c);
    lemma_subrange_split(s, 0, a4, ",\"body\":"@);
    lemma_subrange_split(s, 0, a3, vb);
    lemma_subrange_split(s, 0, a2, ",\"dest\":"@);
    lemma_subrange_split(s, 0, a1, va);
    // Open up the three name pieces.
    assert(s.subrange(0, a1.len() as int) =~= seq!['{'] + (qsrc + seq![':']));
    lemma_subrange_split(s, 0, seq!['{'], qsrc + seq![':']);
    lemma_char_at(s, 0, seq!['{'], 0);
    lemma_subrange_split(s, 1, qsrc, seq![':']);
    lemma_char_at(s, 1 + qsrc.len() as int, seq![':'], 0);
    let kd = a2.len() as int + 1;
    assert(s.subrange(a2.len() as int, a3.len() as int) =~= seq![','] + (qdest + seq![':']));
    lemma_subrange_split(s, a2.len() as int, seq![','], qdest + seq![':']);
    lemma_char_at(s, a2.len() as int, seq![','], 0);
    lemma_subrange_split(s, kd, qdest, seq![':']);
    lemma_char_at(s, kd + qdest.len() as int, seq![':'], 0);
    let kb = a4.len() as int + 1;
    assert(s.subrange(a4.len() as int, a5.len() as int) =~= seq![','] + (qbody + seq![':']));
    lemma_subrange_split(s, a4.len() as int, seq![','], qbody + seq![':']);
    lemma_char_at(s, a4.len() as int, seq![','], 0);
    lemma_subrange_split(s, kb, qbody, seq![':']);
    lemma_char_at(s, kb + qbody.len() as int, seq![':'], 0);
}

/// Decoding undoes encoding: every message the library can put on the wire
/// comes back from its own line as exactly the same message.
#[verifier::rlimit(100)]
pub proof fn lemma_encode_decode_round_trip(m: MessageV<PayloadV>)
    ensures
        sp_decode_message(sp_encode_message(m)) == Ok::<MessageV<PayloadV>, WireError>(m),
{
    lemma_key_texts();
    lemma_message_pieces(m);
    let s = sp_encode_message(m);
    let qsrc = sp_quote("src"@);
    let qdest = sp_quote("dest"@);
    let qbody = sp_quote("body"@);
    let va = sp_quote(m.src);
    let vb = sp_quote(m.dst);
    let c = sp_encode_body(m.body);
    let e1: int = 1 + qsrc.len() as int;
    let pa: int = e1 + 1;
    let ea: int = pa + va.len() as int;
    let kd: int = ea + 1;
    let e2: int = kd + qdest.len() as int;
    let pb: int = e2 + 1;
    let eb: int = pb + vb.len() as int;
    let kb: int = eb + 1;
    let e3: int = kb + qbody.len() as int;
    let pc: int = e3 + 1;
    let ec: int = pc + c.len() as int;
    lemma_quote_round_trip(s, 1, "src"@);
    lemma_quote_round_trip(s, pa, m.src);
    lemma_char_at(s, pa, va, 0);
    lemma_quote_round_trip(s, kd, "dest"@);
    lemma_char_at(s, kd, qdest, 0);
    lemma_quote_round_trip(s, pb, m.dst);
    lemma_char_at(s, pb, vb, 0);
    lemma_quote_round_trip(s, kb, "body"@);
    lemma_char_at(s, kb, qbody, 0);
    lemma_body_obj_round_trip(s, pc, m.body);
    let acc0 = env_acc_empty();
    let acc1 = EnvAccV { src: Some(m.src), ..acc0 };
    let acc2 = EnvAccV { dst: Some(m.dst), ..acc1 };
    let acc3 = EnvAccV { body: Some(acc_of_body(m.body)), ..acc2 };
    let fuel = s.len() as nat;
    assert(fuel >= 3);
    // Field 3: "body".
    assert(sp_ws(s, kb) == kb);
    assert(sp_ws(s, e3) == e3);
    assert(sp_env_value(s, e3 + 1, "body"@, acc2) == Some((acc3, ec)));
    assert(sp_ws(s, ec) == ec);
    assert(sp_env_fields(s, kb, acc2, (fuel - 2) as nat) == Some((acc3, ec + 1)));
    // Field 2: "dest".
    assert(sp_ws(s, e2) == e2);
    assert(sp_ws(s, pb) == pb);
    assert(sp_env_value(s, e2 + 1, "dest"@, acc1) == Some((acc2, eb)));
    assert(sp_ws(s, eb) == eb);
    assert(sp_ws(s, eb + 1) == kb);
    assert(sp_env_fields(s, kd, acc1, (fuel - 1) as nat) == Some((acc3, ec + 1)));
    // Field 1: "src".
    assert(sp_ws(s, e1) == e1);
    assert(sp_ws(s, pa) == pa);
    assert(sp_env_value(s, e1 + 1, "src"@, acc0) == Some((acc1, ea)));
    assert(sp_ws(s, ea) == ea);
    assert(sp_ws(s, ea + 1) == kd);
    assert(sp_env_fields(s, 1, acc0, fuel) == Some((acc3, ec + 1)));
    // The envelope as a whole.
    assert(sp_ws(s, 0) == 0);
    lemma_char_at(s, 1, qsrc, 0);
    assert(s[1] == '"');
    assert(sp_ws(s, 1) == 1);
    assert(sp_envelope(s) == Some((acc3, s.len() as int)));
    assert(sp_ws(s, s.len() as int) == s.len() as int);
    // Finalize: the tag picks the right payload back out.
    lemma_payload_fields_round_trip(m.body);
    assert(acc_of_body(m.body).msg_id == m.body.msg_id);
    assert(acc_of_body(m.body).in_reply_to == m.body.in_reply_to);
    assert(m == (MessageV {
        src: m.src,
        dst: m.dst,
        body: BodyV {
            msg_id: m.body.msg_id,
            in_reply_to: m.body.in_reply_to,
            message: m.body.message,
        },
    }));
}

/// Encodes the comma-separated items of an array of strings, starting at
/// item `i`.
fn strarr_items_chars(ids: &Vec<String>, i: usize) -> (r: Vec<char>)
    requires
        i <= ids@.len(),
    ensures
        r@ == sp_strarr_items(ids.deep_view().skip(i as int)),
    decreases ids@.len() - i,
{
    let ghost dv = ids.deep_view().skip(i as int);
    if i >= ids.len() {
        let out: Vec<char> = Vec::new();
        proof {
            assert(out@ =~= sp_strarr_items(dv));
        }
        return out;
    }
    let mut out = quote_chars(ids[i].as_str());
    proof {
        assert(dv[0] == ids.deep_view()[i as int]);
        assert(ids.deep_view()[i as int] == ids@[i as int]@);
    }
    if i + 1 < ids.len() {
        out.push(',');
        let mut rest = strarr_items_chars(ids, i + 1);
        out.append(&mut rest);
        proof {
            assert(dv.skip(1) =~= ids.deep_view().skip(i as int + 1));
            assert(out@ =~= sp_quote(dv[0]) + seq![','] + sp_strarr_items(dv.skip(1)));
        }
    } else {
        proof {
            assert(dv.len() == 1);
            assert(out@ =~= sp_strarr_items(dv));
        }
    }
    out
}

/// Encodes an array of strings.
fn strarr_chars(ids: &Vec<String>) -> (r: Vec<char>)
    ensures
        r@ == sp_strarr(ids.deep_view()),
{
    let mut out = crate::json::str_chars("[");
    let mut items = strarr_items_chars(ids, 0);
    proof {
        assert(ids.deep_view().skip(0) =~= ids.deep_view());
    }
    out.append(&mut items);
    append_lit(&mut out, "]");
    out
}

/// Encodes the `msg_id` field.
fn msg_id_chars(v: &Option<u64>) -> (r: Vec<char>)
    ensures
        r@ == sp_msg_id_field(*v),
{
    match v {
        None => {
            let out: Vec<char> = Vec::new();
            proof {
                assert(out@ =~= sp_msg_id_field(None));
            }
            out
        },
        Some(n) => {
            let mut out = crate::json::str_chars(",\"msg_id\":");
            let mut d = num_chars(*n);
            out.append(&mut d);
            out
        },
    }
}

/// Encodes the `in_reply_to` field.
fn in_reply_to_chars(v: &Option<u64>) -> (r: Vec<char>)
    ensures
        r@ == sp_in_reply_to_field(*v),
{
    match v {
        None => {
            let out: Vec<char> = Vec::new();
            proof {
                assert(out@ =~= sp_in_reply_to_field(None));
            }
            out
        },
        Some(n) => {
            let mut out = crate::json::str_chars(",\"in_reply_to\":");
            let mut d = num_chars(*n);
            out.append(&mut d);
            out
        },
    }
}

/// Encodes a payload's variant-specific fields.
fn variant_chars(p: &Payload) -> (r: Vec<char>)
    ensures
        r@ == sp_variant_fields(p@),
{
    match p {
        Payload::Init(iv) => {
            let mut out = crate::json::str_chars(",\"node_id\":");
            let mut q = quote_chars(iv.node_id.as_str());
            out.append(&mut q);
            append_lit(&mut out, ",\"node_ids\":");
            let mut arr = strarr_chars(&iv.node_ids);
            out.append(&mut arr);
            out
        },
        Payload::InitOk => {
            let out: Vec<char> = Vec::new();
            proof {
                assert(out@ =~= sp_variant_fields(p@));
            }
            out
        },
        Payload::Echo(e) => {
            let mut out = crate::json::str_chars(",\"echo\":");
            let mut q = quote_chars(e.as_str());
            out.append(&mut q);
            out
        },
        Payload::EchoOk(e) => {
            let mut out = crate::json::str_chars(",\"echo\":");
            let mut q = quote_chars(e.as_str());
            out.append(&mut q);
            out
        },
        Payload::Generate => {
            let out: Vec<char> = Vec::new();
            proof {
                assert(out@ =~= sp_variant_fields(p@));
            }
            out
        },
        Payload::GenerateOk(id) => {
            let mut out = crate::json::str_chars(",\"id\":");
            let mut d = num_chars(*id);
            out.append(&mut d);
            out
        },
    }
}

/// Encodes a body object.
fn body_chars(b: &Body<Payload>) -> (r: Vec<char>)
    ensures
        r@ == sp_encode_body(b@),
{
    let mut out = crate::json::str_chars("{\"type\":");
    let tag: &str = match &b.message {
        Payload::Init(_) => "init",
        Payload::InitOk => "init_ok",
        Payload::Echo(_) => "echo",
        Payload::EchoOk(_) => "echo_ok",
        Payload::Generate => "generate",
        Payload::GenerateOk(_) => "generate_ok",
    };
    let mut q = quote_chars(tag);
    out.append(&mut q);
    let mut m = msg_id_chars(&b.msg_id);
    out.append(&mut m);
    let mut irt = in_reply_to_chars(&b.in_reply_to);
    out.append(&mut irt);
    let mut vf = variant_chars(&b.message);
    out.append(&mut vf);
    append_lit(&mut out, "}");
    out
}

/// Encodes one message as one line's worth of text (without a terminator):
/// exactly the canonical form `sp_encode_message` describes.
pub fn encode_message(m: &Message<Payload>) -> (r: String)
    ensures
        r@ == sp_encode_message(m@),
{
    let mut out = crate::json::str_chars("{\"src\":");
    let mut q = quote_chars(m.src.as_str());
    out.append(&mut q);
    append_lit(&mut out, ",\"dest\":");
    let mut q2 = quote_chars(m.dst.as_str());
    out.append(&mut q2);
    append_lit(&mut out, ",\"body\":");
    let mut b = body_chars(&m.body);
    out.append(&mut b);
    append_lit(&mut out, "}");
    chars_to_string(&out)
}

} // verus!
