//! Between the wire documents and the typed model.
//!
//! Decoding turns a structured JSON document into a `Request`, failing with
//! a structural error — never a panic — exactly on documents that do not
//! have the request shape. Encoding turns a `Response` into the document
//! sent back; it cannot fail.

use vstd::prelude::*;

use crate::ids::{parse_uuid, spec_parse_uuid, spec_uuid_chars, uuid_string};
use crate::json::{
    lemma_spec_fields_seq, lemma_spec_json_seq, spec_fields_seq, spec_json_of, spec_json_seq,
    JsonNumber, JsonValue, SpecJson,
};
use crate::types::{
    lemma_spec_request_seq, spec_command_of, spec_request_seq, Command, Operation, Request,
    Response, SpecCommand, SpecRequest, SpecResponse,
};

verus! {

/// The document form of a response, as sent on the wire: the request
/// identifier in UUID text form (or null where none was known), a textual
/// status, and the result or the error message.
pub open spec fn spec_response_jval(r: SpecResponse) -> SpecJson {
    match r {
        SpecResponse::Success(ok) => SpecJson::Obj(
            seq![
                ("request_id"@, SpecJson::Str(spec_uuid_chars(ok.request_id))),
                ("status"@, SpecJson::Str("ok"@)),
                ("response"@, ok.response),
            ],
        ),
        SpecResponse::Error(e) => SpecJson::Obj(
            seq![
                (
                    "request_id"@,
                    match e.request_id {
                        Some(id) => SpecJson::Str(spec_uuid_chars(id)),
                        None => SpecJson::Null,
                    },
                ),
                ("status"@, SpecJson::Str("error"@)),
                ("error"@, SpecJson::Str(e.error)),
            ],
        ),
    }
}

/// Renders a response as the document sent on the wire. Total: every
/// response the core produces has a document form.
pub fn response_to_json(resp: &Response) -> (v: JsonValue)
    ensures
        v@ == spec_response_jval(resp@),
{
    match resp {
        Response::Success(ok) => {
            let mut fields: Vec<(String, JsonValue)> = Vec::new();
            fields.push(("request_id".to_owned(), JsonValue::Str(uuid_string(ok.request_id))));
            fields.push(("status".to_owned(), JsonValue::Str("ok".to_owned())));
            fields.push(("response".to_owned(), ok.response.duplicate()));
            proof {
                lemma_spec_fields_seq(fields@);
                assert(spec_fields_seq(fields@) =~= seq![
                    ("request_id"@, SpecJson::Str(spec_uuid_chars(ok.request_id))),
                    ("status"@, SpecJson::Str("ok"@)),
                    ("response"@, spec_json_of(ok.response)),
                ]);
            }
            JsonValue::Obj(fields)
        },
        Response::Error(e) => {
            let idv = match &e.request_id {
                Some(id) => JsonValue::Str(uuid_string(*id)),
                None => JsonValue::Null,
            };
            let mut fields: Vec<(String, JsonValue)> = Vec::new();
            fields.push(("request_id".to_owned(), idv));
            fields.push(("status".to_owned(), JsonValue::Str("error".to_owned())));
            fields.push(("error".to_owned(), JsonValue::Str(e.error.clone())));
            proof {
                lemma_spec_fields_seq(fields@);
                assert(spec_fields_seq(fields@) =~= seq![
                    (
                        "request_id"@,
                        match e.request_id {
                            Some(id) => SpecJson::Str(spec_uuid_chars(id)),
                            None => SpecJson::Null,
                        },
                    ),
                    ("status"@, SpecJson::Str("error"@)),
                    ("error"@, SpecJson::Str(e.error@)),
                ]);
            }
            JsonValue::Obj(fields)
        },
    }
}

/// The index of the first field of `fields` named `key`, or -1 where no
/// field has that name.
pub open spec fn spec_field_index(fields: Seq<(Seq<char>, SpecJson)>, key: Seq<char>) -> int
    decreases fields.len(),
{
    if fields.len() == 0 {
        -1
    } else if fields[0].0 == key {
        0
    } else {
        let t = spec_field_index(fields.subrange(1, fields.len() as int), key);
        if t == -1 {
            -1
        } else {
            t + 1
        }
    }
}

/// The value of the first field of `fields` named `key`, where one exists.
pub open spec fn spec_field(fields: Seq<(Seq<char>, SpecJson)>, key: Seq<char>) -> Option<
    SpecJson,
> {
    let i = spec_field_index(fields, key);
    if i == -1 {
        None
    } else {
        Some(fields[i].1)
    }
}

/// What the field index denotes: in range and first, or absent entirely.
pub proof fn lemma_field_index(fields: Seq<(Seq<char>, SpecJson)>, key: Seq<char>)
    ensures
        spec_field_index(fields, key) == -1 ==> forall|j: int|
            0 <= j < fields.len() ==> (#[trigger] fields[j]).0 != key,
        spec_field_index(fields, key) != -1 ==> {
            let i = spec_field_index(fields, key);
            &&& 0 <= i < fields.len()
            &&& fields[i].0 == key
            &&& forall|j: int| 0 <= j < i ==> (#[trigger] fields[j]).0 != key
        },
    decreases fields.len(),
{
    if fields.len() > 0 && fields[0].0 != key {
        let tail = fields.subrange(1, fields.len() as int);
        lemma_field_index(tail, key);
        let t = spec_field_index(tail, key);
        if t == -1 {
            assert forall|j: int| 0 <= j < fields.len() implies (#[trigger] fields[j]).0
                != key by {
                if j > 0 {
                    assert(tail[j - 1] == fields[j]);
                }
            }
        } else {
            assert(fields[t + 1] == tail[t]);
            assert forall|j: int| 0 <= j < t + 1 implies (#[trigger] fields[j]).0 != key by {
                if j > 0 {
                    assert(tail[j - 1] == fields[j]);
                }
            }
        }
    }
}

/// The matching direction of `lemma_field_index`: a first hit at `i` is
/// what the index function returns.
pub proof fn lemma_field_index_hit(fields: Seq<(Seq<char>, SpecJson)>, key: Seq<char>, i: int)
    requires
        0 <= i < fields.len(),
        fields[i].0 == key,
        forall|j: int| 0 <= j < i ==> (#[trigger] fields[j]).0 != key,
    ensures
        spec_field_index(fields, key) == i,
    decreases fields.len(),
{
    if i > 0 {
        let tail = fields.subrange(1, fields.len() as int);
        assert(tail[i - 1] == fields[i]);
        assert forall|j: int| 0 <= j < i - 1 implies (#[trigger] tail[j]).0 != key by {
            assert(tail[j] == fields[j + 1]);
        }
        lemma_field_index_hit(tail, key, i - 1);
    }
}

/// A scan that found no field named `key` means the index is -1.
pub proof fn lemma_field_index_miss(fields: Seq<(Seq<char>, SpecJson)>, key: Seq<char>)
    requires
        forall|j: int| 0 <= j < fields.len() ==> (#[trigger] fields[j]).0 != key,
    ensures
        spec_field_index(fields, key) == -1,
    decreases fields.len(),
{
    if fields.len() > 0 {
        let tail = fields.subrange(1, fields.len() as int);
        assert forall|j: int| 0 <= j < tail.len() implies (#[trigger] tail[j]).0 != key by {
            assert(tail[j] == fields[j + 1]);
        }
        lemma_field_index_miss(tail, key);
    }
}

/// The operation a tag names, or `None` for an unknown tag.
pub open spec fn spec_operation(s: Seq<char>) -> Option<Operation> {
    if s == "add"@ {
        Some(Operation::Add)
    } else if s == "subtract"@ {
        Some(Operation::Subtract)
    } else if s == "multiply"@ {
        Some(Operation::Multiply)
    } else if s == "divide"@ {
        Some(Operation::Divide)
    } else {
        None
    }
}

/// The command a non-batch tag and payload denote, or `None` where the
/// tag is unknown or the payload does not fit it: ping and time take no
/// payload (a null one is tolerated), echo takes any payload at all, and
/// the calculator takes an object with an operation and two numbers.
pub open spec fn spec_decode_simple(tag: Seq<char>, payload: Option<SpecJson>) -> Option<
    SpecCommand,
> {
    if tag == "ping"@ {
        match payload {
            None => Some(SpecCommand::Ping),
            Some(SpecJson::Null) => Some(SpecCommand::Ping),
            _ => None,
        }
    } else if tag == "time"@ {
        match payload {
            None => Some(SpecCommand::Time),
            Some(SpecJson::Null) => Some(SpecCommand::Time),
            _ => None,
        }
    } else if tag == "echo"@ {
        match payload {
            Some(p) => Some(SpecCommand::Echo(p)),
            None => None,
        }
    } else if tag == "calculate"@ {
        match payload {
            Some(SpecJson::Obj(pf)) => {
                match (spec_field(pf, "operation"@), spec_field(pf, "a"@), spec_field(pf, "b"@)) {
                    (
                        Some(SpecJson::Str(ops)),
                        Some(SpecJson::Num(a)),
                        Some(SpecJson::Num(b)),
                    ) => match spec_operation(ops) {
                        Some(op) => Some(SpecCommand::Calculate { operation: op, a, b }),
                        None => None,
                    },
                    _ => None,
                }
            },
            _ => None,
        }
    } else {
        None
    }
}

/// The request a document denotes, or `None` where the document does not
/// have the request shape: it must be an object whose `request_id` field
/// is a UUID string and whose `command` field is a known tag with a
/// payload that fits it; other fields are ignored. A batch payload is an
/// array each of whose elements denotes a request in turn.
pub open spec fn spec_decode(v: SpecJson) -> Option<SpecRequest>
    decreases v, 1int,
{
    if !(v is Obj) {
        None
    } else {
        let fields = v->Obj_0;
        let pi = spec_field_index(fields, "payload"@);
        let payload = if pi == -1 {
            None
        } else {
            Some(fields[pi].1)
        };
        match (spec_field(fields, "request_id"@), spec_field(fields, "command"@)) {
            (Some(SpecJson::Str(ids)), Some(SpecJson::Str(tag))) => match spec_parse_uuid(ids) {
                Some(id) => {
                    if tag == "batch"@ {
                        match payload {
                            Some(SpecJson::Arr(elems)) => {
                                proof {
                                    lemma_field_index(fields, "payload"@);
                                    assert(decreases_to!(v => fields));
                                    assert(decreases_to!(fields => fields[pi]));
                                    assert(decreases_to!(fields[pi] => fields[pi].1));
                                    assert(fields[pi].1 is Arr && fields[pi].1->Arr_0 == elems);
                                    assert(decreases_to!(fields[pi].1 => fields[pi].1->Arr_0));
                                }
                                match spec_decode_seq(elems) {
                                    Some(items) => Some(
                                        SpecRequest {
                                            request_id: id,
                                            command: SpecCommand::Batch(items),
                                        },
                                    ),
                                    None => None,
                                }
                            },
                            _ => None,
                        }
                    } else {
                        match spec_decode_simple(tag, payload) {
                            Some(cmd) => Some(SpecRequest { request_id: id, command: cmd }),
                            None => None,
                        }
                    }
                },
                None => None,
            },
            _ => None,
        }
    }
}

/// The requests a batch payload's elements denote, or `None` where any
/// element fails to denote one.
pub open spec fn spec_decode_seq(elems: Seq<SpecJson>) -> Option<Seq<SpecRequest>>
    decreases elems, 0int,
{
    if elems.len() == 0 {
        Some(Seq::empty())
    } else {
        match (spec_decode(elems[0]), spec_decode_seq(elems.subrange(1, elems.len() as int))) {
            (Some(r), Some(rest)) => Some(seq![r] + rest),
            _ => None,
        }
    }
}

/// Elementwise decodes determine the decode of the whole batch payload.
pub proof fn lemma_decode_seq_of_points(elems: Seq<SpecJson>, rs: Seq<SpecRequest>)
    requires
        rs.len() == elems.len(),
        forall|j: int| 0 <= j < elems.len() ==> spec_decode(#[trigger] elems[j]) == Some(rs[j]),
    ensures
        spec_decode_seq(elems) == Some(rs),
    decreases elems.len(),
{
    if elems.len() == 0 {
        assert(rs =~= Seq::<SpecRequest>::empty());
    } else {
        let etail = elems.subrange(1, elems.len() as int);
        let rtail = rs.subrange(1, rs.len() as int);
        assert forall|j: int| 0 <= j < etail.len() implies spec_decode(#[trigger] etail[j])
            == Some(rtail[j]) by {
            assert(etail[j] == elems[j + 1]);
            assert(rtail[j] == rs[j + 1]);
        }
        lemma_decode_seq_of_points(etail, rtail);
        assert(rs =~= seq![rs[0]] + rtail);
    }
}

/// One element that denotes no request fails the whole batch payload.
pub proof fn lemma_decode_seq_fail(elems: Seq<SpecJson>, j: int)
    requires
        0 <= j < elems.len(),
        spec_decode(elems[j]) is None,
    ensures
        spec_decode_seq(elems) is None,
    decreases elems.len(),
{
    if j > 0 {
        let etail = elems.subrange(1, elems.len() as int);
        assert(etail[j - 1] == elems[j]);
        lemma_decode_seq_fail(etail, j - 1);
    }
}

/// Why a document failed to decode into a request.
#[derive(Clone, Copy, PartialEq, Eq, Structural, Debug)]
pub enum DecodeError {
    /// The document is not an object.
    NotAnObject,
    /// The object has no `request_id` field.
    MissingRequestId,
    /// The `request_id` field is not a UUID string.
    InvalidRequestId,
    /// The object has no `command` field.
    MissingCommand,
    /// The `command` field is not a string naming a known command.
    UnknownCommand,
    /// The command takes no payload, yet one other than null stands there.
    UnexpectedPayload,
    /// The command requires a payload and none stands there.
    MissingPayload,
    /// The payload does not have the shape the command requires.
    InvalidPayload,
}

/// The text of a decode error.
pub open spec fn spec_decode_error_text(e: DecodeError) -> Seq<char> {
    match e {
        DecodeError::NotAnObject => "request is not a JSON object"@,
        DecodeError::MissingRequestId => "missing `request_id` field"@,
        DecodeError::InvalidRequestId => "`request_id` is not a valid UUID"@,
        DecodeError::MissingCommand => "missing `command` field"@,
        DecodeError::UnknownCommand => "`command` is not a known command"@,
        DecodeError::UnexpectedPayload => "this command takes no payload"@,
        DecodeError::MissingPayload => "this command requires a payload"@,
        DecodeError::InvalidPayload => "the payload does not fit the command"@,
    }
}

impl DecodeError {
    /// The error's description, as sent in an error response.
    pub fn message(&self) -> (s: String)
        ensures
            s@ == spec_decode_error_text(*self),
    {
        match self {
            DecodeError::NotAnObject => "request is not a JSON object".to_owned(),
            DecodeError::MissingRequestId => "missing `request_id` field".to_owned(),
            DecodeError::InvalidRequestId => "`request_id` is not a valid UUID".to_owned(),
            DecodeError::MissingCommand => "missing `command` field".to_owned(),
            DecodeError::UnknownCommand => "`command` is not a known command".to_owned(),
            DecodeError::UnexpectedPayload => "this command takes no payload".to_owned(),
            DecodeError::MissingPayload => "this command requires a payload".to_owned(),
            DecodeError::InvalidPayload => "the payload does not fit the command".to_owned(),
        }
    }
}

/// Whether a string holds exactly the characters of `t`.
fn str_eq(s: &String, t: &str) -> (r: bool)
    ensures
        r == (s@ == t@),
{
    *s == t.to_owned()
}

/// Finds the first field of an object named `key`.
fn find_field(fields: &Vec<(String, JsonValue)>, key: &str) -> (r: Option<usize>)
    ensures
        match r {
            Some(i) => i < fields@.len() && spec_field_index(spec_fields_seq(fields@), key@)
                == i as int,
            None => spec_field_index(spec_fields_seq(fields@), key@) == -1,
        },
{
    let ghost sfields = spec_fields_seq(fields@);
    proof {
        lemma_spec_fields_seq(fields@);
    }
    let mut i: usize = 0;
    while i < fields.len()
        invariant
            i <= fields.len(),
            sfields == spec_fields_seq(fields@),
            sfields.len() == fields@.len(),
            forall|j: int|
                0 <= j < fields@.len() ==> (#[trigger] sfields[j]).0 == fields@[j].0@,
            forall|j: int| 0 <= j < i as int ==> (#[trigger] sfields[j]).0 != key@,
        decreases fields.len() - i,
    {
        if str_eq(&fields[i].0, key) {
            proof {
                lemma_field_index_hit(sfields, key@, i as int);
            }
            return Some(i);
        }
        i = i + 1;
    }
    proof {
        lemma_field_index_miss(sfields, key@);
    }
    None
}

/// Reads an operation tag.
fn operation_of(s: &String) -> (r: Option<Operation>)
    ensures
        r == spec_operation(s@),
{
    if str_eq(s, "add") {
        Some(Operation::Add)
    } else if str_eq(s, "subtract") {
        Some(Operation::Subtract)
    } else if str_eq(s, "multiply") {
        Some(Operation::Multiply)
    } else if str_eq(s, "divide") {
        Some(Operation::Divide)
    } else {
        None
    }
}

/// Decodes a wire document into a request: `Ok` exactly on documents that
/// denote one (see `spec_decode`), and a structural error — never a panic
/// — on every other document.
pub fn decode_request(v: &JsonValue) -> (r: Result<Request, DecodeError>)
    ensures
        match r {
            Result::Ok(req) => spec_decode(v@) == Some(req@),
            Result::Err(_) => spec_decode(v@) is None,
        },
    decreases v,
{
    proof {
        reveal_strlit("ping");
        reveal_strlit("time");
        reveal_strlit("echo");
        reveal_strlit("calculate");
        reveal_strlit("batch");
    }
    match v {
        JsonValue::Obj(fields) => {
            let ghost sfields = spec_fields_seq(fields@);
            proof {
                lemma_spec_fields_seq(fields@);
                assert(v@ == SpecJson::Obj(sfields));
            }
            let idi = match find_field(fields, "request_id") {
                Some(i) => i,
                None => {
                    return Result::Err(DecodeError::MissingRequestId);
                },
            };
            proof {
                assert(spec_field(sfields, "request_id"@) == Some(
                    spec_json_of(fields@[idi as int].1),
                ));
            }
            let id: u128 = match &fields[idi].1 {
                JsonValue::Str(ids) => match parse_uuid(ids.as_str()) {
                    Some(id) => id,
                    None => {
                        return Result::Err(DecodeError::InvalidRequestId);
                    },
                },
                _ => {
                    return Result::Err(DecodeError::InvalidRequestId);
                },
            };
            let tagi = match find_field(fields, "command") {
                Some(i) => i,
                None => {
                    return Result::Err(DecodeError::MissingCommand);
                },
            };
            proof {
                assert(spec_field(sfields, "command"@) == Some(
                    spec_json_of(fields@[tagi as int].1),
                ));
            }
            let tag: &String = match &fields[tagi].1 {
                JsonValue::Str(t) => t,
                _ => {
                    return Result::Err(DecodeError::UnknownCommand);
                },
            };
            let pix = find_field(fields, "payload");
            proof {
                match pix {
                    Some(pi) => {
                        assert(spec_field(sfields, "payload"@) == Some(
                            spec_json_of(fields@[pi as int].1),
                        ));
                    },
                    None => {
                        assert(spec_field(sfields, "payload"@) is None);
                    },
                }
            }
            if str_eq(tag, "ping") || str_eq(tag, "time") {
                let is_ping = str_eq(tag, "ping");
                match pix {
                    None => {},
                    Some(pi) => match &fields[pi].1 {
                        JsonValue::Null => {},
                        _ => {
                            proof {
                                reveal_strlit("ping");
                                reveal_strlit("time");
                                reveal_strlit("batch");
                                assert(spec_json_of(fields@[pi as int].1) != SpecJson::Null);
                                assert(spec_decode_simple(
                                    tag@,
                                    Some(spec_json_of(fields@[pi as int].1)),
                                ) is None);
                                assert("ping"@.len() == 4);
                                assert("time"@.len() == 4);
                                assert("batch"@.len() == 5);
                                assert(tag@ != "batch"@);
                                assert(spec_field_index(sfields, "payload"@) == pi as int);
                                assert(sfields[pi as int].1 == spec_json_of(
                                    fields@[pi as int].1,
                                ));
                                assert(spec_decode(v@) is None);
                            }
                            return Result::Err(DecodeError::UnexpectedPayload);
                        },
                    },
                }
                let command = if is_ping {
                    Command::Ping
                } else {
                    Command::Time
                };
                proof {
                    reveal_strlit("ping");
                    reveal_strlit("time");
                    reveal_strlit("batch");
                    assert("ping"@.len() == 4);
                    assert("time"@.len() == 4);
                    assert("batch"@.len() == 5);
                    assert(tag@ != "batch"@);
                    assert(spec_decode(v@) == Some(
                        SpecRequest { request_id: id, command: spec_command_of(command) },
                    ));
                }
                Result::Ok(Request { request_id: id, command })
            } else if str_eq(tag, "echo") {
                match pix {
                    Some(pi) => {
                        let payload = fields[pi].1.duplicate();
                        proof {
                            reveal_strlit("echo");
                            reveal_strlit("batch");
                            assert("echo"@.len() == 4);
                            assert("batch"@.len() == 5);
                            assert(tag@ != "batch"@);
                            assert(spec_field_index(sfields, "payload"@) == pi as int);
                            assert(sfields[pi as int].1 == spec_json_of(fields@[pi as int].1));
                        }
                        Result::Ok(Request { request_id: id, command: Command::Echo(payload) })
                    },
                    None => Result::Err(DecodeError::MissingPayload),
                }
            } else if str_eq(tag, "calculate") {
                let pi = match pix {
                    Some(pi) => pi,
                    None => {
                        return Result::Err(DecodeError::MissingPayload);
                    },
                };
                let pf = match &fields[pi].1 {
                    JsonValue::Obj(pf) => pf,
                    _ => {
                        proof {
                            reveal_strlit("calculate");
                            reveal_strlit("batch");
                            assert("calculate"@.len() == 9);
                            assert("batch"@.len() == 5);
                            assert(tag@ != "batch"@);
                            assert(spec_field_index(sfields, "payload"@) == pi as int);
                            assert(sfields[pi as int].1 == spec_json_of(fields@[pi as int].1));
                            assert(!(spec_json_of(fields@[pi as int].1) is Obj));
                            assert(spec_decode_simple(
                                tag@,
                                Some(spec_json_of(fields@[pi as int].1)),
                            ) is None);
                            assert(spec_decode(v@) is None);
                        }
                        return Result::Err(DecodeError::InvalidPayload);
                    },
                };
                let ghost spf = spec_fields_seq(pf@);
                proof {
                    lemma_spec_fields_seq(pf@);
                    assert(spec_json_of(fields@[pi as int].1) == SpecJson::Obj(spf));
                }
                let opi = match find_field(pf, "operation") {
                    Some(i) => i,
                    None => {
                        return Result::Err(DecodeError::InvalidPayload);
                    },
                };
                proof {
                    assert(spec_field(spf, "operation"@) == Some(
                        spec_json_of(pf@[opi as int].1),
                    ));
                }
                let ops = match &pf[opi].1 {
                    JsonValue::Str(t) => t,
                    _ => {
                        return Result::Err(DecodeError::InvalidPayload);
                    },
                };
                let operation = match operation_of(ops) {
                    Some(op) => op,
                    None => {
                        return Result::Err(DecodeError::InvalidPayload);
                    },
                };
                let ai = match find_field(pf, "a") {
                    Some(i) => i,
                    None => {
                        return Result::Err(DecodeError::InvalidPayload);
                    },
                };
                proof {
                    assert(spec_field(spf, "a"@) == Some(spec_json_of(pf@[ai as int].1)));
                }
                let a = match &pf[ai].1 {
                    JsonValue::Num(n) => *n,
                    _ => {
                        return Result::Err(DecodeError::InvalidPayload);
                    },
                };
                let bi = match find_field(pf, "b") {
                    Some(i) => i,
                    None => {
                        return Result::Err(DecodeError::InvalidPayload);
                    },
                };
                proof {
                    assert(spec_field(spf, "b"@) == Some(spec_json_of(pf@[bi as int].1)));
                }
                let b = match &pf[bi].1 {
                    JsonValue::Num(n) => *n,
                    _ => {
                        return Result::Err(DecodeError::InvalidPayload);
                    },
                };
                proof {
                    reveal_strlit("calculate");
                    reveal_strlit("batch");
                    assert("calculate"@.len() == 9);
                    assert("batch"@.len() == 5);
                    assert(tag@ != "batch"@);
                    assert(spec_field_index(sfields, "payload"@) == pi as int);
                    assert(sfields[pi as int].1 == spec_json_of(fields@[pi as int].1));
                }
                Result::Ok(
                    Request { request_id: id, command: Command::Calculate { operation, a, b } },
                )
            } else if str_eq(tag, "batch") {
                let pi = match pix {
                    Some(pi) => pi,
                    None => {
                        return Result::Err(DecodeError::MissingPayload);
                    },
                };
                let elems = match &fields[pi].1 {
                    JsonValue::Arr(e) => e,
                    _ => {
                        return Result::Err(DecodeError::InvalidPayload);
                    },
                };
                let ghost selems = spec_json_seq(elems@);
                let ghost idv = id;
                proof {
                    lemma_spec_json_seq(elems@);
                    assert(spec_json_of(fields@[pi as int].1) == SpecJson::Arr(selems));
                    assert(spec_decode(v@) == (match spec_decode_seq(selems) {
                        Some(items2) => Some(
                            SpecRequest { request_id: idv, command: SpecCommand::Batch(items2) },
                        ),
                        None => None,
                    }));
                }
                let mut items: Vec<Request> = Vec::new();
                let mut i: usize = 0;
                while i < elems.len()
                    invariant
                        i <= elems.len(),
                        *v is Obj,
                        v->Obj_0 == *fields,
                        pi < fields@.len(),
                        fields@[pi as int].1 is Arr,
                        fields@[pi as int].1->Arr_0 == *elems,
                        selems == spec_json_seq(elems@),
                        selems.len() == elems@.len(),
                        forall|j: int|
                            0 <= j < elems@.len() ==> selems[j] == spec_json_of(
                                #[trigger] elems@[j],
                            ),
                        items@.len() == i as int,
                        forall|j: int|
                            0 <= j < i as int ==> spec_decode(selems[j]) == Some(
                                (#[trigger] items@[j])@,
                            ),
                        spec_decode(v@) == (match spec_decode_seq(selems) {
                            Some(items2) => Some(
                                SpecRequest {
                                    request_id: idv,
                                    command: SpecCommand::Batch(items2),
                                },
                            ),
                            None => None,
                        }),
                    decreases elems.len() - i,
                {
                    proof {
                        assert(decreases_to!(*v => v->Obj_0));
                        assert(decreases_to!(*fields => fields@));
                        assert(decreases_to!(fields@ => fields@[pi as int]));
                        assert(decreases_to!(fields@[pi as int] => fields@[pi as int].1));
                        assert(decreases_to!(fields@[pi as int].1 => fields@[pi as int].1->Arr_0));
                        assert(decreases_to!(*elems => elems@));
                        assert(decreases_to!(elems@ => elems@[i as int]));
                    }
                    let item = match decode_request(&elems[i]) {
                        Result::Ok(req) => req,
                        Result::Err(e) => {
                            proof {
                                lemma_decode_seq_fail(selems, i as int);
                            }
                            return Result::Err(e);
                        },
                    };
                    items.push(item);
                    i = i + 1;
                }
                proof {
                    lemma_spec_request_seq(items@);
                    assert forall|j: int| 0 <= j < selems.len() implies spec_decode(
                        #[trigger] selems[j],
                    ) == Some(spec_request_seq(items@)[j]) by {
                        assert(spec_decode(selems[j]) == Some(items@[j]@));
                    }
                    lemma_decode_seq_of_points(selems, spec_request_seq(items@));
                    assert(spec_decode(v@) == Some(
                        SpecRequest {
                            request_id: idv,
                            command: SpecCommand::Batch(spec_request_seq(items@)),
                        },
                    ));
                }
                Result::Ok(Request { request_id: id, command: Command::Batch(items) })
            } else {
                Result::Err(DecodeError::UnknownCommand)
            }
        },
        _ => Result::Err(DecodeError::NotAnObject),
    }
}

} // verus!
