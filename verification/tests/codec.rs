use command_server::codec::{decode_request, response_to_json, DecodeError};
use command_server::ids::uuid_string;
use command_server::json::{JsonNumber, JsonValue};
use command_server::types::{
    Command, ErrorResponse, OkResponse, Operation, Request, Response, Status,
};

fn obj(fields: Vec<(&str, JsonValue)>) -> JsonValue {
    JsonValue::Obj(fields.into_iter().map(|(k, v)| (k.to_string(), v)).collect())
}

fn id_str(id: u128) -> JsonValue {
    JsonValue::Str(uuid_string(id))
}

fn field<'a>(v: &'a JsonValue, key: &str) -> Option<&'a JsonValue> {
    match v {
        JsonValue::Obj(fields) => fields.iter().find(|(k, _)| k == key).map(|(_, v)| v),
        _ => None,
    }
}

#[test]
fn test_decode_ping() {
    let id = uuid::Uuid::new_v4().as_u128();
    let doc = obj(vec![("request_id", id_str(id)), ("command", JsonValue::Str("ping".to_string()))]);
    let req = decode_request(&doc).expect("a well-formed ping request decodes");
    assert_eq!(req.request_id, id);
    assert_eq!(req.command, Command::Ping);
}

#[test]
fn test_decode_ping_with_null_payload() {
    let id = uuid::Uuid::new_v4().as_u128();
    let doc = obj(vec![
        ("request_id", id_str(id)),
        ("command", JsonValue::Str("time".to_string())),
        ("payload", JsonValue::Null),
    ]);
    let req = decode_request(&doc).expect("a null payload is tolerated");
    assert_eq!(req.command, Command::Time);
}

#[test]
fn test_decode_echo_is_lenient() {
    let id = uuid::Uuid::new_v4().as_u128();
    for payload in [
        JsonValue::Null,
        JsonValue::Bool(false),
        JsonValue::Num(JsonNumber::Int(-3)),
        JsonValue::Arr(vec![JsonValue::Null]),
        obj(vec![("k", JsonValue::Str("v".to_string()))]),
    ] {
        let doc = obj(vec![
            ("request_id", id_str(id)),
            ("command", JsonValue::Str("echo".to_string())),
            ("payload", payload.duplicate()),
        ]);
        let req = decode_request(&doc).expect("echo accepts any payload");
        assert_eq!(req.command, Command::Echo(payload));
    }
}

#[test]
fn test_decode_calculate() {
    let id = uuid::Uuid::new_v4().as_u128();
    let doc = obj(vec![
        ("request_id", id_str(id)),
        ("command", JsonValue::Str("calculate".to_string())),
        (
            "payload",
            obj(vec![
                ("operation", JsonValue::Str("subtract".to_string())),
                ("a", JsonValue::Num(JsonNumber::Float((21.0f64).to_bits()))),
                ("b", JsonValue::Num(JsonNumber::UInt(9))),
            ]),
        ),
    ]);
    let req = decode_request(&doc).expect("a well-formed calculate request decodes");
    assert_eq!(
        req.command,
        Command::Calculate {
            operation: Operation::Subtract,
            a: JsonNumber::Float((21.0f64).to_bits()),
            b: JsonNumber::UInt(9),
        }
    );
}

#[test]
fn test_decode_batch() {
    let id = uuid::Uuid::new_v4().as_u128();
    let inner_id = uuid::Uuid::new_v4().as_u128();
    let doc = obj(vec![
        ("request_id", id_str(id)),
        ("command", JsonValue::Str("batch".to_string())),
        (
            "payload",
            JsonValue::Arr(vec![obj(vec![
                ("request_id", id_str(inner_id)),
                ("command", JsonValue::Str("ping".to_string())),
            ])]),
        ),
    ]);
    let req = decode_request(&doc).expect("a well-formed batch decodes");
    match req.command {
        Command::Batch(items) => {
            assert_eq!(items.len(), 1);
            assert_eq!(items[0].request_id, inner_id);
            assert_eq!(items[0].command, Command::Ping);
        }
        _ => panic!("expected a batch command"),
    }
}

#[test]
fn test_decode_uppercase_uuid() {
    let id = uuid::Uuid::new_v4().as_u128();
    let upper = uuid_string(id).to_uppercase();
    let doc = obj(vec![
        ("request_id", JsonValue::Str(upper)),
        ("command", JsonValue::Str("ping".to_string())),
    ]);
    let req = decode_request(&doc).expect("uppercase UUID digits are accepted");
    assert_eq!(req.request_id, id);
}

#[test]
fn test_decode_errors() {
    let id = uuid::Uuid::new_v4().as_u128();

    assert_eq!(decode_request(&JsonValue::Null), Err(DecodeError::NotAnObject));

    let doc = obj(vec![("command", JsonValue::Str("ping".to_string()))]);
    assert_eq!(decode_request(&doc), Err(DecodeError::MissingRequestId));

    let doc = obj(vec![
        ("request_id", JsonValue::Str("not-a-uuid".to_string())),
        ("command", JsonValue::Str("ping".to_string())),
    ]);
    assert_eq!(decode_request(&doc), Err(DecodeError::InvalidRequestId));

    let doc = obj(vec![
        ("request_id", JsonValue::Num(JsonNumber::UInt(5))),
        ("command", JsonValue::Str("ping".to_string())),
    ]);
    assert_eq!(decode_request(&doc), Err(DecodeError::InvalidRequestId));

    let doc = obj(vec![("request_id", id_str(id))]);
    assert_eq!(decode_request(&doc), Err(DecodeError::MissingCommand));

    let doc = obj(vec![("request_id", id_str(id)), ("command", JsonValue::Str("fly".to_string()))]);
    assert_eq!(decode_request(&doc), Err(DecodeError::UnknownCommand));

    let doc = obj(vec![
        ("request_id", id_str(id)),
        ("command", JsonValue::Str("ping".to_string())),
        ("payload", JsonValue::Str("noise".to_string())),
    ]);
    assert_eq!(decode_request(&doc), Err(DecodeError::UnexpectedPayload));

    let doc = obj(vec![("request_id", id_str(id)), ("command", JsonValue::Str("echo".to_string()))]);
    assert_eq!(decode_request(&doc), Err(DecodeError::MissingPayload));

    let doc = obj(vec![
        ("request_id", id_str(id)),
        ("command", JsonValue::Str("calculate".to_string())),
        ("payload", JsonValue::Str("not an object".to_string())),
    ]);
    assert_eq!(decode_request(&doc), Err(DecodeError::InvalidPayload));

    let doc = obj(vec![
        ("request_id", id_str(id)),
        ("command", JsonValue::Str("calculate".to_string())),
        (
            "payload",
            obj(vec![
                ("operation", JsonValue::Str("modulo".to_string())),
                ("a", JsonValue::Num(JsonNumber::UInt(1))),
                ("b", JsonValue::Num(JsonNumber::UInt(2))),
            ]),
        ),
    ]);
    assert_eq!(decode_request(&doc), Err(DecodeError::InvalidPayload));

    let doc = obj(vec![
        ("request_id", id_str(id)),
        ("command", JsonValue::Str("calculate".to_string())),
        (
            "payload",
            obj(vec![
                ("operation", JsonValue::Str("add".to_string())),
                ("a", JsonValue::Str("one".to_string())),
                ("b", JsonValue::Num(JsonNumber::UInt(2))),
            ]),
        ),
    ]);
    assert_eq!(decode_request(&doc), Err(DecodeError::InvalidPayload));

    let doc = obj(vec![
        ("request_id", id_str(id)),
        ("command", JsonValue::Str("batch".to_string())),
        ("payload", JsonValue::Bool(true)),
    ]);
    assert_eq!(decode_request(&doc), Err(DecodeError::InvalidPayload));

    // an invalid batch element fails the whole decode with its own error
    let doc = obj(vec![
        ("request_id", id_str(id)),
        ("command", JsonValue::Str("batch".to_string())),
        ("payload", JsonValue::Arr(vec![JsonValue::Bool(true)])),
    ]);
    assert_eq!(decode_request(&doc), Err(DecodeError::NotAnObject));
}

#[test]
fn test_decode_error_messages_nonempty() {
    let variants = [
        DecodeError::NotAnObject,
        DecodeError::MissingRequestId,
        DecodeError::InvalidRequestId,
        DecodeError::MissingCommand,
        DecodeError::UnknownCommand,
        DecodeError::UnexpectedPayload,
        DecodeError::MissingPayload,
        DecodeError::InvalidPayload,
    ];
    for v in variants {
        assert!(!v.message().is_empty());
    }
}

#[test]
fn test_response_to_json_success_shape() {
    let id = uuid::Uuid::new_v4().as_u128();
    let resp = Response::Success(OkResponse {
        request_id: id,
        status: Status::Success,
        response: JsonValue::Str("pong".to_string()),
    });
    let doc = response_to_json(&resp);
    assert_eq!(field(&doc, "request_id"), Some(&id_str(id)));
    assert_eq!(field(&doc, "status"), Some(&JsonValue::Str("ok".to_string())));
    assert_eq!(field(&doc, "response"), Some(&JsonValue::Str("pong".to_string())));
}

#[test]
fn test_response_to_json_error_shape() {
    let resp = Response::Error(ErrorResponse {
        request_id: None,
        status: Status::Error,
        error: "request is not a valid JSON".to_string(),
    });
    let doc = response_to_json(&resp);
    assert_eq!(field(&doc, "request_id"), Some(&JsonValue::Null));
    assert_eq!(field(&doc, "status"), Some(&JsonValue::Str("error".to_string())));
    assert_eq!(
        field(&doc, "error"),
        Some(&JsonValue::Str("request is not a valid JSON".to_string()))
    );
}

#[test]
fn test_decode_of_encoded_request_round_trip() {
    // decode(encode-shaped document) gives back the same request data
    let id = uuid::Uuid::new_v4().as_u128();
    let doc = obj(vec![
        ("request_id", id_str(id)),
        ("command", JsonValue::Str("echo".to_string())),
        ("payload", obj(vec![("n", JsonValue::Num(JsonNumber::Int(-7)))])),
    ]);
    let req = decode_request(&doc).expect("decodes");
    assert_eq!(
        req,
        Request {
            request_id: id,
            command: Command::Echo(obj(vec![("n", JsonValue::Num(JsonNumber::Int(-7)))])),
        }
    );
}
