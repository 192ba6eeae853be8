use chrono::{DateTime, Timelike, Utc};
use command_server::codec::{decode_request, response_to_json};
use command_server::commands::{calc_keys, form_response, CalcKey, CalcTable};
use command_server::ids::uuid_string;
use command_server::json::{JsonNumber, JsonValue};
use command_server::metrics::Metrics;
use command_server::types::{Command, CommandKind, Operation, Request, Response};

fn build_metrics() -> Metrics {
    Metrics::default()
}

fn build_request(command: Command) -> Request {
    Request { request_id: uuid::Uuid::new_v4().as_u128(), command }
}

fn num_to_f64(n: JsonNumber) -> f64 {
    match n {
        JsonNumber::Int(i) => i as f64,
        JsonNumber::UInt(u) => u as f64,
        JsonNumber::Float(bits) => f64::from_bits(bits),
    }
}

fn fill_table(req: &Request) -> CalcTable {
    let mut table = CalcTable::new();
    for key in calc_keys(req) {
        let a = num_to_f64(key.a);
        let b = num_to_f64(key.b);
        let result = match key.operation {
            Operation::Add => a + b,
            Operation::Subtract => a - b,
            Operation::Multiply => a * b,
            Operation::Divide => {
                if b == 0.0 {
                    continue;
                }
                a / b
            }
        };
        table.insert(key, result.to_bits());
    }
    table
}

fn float(x: f64) -> JsonNumber {
    JsonNumber::Float(x.to_bits())
}

fn result_obj(x: f64) -> JsonValue {
    JsonValue::Obj(vec![("result".to_string(), JsonValue::Num(float(x)))])
}

#[test]
fn test_command_ping() {
    let mut metrics = build_metrics();
    let req = build_request(Command::Ping);
    let uuid = req.request_id;
    let table = fill_table(&req);
    let resp = form_response(&req, &mut metrics, &table);
    match resp {
        Response::Success(ok) => {
            assert_eq!(ok.request_id, uuid);
            assert_eq!(ok.response, JsonValue::Str("pong".to_string()));
        }
        Response::Error(_) => panic!("Expected OK response"),
    }
}

#[test]
fn test_command_time() {
    let mut metrics = build_metrics();
    let time = Utc::now().with_nanosecond(0).expect("This shouldn't ever panic");
    let req = build_request(Command::Time);
    let uuid = req.request_id;
    let table = fill_table(&req);
    let resp = form_response(&req, &mut metrics, &table);
    match resp {
        Response::Success(ok) => {
            assert_eq!(ok.request_id, uuid);
            let fields = match &ok.response {
                JsonValue::Obj(fields) => fields,
                _ => panic!("Missing `time` field in the response"),
            };
            let resp_str = fields
                .iter()
                .find(|(k, _)| k == "time")
                .and_then(|(_, v)| match v {
                    JsonValue::Str(s) => Some(s.clone()),
                    _ => None,
                })
                .expect("Missing `time` field in the response");
            let parsed = DateTime::parse_from_rfc3339(&resp_str)
                .expect("Invalid format")
                .with_timezone(&Utc);
            println!("{}", parsed);
            println!("{}", time);
            assert!((parsed - time).as_seconds_f32() >= 0.0);
            assert!((parsed - time).as_seconds_f32() < 2.0);
        }
        Response::Error(_) => panic!("Expected OK response"),
    }
}

#[test]
fn test_command_echo() {
    let mut metrics = build_metrics();

    let req = build_request(Command::Echo(JsonValue::Str("hello".to_string())));
    let uuid = req.request_id;
    let table = fill_table(&req);
    let resp = form_response(&req, &mut metrics, &table);
    match resp {
        Response::Success(ok) => {
            assert_eq!(ok.request_id, uuid);
            assert_eq!(ok.response, JsonValue::Str("hello".to_string()));
        }
        Response::Error(_) => panic!("Expected OK response"),
    }
}

#[test]
fn test_command_calculate() {
    let test_data = Vec::from([
        (Operation::Add, 0.1, 0.2, 0.1 + 0.2),
        (Operation::Subtract, 21.0, 9.0, 21.0 - 9.0),
        (Operation::Multiply, 6.0, -8.0, 6.0 * -8.0),
        (Operation::Divide, 22.0, 7.0, 22.0 / 7.0),
    ]);

    let mut metrics = build_metrics();

    for item in test_data {
        let req = build_request(Command::Calculate {
            operation: item.0,
            a: float(item.1),
            b: float(item.2),
        });
        let uuid = req.request_id;
        let table = fill_table(&req);
        let resp = form_response(&req, &mut metrics, &table);
        match resp {
            Response::Success(ok) => {
                assert_eq!(ok.request_id, uuid);
                assert_eq!(ok.response, result_obj(item.3));
            }
            Response::Error(_) => panic!("Expected OK response"),
        }
    }

    let req = build_request(Command::Calculate {
        operation: Operation::Divide,
        a: float(5.0),
        b: float(0.0),
    });
    let uuid = Some(req.request_id);
    let table = fill_table(&req);
    let resp = form_response(&req, &mut metrics, &table);
    match resp {
        Response::Error(e) => assert_eq!(e.request_id, uuid),
        Response::Success(_) => panic!("Expected Error response"),
    }
}

fn field<'a>(v: &'a JsonValue, key: &str) -> Option<&'a JsonValue> {
    match v {
        JsonValue::Obj(fields) => fields.iter().find(|(k, _)| k == key).map(|(_, v)| v),
        _ => None,
    }
}

#[test]
fn test_command_batch() {
    let mut metrics = build_metrics();

    let test_requests = Vec::from([
        build_request(Command::Ping),
        build_request(Command::Echo(JsonValue::Obj(vec![(
            "key".to_string(),
            JsonValue::Str("value".to_string()),
        )]))),
        build_request(Command::Calculate {
            operation: Operation::Divide,
            a: float(3.5),
            b: float(-1.05),
        }),
    ]);
    let uuids: Vec<u128> = test_requests.iter().map(|i| i.request_id).collect();
    let expected_responses = [
        JsonValue::Str("pong".to_string()),
        JsonValue::Obj(vec![("key".to_string(), JsonValue::Str("value".to_string()))]),
        result_obj(3.5 / -1.05),
    ];

    let req = build_request(Command::Batch(test_requests));
    let batch_uuid = req.request_id;
    let table = fill_table(&req);
    let resp = form_response(&req, &mut metrics, &table);

    match resp {
        Response::Error(_) => panic!("Expected OK response"),
        Response::Success(ok) => {
            assert_eq!(ok.request_id, batch_uuid);
            let batch = match &ok.response {
                JsonValue::Arr(entries) => entries,
                _ => panic!("Expected OK response"),
            };
            assert_eq!(batch.len(), 3);
            for (i, item) in batch.iter().enumerate() {
                assert_eq!(
                    field(item, "request_id"),
                    Some(&JsonValue::Str(uuid_string(uuids[i])))
                );
                assert_eq!(field(item, "status"), Some(&JsonValue::Str("ok".to_string())));
                assert_eq!(field(item, "response"), Some(&expected_responses[i]));
            }
        }
    }
}

#[test]
fn test_calculate_exact_double_addition() {
    let mut metrics = build_metrics();
    let req = build_request(Command::Calculate {
        operation: Operation::Add,
        a: float(0.1),
        b: float(0.2),
    });
    let table = fill_table(&req);
    let resp = form_response(&req, &mut metrics, &table);
    assert!(0.1 + 0.2 == 0.30000000000000004);
    match resp {
        Response::Success(ok) => {
            assert_eq!(ok.response, result_obj(0.30000000000000004));
        }
        Response::Error(_) => panic!("Expected OK response"),
    }
}

#[test]
fn test_divide_by_negative_zero_fails() {
    let mut metrics = build_metrics();
    let req = build_request(Command::Calculate {
        operation: Operation::Divide,
        a: float(1.0),
        b: float(-0.0),
    });
    let uuid = req.request_id;
    let table = fill_table(&req);
    let resp = form_response(&req, &mut metrics, &table);
    match resp {
        Response::Error(e) => {
            assert_eq!(e.request_id, Some(uuid));
            assert_eq!(e.error, "division by zero".to_string());
        }
        Response::Success(_) => panic!("Expected Error response"),
    }
}

#[test]
fn test_dispatch_idempotent_for_deterministic_commands() {
    let reqs = [
        build_request(Command::Ping),
        build_request(Command::Echo(JsonValue::Arr(vec![
            JsonValue::Null,
            JsonValue::Bool(true),
            JsonValue::Num(JsonNumber::UInt(7)),
        ]))),
        build_request(Command::Calculate {
            operation: Operation::Multiply,
            a: float(2.5),
            b: float(4.0),
        }),
    ];
    for req in reqs.iter() {
        let mut metrics = build_metrics();
        let table = fill_table(req);
        let first = form_response(req, &mut metrics, &table);
        let second = form_response(req, &mut metrics, &table);
        assert_eq!(first, second);
    }
}

#[test]
fn test_metrics_counts_after_dispatches() {
    let mut metrics = build_metrics();

    let ping = build_request(Command::Ping);
    let table = fill_table(&ping);
    form_response(&ping, &mut metrics, &table);
    form_response(&ping, &mut metrics, &table);

    let inner = vec![
        build_request(Command::Ping),
        build_request(Command::Echo(JsonValue::Null)),
        build_request(Command::Batch(vec![build_request(Command::Time)])),
    ];
    let batch = build_request(Command::Batch(inner));
    let table = fill_table(&batch);
    form_response(&batch, &mut metrics, &table);

    assert_eq!(metrics.stats(CommandKind::Ping).count, 3);
    assert_eq!(metrics.stats(CommandKind::Echo).count, 1);
    assert_eq!(metrics.stats(CommandKind::Time).count, 1);
    assert_eq!(metrics.stats(CommandKind::Calculate).count, 0);
    // batch nodes themselves are never timed or counted
    assert_eq!(metrics.stats(CommandKind::Batch).count, 0);

    let ping_stats = metrics.stats(CommandKind::Ping);
    let avg = metrics.average_us(CommandKind::Ping).expect("three pings completed");
    assert!(ping_stats.min_us <= avg && avg <= ping_stats.max_us);
    assert_eq!(metrics.average_us(CommandKind::Calculate), None);
}

#[test]
fn test_nested_batch_flattens_one_level() {
    let mut metrics = build_metrics();
    let inner_items = vec![build_request(Command::Ping), build_request(Command::Ping)];
    let inner = build_request(Command::Batch(inner_items));
    let outer = build_request(Command::Batch(vec![inner]));
    let table = fill_table(&outer);
    let resp = form_response(&outer, &mut metrics, &table);
    match resp {
        Response::Success(ok) => {
            let entries = match &ok.response {
                JsonValue::Arr(entries) => entries,
                _ => panic!("expected an array"),
            };
            assert_eq!(entries.len(), 1);
            // the nested batch is one successful entry holding its own array
            assert_eq!(field(&entries[0], "status"), Some(&JsonValue::Str("ok".to_string())));
            match field(&entries[0], "response") {
                Some(JsonValue::Arr(inner_entries)) => {
                    assert_eq!(inner_entries.len(), 2);
                    for e in inner_entries {
                        assert_eq!(
                            field(e, "response"),
                            Some(&JsonValue::Str("pong".to_string()))
                        );
                    }
                }
                _ => panic!("expected the nested batch to hold its own array"),
            }
        }
        Response::Error(_) => panic!("Expected OK response"),
    }
}

#[test]
fn test_batch_keeps_sibling_results_on_item_error() {
    let mut metrics = build_metrics();
    let items = vec![
        build_request(Command::Ping),
        build_request(Command::Echo(JsonValue::Str("x".to_string()))),
        build_request(Command::Calculate {
            operation: Operation::Divide,
            a: float(1.0),
            b: float(0.0),
        }),
    ];
    let ids: Vec<u128> = items.iter().map(|i| i.request_id).collect();
    let req = build_request(Command::Batch(items));
    let table = fill_table(&req);
    let resp = form_response(&req, &mut metrics, &table);
    match resp {
        Response::Success(ok) => {
            let entries = match &ok.response {
                JsonValue::Arr(entries) => entries,
                _ => panic!("expected an array"),
            };
            assert_eq!(entries.len(), 3);
            assert_eq!(field(&entries[0], "response"), Some(&JsonValue::Str("pong".to_string())));
            assert_eq!(field(&entries[1], "response"), Some(&JsonValue::Str("x".to_string())));
            // the divide-by-zero item is an error entry with its own id
            assert_eq!(field(&entries[2], "status"), Some(&JsonValue::Str("error".to_string())));
            assert_eq!(
                field(&entries[2], "request_id"),
                Some(&JsonValue::Str(uuid_string(ids[2])))
            );
            assert_eq!(
                field(&entries[2], "error"),
                Some(&JsonValue::Str("division by zero".to_string()))
            );
        }
        Response::Error(_) => panic!("Expected OK response"),
    }
}

#[test]
fn test_calc_table_newer_entry_wins() {
    let key = CalcKey {
        operation: Operation::Add,
        a: float(1.0),
        b: float(2.0),
    };
    let mut table = CalcTable::new();
    table.insert(key, (3.0f64).to_bits());
    table.insert(key, (4.0f64).to_bits());
    assert_eq!(table.get(key), Some((4.0f64).to_bits()));
}

#[test]
fn test_echo_null_empty_object_empty_array() {
    for payload in [
        JsonValue::Null,
        JsonValue::Obj(vec![]),
        JsonValue::Arr(vec![]),
    ] {
        let mut metrics = build_metrics();
        let req = build_request(Command::Echo(payload.duplicate()));
        let table = fill_table(&req);
        let resp = form_response(&req, &mut metrics, &table);
        match resp {
            Response::Success(ok) => assert_eq!(ok.response, payload),
            Response::Error(_) => panic!("Expected OK response"),
        }
    }
}

#[test]
fn test_decode_dispatch_encode_flow() {
    let id = uuid::Uuid::new_v4().as_u128();
    let doc = JsonValue::Obj(vec![
        ("request_id".to_string(), JsonValue::Str(uuid_string(id))),
        ("command".to_string(), JsonValue::Str("calculate".to_string())),
        (
            "payload".to_string(),
            JsonValue::Obj(vec![
                ("operation".to_string(), JsonValue::Str("multiply".to_string())),
                ("a".to_string(), JsonValue::Num(float(6.0))),
                ("b".to_string(), JsonValue::Num(float(7.0))),
            ]),
        ),
    ]);
    let req = decode_request(&doc).expect("a well-formed request decodes");
    let mut metrics = build_metrics();
    let table = fill_table(&req);
    let resp = form_response(&req, &mut metrics, &table);
    let out = response_to_json(&resp);
    assert_eq!(field(&out, "request_id"), Some(&JsonValue::Str(uuid_string(id))));
    assert_eq!(field(&out, "status"), Some(&JsonValue::Str("ok".to_string())));
    assert_eq!(field(&out, "response"), Some(&result_obj(42.0)));
}
