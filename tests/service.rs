use query_service::body::{Cell, ErrorBody, QueryRequest, QueryResponse};
use query_service::handler::{
    handle_error_test, handle_query, pretty_error_middleware, sample_data, sample_response,
    test_error, Reply,
};
use query_service::json::{push_decimal, push_quoted, read_quoted};

const SAMPLE: &str = "{\"headers\":[\"foo\",\"bar\"],\"data\":[[1.0,\"choice\"]]}";

fn request(query: &str) -> Result<QueryRequest, String> {
    Ok(QueryRequest { query: query.to_string() })
}

fn parse_error(text: &str) -> String {
    serde_json::from_str::<serde_json::Value>(text).unwrap_err().to_string()
}

#[test]
fn select_one_gets_the_table() {
    let r = handle_query(request("select 1"));
    assert_eq!(r.status, 200);
    assert_eq!(r.body, SAMPLE);
}

#[test]
fn any_query_gets_the_table() {
    for q in ["", "SELECT * FROM t", "\"quoted\"\n", "ünïcödé"] {
        let r = handle_query(request(q));
        assert_eq!(r.status, 200);
        assert_eq!(r.body, SAMPLE);
    }
}

#[test]
fn success_body_matches_serde_json() {
    let v: serde_json::Value = serde_json::from_str(&handle_query(request("x")).body).unwrap();
    assert_eq!(v["headers"][0], "foo");
    assert_eq!(v["headers"][1], "bar");
    assert_eq!(v["data"][0][0], 1.0);
    assert_eq!(v["data"][0][1], "choice");
}

#[test]
fn repeated_request_is_byte_identical() {
    let a = handle_query(request("select 1"));
    let b = handle_query(request("select 1"));
    let c = handle_query(request("select 2"));
    assert_eq!(a.status, b.status);
    assert_eq!(a.body, b.body);
    assert_eq!(a.body, c.body);
}

#[test]
fn not_json_gets_400() {
    let message = parse_error("not json");
    assert!(!message.is_empty());
    let r = handle_query(Err(message.clone()));
    assert_eq!(r.status, 400);
    assert_eq!(r.body, format!("{{\"status\":400,\"message\":\"{}\"}}", message));
    let v: serde_json::Value = serde_json::from_str(&r.body).unwrap();
    assert_eq!(v["status"], 400);
    assert_eq!(v["message"], message.as_str());
}

#[test]
fn missing_query_gets_400() {
    let r = handle_query(Err("missing field `query` at line 1 column 2".to_string()));
    assert_eq!(r.status, 400);
    assert_eq!(
        r.body,
        "{\"status\":400,\"message\":\"missing field `query` at line 1 column 2\"}"
    );
}

#[test]
fn message_with_quotes_is_escaped() {
    let r = handle_query(Err("bad \"q\"\n".to_string()));
    assert_eq!(r.status, 400);
    assert_eq!(r.body, "{\"status\":400,\"message\":\"bad \\\"q\\\"\\n\"}");
}

#[test]
fn teapot_route() {
    let r = handle_error_test();
    assert_eq!(r.status, 418);
    assert_eq!(r.body, "{\"status\":418,\"message\":\"Error Test: I am a teapot\"}");
}

#[test]
fn teapot_handler_fails() {
    match test_error() {
        Err(e) => {
            assert_eq!(e.status, 418);
            assert_eq!(e.message, "Error Test: I am a teapot");
        }
        Ok(_) => panic!("the teapot handler succeeded"),
    }
}

#[test]
fn sample_data_outcomes() {
    match sample_data(request("q")) {
        Ok(r) => {
            assert_eq!(r.status, 200);
            assert_eq!(r.body, SAMPLE);
        }
        Err(_) => panic!("a valid request failed"),
    }
    match sample_data(Err("boom".to_string())) {
        Err(e) => {
            assert_eq!(e.status, 400);
            assert_eq!(e.message, "boom");
        }
        Ok(_) => panic!("an invalid request succeeded"),
    }
}

#[test]
fn middleware_passes_success() {
    let r = pretty_error_middleware(Ok(Reply { status: 204, body: "kept".to_string() }));
    assert_eq!(r.status, 204);
    assert_eq!(r.body, "kept");
}

#[test]
fn middleware_keeps_failure_status() {
    let r = pretty_error_middleware(Err(ErrorBody::with_status(503, "down".to_string())));
    assert_eq!(r.status, 503);
    assert_eq!(r.body, "{\"status\":503,\"message\":\"down\"}");
}

#[test]
fn error_body_new_is_500() {
    let e = ErrorBody::new("oops".to_string());
    assert_eq!(e.status, 500);
    assert_eq!(e.message, "oops");
    assert_eq!(e.to_json().unwrap(), "{\"status\":500,\"message\":\"oops\"}");
}

#[test]
fn envelope_round_trip() {
    for (status, message) in [
        (400u16, "expected value at line 1 column 1"),
        (0, ""),
        (65535, "tab\there, quote \" and backslash \\"),
        (418, "ünïcödé \u{1}"),
    ] {
        let e = ErrorBody::with_status(status, message.to_string());
        let text = e.to_json().unwrap();
        let back = ErrorBody::from_json(&text).unwrap();
        assert_eq!(back.status, status);
        assert_eq!(back.message, message);
    }
}

#[test]
fn envelope_matches_serde_json() {
    let e = ErrorBody::with_status(400, "a \"b\" c".to_string());
    let v: serde_json::Value = serde_json::from_str(&e.to_json().unwrap()).unwrap();
    assert_eq!(v["status"], 400);
    assert_eq!(v["message"], "a \"b\" c");
}

#[test]
fn malformed_envelopes_are_refused() {
    for text in [
        "not json",
        "",
        "{\"status\":,\"message\":\"x\"}",
        "{\"status\":70000,\"message\":\"x\"}",
        "{\"status\":400,\"message\":\"x\"",
        "{\"status\":400,\"message\":x}",
        "{\"status\":400,\"msg\":\"x\"}",
        "{\"status\":4a0,\"message\":\"x\"}",
    ] {
        assert!(ErrorBody::from_json(text).is_none(), "{}", text);
    }
}

#[test]
fn envelope_with_leading_zeros_reads_value() {
    let e = ErrorBody::from_json("{\"status\":00418,\"message\":\"t\"}").unwrap();
    assert_eq!(e.status, 418);
    assert_eq!(e.message, "t");
}

#[test]
fn into_reply_writes_table() {
    let r = sample_response().into_reply();
    assert_eq!(r.status, 200);
    assert_eq!(r.body, SAMPLE);
}

#[test]
fn table_with_negative_and_escaped_cells() {
    let t = QueryResponse {
        headers: vec!["a\"".to_string()],
        data: vec![vec![Cell::Real(-12), Cell::Text("x\ny".to_string())], vec![]],
    };
    assert_eq!(
        t.to_json().unwrap(),
        "{\"headers\":[\"a\\\"\"],\"data\":[[-12.0,\"x\\ny\"],[]]}"
    );
}

#[test]
fn empty_table() {
    let t = QueryResponse { headers: vec![], data: vec![] };
    assert_eq!(t.to_json().unwrap(), "{\"headers\":[],\"data\":[]}");
}

#[test]
fn decimal_digits() {
    for (n, s) in [(0u64, "0"), (7, "7"), (10, "10"), (418, "418"), (u64::MAX, "18446744073709551615")] {
        let mut out = "x".to_string();
        push_decimal(&mut out, n);
        assert_eq!(out, format!("x{}", s));
    }
}

#[test]
fn quoting_escapes() {
    let mut out = String::new();
    assert!(push_quoted(&mut out, "a\"b\\c"));
    assert_eq!(out, "\"a\\\"b\\\\c\"");
}

#[test]
fn reading_literals() {
    assert_eq!(read_quoted("\"a\\\"b\"").unwrap(), "a\"b");
    assert_eq!(read_quoted("\"plain\"").unwrap(), "plain");
    assert!(read_quoted("plain").is_none());
    assert!(read_quoted("\"a\" x").is_none());
}
