use capdispatch::codec::decode_test_request;
use capdispatch::codec::decode_visualize_request;
use capdispatch::codec::encode_run_request;
use capdispatch::codec::encode_run_response;
use capdispatch::codec::encode_test_request;
use capdispatch::codec::encode_test_response;
use capdispatch::codec::encode_visualize_request;
use capdispatch::codec::encode_visualize_response;
use capdispatch::codec::error_json;
use capdispatch::decimal::i64_to_dec;
use capdispatch::decimal::u64_to_dec;
use capdispatch::envelope::RunRequest;
use capdispatch::envelope::RunResponse;
use capdispatch::envelope::TestRequest;
use capdispatch::envelope::TestResponse;
use capdispatch::envelope::VisualizeRequest;
use capdispatch::envelope::VisualizeResponse;
use capdispatch::json::json_to_string;
use capdispatch::json::JsonValue;

#[test]
fn decimal_rendering() {
    assert_eq!(u64_to_dec(0), "0");
    assert_eq!(u64_to_dec(7), "7");
    assert_eq!(u64_to_dec(120), "120");
    assert_eq!(u64_to_dec(u64::MAX), "18446744073709551615");
    assert_eq!(i64_to_dec(0), "0");
    assert_eq!(i64_to_dec(-1), "-1");
    assert_eq!(i64_to_dec(42), "42");
    assert_eq!(i64_to_dec(i64::MIN), "-9223372036854775808");
    assert_eq!(i64_to_dec(i64::MAX), "9223372036854775807");
}

#[test]
fn response_bodies_match_their_fixed_shapes() {
    assert_eq!(encode_run_response(&RunResponse::new()), "{\"error\":null}");
    assert_eq!(encode_run_response(&RunResponse::make()), "{\"error\":null}");
    assert_eq!(
        encode_run_response(&RunResponse::error(String::from("x"))),
        "{\"error\":\"x\"}"
    );
    assert_eq!(encode_test_response(&TestResponse::new()), "{\"error\":null}");
    assert_eq!(
        encode_visualize_response(&VisualizeResponse::new()),
        "{\"resource\":\"\",\"error\":null}"
    );
    assert_eq!(
        encode_visualize_response(&VisualizeResponse::make(String::from("movie.gif"))),
        "{\"resource\":\"movie.gif\",\"error\":null}"
    );
    assert_eq!(
        encode_visualize_response(&VisualizeResponse::error(String::from("no"))),
        "{\"resource\":\"\",\"error\":\"no\"}"
    );
}

#[test]
fn error_envelope_is_verbatim() {
    assert_eq!(error_json("boom"), "{\"error\":\"boom\"}");
    assert_eq!(error_json(""), "{\"error\":\"\"}");
}

#[test]
fn string_escaping_matches_serde() {
    let samples = [
        "plain",
        "with \"quotes\"",
        "back\\slash",
        "line\nbreak\ttab\rret",
        "ctl:\u{1}\u{8}\u{c}\u{1f}",
        "unicode: caf\u{e9} \u{1f600}",
        "",
    ];
    for s in samples {
        let ours = encode_run_response(&RunResponse::error(String::from(s)));
        let mut v = serde_json::Map::new();
        v.insert(
            String::from("error"),
            serde_json::Value::String(String::from(s)),
        );
        let theirs = serde_json::to_string(&serde_json::Value::Object(v)).unwrap();
        assert_eq!(ours, theirs);
    }
}

#[test]
fn json_values_match_serde() {
    let ours = json_to_string(&JsonValue::Obj(vec![
        (
            String::from("a"),
            JsonValue::Arr(vec![
                JsonValue::Int(1),
                JsonValue::Null,
                JsonValue::Bool(true),
                JsonValue::Bool(false),
                JsonValue::Int(-3),
            ]),
        ),
        (String::from("b"), JsonValue::Str(String::from("x\"y"))),
        (String::from("c"), JsonValue::Obj(vec![])),
        (String::from("d"), JsonValue::Arr(vec![])),
    ]));
    let mut inner = serde_json::Map::new();
    inner.insert(
        String::from("a"),
        serde_json::Value::Array(vec![
            serde_json::Value::from(1i64),
            serde_json::Value::Null,
            serde_json::Value::Bool(true),
            serde_json::Value::Bool(false),
            serde_json::Value::from(-3i64),
        ]),
    );
    inner.insert(
        String::from("b"),
        serde_json::Value::String(String::from("x\"y")),
    );
    inner.insert(
        String::from("c"),
        serde_json::Value::Object(serde_json::Map::new()),
    );
    inner.insert(String::from("d"), serde_json::Value::Array(vec![]));
    let theirs = serde_json::to_string(&serde_json::Value::Object(inner)).unwrap();
    assert_eq!(ours, theirs);
}

#[test]
fn request_encodings() {
    assert_eq!(encode_test_request(&TestRequest::new()), "{}");
    assert_eq!(encode_test_request(&TestRequest::make()), "{}");
    assert_eq!(
        encode_visualize_request(&VisualizeRequest::new()),
        "{\"f_p_s\":0,\"num_frames\":0}"
    );
    assert_eq!(
        encode_visualize_request(&VisualizeRequest::make(-24, 360)),
        "{\"f_p_s\":-24,\"num_frames\":360}"
    );
    assert_eq!(
        encode_run_request(&RunRequest::new()),
        "{\"id\":\"\",\"backend\":\"\",\"input\":\"\",\"config\":{},\"foo\":{}}"
    );
    let req = RunRequest::make(
        String::from("job-1"),
        String::from("gromacs"),
        String::from("pdb data"),
        vec![
            (String::from("steps"), JsonValue::Int(100)),
            (String::from("fast"), JsonValue::Bool(true)),
        ],
        vec![(5, String::from("five")), (-2, String::from("minus"))],
    );
    assert_eq!(
        encode_run_request(&req),
        "{\"id\":\"job-1\",\"backend\":\"gromacs\",\"input\":\"pdb data\",\
         \"config\":{\"steps\":100,\"fast\":true},\
         \"foo\":{\"5\":\"five\",\"-2\":\"minus\"}}"
    );
}

#[test]
fn escaped_strings_parse_back_unchanged() {
    let samples = [
        "plain",
        "with \"quotes\" and \\slashes\\",
        "line\nbreak\ttab\rret",
        "ctl:\u{0}\u{1}\u{8}\u{b}\u{c}\u{1f}",
        "caf\u{e9} \u{1f600}",
    ];
    for s in samples {
        let text = encode_run_response(&RunResponse::error(String::from(s)));
        let parsed: serde_json::Value = serde_json::from_str(&text).unwrap();
        assert_eq!(parsed["error"], *s);
    }
}

#[test]
fn request_round_trips() {
    for (f, n) in [
        (0i64, 0i64),
        (1, -1),
        (-24, 360),
        (i64::MIN, i64::MAX),
        (999, -1000),
    ] {
        let text = encode_visualize_request(&VisualizeRequest::make(f, n));
        let back = decode_visualize_request(&text).unwrap();
        assert_eq!(back.f_p_s, f);
        assert_eq!(back.num_frames, n);
    }
    assert!(decode_test_request(&encode_test_request(&TestRequest::new())).is_some());
    assert!(decode_test_request("{ }").is_none());
    assert!(decode_visualize_request("{\"f_p_s\":1,\"num_frames\":2}").is_some());
    assert!(decode_visualize_request("{\"f_p_s\":01,\"num_frames\":2}").is_none());
    assert!(decode_visualize_request("{\"f_p_s\":1,\"num_frames\":2").is_none());
    assert!(decode_visualize_request("{\"f_p_s\":-0,\"num_frames\":2}").is_none());
    // beyond the 64-bit range
    assert!(decode_visualize_request("{\"f_p_s\":9223372036854775808,\"num_frames\":2}").is_none());
}

#[test]
fn encoded_requests_parse_back_with_serde() {
    let req = RunRequest::make(
        String::from("id9"),
        String::from("b"),
        String::from("in"),
        vec![(String::from("k"), JsonValue::Str(String::from("v")))],
        vec![(7, String::from("seven"))],
    );
    let text = encode_run_request(&req);
    let parsed: serde_json::Value = serde_json::from_str(&text).unwrap();
    assert_eq!(parsed["id"], "id9");
    assert_eq!(parsed["backend"], "b");
    assert_eq!(parsed["input"], "in");
    assert_eq!(parsed["config"]["k"], "v");
    assert_eq!(parsed["foo"]["7"], "seven");

    let text = encode_visualize_request(&VisualizeRequest::make(30, 900));
    let parsed: serde_json::Value = serde_json::from_str(&text).unwrap();
    assert_eq!(parsed["f_p_s"], 30);
    assert_eq!(parsed["num_frames"], 900);

    let text = encode_test_request(&TestRequest::new());
    let parsed: serde_json::Value = serde_json::from_str(&text).unwrap();
    assert!(parsed.as_object().unwrap().is_empty());
}
