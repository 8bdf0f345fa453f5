use bsp_types::error::{MalformedMessage, WireField};
use bsp_types::extension::ExtensionData;
use bsp_types::ident::BuildTargetIdentifier;
use bsp_types::run::BuildTargetRun;
use bsp_types::run_result::BuildTargetRunResult;

fn ident(uri: &str) -> BuildTargetIdentifier {
    BuildTargetIdentifier::new(uri.to_string())
}

#[test]
fn simple_run_writes_exactly_the_target() {
    let r = BuildTargetRun::new_simple(ident("//pkg:bin"));
    assert_eq!(r.to_wire(), "{\"target\":\"//pkg:bin\"}");
}

#[test]
fn result_writes_origin_then_status() {
    let r = BuildTargetRunResult::new(Some("req-1".to_string()), 0);
    assert_eq!(r.to_wire(), "{\"originId\":\"req-1\",\"statusCode\":0}");
}

#[test]
fn absent_fields_leave_no_key_behind() {
    let r = BuildTargetRunResult::new(None, 7);
    let text = r.to_wire();
    assert_eq!(text, "{\"statusCode\":7}");
    assert!(!text.contains("originId"));

    let run = BuildTargetRun::new(ident("//a"), None, Some("x".to_string()), None, None);
    let text = run.to_wire();
    assert!(!text.contains("originId"));
    assert!(!text.contains("dataKind"));
    assert!(!text.contains("\"data\""));
    assert!(text.contains("arguments"));
}

#[test]
fn records_lacking_a_key_read_back_as_absent() {
    let r = BuildTargetRunResult::from_wire("{\"statusCode\":4}").unwrap();
    assert!(r.origin_id().is_none());
    assert_eq!(r.status_code(), 4);

    let run = BuildTargetRun::from_wire("{\"target\":\"//a\"}").unwrap();
    assert!(run.origin_id().is_none());
    assert!(run.arguments().is_none());
    assert!(run.data_kind().is_none());
    assert!(run.data().is_none());
}

#[test]
fn run_round_trips_every_field_combination() {
    let origins = [None, Some("req-9".to_string())];
    let argss = [None, Some("--verbose --fast".to_string())];
    let kinds = [None, Some("scala-main-class".to_string())];
    let datas = [None, Some("{\"mainClass\":\"app.Main\",\"jvm\":[\"-Xmx1g\"]}")];
    for origin in &origins {
        for args in &argss {
            for kind in &kinds {
                for data in &datas {
                    let d = data.map(|t| ExtensionData::new(t.to_string()).unwrap());
                    let run = BuildTargetRun::new(
                        ident("//pkg:bin"),
                        origin.clone(),
                        args.clone(),
                        kind.clone(),
                        d,
                    );
                    let text = run.to_wire();
                    let back = BuildTargetRun::from_wire(&text).unwrap();
                    assert_eq!(back, run);
                }
            }
        }
    }
}

#[test]
fn result_round_trips() {
    for origin in [None, Some("req-1".to_string())] {
        for sc in [0usize, 1, 42, usize::MAX] {
            let r = BuildTargetRunResult::new(origin.clone(), sc);
            let back = BuildTargetRunResult::from_wire(&r.to_wire()).unwrap();
            assert_eq!(back, r);
        }
    }
}

#[test]
fn escaped_characters_round_trip() {
    let tricky = "say \"hi\"\\ tab\there\nnl\u{1}ctl";
    let run = BuildTargetRun::new(ident("//a"), Some(tricky.to_string()), None, None, None);
    let text = run.to_wire();
    let back = BuildTargetRun::from_wire(&text).unwrap();
    assert_eq!(back.origin_id(), Some(&tricky.to_string()));
}

#[test]
fn unicode_escapes_are_decoded() {
    let r = BuildTargetRunResult::from_wire("{\"originId\":\"\\u0041\\u00e9\\n\",\"statusCode\":1}")
        .unwrap();
    assert_eq!(r.origin_id(), Some(&"A\u{e9}\n".to_string()));
}

#[test]
fn whitespace_and_unknown_members_are_tolerated() {
    let text = " { \"unknown\" : [1, {\"x\": \"}\"}] ,\n \"statusCode\" : 9 } ";
    let r = BuildTargetRunResult::from_wire(text).unwrap();
    assert_eq!(r.status_code(), 9);
    assert!(r.origin_id().is_none());

    let text = "{\"data\": {\"a\": [1,2]}, \"target\": \"//t\"}";
    let run = BuildTargetRun::from_wire(text).unwrap();
    assert_eq!(run.target().uri(), "//t");
    assert_eq!(run.data().map(|d| d.text().as_str()), Some("{\"a\": [1,2]}"));
}

#[test]
fn missing_status_code_is_refused() {
    assert_eq!(
        BuildTargetRunResult::from_wire("{}"),
        Err(MalformedMessage::MissingRequiredField(WireField::StatusCode))
    );
    assert_eq!(
        BuildTargetRunResult::from_wire("{\"originId\":\"x\"}"),
        Err(MalformedMessage::MissingRequiredField(WireField::StatusCode))
    );
}

#[test]
fn negative_or_malformed_status_code_is_refused() {
    assert_eq!(
        BuildTargetRunResult::from_wire("{\"statusCode\":-1}"),
        Err(MalformedMessage::InvalidFieldValue(WireField::StatusCode))
    );
    assert_eq!(
        BuildTargetRunResult::from_wire("{\"statusCode\":\"0\"}"),
        Err(MalformedMessage::InvalidFieldValue(WireField::StatusCode))
    );
    // more digits than any machine word can hold
    assert_eq!(
        BuildTargetRunResult::from_wire("{\"statusCode\":999999999999999999999}"),
        Err(MalformedMessage::InvalidFieldValue(WireField::StatusCode))
    );
}

#[test]
fn missing_target_is_refused() {
    assert_eq!(
        BuildTargetRun::from_wire("{}"),
        Err(MalformedMessage::MissingRequiredField(WireField::Target))
    );
    assert_eq!(
        BuildTargetRun::from_wire("{\"originId\":\"x\"}"),
        Err(MalformedMessage::MissingRequiredField(WireField::Target))
    );
}

#[test]
fn syntax_errors_are_refused() {
    assert!(BuildTargetRunResult::from_wire("").is_err());
    assert!(BuildTargetRunResult::from_wire("42").is_err());
    assert!(BuildTargetRunResult::from_wire("{\"statusCode\":1").is_err());
    assert!(BuildTargetRunResult::from_wire("{\"statusCode\":1}x").is_err());
    assert!(BuildTargetRunResult::from_wire("{statusCode:1}").is_err());
    assert!(BuildTargetRun::from_wire("{\"target\":42}").is_err());
}

#[test]
fn duplicate_members_are_refused() {
    assert_eq!(
        BuildTargetRunResult::from_wire("{\"statusCode\":1,\"statusCode\":2}"),
        Err(MalformedMessage::DuplicateField(WireField::StatusCode))
    );
    assert_eq!(
        BuildTargetRun::from_wire("{\"target\":\"//a\",\"target\":\"//b\"}"),
        Err(MalformedMessage::DuplicateField(WireField::Target))
    );
}

#[test]
fn member_order_does_not_matter() {
    let r =
        BuildTargetRunResult::from_wire("{\"statusCode\":2,\"originId\":\"late\"}").unwrap();
    assert_eq!(r.origin_id(), Some(&"late".to_string()));
    assert_eq!(r.status_code(), 2);
}

#[test]
fn written_records_are_valid_json_for_other_readers() {
    let data = ExtensionData::new("{\"k\":[1,2,{\"n\":null}]}".to_string()).unwrap();
    let run = BuildTargetRun::new(
        ident("//pkg:bin"),
        Some("id \"quoted\"".to_string()),
        Some("a\tb".to_string()),
        Some("kind".to_string()),
        Some(data),
    );
    let value: serde_json::Value = serde_json::from_str(&run.to_wire()).unwrap();

    let mut expect = serde_json::Map::new();
    expect.insert(
        "target".to_string(),
        serde_json::Value::String("//pkg:bin".to_string()),
    );
    expect.insert(
        "originId".to_string(),
        serde_json::Value::String("id \"quoted\"".to_string()),
    );
    expect.insert(
        "arguments".to_string(),
        serde_json::Value::String("a\tb".to_string()),
    );
    expect.insert(
        "dataKind".to_string(),
        serde_json::Value::String("kind".to_string()),
    );
    let mut inner = serde_json::Map::new();
    inner.insert(
        "k".to_string(),
        serde_json::Value::Array(vec![
            serde_json::Value::from(1u64),
            serde_json::Value::from(2u64),
            {
                let mut m = serde_json::Map::new();
                m.insert("n".to_string(), serde_json::Value::Null);
                serde_json::Value::Object(m)
            },
        ]),
    );
    expect.insert("data".to_string(), serde_json::Value::Object(inner));
    assert_eq!(value, serde_json::Value::Object(expect));
}

#[test]
fn serde_written_records_read_back() {
    let mut m = serde_json::Map::new();
    m.insert(
        "originId".to_string(),
        serde_json::Value::String("r".to_string()),
    );
    m.insert("statusCode".to_string(), serde_json::Value::from(130u64));
    let text = serde_json::to_string(&serde_json::Value::Object(m)).unwrap();
    let r = BuildTargetRunResult::from_wire(&text).unwrap();
    assert_eq!(r.origin_id(), Some(&"r".to_string()));
    assert_eq!(r.status_code(), 130);
}

#[test]
fn run_members_parse_in_any_order_with_all_arms() {
    let text = "{\"dataKind\":\"k\",\"data\":[1,\"}]\",true],\"arguments\":\"-x\",\"originId\":\"o\",\"target\":\"//t\"}";
    let run = BuildTargetRun::from_wire(text).unwrap();
    assert_eq!(run.target().uri(), "//t");
    assert_eq!(run.origin_id(), Some(&"o".to_string()));
    assert_eq!(run.arguments(), Some(&"-x".to_string()));
    assert_eq!(run.data_kind(), Some(&"k".to_string()));
    assert_eq!(run.data().map(|d| d.text().as_str()), Some("[1,\"}]\",true]"));
}

#[test]
fn duplicate_optional_members_are_refused() {
    assert_eq!(
        BuildTargetRun::from_wire("{\"target\":\"//t\",\"originId\":\"a\",\"originId\":\"b\"}"),
        Err(MalformedMessage::DuplicateField(WireField::OriginId))
    );
    assert_eq!(
        BuildTargetRun::from_wire("{\"target\":\"//t\",\"data\":1,\"data\":2}"),
        Err(MalformedMessage::DuplicateField(WireField::Data))
    );
}

#[test]
fn surrogate_escapes_and_open_strings_are_refused() {
    assert!(BuildTargetRunResult::from_wire("{\"originId\":\"\\ud800\",\"statusCode\":0}").is_err());
    assert!(BuildTargetRunResult::from_wire("{\"originId\":\"oops,\"statusCode\":0}").is_err());
    assert!(BuildTargetRun::from_wire("{\"target\":\"//t\",\"data\":}").is_err());
}
