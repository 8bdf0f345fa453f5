use bsp_types::extension::ExtensionData;
use bsp_types::ident::BuildTargetIdentifier;
use bsp_types::run::BuildTargetRun;
use bsp_types::run_result::BuildTargetRunResult;

fn ident(uri: &str) -> BuildTargetIdentifier {
    BuildTargetIdentifier::new(uri.to_string())
}

#[test]
fn simple_constructor_is_minimal() {
    let a = BuildTargetRun::new_simple(ident("//pkg:bin"));
    let b = BuildTargetRun::new(ident("//pkg:bin"), None, None, None, None);
    assert_eq!(a, b);
}

#[test]
fn constructors_accept_all_combinations() {
    let data = ExtensionData::new("{\"mainClass\":\"app.Main\"}".to_string()).unwrap();
    let full = BuildTargetRun::new(
        ident("//pkg:bin"),
        Some("req-7".to_string()),
        Some("--fast".to_string()),
        Some("scala-main-class".to_string()),
        Some(data),
    );
    assert_eq!(full.target().uri(), "//pkg:bin");
    assert_eq!(full.origin_id(), Some(&"req-7".to_string()));
    assert_eq!(full.arguments(), Some(&"--fast".to_string()));
    assert_eq!(full.data_kind(), Some(&"scala-main-class".to_string()));
    assert_eq!(
        full.data().map(|d| d.text().as_str()),
        Some("{\"mainClass\":\"app.Main\"}")
    );

    let empty = BuildTargetRun::new_simple(ident("//pkg:bin"));
    assert!(empty.origin_id().is_none());
    assert!(empty.arguments().is_none());
    assert!(empty.data_kind().is_none());
    assert!(empty.data().is_none());
}

#[test]
fn mutators_replace_only_their_field() {
    let mut r = BuildTargetRun::new(
        ident("//a:b"),
        Some("o".to_string()),
        Some("args".to_string()),
        Some("kind".to_string()),
        None,
    );
    r.set_origin_id(Some("o2".to_string()));
    assert_eq!(r.origin_id(), Some(&"o2".to_string()));
    assert_eq!(r.target().uri(), "//a:b");
    assert_eq!(r.arguments(), Some(&"args".to_string()));
    assert_eq!(r.data_kind(), Some(&"kind".to_string()));
    assert!(r.data().is_none());

    r.set_target(ident("//c:d"));
    assert_eq!(r.target().uri(), "//c:d");
    assert_eq!(r.origin_id(), Some(&"o2".to_string()));

    r.set_arguments(None);
    assert!(r.arguments().is_none());
    assert_eq!(r.data_kind(), Some(&"kind".to_string()));

    r.set_data_kind(None);
    assert!(r.data_kind().is_none());

    let d = ExtensionData::new("42".to_string()).unwrap();
    r.set_data(Some(d));
    assert_eq!(r.data().map(|d| d.text().as_str()), Some("42"));
    assert_eq!(r.target().uri(), "//c:d");
}

#[test]
fn result_accessors_and_mutators() {
    let mut r = BuildTargetRunResult::new(Some("req-1".to_string()), 3);
    assert_eq!(r.origin_id(), Some(&"req-1".to_string()));
    assert_eq!(r.status_code(), 3);
    r.set_status_code(0);
    assert_eq!(r.status_code(), 0);
    assert_eq!(r.origin_id(), Some(&"req-1".to_string()));
    r.set_origin_id(None);
    assert!(r.origin_id().is_none());
    assert_eq!(r.status_code(), 0);
}

#[test]
fn equality_is_structural() {
    let a = BuildTargetRun::new(ident("//x"), Some("o".to_string()), None, None, None);
    let b = BuildTargetRun::new(ident("//x"), Some("o".to_string()), None, None, None);
    assert_eq!(a, b);
    let c = BuildTargetRun::new(ident("//x"), None, None, None, None);
    assert_ne!(a, c);
    let d = BuildTargetRun::new(ident("//y"), Some("o".to_string()), None, None, None);
    assert_ne!(a, d);
    let e = BuildTargetRun::new(
        ident("//x"),
        Some("o".to_string()),
        Some("".to_string()),
        None,
        None,
    );
    assert_ne!(a, e);

    let r1 = BuildTargetRunResult::new(None, 1);
    let r2 = BuildTargetRunResult::new(None, 1);
    assert_eq!(r1, r2);
    assert_ne!(r1, BuildTargetRunResult::new(None, 2));
    assert_ne!(r1, BuildTargetRunResult::new(Some("x".to_string()), 1));

    let da = ExtensionData::new("[1,2]".to_string()).unwrap();
    let db = ExtensionData::new("[1,2]".to_string()).unwrap();
    assert_eq!(da, db);
    let dc = ExtensionData::new("[1,3]".to_string()).unwrap();
    assert_ne!(da, dc);
}

#[test]
fn extension_data_accepts_single_value_tokens() {
    assert!(ExtensionData::new("{\"a\":1}".to_string()).is_ok());
    assert!(ExtensionData::new("[1,2,3]".to_string()).is_ok());
    assert!(ExtensionData::new("\"text\"".to_string()).is_ok());
    assert!(ExtensionData::new("42".to_string()).is_ok());
    assert!(ExtensionData::new("true".to_string()).is_ok());
    assert!(ExtensionData::new("null".to_string()).is_ok());
}

#[test]
fn extension_data_rejects_unframed_text() {
    assert!(ExtensionData::new("".to_string()).is_err());
    assert!(ExtensionData::new("1 2".to_string()).is_err());
    assert!(ExtensionData::new("{\"a\":1".to_string()).is_err());
    assert!(ExtensionData::new("\"open".to_string()).is_err());
    assert!(ExtensionData::new(",".to_string()).is_err());
    assert!(ExtensionData::new("{\"a\":1}tail".to_string()).is_err());
}
