use tpvfitplay::options::{DecodeDirective, DecodeOptions};
use tpvfitplay::output::{aggregate, gathers_inputs, resolve_output, OutputTarget};
use tpvfitplay::record::{FitDataMap, GenericRecord};

fn rec(fields: &[(&str, i32)]) -> GenericRecord<i32> {
    GenericRecord {
        kind: "record".to_string(),
        fields: fields.iter().map(|(n, v)| (n.to_string(), *v)).collect(),
    }
}

#[test]
fn dump_keeps_every_field_sorted() {
    let m = FitDataMap::new(rec(&[("timestamp", 1), ("power", 2), ("cadence", 3), ("heart_rate", 4)]));
    assert_eq!(m.kind, "record");
    let names: Vec<&str> = m.fields.iter().map(|f| f.0.as_str()).collect();
    assert_eq!(names, vec!["cadence", "heart_rate", "power", "timestamp"]);
    let values: Vec<i32> = m.fields.iter().map(|f| f.1).collect();
    assert_eq!(values, vec![3, 4, 2, 1]);
}

#[test]
fn dump_repeated_name_keeps_last() {
    let m = FitDataMap::new(rec(&[("b", 1), ("a", 2), ("b", 3)]));
    assert_eq!(m.fields, vec![("a".to_string(), 2), ("b".to_string(), 3)]);
}

#[test]
fn dump_orders_by_bytes() {
    let m = FitDataMap::new(rec(&[("é", 1), ("Z", 2), ("a", 3), ("ab", 4), ("", 5)]));
    let names: Vec<&str> = m.fields.iter().map(|f| f.0.as_str()).collect();
    assert_eq!(names, vec!["", "Z", "a", "ab", "é"]);
}

#[test]
fn dump_of_empty_record() {
    let m = FitDataMap::new(rec(&[]));
    assert!(m.fields.is_empty());
}

#[test]
fn resolver_picks_target() {
    assert!(matches!(resolve_output(None, false), OutputTarget::Inplace));
    match resolve_output(Some("out".to_string()), true) {
        OutputTarget::LocalDirectory(d) => assert_eq!(d, "out"),
        _ => panic!("expected a directory"),
    }
    assert!(matches!(resolve_output(Some("-".to_string()), false), OutputTarget::Stdout));
    match resolve_output(Some("all.json".to_string()), false) {
        OutputTarget::LocalFile(f) => assert_eq!(f, "all.json"),
        _ => panic!("expected a file"),
    }
    match resolve_output(Some("--".to_string()), false) {
        OutputTarget::LocalFile(f) => assert_eq!(f, "--"),
        _ => panic!("expected a file"),
    }
}

#[test]
fn file_target_gathers_several_inputs() {
    let t = resolve_output(Some("all.json".to_string()), false);
    assert!(!gathers_inputs(&t, 1));
    assert!(gathers_inputs(&t, 2));
    assert!(!gathers_inputs(&OutputTarget::Stdout, 3));
}

#[test]
fn aggregate_keeps_input_order() {
    let all = aggregate(vec![vec![1, 2], vec![], vec![3], vec![4, 5, 6]]);
    assert_eq!(all, vec![1, 2, 3, 4, 5, 6]);
    assert_eq!(all.len(), 2 + 0 + 1 + 3);
}

#[test]
fn directives_follow_toggles() {
    let none = DecodeOptions {
        drop_unknown: false,
        numeric_enums: false,
        keep_generic_names: false,
        keep_composite_fields: false,
        no_crc_check: false,
    };
    assert!(none.directives().is_empty());
    let some = DecodeOptions { drop_unknown: true, no_crc_check: true, ..none };
    assert_eq!(
        some.directives(),
        vec![
            DecodeDirective::DropUnknownFields,
            DecodeDirective::DropUnknownMessages,
            DecodeDirective::SkipHeaderCrcValidation,
            DecodeDirective::SkipDataCrcValidation,
        ]
    );
    let enums = DecodeOptions { numeric_enums: true, keep_generic_names: true, keep_composite_fields: true, ..none };
    assert_eq!(
        enums.directives(),
        vec![
            DecodeDirective::UseGenericSubFieldName,
            DecodeDirective::KeepCompositeFields,
            DecodeDirective::ReturnNumericEnumValues,
        ]
    );
}
