use std::str::FromStr;

use lethe::extra::ExtraTable;
use lethe::identifier::Identifier;
use lethe::meta_format::{parse_metadata, render_metadata};
use lethe::note::{is_reserved_key, Metadata, MetadataError, Note};
use lethe::edit::{set_pair_from_read, ReplaceExtra};
use lethe::repository::{validate_extra_key, AliasesEdit, BodyEdit, EditSpec, ExtraEdit, RepositoryError};
use lethe::timestamp::Timestamp;
use lethe::toml_value::{TomlShape, TomlValue};

fn value(raw: &str) -> TomlValue {
    let edit = ExtraEdit::from_raw(vec![format!("v={}", raw)], Vec::new(), false).unwrap();
    edit.set[0].1.clone()
}

fn validation_message<T>(r: Result<T, RepositoryError>) -> String {
    match r {
        Err(RepositoryError::Validation(m)) => m,
        _ => panic!("expected a validation error"),
    }
}

fn sample_note(extra: ExtraTable) -> Note {
    let id = Identifier::from_str("00000000-0000-0000-0000-0000000000aa").unwrap();
    let meta = Metadata::new(
        id,
        Timestamp::new(10, 0),
        Timestamp::new(10, 0),
        vec!["x".to_string()],
        extra,
    );
    Note::from_parts(meta, "body".to_string(), false, false)
}

#[test]
fn identifier_text_round_trips() {
    let id = Identifier { hi: 0x0123_4567_89ab_cdef, lo: 0xfedc_ba98_7654_3210 };
    let text = id.to_string();
    assert_eq!(text, "01234567-89ab-cdef-fedc-ba9876543210");
    assert_eq!(Identifier::parse(&text), Some(id));
}

#[test]
fn identifier_parse_accepts_upper_case_and_rejects_malformed() {
    let id = Identifier::parse("01234567-89AB-CDEF-FEDC-BA9876543210").unwrap();
    assert_eq!(id, Identifier { hi: 0x0123_4567_89ab_cdef, lo: 0xfedc_ba98_7654_3210 });
    assert_eq!(Identifier::parse("01234567-89ab-cdef-fedc-ba987654321"), None);
    assert_eq!(Identifier::parse("01234567+89ab-cdef-fedc-ba9876543210"), None);
    assert_eq!(Identifier::parse("0123456g-89ab-cdef-fedc-ba9876543210"), None);
    assert!(Identifier::from_str("").is_err());
}

#[test]
fn fresh_identifiers_differ_and_read_back() {
    let a = Identifier::new();
    let b = Identifier::new();
    assert_ne!(a, b);
    assert_eq!(Identifier::parse(&a.to_string()), Some(a));
}

#[test]
fn fresh_identifiers_are_version_four_uuids() {
    for _ in 0..16 {
        let id = Identifier::new();
        assert_eq!((id.hi >> 12) & 0xf, 4);
        assert_eq!(id.lo >> 62, 2);
        assert_eq!(id.to_string().as_bytes()[14], b'4');
    }
}

#[test]
fn identifier_from_str_matches_parse() {
    let text = "0123abcd-0000-4000-8000-00000000beef";
    assert_eq!(Identifier::from_str(text), Ok(Identifier { hi: 0x0123_abcd_0000_4000, lo: 0x8000_0000_0000_beef }));
    assert!(Identifier::from_str("0123abcd-0000-4000-8000-00000000beeg").is_err());
    assert!(Identifier::from_str("0123abcd00000-4000-8000-00000000beef").is_err());
}

#[test]
fn system_time_is_after_the_epoch() {
    let t = Timestamp::now();
    assert!(t.secs > 1_600_000_000);
    assert!(t.nanos < 1_000_000_000);
}

#[test]
fn reserved_keys() {
    for key in ["id", "ctime", "mtime", "aliases"] {
        assert!(is_reserved_key(key));
    }
    for key in ["", "ids", "Id", " id", "alias", "mtime2"] {
        assert!(!is_reserved_key(key));
    }
}

#[test]
fn extra_key_validation() {
    assert!(validate_extra_key("topic").is_ok());
    assert!(validate_extra_key("  topic ").is_ok());
    assert_eq!(validation_message(validate_extra_key("   ")), "Metadata key cannot be empty");
    assert_eq!(
        validation_message(validate_extra_key(" ctime ")),
        "Metadata key `ctime` is reserved and cannot be set via extra"
    );
    assert_eq!(
        validation_message(validate_extra_key("a.b")),
        "Metadata key `a.b` is not supported: nested keys are not yet supported"
    );
}

#[test]
fn set_pairs_parse_values() {
    let edit = ExtraEdit::from_raw(
        vec![" n = 42 ".to_string(), "s=\"hi\"".to_string(), "l=[\"a\", 1]".to_string()],
        vec![" gone ".to_string()],
        false,
    )
    .unwrap();
    assert_eq!(edit.set.len(), 3);
    assert_eq!(edit.set[0].0, "n");
    assert_eq!(edit.set[0].1.text(), "42");
    assert_eq!(edit.set[1].1.text(), "\"hi\"");
    assert!(matches!(edit.set[1].1.shape(), TomlShape::Str(s) if s == "hi"));
    match edit.set[2].1.shape() {
        TomlShape::Array(items) => {
            assert_eq!(items, &vec![Some("a".to_string()), None]);
        }
        _ => panic!("expected an array"),
    }
    assert_eq!(edit.unset, vec!["gone".to_string()]);
}

#[test]
fn set_pair_errors() {
    let raw = |item: &str| ExtraEdit::from_raw(vec![item.to_string()], Vec::new(), false);
    assert_eq!(
        validation_message(raw("novalue")),
        "Invalid --set value `novalue`; expected KEY=VALUE"
    );
    assert_eq!(validation_message(raw(" =1")), "Invalid --set value ` =1`; key is empty");
    assert_eq!(validation_message(raw("k= ")), "Invalid --set value `k= `; value is empty");
    assert!(validation_message(raw("k=not toml")).starts_with("Invalid TOML value in --set `k=not toml`: "));
    assert!(validation_message(raw("k=not toml")).ends_with(". Try quoting strings."));
    assert_eq!(
        validation_message(raw("a.b=1")),
        "Invalid --set value `a.b=1`; only simple top-level keys are supported"
    );
    assert_eq!(
        validation_message(ExtraEdit::from_raw(Vec::new(), vec!["x".to_string()], true)),
        "--clear-extra cannot be combined with --set or --unset"
    );
    assert_eq!(
        validation_message(ExtraEdit::from_raw(Vec::new(), vec!["".to_string()], false)),
        "Metadata key cannot be empty"
    );
    assert!(ExtraEdit::from_raw(Vec::new(), Vec::new(), true).unwrap().clear);
}

#[test]
fn extra_table_keeps_keys_in_order() {
    let mut t = ExtraTable::new();
    t.insert("b".to_string(), value("1"));
    t.insert("a".to_string(), value("2"));
    t.insert("c".to_string(), value("3"));
    t.insert("b".to_string(), value("4"));
    assert_eq!(t.len(), 3);
    assert_eq!(t.key_at(0), "a");
    assert_eq!(t.key_at(1), "b");
    assert_eq!(t.key_at(2), "c");
    assert_eq!(t.get("b").unwrap().text(), "4");
    assert!(t.get("d").is_none());
    assert!(t.remove("a"));
    assert!(!t.remove("a"));
    assert!(t.get("a").is_none());
    assert_eq!(t.len(), 2);
    t.clear();
    assert!(t.is_empty());
}

fn set_extra(pairs: &[(&str, &str)], unset: &[&str], clear: bool) -> EditSpec {
    let extra = ExtraEdit {
        set: pairs.iter().map(|(k, v)| (k.to_string(), value(v))).collect(),
        unset: unset.iter().map(|k| k.to_string()).collect(),
        clear,
    };
    EditSpec::new(BodyEdit::Keep, AliasesEdit::Keep, extra)
}

fn set_body(body: &str) -> EditSpec {
    EditSpec::new(BodyEdit::Replace(body.to_string()), AliasesEdit::Keep, ExtraEdit::empty())
}

fn set_aliases(aliases: &[&str]) -> EditSpec {
    EditSpec::new(
        BodyEdit::Keep,
        AliasesEdit::Replace(aliases.iter().map(|a| a.to_string()).collect()),
        ExtraEdit::empty(),
    )
}

#[test]
fn values_compare_as_toml_compares_them() {
    let mut note = sample_note(ExtraTable::new());
    assert!(note.update(&set_extra(&[("f", "nan")], &[], false)).unwrap());
    assert!(note.update(&set_extra(&[("f", "nan")], &[], false)).unwrap());
    assert!(note.update(&set_extra(&[("z", "0.0")], &[], false)).unwrap());
    assert!(!note.update(&set_extra(&[("z", "-0.0")], &[], false)).unwrap());
    assert!(!value("[1.0, 2]").same_as(&value("[1.0, 3]")));
    assert!(value("{ a = -0.0 }").same_as(&value("{ a = 0.0 }")));
    assert!(!value("[nan]").same_as(&value("[nan]")));

    let mut with_nan = ExtraTable::new();
    with_nan.insert("f".to_string(), value("nan"));
    let mut nan_note = sample_note(with_nan.clone());
    assert!(nan_note.update(&ReplaceExtra::new(with_nan)).unwrap());

    let mut zero = ExtraTable::new();
    zero.insert("z".to_string(), value("0.0"));
    let mut negative_zero = ExtraTable::new();
    negative_zero.insert("z".to_string(), value("-0.0"));
    assert!(zero.same_as(&negative_zero));
    let mut zero_note = sample_note(zero);
    assert!(!zero_note.update(&ReplaceExtra::new(negative_zero)).unwrap());
    assert_eq!(zero_note.meta().extra().get("z").unwrap().text(), "0.0");
}

#[test]
fn updates_report_changes() {
    let mut note = sample_note(ExtraTable::new());
    assert!(!note.update(&set_body("body")).unwrap());
    assert!(!note.is_dirty_body() && !note.is_dirty_meta());
    assert_eq!(note.meta().mtime(), &Timestamp::new(10, 0));
    assert!(note.update(&set_body("other")).unwrap());
    assert!(note.is_dirty_body() && note.is_dirty_meta());
    assert!(!note.update(&set_aliases(&["x"])).unwrap());
    assert!(note.update(&set_aliases(&["y"])).unwrap());
    assert!(note.update(&set_extra(&[("k", "1")], &[], false)).unwrap());
    assert!(!note.update(&set_extra(&[("k", "1")], &[], false)).unwrap());
    assert!(note.update(&set_extra(&[("k", "2")], &[], false)).unwrap());
    assert!(matches!(
        note.update(&set_extra(&[("aliases", "1")], &[], false)),
        Err(MetadataError::ReservedKey { key }) if key == "aliases"
    ));
    assert!(note.update(&set_extra(&[], &["k"], false)).unwrap());
    assert!(!note.update(&set_extra(&[], &["k"], false)).unwrap());
    assert!(matches!(note.update(&set_extra(&[], &["id"], false)), Err(MetadataError::ReservedKey { .. })));
    assert!(!note.update(&set_extra(&[], &[], true)).unwrap());
    assert_eq!(note.body(), "other");
    assert_eq!(note.meta().aliases(), &vec!["y".to_string()]);
}

#[test]
fn refused_update_keeps_marks_and_time() {
    let mut note = sample_note(ExtraTable::new());
    let spec = EditSpec::new(
        BodyEdit::Replace("changed".to_string()),
        AliasesEdit::Keep,
        ExtraEdit { set: vec![("id".to_string(), value("1"))], unset: Vec::new(), clear: false },
    );
    let id = *note.meta().id();
    assert!(note.update(&spec).is_err());
    assert_eq!(note.body(), "changed");
    assert!(!note.is_dirty_body() && !note.is_dirty_meta());
    assert_eq!(note.meta().mtime(), &Timestamp::new(10, 0));
    assert_eq!(note.meta().id(), &id);
    assert_eq!(note.meta().ctime(), &Timestamp::new(10, 0));
}

#[test]
fn replacing_extra_refuses_first_reserved_key() {
    let mut note = sample_note(ExtraTable::new());
    let mut table = ExtraTable::new();
    table.insert("mtime".to_string(), value("1"));
    table.insert("ctime".to_string(), value("1"));
    table.insert("ok".to_string(), value("1"));
    match note.update(&ReplaceExtra::new(table)) {
        Err(MetadataError::ReservedKey { key }) => assert_eq!(key, "ctime"),
        _ => panic!("expected a reserved key"),
    }
    assert!(!note.is_dirty_meta());
    let mut table = ExtraTable::new();
    table.insert("ok".to_string(), value("1"));
    assert!(note.update(&ReplaceExtra::new(table.clone())).unwrap());
    assert!(!note.update(&ReplaceExtra::new(table)).unwrap());
    assert!(note.update(&set_extra(&[], &[], true)).unwrap());
}

#[test]
fn note_set_body_touches() {
    let mut note = sample_note(ExtraTable::new());
    note.set_body("body".to_string());
    assert!(!note.is_dirty_body() && !note.is_dirty_meta());
    note.set_body("new".to_string());
    assert!(note.is_dirty_body() && note.is_dirty_meta());
    assert_eq!(note.body(), "new");
}

#[test]
fn metadata_round_trips_with_extra() {
    let edit = ExtraEdit::from_raw(
        vec![
            "zeta = 1979-05-27T07:32:00Z".to_string(),
            "\"odd key\" = 1".to_string(),
            "b = { c = [1, 2], d = \"e\" }".to_string(),
            "s = 'lit\\eral'".to_string(),
        ],
        Vec::new(),
        false,
    );
    // A quoted key is not a simple top-level key.
    assert!(edit.is_err());
    let edit = ExtraEdit::from_raw(
        vec![
            "zeta = 1979-05-27T07:32:00Z".to_string(),
            "b = { c = [1, 2], d = \"e\" }".to_string(),
            "s = 'lit\\eral'".to_string(),
            "f = -0.25".to_string(),
        ],
        Vec::new(),
        false,
    )
    .unwrap();
    let mut extra = ExtraTable::new();
    for (k, v) in edit.set.iter() {
        extra.insert(k.clone(), v.clone());
    }
    extra.insert("odd key".to_string(), value("\"x\\ny\""));
    let id = Identifier::new();
    let ctime = Timestamp::new(1_700_000_000, 123_000_000);
    let mtime = Timestamp::new(1_700_000_100, 0);
    let aliases = vec![
        "α".to_string(),
        "tab\there".to_string(),
        "".to_string(),
        "a\"b".to_string(),
        "line\nbreak".to_string(),
        "both ' and \"".to_string(),
    ];
    let meta = Metadata::new(id, ctime, mtime, aliases.clone(), extra.clone());
    let text = render_metadata(&meta).unwrap();
    let parsed = parse_metadata(&text).unwrap();
    assert_eq!(parsed.id(), &id);
    assert_eq!(parsed.ctime(), &ctime);
    assert_eq!(parsed.mtime(), &mtime);
    assert_eq!(parsed.aliases(), &aliases);
    assert!(parsed.extra().same_as(&extra));
}

#[test]
fn metadata_text_layout() {
    let id = Identifier::from_str("00000000-0000-0000-0000-000000000001").unwrap();
    let mut extra = ExtraTable::new();
    extra.insert("n".to_string(), value("7"));
    extra.insert("t".to_string(), value("{ x = 1 }"));
    let meta = Metadata::new(id, Timestamp::new(0, 0), Timestamp::new(60, 0), vec!["a\"b".to_string()], extra);
    assert_eq!(
        render_metadata(&meta).unwrap(),
        "id = \"00000000-0000-0000-0000-000000000001\"\nctime = \"1970-01-01T00:00:00Z\"\nmtime = \"1970-01-01T00:01:00Z\"\naliases = ['a\"b']\nn = 7\n\n[t]\nx = 1\n"
    );
}

#[test]
fn metadata_parse_errors() {
    assert!(parse_metadata("not valid toml").is_err());
    assert_eq!(parse_metadata("ctime = \"x\"").err().unwrap(), "missing field `id`");
    assert_eq!(parse_metadata("id = 1").err().unwrap(), "field `id` is not a string");
    assert_eq!(
        parse_metadata("id = \"nope\"").err().unwrap(),
        "field `id` is not a valid identifier"
    );
    let id = "id = \"00000000-0000-0000-0000-000000000001\"\n";
    assert_eq!(
        parse_metadata(&format!("{id}ctime = \"yesterday\"")).err().unwrap(),
        "field `ctime` is not an RFC 3339 date-time"
    );
    let times = "ctime = \"1970-01-01T00:00:00Z\"\nmtime = \"1970-01-01T01:00:00+01:00\"\n";
    assert_eq!(
        parse_metadata(&format!("{id}{times}")).err().unwrap(),
        "missing field `aliases`"
    );
    assert_eq!(
        parse_metadata(&format!("{id}{times}aliases = [1]")).err().unwrap(),
        "field `aliases` is not an array of strings"
    );
    let meta = parse_metadata(&format!("{id}{times}aliases = []\nextra = 1")).unwrap();
    assert_eq!(meta.mtime(), &Timestamp::new(0, 0));
    assert_eq!(meta.extra().key_at(0), "extra");
}

#[test]
fn timestamps_as_rfc3339() {
    assert_eq!(Timestamp::new(0, 0).to_rfc3339().unwrap(), "1970-01-01T00:00:00Z");
    assert_eq!(Timestamp::new(1, 500_000_000).to_rfc3339().unwrap(), "1970-01-01T00:00:01.500Z");
    assert_eq!(Timestamp::parse_rfc3339("1970-01-01T00:00:01.5Z"), Some(Timestamp::new(1, 500_000_000)));
    assert_eq!(Timestamp::parse_rfc3339("never"), None);
    assert!(Timestamp::new(i64::MAX, 0).to_rfc3339().is_none());
}

#[test]
fn unrepresentable_time_cannot_be_written() {
    let id = Identifier::from_str("00000000-0000-0000-0000-000000000001").unwrap();
    let meta = Metadata::new(id, Timestamp::new(i64::MAX, 0), Timestamp::new(0, 0), Vec::new(), ExtraTable::new());
    assert_eq!(
        render_metadata(&meta).err().unwrap(),
        "ctime cannot be written as an RFC 3339 date-time"
    );
}

#[test]
fn set_pair_from_a_toml_read() {
    assert_eq!(
        validation_message(set_pair_from_read("k=1", "k".to_string(), Err("boom".to_string()))),
        "Invalid TOML value in --set `k=1`: boom. Try quoting strings."
    );
    assert_eq!(
        validation_message(set_pair_from_read("k=1", "k".to_string(), Ok(Vec::new()))),
        "Invalid --set value `k=1`; only simple top-level keys are supported"
    );
    let pair = ExtraEdit::from_raw(vec!["k = 5".to_string()], Vec::new(), false).unwrap().set;
    let (key, v) = set_pair_from_read("k = 5", "k".to_string(), Ok(pair)).unwrap();
    assert_eq!(key, "k");
    assert_eq!(v.text(), "5");
}
