use partial_default::builder::Builder;
use partial_default::extract::{
    extract_schema, rule_from_split, AttrMeta, Declaration, RawAttr, RawField, SchemaError,
};
use partial_default::rules::generate_rules;
use partial_default::schema::{DefaultRule, EntitySchema, FieldSpec, Requirement, IMPLICIT_DEFAULT};
use partial_default::shorthand::{construct, ConstructError};
use partial_default::validator::check_required;

fn s(x: &str) -> String {
    x.to_string()
}

fn field(name: &str, requirement: Requirement) -> FieldSpec {
    FieldSpec { name: s(name), ty: s("i32"), requirement }
}

fn names(v: &[&str]) -> Vec<String> {
    v.iter().map(|x| s(x)).collect()
}

fn pairs(v: &[(&str, &str)]) -> Vec<(String, String)> {
    v.iter().map(|(a, b)| (s(a), s(b))).collect()
}

/// `{a: Required, b: Optional default 42, c: Optional default = 0}`
fn abc() -> EntitySchema {
    EntitySchema {
        name: s("Something"),
        fields: vec![
            field("a", Requirement::Required),
            field("b", Requirement::Optional(DefaultRule::Explicit(s("42")))),
            field("c", Requirement::Optional(DefaultRule::Explicit(s("0")))),
        ],
    }
}

fn all_required() -> EntitySchema {
    EntitySchema {
        name: s("Point"),
        fields: vec![
            field("x", Requirement::Required),
            field("y", Requirement::Required),
            field("z", Requirement::Required),
        ],
    }
}

fn missing_of(r: Result<partial_default::schema::Entity, ConstructError>) -> Vec<String> {
    match r {
        Err(ConstructError::Missing(m)) => m.names,
        Err(ConstructError::Unknown(u)) => panic!("unexpected unknown fields {:?}", u),
        Ok(e) => panic!("unexpected success {:?}", e.values),
    }
}

#[test]
fn shorthand_fills_defaults() {
    let e = construct(&abc(), &pairs(&[("b", "1"), ("a", "2")])).ok().unwrap();
    assert_eq!(e.values, names(&["2", "1", "0"]));
}

#[test]
fn shorthand_reports_missing_required() {
    let r = construct(&abc(), &pairs(&[("c", "5")]));
    assert_eq!(missing_of(r), names(&["a"]));
}

#[test]
fn shorthand_only_required_given() {
    let e = construct(&abc(), &pairs(&[("a", "7")])).ok().unwrap();
    assert_eq!(e.values, names(&["7", "42", "0"]));
}

#[test]
fn shorthand_rejects_unknown_field() {
    match construct(&abc(), &pairs(&[("a", "1"), ("d", "2"), ("e", "3")])) {
        Err(ConstructError::Unknown(u)) => assert_eq!(u, names(&["d", "e"])),
        _ => panic!("expected unknown fields"),
    }
}

#[test]
fn shorthand_last_value_wins() {
    let e = construct(&abc(), &pairs(&[("a", "1"), ("a", "9")])).ok().unwrap();
    assert_eq!(e.values, names(&["9", "42", "0"]));
}

#[test]
fn all_required_omitting_one_names_it() {
    let sc = all_required();
    assert_eq!(missing_of(construct(&sc, &pairs(&[("y", "1"), ("z", "2")]))), names(&["x"]));
    assert_eq!(missing_of(construct(&sc, &pairs(&[("z", "1"), ("x", "2")]))), names(&["y"]));
    assert_eq!(missing_of(construct(&sc, &pairs(&[("x", "1"), ("y", "2")]))), names(&["z"]));
}

#[test]
fn all_required_builder_needs_every_setter() {
    let sc = all_required();
    let b = Builder::new(&sc);
    assert!(!b.is_buildable(&sc));
    let b = b.set(2, s("3"));
    assert!(!b.is_buildable(&sc));
    let b = b.set(0, s("1"));
    assert!(!b.is_buildable(&sc));
    let b = b.set(1, s("2"));
    assert!(b.is_buildable(&sc));
    assert_eq!(b.build(&sc).values, names(&["1", "2", "3"]));
}

#[test]
fn full_chain_any_order() {
    let sc = abc();
    let b = Builder::new(&sc).set(2, s("c0")).set(0, s("a0")).set(1, s("b0"));
    assert_eq!(b.build(&sc).values, names(&["a0", "b0", "c0"]));
}

#[test]
fn unset_fields_take_defaults() {
    let sc = EntitySchema {
        name: s("Example"),
        fields: vec![
            field("foo", Requirement::Required),
            field("bar", Requirement::Optional(DefaultRule::Implicit)),
            field("baz", Requirement::Optional(DefaultRule::Explicit(s("10")))),
        ],
    };
    let b = Builder::new(&sc).set_field(&sc, &s("foo"), s("1")).ok().unwrap();
    assert!(b.is_set(0) && !b.is_set(1) && !b.is_set(2));
    assert_eq!(b.build(&sc).values, names(&["1", IMPLICIT_DEFAULT, "10"]));
}

#[test]
fn setter_overwrites() {
    let sc = abc();
    let b = Builder::new(&sc).set(0, s("1")).set(0, s("2"));
    assert!(b.is_set(0));
    assert_eq!(b.build(&sc).values, names(&["2", "42", "0"]));
}

#[test]
fn setter_by_unknown_name_fails() {
    let sc = abc();
    match Builder::new(&sc).set_field(&sc, &s("q"), s("1")) {
        Err(e) => assert_eq!(e.name, "q"),
        Ok(_) => panic!("expected failure"),
    }
}

#[test]
fn chain_from_pairs_matches_shorthand() {
    let sc = abc();
    let p = pairs(&[("c", "5"), ("a", "2")]);
    let b = Builder::from_pairs(&sc, &p).ok().unwrap();
    assert!(b.is_buildable(&sc));
    let via_chain = b.build(&sc).values;
    let direct = construct(&sc, &p).ok().unwrap().values;
    assert_eq!(via_chain, direct);
    assert_eq!(direct, names(&["2", "42", "5"]));
    let b = Builder::from_pairs(&sc, &pairs(&[("b", "1")])).ok().unwrap();
    assert!(!b.is_buildable(&sc));
    assert!(Builder::from_pairs(&sc, &pairs(&[("zz", "1")])).is_err());
}

#[test]
fn validator_reports_all_missing_in_order() {
    let m = check_required(&names(&["a", "b", "c"]), &names(&["b"])).err().unwrap();
    assert_eq!(m.names, names(&["a", "c"]));
    assert_eq!(m.message(), "Missing required fields: a, c");
}

#[test]
fn validator_ignores_supplied_order() {
    let req = names(&["a", "b", "c", "d"]);
    let m1 = check_required(&req, &names(&["c", "a", "x"])).err().unwrap();
    let m2 = check_required(&req, &names(&["x", "a", "c", "a"])).err().unwrap();
    assert_eq!(m1.names, names(&["b", "d"]));
    assert_eq!(m1.names, m2.names);
}

#[test]
fn validator_accepts_superset() {
    assert!(check_required(&names(&["a", "b"]), &names(&["b", "z", "a"])).is_ok());
    assert!(check_required(&names(&[]), &names(&[])).is_ok());
    let m = check_required(&names(&["a"]), &names(&[])).err().unwrap();
    assert_eq!(m.message(), "Missing required fields: a");
}

#[test]
fn rules_are_reproducible() {
    let r1 = generate_rules(&abc());
    let r2 = generate_rules(&abc());
    assert_eq!(r1.name, r2.name);
    assert_eq!(r1.fields, r2.fields);
    assert_eq!(r1.required, r2.required);
    assert_eq!(r1.mask, r2.mask);
    assert_eq!(r1.defaults, r2.defaults);
    assert_eq!(r1.fields, names(&["a", "b", "c"]));
    assert_eq!(r1.required, names(&["a"]));
    assert_eq!(r1.mask, vec![true, false, false]);
    assert_eq!(r1.defaults, vec![None, Some(s("42")), Some(s("0"))]);
}

fn raw(name: Option<&str>, attrs: Vec<RawAttr>) -> RawField {
    RawField { name: name.map(s), ty: s("i32"), attrs }
}

fn attr(path: &str, meta: AttrMeta) -> RawAttr {
    RawAttr { path: s(path), meta }
}

fn decl(fields: Vec<RawField>) -> Declaration {
    Declaration { name: s("Something"), is_struct: true, fields }
}

#[test]
fn extract_reads_markers() {
    let d = decl(vec![
        raw(Some("field1"), vec![attr("doc", AttrMeta::NameValue)]),
        raw(Some("field2"), vec![attr("optional", AttrMeta::List(s("default = 42")))]),
        raw(Some("field3"), vec![attr("optional", AttrMeta::Path)]),
    ]);
    let sc = extract_schema(&d).ok().unwrap();
    assert_eq!(sc.name, "Something");
    assert_eq!(sc.fields.len(), 3);
    assert!(matches!(sc.fields[0].requirement, Requirement::Required));
    match &sc.fields[1].requirement {
        Requirement::Optional(DefaultRule::Explicit(e)) => assert_eq!(e, "42"),
        _ => panic!("expected an explicit default"),
    }
    assert!(matches!(sc.fields[2].requirement, Requirement::Optional(DefaultRule::Implicit)));
    let e = construct(&sc, &pairs(&[("field1", "5")])).ok().unwrap();
    assert_eq!(e.values, names(&["5", "42", IMPLICIT_DEFAULT]));
}

#[test]
fn extract_keeps_expression_text() {
    let d = decl(vec![raw(Some("v"), vec![attr("optional", AttrMeta::List(s("default = vec![1, 2]")))])]);
    let sc = extract_schema(&d).ok().unwrap();
    match &sc.fields[0].requirement {
        Requirement::Optional(DefaultRule::Explicit(e)) => assert_eq!(e.replace(' ', ""), "vec![1,2]"),
        _ => panic!("expected an explicit default"),
    }
}

fn extract_error(d: Declaration) -> SchemaError {
    match extract_schema(&d) {
        Err(e) => e,
        Ok(_) => panic!("expected an error"),
    }
}

#[test]
fn extract_rejects_bad_annotations() {
    for meta in [AttrMeta::List(s("value = 3")), AttrMeta::List(s("42")), AttrMeta::NameValue] {
        let e = extract_error(decl(vec![raw(Some("f"), vec![attr("optional", meta)])]));
        assert!(matches!(e, SchemaError::AnnotationSyntax));
        assert_eq!(
            e.message(),
            "Invalid attribute syntax. The correct syntax is #[optional] or #[optional(default = <expr>)]"
        );
    }
}

#[test]
fn extract_rejects_non_records() {
    let mut d = decl(vec![raw(Some("a"), vec![])]);
    d.is_struct = false;
    assert!(matches!(extract_error(d), SchemaError::NotRecord));
    let d = decl(vec![raw(None, vec![attr("optional", AttrMeta::NameValue)])]);
    assert!(matches!(extract_error(d), SchemaError::NotRecord));
}

#[test]
fn extract_rejects_duplicate_names() {
    let d = decl(vec![raw(Some("a"), vec![]), raw(Some("b"), vec![]), raw(Some("a"), vec![])]);
    let e = extract_error(d);
    match &e {
        SchemaError::DuplicateField(n) => assert_eq!(n, "a"),
        _ => panic!("expected a duplicate"),
    }
    assert_eq!(e.message(), "duplicate field name: a");
}

#[test]
fn extract_first_marker_counts() {
    let d = decl(vec![raw(
        Some("f"),
        vec![attr("optional", AttrMeta::Path), attr("optional", AttrMeta::NameValue)],
    )]);
    let sc = extract_schema(&d).ok().unwrap();
    assert!(matches!(sc.fields[0].requirement, Requirement::Optional(DefaultRule::Implicit)));
}

#[test]
fn rule_from_split_reads_default_key() {
    match rule_from_split(Some((s("default"), s("7")))) {
        Ok(Requirement::Optional(DefaultRule::Explicit(e))) => assert_eq!(e, "7"),
        _ => panic!("expected an explicit default"),
    }
    assert!(matches!(rule_from_split(Some((s("value"), s("7")))), Err(SchemaError::AnnotationSyntax)));
    assert!(matches!(rule_from_split(None), Err(SchemaError::AnnotationSyntax)));
}

#[test]
fn validator_lists_repeated_name_once() {
    let m = check_required(&names(&["a", "b", "a", "c"]), &names(&["c"])).err().unwrap();
    assert_eq!(m.names, names(&["a", "b"]));
    assert_eq!(m.message(), "Missing required fields: a, b");
}

#[test]
fn shorthand_lists_repeated_unknown_once() {
    match construct(&abc(), &pairs(&[("d", "1"), ("a", "1"), ("d", "2")])) {
        Err(ConstructError::Unknown(u)) => assert_eq!(u, names(&["d"])),
        _ => panic!("expected unknown fields"),
    }
}

#[test]
fn extract_names_first_repeat() {
    let d = decl(vec![raw(Some("a"), vec![]), raw(Some("b"), vec![]), raw(Some("b"), vec![]), raw(Some("a"), vec![])]);
    match extract_error(d) {
        SchemaError::DuplicateField(n) => assert_eq!(n, "b"),
        _ => panic!("expected a duplicate"),
    }
}
