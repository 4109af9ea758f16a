use wgsl_spec::nmap::NameMap;
use wgsl_spec::param::classify_clause;
use wgsl_spec::records::ParameterizationKind;
use wgsl_spec::sig::function_name_from_signature;
use wgsl_spec::sig::tokenize;
use wgsl_spec::text::join_words;

fn s(x: &str) -> String {
    x.to_string()
}

#[test]
fn join_words_collapses_whitespace_and_glues_punctuation() {
    let frags = vec![s("  A  vector "), s(" value "), s("."), s(" Yes")];
    assert_eq!(join_words(&frags), "A vector value. Yes");
}

#[test]
fn join_words_is_idempotent_on_samples() {
    let samples = vec![
        vec![s("  hello   world  ")],
        vec![s("a"), s("."), s("b"), s(",")],
        vec![s(". leading")],
        vec![s("")],
        vec![s("mixed\t\nspace"), s(" ; "), s(" : ")],
    ];
    for frags in samples {
        let once = join_words(&frags);
        let twice = join_words(&vec![once.clone()]);
        assert_eq!(twice, once);
    }
}

#[test]
fn tokenize_splits_identifiers_and_punctuation() {
    let toks = tokenize("fn dot(a, b)");
    assert_eq!(toks, vec![s("fn"), s("dot"), s("("), s("a"), s(","), s("b"), s(")")]);
}

#[test]
fn tokenize_keeps_at_sign_in_identifiers() {
    let toks = tokenize("@must_use fn x()");
    assert_eq!(toks, vec![s("@must_use"), s("fn"), s("x"), s("("), s(")")]);
}

#[test]
fn function_name_follows_first_fn_token() {
    let name = function_name_from_signature("fn dot(a: vec3<f32>) -> f32");
    assert_eq!(name.as_deref(), Some("dot"));
    assert_eq!(function_name_from_signature("let x = 3"), None);
    assert_eq!(function_name_from_signature("fn"), None);
}

#[test]
fn clause_with_type_list_is_an_enumeration() {
    let (name, kind) = classify_clause("T is f32, i32, or u32").unwrap();
    assert_eq!(name, "T");
    match kind {
        ParameterizationKind::Types(ts) => {
            assert_eq!(ts, vec![s("f32"), s("i32"), s("u32")]);
        },
        ParameterizationKind::Description(d) => panic!("expected an enumeration, got {d:?}"),
    }
}

#[test]
fn clause_with_article_is_a_description() {
    let (name, kind) = classify_clause("e is a concrete scalar type").unwrap();
    assert_eq!(name, "e");
    match kind {
        ParameterizationKind::Types(ts) => panic!("expected a description, got {ts:?}"),
        ParameterizationKind::Description(d) => {
            assert_eq!(d, "is a concrete scalar type");
        },
    }
}

#[test]
fn clause_with_constructible_is_a_description() {
    let (_, kind) = classify_clause("S is constructible").unwrap();
    assert!(matches!(kind, ParameterizationKind::Description(_)));
}

#[test]
fn empty_clause_is_skipped() {
    assert!(classify_clause("   ").is_none());
}

#[test]
fn one_word_clause_is_skipped() {
    assert!(classify_clause("T").is_none());
    assert!(classify_clause("  T  ").is_none());
}

#[test]
fn name_map_inserts_overwrite_and_remove() {
    let mut m: NameMap<String> = NameMap::new();
    m.insert(s("a"), s("one"));
    m.insert(s("b"), s("two"));
    m.insert(s("a"), s("three"));
    assert_eq!(m.len(), 2);
    assert_eq!(m.get("a").unwrap(), "three");
    assert_eq!(m.get("b").unwrap(), "two");
    assert!(m.get("c").is_none());
    m.remove_key("a");
    assert_eq!(m.len(), 1);
    assert!(m.get("a").is_none());
}
