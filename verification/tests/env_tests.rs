use rustyrag::env::{find_placeholders, substitute_env};
use rustyrag::error::Error;

#[test]
fn substitutes_env_vars() {
    let input = "url: ${RUSTYRAG_TEST_VAR}";
    let found = find_placeholders(input);
    assert_eq!(found.len(), 1);
    assert_eq!(found[0].name, "RUSTYRAG_TEST_VAR");
    let out = substitute_env(input, &vec![Some("hello".to_string())]).unwrap();
    assert_eq!(out, "url: hello");
}

#[test]
fn placeholder_grammar() {
    let found = find_placeholders("a ${A1} b ${_X} ${1A} ${lower} ${OK ${B}} $${C}");
    let names: Vec<String> = found.iter().map(|p| p.name.clone()).collect();
    assert_eq!(names, vec!["A1", "_X", "B", "C"]);
    assert_eq!(found[0].full, "${A1}");
}

#[test]
fn repeated_placeholder_replaced_everywhere() {
    let input = "${H}:${H}/${P}";
    let found = find_placeholders(input);
    assert_eq!(found.len(), 3);
    let values = vec![Some("x".to_string()), Some("x".to_string()), Some("9".to_string())];
    assert_eq!(substitute_env(input, &values).unwrap(), "x:x/9");
}

#[test]
fn missing_variable_is_reported() {
    let input = "a: ${SET}\nb: ${UNSET}";
    let values = vec![Some("1".to_string()), None];
    match substitute_env(input, &values) {
        Err(Error::Config(m)) => assert_eq!(
            m,
            "environment variable `UNSET` is not set (needed for `${UNSET}`). Set it in your shell or in a `.env` file in the project root."
        ),
        _ => panic!("expected error"),
    }
}

#[test]
fn text_without_placeholders_is_unchanged() {
    assert_eq!(substitute_env("plain: $HOME", &vec![]).unwrap(), "plain: $HOME");
}
