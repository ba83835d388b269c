use cgo_gen::env_tokens::{env_token_names, expand_env_tokens};

fn strings(items: &[&str]) -> Vec<String> {
    items.iter().map(|s| s.to_string()).collect()
}

#[test]
fn token_names_in_all_three_forms() {
    assert_eq!(env_token_names("$A -I${B_1}/x $(C)"), strings(&["A", "B_1", "C"]));
    assert_eq!(env_token_names("plain $ ${} $(x-y) cost$"), Vec::<String>::new());
}

#[test]
fn tokens_are_replaced_by_their_values() {
    let names = strings(&["SDK", "MODE"]);
    let values = vec![Some("/opt/sdk".to_string()), Some("1".to_string())];
    assert_eq!(
        expand_env_tokens("-I${SDK}/include", &names, &values),
        Ok("-I/opt/sdk/include".to_string())
    );
    assert_eq!(expand_env_tokens("-DMODE=$MODE", &names, &values), Ok("-DMODE=1".to_string()));
    assert_eq!(expand_env_tokens("$(SDK)", &names, &values), Ok("/opt/sdk".to_string()));
    assert_eq!(expand_env_tokens("no tokens", &names, &values), Ok("no tokens".to_string()));
}

#[test]
fn a_token_without_a_value_is_an_error() {
    let names = strings(&["MISSING"]);
    let values = vec![None];
    let error = expand_env_tokens("-I$MISSING", &names, &values).unwrap_err();
    assert!(error.contains("input.clang_args"));
    assert!(error.contains("MISSING"));
    assert!(expand_env_tokens("${OTHER}", &names, &values).is_err());
}
