use vex::store::Store;
use vex::subst::substitute_params;

fn env_of(pairs: &[(&str, &str)]) -> Store {
    let mut env = Store::new();
    for (k, v) in pairs {
        env.set(k.to_string(), v.to_string());
    }
    env
}

fn strings(items: &[&str]) -> Vec<String> {
    items.iter().map(|s| s.to_string()).collect()
}

#[test]
fn test_substitute_single_var() {
    let env = env_of(&[("TEST_VAR", "value")]);
    let args = vec!["${TEST_VAR}".to_string()];
    let result = substitute_params(&args, &env);
    assert_eq!(result, vec!["value"]);
}

#[test]
fn test_substitute_multiple_vars() {
    let env = env_of(&[("VAR1", "hello"), ("VAR2", "world")]);
    let args = vec!["${VAR1} ${VAR2}".to_string()];
    let result = substitute_params(&args, &env);
    assert_eq!(result, vec!["hello world"]);
}

#[test]
fn test_substitute_undefined_var() {
    let env = env_of(&[]);
    let args = vec!["${UNDEFINED_VAR}".to_string()];
    let result = substitute_params(&args, &env);
    assert_eq!(result, vec!["${UNDEFINED_VAR}"]);
}

#[test]
fn test_substitute_mixed() {
    let env = env_of(&[("DEFINED", "yes")]);
    let args = vec!["prefix_${DEFINED}_${UNDEFINED}_suffix".to_string()];
    let result = substitute_params(&args, &env);
    assert_eq!(result, vec!["prefix_yes_${UNDEFINED}_suffix"]);
}

#[test]
fn test_substitute_no_vars() {
    let env = env_of(&[]);
    let args = vec!["no_vars_here".to_string()];
    let result = substitute_params(&args, &env);
    assert_eq!(result, vec!["no_vars_here"]);
}

#[test]
fn test_substitute_empty_args() {
    let env = env_of(&[]);
    let args: Vec<String> = vec![];
    let result = substitute_params(&args, &env);
    assert_eq!(result, Vec::<String>::new());
}

#[test]
fn test_substitute_multiple_args() {
    let env = env_of(&[("PATH_VAR", "/usr/bin")]);
    let args = strings(&["${PATH_VAR}/qemu", "-m", "2048"]);
    let result = substitute_params(&args, &env);
    assert_eq!(result, vec!["/usr/bin/qemu", "-m", "2048"]);
}

#[test]
fn test_substitute_nested_braces() {
    let env = env_of(&[("OUTER", "value")]);
    let args = vec!["${OUTER}".to_string()];
    let result = substitute_params(&args, &env);
    assert_eq!(result, vec!["value"]);
}

#[test]
fn test_substitute_unclosed_placeholder() {
    let env = env_of(&[("A", "1")]);
    let args = vec!["${A} and ${unclosed".to_string()];
    let result = substitute_params(&args, &env);
    assert_eq!(result, vec!["1 and ${unclosed"]);
}

#[test]
fn test_substitute_dollar_without_brace() {
    let env = env_of(&[("A", "1")]);
    let args = vec!["$A stays, ${A} goes".to_string()];
    let result = substitute_params(&args, &env);
    assert_eq!(result, vec!["$A stays, 1 goes"]);
}
