use alias_tips::advice::{advise, is_among, is_function, without_names, Advice, Config};
use alias_tips::Alias;

fn alias(name: &str, expanded: &str) -> Alias {
    Alias { name: name.to_string(), expanded: expanded.to_string() }
}

fn texts(lines: &[&str]) -> Vec<String> {
    lines.iter().map(|t| t.to_string()).collect()
}

fn shell_state() -> Vec<String> {
    texts(&[
        "g=git",
        "gR='git remote'",
        "gRv='git remote -v'",
        "gst='git status'",
        "deploy () {",
        "\techo deploying",
        "}",
        "ll='ls -l'",
    ])
}

#[test]
fn unset_configuration_has_the_defaults() {
    let config = Config::new();
    assert_eq!(config.prefix, "Alias tip: ");
    assert!(config.expand);
    assert!(config.excludes.is_empty());
    assert!(!config.force);
    assert_eq!(Config::from_settings(None, None, None, None), config);
}

#[test]
fn settings_are_read_as_given() {
    let config = Config::from_settings(Some("tip> ".to_string()), Some("0"), Some(" g  ll\tgst "), Some("1"));
    assert_eq!(config.prefix, "tip> ");
    assert!(!config.expand);
    assert_eq!(config.excludes, vec!["g", "ll", "gst"]);
    assert!(config.force);
}

#[test]
fn only_one_switches_on() {
    for value in ["", "0", "yes", "true", "11", " 1", "1 "] {
        let config = Config::from_settings(None, Some(value), None, Some(value));
        assert!(!config.expand, "{:?}", value);
        assert!(!config.force, "{:?}", value);
    }
    let config = Config::from_settings(None, Some("1"), Some(""), Some("1"));
    assert!(config.expand);
    assert!(config.force);
    assert!(config.excludes.is_empty());
}

#[test]
fn each_advice_has_its_status() {
    assert_eq!(Advice::Silent.exit_status(), 1);
    assert_eq!(Advice::Tip("g".to_string()).exit_status(), 0);
    assert_eq!(Advice::Forced("g".to_string()).exit_status(), 10);
}

#[test]
fn shorter_form_is_a_tip() {
    let config = Config::new();
    assert_eq!(advise(&config, "git status", &shell_state(), &[], 100), Advice::Tip("gst".to_string()));
    assert_eq!(advise(&config, "git remote -v", &shell_state(), &[], 100), Advice::Tip("gRv".to_string()));
    assert_eq!(advise(&config, "ls -l /tmp", &shell_state(), &[], 100), Advice::Tip("ll /tmp".to_string()));
}

#[test]
fn force_turns_a_tip_into_a_forced_tip() {
    let config = Config::from_settings(None, None, None, Some("1"));
    assert_eq!(advise(&config, "git status", &shell_state(), &[], 100), Advice::Forced("gst".to_string()));
    assert_eq!(advise(&config, "cargo build", &shell_state(), &[], 100), Advice::Silent);
}

#[test]
fn nothing_shorter_is_silence() {
    let config = Config::new();
    assert_eq!(advise(&config, "cargo build", &shell_state(), &[], 100), Advice::Silent);
    assert_eq!(advise(&config, "gst", &shell_state(), &[], 100), Advice::Silent);
    assert_eq!(advise(&config, "", &shell_state(), &[], 100), Advice::Silent);
    assert_eq!(advise(&config, "git status", &[], &[], 100), Advice::Silent);
}

#[test]
fn function_name_is_silence() {
    let config = Config::new();
    let mut state = shell_state();
    state.push("git status () {".to_string());
    assert_eq!(advise(&config, "git status", &state, &[], 100), Advice::Silent);
    assert_eq!(advise(&config, "deploy", &state, &[], 100), Advice::Silent);
    assert_eq!(advise(&config, "git status -s", &state, &[], 100), Advice::Tip("gst -s".to_string()));
}

#[test]
fn tip_that_is_not_shorter_is_silence() {
    let config = Config::new();
    let state = texts(&["listing=ls", "ab=cd"]);
    assert_eq!(advise(&config, "ls", &state, &[], 100), Advice::Silent);
    assert_eq!(advise(&config, "cd", &state, &[], 100), Advice::Silent);
    let state = texts(&["é=ab"]);
    assert_eq!(advise(&config, "ab", &state, &[], 100), Advice::Silent);
    let state = texts(&["é=abc"]);
    assert_eq!(advise(&config, "abc", &state, &[], 100), Advice::Tip("é".to_string()));
}

#[test]
fn excluded_names_are_not_suggested() {
    let config = Config::from_settings(None, None, Some("gst gRv"), None);
    assert_eq!(advise(&config, "git status", &shell_state(), &[], 100), Advice::Tip("g status".to_string()));
    assert_eq!(advise(&config, "git remote -v", &shell_state(), &[], 100), Advice::Tip("gR -v".to_string()));
}

#[test]
fn expansion_comes_before_the_search() {
    let on = Config::new();
    let off = Config::from_settings(None, Some("0"), None, None);
    assert_eq!(advise(&on, "gR -v", &shell_state(), &[], 100), Advice::Tip("gRv".to_string()));
    assert_eq!(advise(&off, "gR -v", &shell_state(), &[], 100), Advice::Silent);
    assert_eq!(advise(&on, "g remote -v", &shell_state(), &[], 100), Advice::Tip("gRv".to_string()));
    assert_eq!(advise(&off, "g remote -v", &shell_state(), &[], 100), Advice::Silent);
}

#[test]
fn aliases_of_other_tools_count() {
    let config = Config::new();
    let tool = texts(&["git co = checkout", "git br = branch"]);
    assert_eq!(advise(&config, "checkout main", &[], &tool, 100), Advice::Tip("git co main".to_string()));
    assert_eq!(advise(&config, "checkout main", &shell_state(), &tool, 100), Advice::Tip("g co main".to_string()));
    assert_eq!(advise(&config, "git co main", &[], &tool, 100), Advice::Tip("git co main".to_string()));
    assert_eq!(advise(&config, "branch", &[], &tool, 100), Advice::Silent);
    assert_eq!(advise(&config, "checkout main", &[], &[], 100), Advice::Silent);
    let excluding = Config::from_settings(None, None, Some("git\tco"), None);
    assert_eq!(advise(&excluding, "checkout main", &[], &tool, 100), Advice::Tip("git co main".to_string()));
}

#[test]
fn search_that_does_not_settle_is_silence() {
    let config = Config::new();
    let state = texts(&["a=c", "c=b", "b=a", "gst=git status"]);
    assert_eq!(advise(&config, "b", &state, &[], 1000), Advice::Silent);
    assert_eq!(advise(&config, "git status", &state, &[], 1000), Advice::Tip("gst".to_string()));
    assert_eq!(advise(&config, "git status", &state, &[], 0), Advice::Silent);
}

#[test]
fn is_function_finds_names_of_functions_only() {
    let state = shell_state();
    assert!(is_function(&state, "deploy"));
    assert!(!is_function(&state, "deploy "));
    assert!(!is_function(&state, "g"));
    assert!(!is_function(&state, "echo deploying"));
    assert!(!is_function(&[], "deploy"));
}

#[test]
fn is_among_compares_whole_texts() {
    let names = texts(&["g", "gst"]);
    assert!(is_among(&names, &"g".to_string()));
    assert!(is_among(&names, &"gst".to_string()));
    assert!(!is_among(&names, &"gs".to_string()));
    assert!(!is_among(&[], &"g".to_string()));
}

#[test]
fn without_names_keeps_the_rest_in_order() {
    let records = vec![alias("a", "1"), alias("b", "2"), alias("a", "3"), alias("c", "4")];
    assert_eq!(without_names(&records, &texts(&["a"])), vec![alias("b", "2"), alias("c", "4")]);
    assert_eq!(without_names(&records, &texts(&["c", "b"])), vec![alias("a", "1"), alias("a", "3")]);
    assert_eq!(without_names(&records, &[]), records);
    assert_eq!(without_names(&[], &texts(&["a"])), vec![]);
}
