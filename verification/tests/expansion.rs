use alias_tips::{expand_input, Alias};

fn alias(name: &str, expanded: &str) -> Alias {
    Alias { name: name.to_string(), expanded: expanded.to_string() }
}

#[test]
fn longest_expansion_is_taken() {
    let aliases = vec![alias("a", "bb"), alias("a", "cccc"), alias("a", "ddd")];
    assert_eq!(expand_input("a z", &aliases), "cccc z");
}

#[test]
fn first_of_equal_expansions_is_taken() {
    let aliases = vec![alias("a", "foo bar"), alias("a", "foo baz")];
    assert_eq!(expand_input("a x", &aliases), "foo bar x");
    let aliases = vec![alias("a", "foo baz"), alias("a", "foo bar")];
    assert_eq!(expand_input("a x", &aliases), "foo baz x");
}

#[test]
fn expansion_must_be_longer_than_the_name() {
    assert_eq!(expand_input("abc x", &[alias("abc", "ab")]), "abc x");
    assert_eq!(expand_input("ab x", &[alias("ab", "cd")]), "ab x");
    assert_eq!(expand_input("ab x", &[alias("ab", "cde")]), "cde x");
}

#[test]
fn lengths_are_counted_in_bytes() {
    assert_eq!(expand_input("é x", &[alias("é", "ab")]), "é x");
    assert_eq!(expand_input("é x", &[alias("é", "abc")]), "abc x");
    assert_eq!(expand_input("ab x", &[alias("ab", "é")]), "ab x");
}

#[test]
fn name_must_be_followed_by_a_space() {
    let aliases = vec![alias("g", "git")];
    assert_eq!(expand_input("g", &aliases), "g");
    assert_eq!(expand_input("gx y", &aliases), "gx y");
    assert_eq!(expand_input("g\ty", &aliases), "g\ty");
    assert_eq!(expand_input(" g y", &aliases), " g y");
    assert_eq!(expand_input("g y", &aliases), "git y");
    assert_eq!(expand_input("g ", &aliases), "git ");
}

#[test]
fn only_one_alias_is_expanded() {
    let aliases = vec![alias("a", "b c"), alias("b", "long thing")];
    assert_eq!(expand_input("a x", &aliases), "b c x");
}

#[test]
fn only_the_name_at_the_start_is_replaced() {
    let aliases = vec![alias("g", "git")];
    assert_eq!(expand_input("g g g", &aliases), "git g g");
}

#[test]
fn rest_is_kept_as_it_is() {
    let aliases = vec![alias("g", "git")];
    assert_eq!(expand_input("g   st  -v ", &aliases), "git   st  -v ");
}

#[test]
fn no_aliases_leave_the_command() {
    assert_eq!(expand_input("gR -v", &[]), "gR -v");
    assert_eq!(expand_input("", &[alias("g", "git")]), "");
}
