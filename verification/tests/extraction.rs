use alias_tips::extract::parse_alias;
use alias_tips::{parse_aliases, Alias};

fn alias(name: &str, expanded: &str) -> Alias {
    Alias { name: name.to_string(), expanded: expanded.to_string() }
}

fn lines(texts: &[&str]) -> Vec<String> {
    texts.iter().map(|t| t.to_string()).collect()
}

#[test]
fn plain_line_gives_one_record() {
    assert_eq!(parse_aliases(&lines(&["name=expansion"])), vec![alias("name", "expansion")]);
}

#[test]
fn quoted_line_gives_the_same_record() {
    let plain = parse_aliases(&lines(&["name=expansion"]));
    assert_eq!(parse_aliases(&lines(&["'name'='expansion'"])), plain);
    assert_eq!(parse_aliases(&lines(&["name='expansion'"])), plain);
    assert_eq!(parse_aliases(&lines(&["'name'=expansion"])), plain);
}

#[test]
fn line_without_equals_gives_no_record() {
    assert_eq!(parse_aliases(&lines(&["noequals"])), vec![]);
    assert_eq!(parse_aliases(&lines(&[""])), vec![]);
    assert_eq!(parse_aliases(&lines(&["foo bar"])), vec![]);
}

#[test]
fn empty_side_gives_no_record() {
    assert_eq!(parse_aliases(&lines(&["=x"])), vec![]);
    assert_eq!(parse_aliases(&lines(&["x="])), vec![]);
    assert_eq!(parse_aliases(&lines(&["="])), vec![]);
    assert_eq!(parse_aliases(&lines(&["  =x"])), vec![]);
    assert_eq!(parse_aliases(&lines(&["x=   "])), vec![]);
    assert_eq!(parse_aliases(&lines(&["''=x"])), vec![]);
    assert_eq!(parse_aliases(&lines(&["x=''"])), vec![]);
    assert_eq!(parse_aliases(&lines(&["x='"])), vec![]);
}

#[test]
fn only_the_first_equals_splits() {
    assert_eq!(parse_aliases(&lines(&["a=b=c"])), vec![alias("a", "b=c")]);
    assert_eq!(
        parse_aliases(&lines(&["ls='ls --color=tty'"])),
        vec![alias("ls", "ls --color=tty")]
    );
}

#[test]
fn sides_are_trimmed_before_unquoting() {
    assert_eq!(parse_aliases(&lines(&["  a  =  b c  "])), vec![alias("a", "b c")]);
    assert_eq!(parse_aliases(&lines(&["\ta = 'b' \n"])), vec![alias("a", "b")]);
    assert_eq!(parse_aliases(&lines(&["a=' b '"])), vec![alias("a", " b ")]);
    assert_eq!(parse_aliases(&lines(&["a= 'b "])), vec![alias("a", "b")]);
}

#[test]
fn one_quote_leaves_each_end() {
    assert_eq!(parse_aliases(&lines(&["a=''b''"])), vec![alias("a", "'b'")]);
    assert_eq!(parse_aliases(&lines(&["a='b"])), vec![alias("a", "b")]);
    assert_eq!(parse_aliases(&lines(&["a=b'"])), vec![alias("a", "b")]);
    assert_eq!(parse_aliases(&lines(&["a=it's"])), vec![alias("a", "it's")]);
    assert_eq!(parse_aliases(&lines(&["'a=b"])), vec![alias("a", "b")]);
}

#[test]
fn order_and_duplicates_are_kept() {
    let input = lines(&["a=b", "skip me", "c=d", "a=b", "", "a=z"]);
    assert_eq!(
        parse_aliases(&input),
        vec![alias("a", "b"), alias("c", "d"), alias("a", "b"), alias("a", "z")]
    );
}

#[test]
fn no_lines_give_no_records() {
    assert_eq!(parse_aliases(&[]), vec![]);
}

#[test]
fn every_record_has_both_texts() {
    let input = lines(&["a=b", "=", "x=", "=y", "''=''", " q = 'r' ", "é=😀"]);
    let records = parse_aliases(&input);
    assert_eq!(records, vec![alias("a", "b"), alias("q", "r"), alias("é", "😀")]);
    for record in &records {
        assert!(!record.name.is_empty());
        assert!(!record.expanded.is_empty());
    }
}

#[test]
fn parse_alias_gives_the_record_of_one_line() {
    assert_eq!(parse_alias("git st='git status -sb'"), Some(alias("git st", "git status -sb")));
    assert_eq!(parse_alias("nothing here"), None);
    assert_eq!(parse_alias("x="), None);
}
