use lamda_red::parser::{parse_lines, parsing_proc};
use lamda_red::statement::ShapeKind;

fn lines(v: &[&str]) -> Vec<String> {
    v.iter().map(|s| s.to_string()).collect()
}

#[test]
fn parses_goal_statement() {
    let r = parsing_proc("goal \"Ship v1\"", 1).unwrap().unwrap();
    assert_eq!(r.kind, ShapeKind::Goal);
    assert_eq!(r.label, "Ship v1");
}

#[test]
fn parses_risk_statement() {
    let r = parsing_proc("risk \"Scope creep\"", 1).unwrap().unwrap();
    assert_eq!(r.kind, ShapeKind::Risk);
    assert_eq!(r.label, "Scope creep");
}

#[test]
fn parses_agent_statement() {
    let r = parsing_proc("agent \"QA team\"", 1).unwrap().unwrap();
    assert_eq!(r.kind, ShapeKind::Agent);
    assert_eq!(r.label, "QA team");
}

#[test]
fn empty_label_is_legal() {
    let r = parsing_proc("goal \"\"", 1).unwrap().unwrap();
    assert_eq!(r.kind, ShapeKind::Goal);
    assert_eq!(r.label, "");
}

#[test]
fn label_may_hold_non_ascii_characters() {
    let r = parsing_proc("goal \"héllo wörld\"", 1).unwrap().unwrap();
    assert_eq!(r.label, "héllo wörld");
}

#[test]
fn label_keeps_inner_spaces() {
    let r = parsing_proc("goal \"a  b\"", 1).unwrap().unwrap();
    assert_eq!(r.label, "a  b");
}

#[test]
fn wide_gap_and_trailing_spaces_accepted() {
    let r = parsing_proc("risk   \"r\"  ", 1).unwrap().unwrap();
    assert_eq!(r.kind, ShapeKind::Risk);
    assert_eq!(r.label, "r");
}

#[test]
fn blank_line_skipped() {
    assert!(parsing_proc("", 1).unwrap().is_none());
    assert!(parsing_proc(" \t ", 1).unwrap().is_none());
}

#[test]
fn comment_line_skipped() {
    assert!(parsing_proc("&& note", 1).unwrap().is_none());
    assert!(parsing_proc("&&", 1).unwrap().is_none());
}

#[test]
fn unknown_keyword_is_syntax_error() {
    let e = parsing_proc("weird \"label\"", 3).unwrap_err();
    assert_eq!(e.line, 3);
    assert_eq!(e.text, "weird \"label\"");
}

#[test]
fn keyword_is_case_sensitive() {
    assert!(parsing_proc("Goal \"x\"", 1).is_err());
}

#[test]
fn missing_gap_is_syntax_error() {
    assert!(parsing_proc("goal\"x\"", 1).is_err());
}

#[test]
fn missing_quotes_is_syntax_error() {
    assert!(parsing_proc("goal x", 1).is_err());
}

#[test]
fn unclosed_quote_is_syntax_error() {
    assert!(parsing_proc("goal \"x", 1).is_err());
}

#[test]
fn text_after_label_is_syntax_error() {
    assert!(parsing_proc("goal \"x\" y", 1).is_err());
}

#[test]
fn indented_comment_is_syntax_error() {
    assert!(parsing_proc(" && note", 1).is_err());
}

#[test]
fn comment_blank_then_goal_yields_one_statement() {
    let sts = parse_lines(&lines(&["&& note", "", "goal \"X\""])).unwrap();
    assert_eq!(sts.len(), 1);
    assert_eq!(sts[0].kind, ShapeKind::Goal);
    assert_eq!(sts[0].label, "X");
}

#[test]
fn parse_aborts_on_first_bad_line() {
    let e = parse_lines(&lines(&["goal \"a\"", "weird \"label\"", "risk \"b\""])).unwrap_err();
    assert_eq!(e.line, 2);
    assert_eq!(e.text, "weird \"label\"");
}

#[test]
fn error_line_counts_skipped_lines_too() {
    let e = parse_lines(&lines(&["&& comment", "", "goal \"a\"", "weird"])).unwrap_err();
    assert_eq!(e.line, 4);
    assert_eq!(e.text, "weird");
}

#[test]
fn statements_keep_source_order() {
    let sts = parse_lines(&lines(&["risk \"one\"", "agent \"two\"", "goal \"three\""])).unwrap();
    assert_eq!(sts.len(), 3);
    assert_eq!(sts[0].kind, ShapeKind::Risk);
    assert_eq!(sts[1].kind, ShapeKind::Agent);
    assert_eq!(sts[2].kind, ShapeKind::Goal);
    assert_eq!(sts[0].label, "one");
    assert_eq!(sts[1].label, "two");
    assert_eq!(sts[2].label, "three");
}
