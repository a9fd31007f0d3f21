use pw_connections::{brace_expansion, expand_with_numeric, is_numeric_string, BraceExpansionError};

#[test]
fn expansion() {
    assert_eq!(brace_expansion(""), Ok(vec!["".to_string()]));
    assert_eq!(brace_expansion("a"), Ok(vec!["a".to_string()]));
    assert_eq!(brace_expansion("a{"),
               Err(BraceExpansionError {
                   str: "a{".to_string(),
                   message: "Must close open brace".to_string()
               }));
    assert_eq!(brace_expansion("a}"),
               Err(BraceExpansionError {
                   str: "a}".to_string(),
                   message: "Cannot have closing brace before opening brace".to_string()
               }));
    assert_eq!(brace_expansion("a{{"),
               Err(BraceExpansionError {
                   str: "a{{".to_string(),
                   message: "Cannot open brace within an open brace".to_string()
               }));
    assert_eq!(brace_expansion("a}"),
               Err(BraceExpansionError {
                   str: "a}".to_string(),
                   message: "Cannot have closing brace before opening brace".to_string()
               }));
    assert_eq!(brace_expansion("a{b"),
               Err(BraceExpansionError {
                   str: "a{b".to_string(),
                   message: "Must close open brace".to_string()
               }));
    assert_eq!(brace_expansion("a{b,"),
               Err(BraceExpansionError {
                   str: "a{b,".to_string(),
                   message: "Must close open brace".to_string()
               }));
    assert_eq!(brace_expansion("a{}"),
               Ok(vec!["a".to_string()]));
    assert_eq!(brace_expansion("a{b}"),
               Ok(vec!["ab".to_string()]));
    assert_eq!(brace_expansion("a{b,c}"),
               Ok(vec![
                   "ab".to_string(),
                   "ac".to_string(),
               ]));
    assert_eq!(brace_expansion("a{b,c}d"),
               Ok(vec![
                   "abd".to_string(),
                   "acd".to_string(),
               ]));
    assert_eq!(brace_expansion("a{b,cc,a}d"),
               Ok(vec![
                   "abd".to_string(),
                   "accd".to_string(),
                   "aad".to_string(),
               ]));
    assert_eq!(brace_expansion("a{}b"),
               Ok(vec!["ab".to_string()]));
    assert_eq!(brace_expansion("a{}b{"),
               Err(BraceExpansionError {
                   str: "a{}b{".to_string(),
                   message: "Can only have one opening brace to expand".to_string()
               }));
    assert_eq!(brace_expansion("a{0..0}"),
               Ok(vec![
                   "a0".to_string(),
               ]));
    assert_eq!(brace_expansion("a{0..1}"),
               Ok(vec![
                   "a0".to_string(),
                   "a1".to_string(),
               ]));
    assert_eq!(brace_expansion("a{1..3}"),
               Ok(vec![
                   "a1".to_string(),
                   "a2".to_string(),
                   "a3".to_string(),
               ]));
    assert_eq!(brace_expansion("a{1,2..3}"),
               Ok(vec![
                   "a1".to_string(),
                   "a2..3".to_string(),
               ]));
    assert_eq!(brace_expansion("a{2..3,4}"),
               Err(BraceExpansionError {
                   str: "a{2..3,4}".to_string(),
                   message: "Range must be numeric".to_string()
               }));
}

fn ok(v: &[&str]) -> Result<Vec<String>, BraceExpansionError> {
    Ok(v.iter().map(|s| s.to_string()).collect())
}

fn err(s: &str, m: &str) -> Result<Vec<String>, BraceExpansionError> {
    Err(BraceExpansionError { str: s.to_string(), message: m.to_string() })
}

#[test]
fn plain_patterns_stand_for_themselves() {
    for p in ["", "a", "playback_FL", "alsa_output.pci-0000.analog-stereo:playback_FR", "a..b", "1..3", "x,y"] {
        assert_eq!(brace_expansion(p), ok(&[p]));
    }
}

#[test]
fn enumerations_and_ranges() {
    assert_eq!(brace_expansion("a{b,c}d"), ok(&["abd", "acd"]));
    assert_eq!(brace_expansion("a{1..3}"), ok(&["a1", "a2", "a3"]));
    assert_eq!(brace_expansion("a{0..0}"), ok(&["a0"]));
    assert_eq!(brace_expansion("a{1,2..3}"), ok(&["a1", "a2..3"]));
    assert_eq!(brace_expansion("in_{8..11}_x"), ok(&["in_8_x", "in_9_x", "in_10_x", "in_11_x"]));
    assert_eq!(brace_expansion("p{007..8}"), ok(&["p7", "p8"]));
    assert_eq!(brace_expansion("{a,,b}"), ok(&["a", "", "b"]));
    assert_eq!(brace_expansion("a{b}c}"), ok(&["abc}"]));
    assert_eq!(brace_expansion("a{1.5}"), ok(&["a1.5"]));
    assert_eq!(brace_expansion("a{x..y}"), ok(&["ax..y"]));
}

#[test]
fn malformed_patterns() {
    assert_eq!(brace_expansion("a{2..3,4}"), err("a{2..3,4}", "Range must be numeric"));
    assert_eq!(brace_expansion("a{"), err("a{", "Must close open brace"));
    assert_eq!(brace_expansion("a{b"), err("a{b", "Must close open brace"));
    assert_eq!(brace_expansion("a}"), err("a}", "Cannot have closing brace before opening brace"));
    assert_eq!(brace_expansion("a{}b{"), err("a{}b{", "Can only have one opening brace to expand"));
    assert_eq!(brace_expansion("a{3..1}"), err("a{3..1}", "Ranges must be increasing"));
    assert_eq!(brace_expansion("a{..3}"), err("a{..3}", "Cannot parse range begin"));
    assert_eq!(brace_expansion("a{1..}"), err("a{1..}", "Cannot parse range end"));
    assert_eq!(brace_expansion("a{1..2"), err("a{1..2", "Must close open brace"));
    assert_eq!(brace_expansion("a{1."), err("a{1.", "Must close open brace"));
    assert_eq!(
        brace_expansion("a{99999999999999999999..1}"),
        err("a{99999999999999999999..1}", "Cannot parse range begin")
    );
    assert_eq!(brace_expansion("a{b{c}"), err("a{b{c}", "Cannot open brace within an open brace"));
}

#[test]
fn unicode_digits_are_numeric_but_not_counts() {
    assert!(is_numeric_string("123"));
    assert!(is_numeric_string(""));
    assert!(!is_numeric_string("12a"));
    assert!(is_numeric_string("\u{0661}\u{0662}"));
    assert_eq!(brace_expansion("a{\u{0661}..2}"), err("a{\u{0661}..2}", "Cannot parse range begin"));
    assert_eq!(brace_expansion("a{1..\u{0662}}"), err("a{1..\u{0662}}", "Cannot parse range end"));
}

#[test]
fn expansion_with_given_flags() {
    let s = "a{1..2}";
    let all: Vec<bool> = s.chars().map(|_| true).collect();
    assert_eq!(expand_with_numeric(s, &all), ok(&["a1..2"]));
    let real: Vec<bool> = s.chars().map(|c| c.is_ascii_digit()).collect();
    assert_eq!(expand_with_numeric(s, &real), ok(&["a1", "a2"]));
    let t = "a{..2}";
    let none: Vec<bool> = t.chars().map(|_| false).collect();
    assert_eq!(expand_with_numeric(t, &none), err(t, "Range must be numeric"));
    let real: Vec<bool> = t.chars().map(|c| c.is_ascii_digit()).collect();
    assert_eq!(expand_with_numeric(t, &real), err(t, "Cannot parse range begin"));
}

#[test]
fn error_text() {
    let e = BraceExpansionError { str: "a{".to_string(), message: "Must close open brace".to_string() };
    assert_eq!(e.describe(), "Failed to perform brace expansion to a{: Must close open brace");
}
