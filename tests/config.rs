use pw_connections::config::{expand_links, Config, Error, NamedLink, NamedLinks, ParseError, PortName};
use pw_connections::text::{decimal_string, parse_count_at, push_decimal};

fn link(src: &str, dst: &str) -> NamedLink {
    NamedLink { src: PortName(src.to_string()), dst: PortName(dst.to_string()) }
}

fn pairs(links: &NamedLinks) -> Vec<(String, String)> {
    links.0.iter().map(|l| (l.src.0.clone(), l.dst.0.clone())).collect()
}

fn expect_error(r: Result<NamedLinks, Error>, s: &str, m: &str) {
    match r {
        Err(Error::BraceExpansionError(e)) => {
            assert_eq!(e.str, s);
            assert_eq!(e.message, m);
        }
        other => panic!("unexpected result {:?}", other),
    }
}

#[test]
fn links_expand_pairwise_in_order() {
    let links = NamedLinks(vec![link("mic_{FL,FR}", "out_{1..2}"), link("a", "b")]);
    let r = expand_links(links).unwrap();
    assert_eq!(
        pairs(&r),
        vec![
            ("mic_FL".to_string(), "out_1".to_string()),
            ("mic_FR".to_string(), "out_2".to_string()),
            ("a".to_string(), "b".to_string()),
        ]
    );
}

#[test]
fn empty_link_set_expands_to_empty() {
    let r = expand_links(NamedLinks(vec![])).unwrap();
    assert!(r.0.is_empty());
    assert!(Config::default().links.0.is_empty());
}

#[test]
fn mismatched_counts_name_both_patterns() {
    let links = NamedLinks(vec![link("a", "b"), link("x{1,2}", "y")]);
    expect_error(expand_links(links), "x{1,2} and y", "Number of expansions need to match");
}

#[test]
fn first_failure_is_reported() {
    let links = NamedLinks(vec![link("ok", "fine"), link("src", "d{"), link("}", "x")]);
    expect_error(expand_links(links), "d{", "Must close open brace");
    let links = NamedLinks(vec![link("}", "x{")]);
    expect_error(expand_links(links), "}", "Cannot have closing brace before opening brace");
}

#[test]
fn brace_free_links_expand_to_themselves() {
    let links = NamedLinks(vec![link("b", "c"), link("a", "d"), link("a", "d")]);
    let r = expand_links(links.clone()).unwrap();
    assert_eq!(pairs(&r), pairs(&links));
}

#[test]
fn error_descriptions() {
    let e = Error::ParseError(ParseError { filename: "c.yaml".to_string(), message: "bad".to_string() });
    assert_eq!(e.describe(), "Failed to parse c.yaml: bad");
    let r = expand_links(NamedLinks(vec![link("a{", "b")]));
    match r {
        Err(e) => assert_eq!(e.describe(), "Failed to perform brace expansion to a{: Must close open brace"),
        Ok(_) => panic!("expected an error"),
    }
}

#[test]
fn decimal_text() {
    assert_eq!(decimal_string(0), "0");
    assert_eq!(decimal_string(7), "7");
    assert_eq!(decimal_string(1234), "1234");
    assert_eq!(decimal_string(u64::MAX), u64::MAX.to_string());
    let mut s = String::from("n");
    push_decimal(&mut s, 905);
    assert_eq!(s, "n905");
}

#[test]
fn count_parsing() {
    let t: Vec<char> = "x0429y".chars().collect();
    assert_eq!(parse_count_at(&t, 1, 5), Some(429));
    assert_eq!(parse_count_at(&t, 1, 1), None);
    assert_eq!(parse_count_at(&t, 0, 3), None);
    let big: Vec<char> = "9223372036854775807".chars().collect();
    assert_eq!(parse_count_at(&big, 0, big.len()), Some(9223372036854775807));
    let over: Vec<char> = "9223372036854775808".chars().collect();
    assert_eq!(parse_count_at(&over, 0, over.len()), None);
}
