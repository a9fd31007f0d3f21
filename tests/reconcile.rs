use pw_connections::graph::property;
use pw_connections::order::less_than;
use pw_connections::reconcile::{QUIET_AFTER_MS, RETRY_AFTER_MS};
use pw_connections::{
    after_session, global_remove_callback, name_indexes, Event, Graph, InvariantViolation, LinkAction, Main, Message,
    NamedLink, NamedLinks, Object, ObjectId, PortDirection, PortName, PortObjectId, QuitReason, Step,
    SupervisorAction, Unknown,
};

fn props(kv: &[(&str, &str)]) -> Vec<(String, String)> {
    kv.iter().map(|(k, v)| (k.to_string(), v.to_string())).collect()
}

fn port_props(name: &str, node: &str, port: &str, dir: &str) -> Vec<(String, String)> {
    props(&[("port.name", name), ("node.id", node), ("port.id", port), ("port.direction", dir)])
}

fn link_props(out_port: &str, in_port: &str) -> Vec<(String, String)> {
    props(&[
        ("link.output.port", out_port),
        ("link.output.node", "30"),
        ("link.input.port", in_port),
        ("link.input.node", "31"),
    ])
}

fn id(s: &str) -> ObjectId {
    ObjectId(s.to_string())
}

fn add(main: &mut Main, object: &str, p: Vec<(String, String)>) -> Result<Step, InvariantViolation> {
    main.step(Event::Received(Message::Object(Object { id: id(object), properties: p })))
}

fn desired(v: &[(&str, &str)]) -> NamedLinks {
    NamedLinks(
        v.iter()
            .map(|(s, d)| NamedLink { src: PortName(s.to_string()), dst: PortName(d.to_string()) })
            .collect(),
    )
}

fn actions(step: Result<Step, InvariantViolation>) -> Vec<LinkAction> {
    match step {
        Ok(Step::Continue(a)) => a,
        other => panic!("unexpected step {:?}", other),
    }
}

fn port_ids(g: &Graph) -> Vec<String> {
    g.ports.iter().map(|(k, _)| k.0.clone()).collect()
}

fn link_keys(g: &Graph) -> Vec<(String, String, usize)> {
    g.links.iter().map(|(k, v)| (k.0 .0.clone(), k.1 .0.clone(), v.len())).collect()
}

#[test]
fn port_added_then_removed() {
    let mut g = Graph::new();
    g.apply_add(id("5"), &port_props("mic", "30", "0", "out")).unwrap();
    g.apply_add(id("6"), &port_props("speaker", "31", "1", "in")).unwrap();
    assert_eq!(port_ids(&g), vec!["5", "6"]);
    g.apply_remove(&id("5"));
    assert_eq!(port_ids(&g), vec!["6"]);
    assert_eq!(g.ports[0].1.port_name.0, "speaker");
    assert_eq!(g.ports[0].1.port_direction, PortDirection::In);
    g.apply_remove(&id("99"));
    assert_eq!(port_ids(&g), vec!["6"]);
}

#[test]
fn alias_stands_for_the_name() {
    let mut g = Graph::new();
    let mut p = port_props("capture_1", "30", "0", "out");
    p.push(("port.alias".to_string(), "Mic:left".to_string()));
    g.apply_add(id("5"), &p).unwrap();
    assert_eq!(g.ports[0].1.port_name.0, "Mic:left");
    assert_eq!(g.ports[0].1.node_id.0, "30");
    assert_eq!(g.ports[0].1.port_id.0, "0");
}

#[test]
fn links_under_one_key_are_kept_in_order() {
    let mut g = Graph::new();
    g.apply_add(id("10"), &link_props("5", "6")).unwrap();
    g.apply_add(id("11"), &link_props("5", "6")).unwrap();
    g.apply_add(id("12"), &link_props("7", "6")).unwrap();
    assert_eq!(
        link_keys(&g),
        vec![("5".to_string(), "6".to_string(), 2), ("7".to_string(), "6".to_string(), 1)]
    );
    g.apply_remove(&id("11"));
    assert_eq!(link_keys(&g), vec![("7".to_string(), "6".to_string(), 1)]);
    assert_eq!(g.links_by_id.len(), 2);
}

#[test]
fn contradictions_are_refused() {
    let mut g = Graph::new();
    assert_eq!(g.apply_add(id("5"), &port_props("mic", "30", "0", "sideways")), Err(InvariantViolation::UnknownDirection));
    assert!(g.ports.is_empty());
    g.apply_add(id("5"), &port_props("mic", "30", "0", "out")).unwrap();
    assert_eq!(g.apply_add(id("5"), &port_props("mic2", "30", "1", "out")), Err(InvariantViolation::DuplicatePort));
    assert_eq!(g.ports.len(), 1);
    g.apply_add(id("10"), &link_props("5", "6")).unwrap();
    assert_eq!(g.apply_add(id("10"), &link_props("5", "7")), Err(InvariantViolation::DuplicateLink));
    assert_eq!(g.links.len(), 1);
}

#[test]
fn unrelated_objects_are_ignored() {
    let mut g = Graph::new();
    g.apply_add(id("3"), &props(&[("node.name", "x"), ("port.name", "y")])).unwrap();
    assert!(g.ports.is_empty() && g.links.is_empty() && g.links_by_id.is_empty());
}

#[test]
fn property_lookup_takes_the_first() {
    let p = props(&[("a", "1"), ("b", "2"), ("a", "3")]);
    assert_eq!(property(&p, "a").map(|s| s.as_str()), Some("1"));
    assert_eq!(property(&p, "b").map(|s| s.as_str()), Some("2"));
    assert_eq!(property(&p, "c"), None);
    assert_eq!(PortDirection::parse(&"in".to_string()), Some(PortDirection::In));
    assert_eq!(PortDirection::parse(&"out".to_string()), Some(PortDirection::Out));
    assert_eq!(PortDirection::parse(&"In".to_string()), None);
}

#[test]
fn handles_and_their_directions() {
    let u: PortObjectId<Unknown> = PortObjectId::from_object(ObjectId::from_global(42));
    assert_eq!(u.0, "42");
    let i = u.input();
    assert_eq!(i.0, "42");
    let back = i.unknown();
    assert_eq!(back.0, "42");
    let o = back.output();
    assert_eq!(o.unknown().object().0, "42");
    match global_remove_callback(1234) {
        Message::Remove(o) => assert_eq!(o.0, "1234"),
        _ => panic!("expected a removal"),
    }
}

#[test]
fn name_index_last_port_wins() {
    let mut g = Graph::new();
    g.apply_add(id("5"), &port_props("mic", "30", "0", "out")).unwrap();
    g.apply_add(id("6"), &port_props("mic", "30", "1", "out")).unwrap();
    g.apply_add(id("7"), &port_props("mic", "31", "0", "in")).unwrap();
    let (inputs, outputs) = name_indexes(&g);
    assert_eq!(outputs.len(), 1);
    assert_eq!(outputs[0].1 .0, "6");
    assert_eq!(inputs.len(), 1);
    assert_eq!(inputs[0].1 .0, "7");
}

#[test]
fn linked_pair_is_left_alone_and_relinked_after_removal() {
    let mut main = Main::new(desired(&[("mic", "speaker")]), false);
    add(&mut main, "5", port_props("mic", "30", "0", "out")).unwrap();
    add(&mut main, "6", port_props("speaker", "31", "1", "in")).unwrap();
    add(&mut main, "10", link_props("5", "6")).unwrap();
    assert!(actions(main.step(Event::Timeout)).is_empty());
    assert!(actions(main.step(Event::Received(Message::Remove(id("10"))))).is_empty());
    let a = actions(main.step(Event::Timeout));
    assert_eq!(a.len(), 1);
    match &a[0] {
        LinkAction::Connect(o, i, src, dst) => {
            assert_eq!(o.0, "5");
            assert_eq!(i.0, "6");
            assert_eq!(src.port_name.0, "mic");
            assert_eq!(src.node_id.0, "30");
            assert_eq!(src.port_id.0, "0");
            assert_eq!(dst.port_name.0, "speaker");
            assert_eq!(dst.node_id.0, "31");
            assert_eq!(dst.port_id.0, "1");
        }
        other => panic!("unexpected action {:?}", other),
    }
}

#[test]
fn connect_is_not_requested_for_linked_ports() {
    let mut main = Main::new(desired(&[("mic", "speaker"), ("mic", "phones")]), false);
    add(&mut main, "5", port_props("mic", "30", "0", "out")).unwrap();
    add(&mut main, "6", port_props("speaker", "31", "1", "in")).unwrap();
    add(&mut main, "7", port_props("phones", "32", "0", "in")).unwrap();
    add(&mut main, "10", link_props("5", "6")).unwrap();
    let a = actions(main.step(Event::Timeout));
    assert_eq!(a.len(), 1);
    match &a[0] {
        LinkAction::Connect(o, i, _, _) => assert_eq!((o.0.as_str(), i.0.as_str()), ("5", "7")),
        other => panic!("unexpected action {:?}", other),
    }
}

#[test]
fn unresolved_pair_is_reported_once() {
    let mut main = Main::new(desired(&[("mic", "speaker"), ("mic", "speaker")]), false);
    add(&mut main, "5", port_props("mic", "30", "0", "out")).unwrap();
    let a = actions(main.step(Event::Timeout));
    assert_eq!(a.len(), 1);
    match &a[0] {
        LinkAction::Report(s, d) => assert_eq!((s.0.as_str(), d.0.as_str()), ("mic", "speaker")),
        other => panic!("unexpected action {:?}", other),
    }
    assert!(actions(main.step(Event::Timeout)).is_empty());
    assert_eq!(main.failed_pairs.len(), 1);
    // Once it resolves, the pair leaves the reported set, and a later miss is reported again.
    add(&mut main, "6", port_props("speaker", "31", "1", "in")).unwrap();
    let a = actions(main.step(Event::Timeout));
    assert_eq!(a.len(), 2);
    assert!(main.failed_pairs.is_empty());
    main.step(Event::Received(Message::Remove(id("6")))).unwrap();
    let a = actions(main.step(Event::Timeout));
    assert_eq!(a.len(), 1);
    assert!(matches!(a[0], LinkAction::Report(_, _)));
}

#[test]
fn dump_is_sorted_and_expands_to_itself() {
    let mut main = Main::new(NamedLinks(vec![]), true);
    add(&mut main, "5", port_props("mic", "30", "0", "out")).unwrap();
    add(&mut main, "6", port_props("b-speaker", "31", "1", "in")).unwrap();
    add(&mut main, "7", port_props("a-speaker", "31", "2", "in")).unwrap();
    add(&mut main, "8", port_props("ab", "32", "0", "out")).unwrap();
    add(&mut main, "10", link_props("5", "6")).unwrap();
    add(&mut main, "11", link_props("5", "7")).unwrap();
    add(&mut main, "12", link_props("8", "6")).unwrap();
    add(&mut main, "13", link_props("8", "99")).unwrap();
    let dumped = match main.step(Event::Timeout) {
        Ok(Step::Dump(l)) => l,
        other => panic!("unexpected step {:?}", other),
    };
    let got: Vec<(String, String)> = dumped.0.iter().map(|l| (l.src.0.clone(), l.dst.0.clone())).collect();
    let want = vec![
        ("ab".to_string(), "b-speaker".to_string()),
        ("mic".to_string(), "a-speaker".to_string()),
        ("mic".to_string(), "b-speaker".to_string()),
    ];
    assert_eq!(got, want);
    let again = pw_connections::expand_links(dumped).unwrap();
    let back: Vec<(String, String)> = again.0.iter().map(|l| (l.src.0.clone(), l.dst.0.clone())).collect();
    assert_eq!(back, want);
}

#[test]
fn end_of_events_stops() {
    let mut main = Main::new(NamedLinks(vec![]), true);
    assert!(matches!(main.step(Event::Disconnected), Ok(Step::Stop)));
}

#[test]
fn bad_event_aborts_the_turn() {
    let mut main = Main::new(NamedLinks(vec![]), false);
    let r = add(&mut main, "5", port_props("mic", "30", "0", "up"));
    assert!(matches!(r, Err(InvariantViolation::UnknownDirection)));
}

#[test]
fn supervisor_decisions() {
    assert_eq!(after_session(QuitReason::Done, false), SupervisorAction::Exit);
    assert_eq!(after_session(QuitReason::Done, true), SupervisorAction::Exit);
    assert_eq!(after_session(QuitReason::Error, false), SupervisorAction::Retry);
    assert_eq!(after_session(QuitReason::Error, true), SupervisorAction::Fail);
    assert_eq!(QUIET_AFTER_MS, 100);
    assert_eq!(RETRY_AFTER_MS, 1000);
}

#[test]
fn text_order() {
    let s = |x: &str| x.to_string();
    assert!(less_than(&s("a"), &s("b")));
    assert!(less_than(&s("a"), &s("ab")));
    assert!(!less_than(&s("ab"), &s("a")));
    assert!(!less_than(&s("a"), &s("a")));
    assert!(less_than(&s(""), &s("a")));
    assert!(less_than(&s("Z"), &s("a")));
}
