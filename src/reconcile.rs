//! The reconciler: it owns the graph model and the declared links, and on
//! each quiet moment decides which connections to request.
use vstd::prelude::*;
use crate::config::{expand_all, law_plain_links, link_views, NamedLink, NamedLinks, PortName};
use crate::expansion::brace_free;
use crate::graph::{Graph, InvariantViolation, Message, Port, PortDirection, PortObjectId, PortView, LinkView, Input, Output, add_applied, props_view, remove_applied};
use crate::order::{less_than, pair_lt, sorted_pairs, lemma_pair_order};
use crate::table::{keys_unique, table_map, lemma_table_index, lemma_table_missing, lemma_table_push, lemma_table_update};

verus! {

/// Why a session with the server ended.
#[derive(Debug, Clone, Copy, PartialEq, Eq, Structural)]
pub enum QuitReason {
    Error,
    Done,
}

/// A request to the server's side of a session.
#[derive(Debug)]
pub enum PWRequest {
    /// Create a link from the first port (an output) to the second (an input).
    MakeLink((Port, Port)),
    Quit(QuitReason),
}

/// Port handles by port name, for one direction.
pub type NameIndex<Direction> = Vec<(PortName, PortObjectId<Direction>)>;

/// The views of the entries of a name index.
pub open spec fn index_entries<D>(v: Seq<(PortName, PortObjectId<D>)>) -> Seq<(Seq<char>, Seq<char>)> {
    v.map_values(|e: (PortName, PortObjectId<D>)| (e.0@, e.1@))
}

/// The handle of each name in a name index.
pub open spec fn index_map<D>(v: Seq<(PortName, PortObjectId<D>)>) -> Map<Seq<char>, Seq<char>> {
    table_map(index_entries(v))
}

/// The handle of each port name among the ports of direction `dir`; where
/// several such ports share a name, the one that stands last in the table.
pub open spec fn name_index(ports: Seq<(Seq<char>, PortView)>, dir: PortDirection) -> Map<Seq<char>, Seq<char>>
    decreases ports.len(),
{
    if ports.len() == 0 {
        Map::empty()
    } else {
        let m = name_index(ports.drop_last(), dir);
        let e = ports.last();
        if e.1.direction == dir {
            m.insert(e.1.name, e.0)
        } else {
            m
        }
    }
}

/// A name in a name index belongs to a port of that direction whose
/// handle the index gives.
pub proof fn lemma_name_index(ports: Seq<(Seq<char>, PortView)>, dir: PortDirection, n: Seq<char>)
    requires
        name_index(ports, dir).contains_key(n),
    ensures
        exists|i: int| 0 <= i < ports.len() && (#[trigger] ports[i]).0 == name_index(ports, dir)[n]
            && ports[i].1.name == n && ports[i].1.direction == dir,
    decreases ports.len(),
{
    let m = name_index(ports.drop_last(), dir);
    let e = ports.last();
    if e.1.direction == dir && e.1.name == n {
        assert(ports[ports.len() - 1] == e);
    } else {
        lemma_name_index(ports.drop_last(), dir, n);
        let i = choose|i: int| 0 <= i < ports.len() - 1 && (#[trigger] ports.drop_last()[i]).0 == m[n]
            && ports.drop_last()[i].1.name == n && ports.drop_last()[i].1.direction == dir;
        assert(ports[i] == ports.drop_last()[i]);
    }
}

/// Every handle in `index` is that of a port of the graph.
pub open spec fn index_in_graph(index: Map<Seq<char>, Seq<char>>, g: &Graph) -> bool {
    forall|n: Seq<char>| #[trigger] index.contains_key(n) ==> g.port_table().contains_key(index[n])
}

/// The handles in the name indexes of a graph are those of its ports.
pub proof fn lemma_index_in_graph(g: &Graph, dir: PortDirection)
    requires
        g.wf(),
    ensures
        index_in_graph(name_index(g.port_entries(), dir), g),
{
    assert forall|n: Seq<char>| #[trigger] name_index(g.port_entries(), dir).contains_key(n) implies g.port_table().contains_key(name_index(g.port_entries(), dir)[n]) by {
        lemma_name_index(g.port_entries(), dir, n);
        let i = choose|i: int| 0 <= i < g.port_entries().len() && (#[trigger] g.port_entries()[i]).0 == name_index(g.port_entries(), dir)[n]
            && g.port_entries()[i].1.name == n && g.port_entries()[i].1.direction == dir;
        lemma_table_index(g.port_entries(), i);
    }
}

fn index_find<D>(index: &Vec<(PortName, PortObjectId<D>)>, name: &PortName) -> (r: Option<usize>)
    requires
        keys_unique(index_entries(index@)),
    ensures
        match r {
            Some(i) => i < index@.len() && index@[i as int].0@ == name@
                && index_map(index@).contains_key(name@) && index_map(index@)[name@] == index@[i as int].1@,
            None => !index_map(index@).contains_key(name@),
        },
{
    let mut i: usize = 0;
    while i < index.len()
        invariant
            keys_unique(index_entries(index@)),
            i <= index@.len(),
            forall|k: int| 0 <= k < i ==> #[trigger] index_entries(index@)[k].0 != name@,
        decreases index@.len() - i,
    {
        if index[i].0.0 == name.0 {
            proof {
                lemma_table_index(index_entries(index@), i as int);
            }
            return Some(i);
        }
        i = i + 1;
    }
    proof {
        lemma_table_missing(index_entries(index@), name@);
    }
    None
}

fn index_insert<D>(index: &mut Vec<(PortName, PortObjectId<D>)>, name: PortName, id: PortObjectId<D>)
    requires
        keys_unique(index_entries(old(index)@)),
    ensures
        keys_unique(index_entries(final(index)@)),
        index_map(final(index)@) == index_map(old(index)@).insert(name@, id@),
{
    let ghost before = index_entries(index@);
    let ghost e = (name@, id@);
    match index_find(index, &name) {
        Some(i) => {
            index.remove(i);
            index.insert(i, (name, id));
            proof {
                assert(index_entries(index@) =~= before.update(i as int, (before[i as int].0, e.1)));
                lemma_table_update(before, i as int, e.1);
            }
        },
        None => {
            index.push((name, id));
            proof {
                assert(index_entries(index@) =~= before.push(e));
                lemma_table_push(before, e.0, e.1);
            }
        },
    }
}

/// Builds the name indexes of the input ports and of the output ports of `g`.
pub fn name_indexes(g: &Graph) -> (r: (NameIndex<Input>, NameIndex<Output>))
    requires
        g.wf(),
    ensures
        keys_unique(index_entries(r.0@)),
        keys_unique(index_entries(r.1@)),
        index_map(r.0@) == name_index(g.port_entries(), PortDirection::In),
        index_map(r.1@) == name_index(g.port_entries(), PortDirection::Out),
{
    let mut inputs: NameIndex<Input> = Vec::new();
    let mut outputs: NameIndex<Output> = Vec::new();
    assert(index_map(inputs@) =~= Map::empty());
    assert(index_map(outputs@) =~= Map::empty());
    let mut i: usize = 0;
    while i < g.ports.len()
        invariant
            i <= g.ports@.len(),
            keys_unique(index_entries(inputs@)),
            keys_unique(index_entries(outputs@)),
            index_map(inputs@) == name_index(g.port_entries().subrange(0, i as int), PortDirection::In),
            index_map(outputs@) == name_index(g.port_entries().subrange(0, i as int), PortDirection::Out),
        decreases g.ports@.len() - i,
    {
        let ghost next = g.port_entries().subrange(0, i as int + 1);
        assert(next.drop_last() =~= g.port_entries().subrange(0, i as int));
        assert(next.last() == g.port_entries()[i as int]);
        let entry = &g.ports[i];
        match entry.1.port_direction {
            PortDirection::In => {
                index_insert(&mut inputs, entry.1.port_name.copied(), entry.0.copied().input());
            },
            PortDirection::Out => {
                index_insert(&mut outputs, entry.1.port_name.copied(), entry.0.copied().output());
            },
        }
        i = i + 1;
    }
    assert(g.port_entries().subrange(0, i as int) =~= g.port_entries());
    (inputs, outputs)
}

/// What the reconciler decided for one declared link.
#[derive(Debug)]
pub enum LinkAction {
    /// Request a link from the output port to the input port: their
    /// handles, then their records.
    Connect(PortObjectId<Output>, PortObjectId<Input>, Port, Port),
    /// Report, once, that the two names do not both resolve.
    Report(PortName, PortName),
}

/// What a decision is, in the terms of the model: a connection between
/// the ports with these handles and records, or a report of a pair.
pub enum ActionView {
    Connect((Seq<char>, Seq<char>), PortView, PortView),
    Report((Seq<char>, Seq<char>)),
}

impl View for LinkAction {
    type V = ActionView;

    open spec fn view(&self) -> ActionView {
        match self {
            LinkAction::Connect(o, i, p, q) => ActionView::Connect((o@, i@), p@, q@),
            LinkAction::Report(s, d) => ActionView::Report((s@, d@)),
        }
    }
}

/// The views of a list of decisions.
pub open spec fn action_views(v: Seq<LinkAction>) -> Seq<ActionView> {
    v.map_values(|a: LinkAction| a@)
}

/// The views of a list of name pairs.
pub open spec fn pair_views(v: Seq<(PortName, PortName)>) -> Seq<(Seq<char>, Seq<char>)> {
    v.map_values(|e: (PortName, PortName)| (e.0@, e.1@))
}

/// The decision for the declared link `pair`, and the set of reported
/// pairs after it. When both names resolve: nothing if the two ports are
/// linked already, else a connect request, and the pair leaves the set.
/// When one does not: a report if the pair was not reported yet, and the
/// pair joins the set.
pub open spec fn link_step(
    ports: Map<Seq<char>, PortView>,
    links: Map<(Seq<char>, Seq<char>), Seq<LinkView>>,
    outs: Map<Seq<char>, Seq<char>>,
    ins: Map<Seq<char>, Seq<char>>,
    failed: Set<(Seq<char>, Seq<char>)>,
    pair: (Seq<char>, Seq<char>),
) -> (Option<ActionView>, Set<(Seq<char>, Seq<char>)>) {
    if outs.contains_key(pair.0) && ins.contains_key(pair.1) {
        let key = (outs[pair.0], ins[pair.1]);
        if links.contains_key(key) {
            (None, failed)
        } else {
            (Some(ActionView::Connect(key, ports[key.0], ports[key.1])), failed.remove(pair))
        }
    } else if failed.contains(pair) {
        (None, failed)
    } else {
        (Some(ActionView::Report(pair)), failed.insert(pair))
    }
}

/// The decisions for the declared links `desired`, in order, and the set
/// of reported pairs after them.
pub open spec fn reconcile_spec(
    ports: Map<Seq<char>, PortView>,
    links: Map<(Seq<char>, Seq<char>), Seq<LinkView>>,
    outs: Map<Seq<char>, Seq<char>>,
    ins: Map<Seq<char>, Seq<char>>,
    failed: Set<(Seq<char>, Seq<char>)>,
    desired: Seq<(Seq<char>, Seq<char>)>,
) -> (Seq<ActionView>, Set<(Seq<char>, Seq<char>)>)
    decreases desired.len(),
{
    if desired.len() == 0 {
        (Seq::empty(), failed)
    } else {
        let before = reconcile_spec(ports, links, outs, ins, failed, desired.drop_last());
        let s = link_step(ports, links, outs, ins, before.1, desired.last());
        (if s.0 is Some { before.0.push(s.0->Some_0) } else { before.0 }, s.1)
    }
}

/// The reconciler's state: the graph model, the declared links, and the
/// pairs whose failure to resolve was reported already.
pub struct Main {
    pub graph: Graph,
    pub config_links: NamedLinks,
    pub failed_pairs: Vec<(PortName, PortName)>,
    pub dump_and_exit: bool,
}

impl Main {
    /// The pairs whose failure to resolve was reported already.
    pub open spec fn failed(&self) -> Set<(Seq<char>, Seq<char>)> {
        pair_views(self.failed_pairs@).to_set()
    }

    /// The graph model is well formed.
    pub open spec fn wf(&self) -> bool {
        self.graph.wf()
    }

    /// A reconciler for the declared links `config_links`, with an empty
    /// graph; in dump mode when `dump_and_exit` holds.
    pub fn new(config_links: NamedLinks, dump_and_exit: bool) -> (r: Main)
        ensures
            r.wf(),
            r.graph.port_table() == Map::<Seq<char>, PortView>::empty(),
            r.graph.link_table() == Map::<(Seq<char>, Seq<char>), Seq<LinkView>>::empty(),
            r.graph.link_ids() == Map::<Seq<char>, (Seq<char>, Seq<char>)>::empty(),
            r.config_links@ == config_links@,
            r.failed() == Set::<(Seq<char>, Seq<char>)>::empty(),
            r.dump_and_exit == dump_and_exit,
    {
        let r = Main { graph: Graph::new(), config_links, failed_pairs: Vec::new(), dump_and_exit };
        assert(pair_views(r.failed_pairs@).to_set() =~= Set::empty());
        r
    }

    /// Applies an event of the server's registry to the graph model.
    pub fn process_message(&mut self, message: Message) -> (r: Result<(), InvariantViolation>)
        requires
            old(self).wf(),
        ensures
            final(self).wf(),
            final(self).config_links == old(self).config_links,
            final(self).failed() == old(self).failed(),
            final(self).dump_and_exit == old(self).dump_and_exit,
            match message {
                Message::Object(o) => add_applied(&old(self).graph, &final(self).graph, o.id@, props_view(o.properties@), r),
                Message::Remove(id) => r is Ok && remove_applied(&old(self).graph, &final(self).graph, id@),
            },
    {
        match message {
            Message::Object(object) => self.graph.apply_add(object.id, &object.properties),
            Message::Remove(id) => {
                self.graph.apply_remove(&id);
                Ok(())
            },
        }
    }

    fn failed_contains(&self, src: &PortName, dst: &PortName) -> (r: bool)
        ensures
            r == self.failed().contains((src@, dst@)),
    {
        let mut i: usize = 0;
        while i < self.failed_pairs.len()
            invariant
                i <= self.failed_pairs@.len(),
                forall|k: int| 0 <= k < i ==> #[trigger] pair_views(self.failed_pairs@)[k] != (src@, dst@),
            decreases self.failed_pairs@.len() - i,
        {
            if self.failed_pairs[i].0.0 == src.0 && self.failed_pairs[i].1.0 == dst.0 {
                assert(pair_views(self.failed_pairs@)[i as int] == (src@, dst@));
                return true;
            }
            i = i + 1;
        }
        false
    }

    fn failed_insert(&mut self, src: &PortName, dst: &PortName)
        ensures
            final(self).failed() == old(self).failed().insert((src@, dst@)),
            final(self).graph == old(self).graph,
            final(self).config_links == old(self).config_links,
            final(self).dump_and_exit == old(self).dump_and_exit,
    {
        let ghost before = pair_views(self.failed_pairs@);
        self.failed_pairs.push((src.copied(), dst.copied()));
        assert(pair_views(self.failed_pairs@) =~= before.push((src@, dst@)));
        assert(self.failed() =~= old(self).failed().insert((src@, dst@))) by {
            assert forall|p| #[trigger] self.failed().contains(p) == old(self).failed().insert((src@, dst@)).contains(p) by {
                if before.contains(p) {
                    let k = choose|k: int| 0 <= k < before.len() && before[k] == p;
                    assert(pair_views(self.failed_pairs@)[k] == p);
                }
                if pair_views(self.failed_pairs@).contains(p) && p != (src@, dst@) {
                    let k = choose|k: int| 0 <= k < pair_views(self.failed_pairs@).len() && pair_views(self.failed_pairs@)[k] == p;
                    assert(before[k] == p);
                }
                assert(pair_views(self.failed_pairs@)[before.len() as int] == (src@, dst@));
            }
        }
    }

    fn failed_remove(&mut self, src: &PortName, dst: &PortName)
        ensures
            final(self).failed() == old(self).failed().remove((src@, dst@)),
            final(self).graph == old(self).graph,
            final(self).config_links == old(self).config_links,
            final(self).dump_and_exit == old(self).dump_and_exit,
    {
        let ghost before = pair_views(self.failed_pairs@);
        let mut kept: Vec<(PortName, PortName)> = Vec::new();
        let mut i: usize = 0;
        while i < self.failed_pairs.len()
            invariant
                i <= self.failed_pairs@.len(),
                before == pair_views(self.failed_pairs@),
                forall|p| #[trigger] pair_views(kept@).contains(p) <==>
                    (p != (src@, dst@) && exists|k: int| 0 <= k < i && before[k] == p),
            decreases self.failed_pairs@.len() - i,
        {
            let e = &self.failed_pairs[i];
            let ghost kv = pair_views(kept@);
            if !(e.0.0 == src.0 && e.1.0 == dst.0) {
                kept.push((e.0.copied(), e.1.copied()));
                assert(pair_views(kept@) =~= kv.push(before[i as int]));
                assert forall|p| #[trigger] pair_views(kept@).contains(p) <==>
                    (p != (src@, dst@) && exists|k: int| 0 <= k < i + 1 && before[k] == p) by {
                    assert(before[i as int] == (e.0@, e.1@));
                    if pair_views(kept@).contains(p) && p != before[i as int] {
                        let k = choose|k: int| 0 <= k < pair_views(kept@).len() && pair_views(kept@)[k] == p;
                        assert(kv[k] == p);
                        assert(kv.contains(p));
                        let k2 = choose|k2: int| 0 <= k2 < i && before[k2] == p;
                        assert(0 <= k2 < i + 1 && before[k2] == p);
                    }
                    if exists|k: int| 0 <= k < i + 1 && before[k] == p {
                        let k = choose|k: int| 0 <= k < i + 1 && before[k] == p;
                        if k == i {
                            assert(pair_views(kept@)[kv.len() as int] == p);
                        } else if p != (src@, dst@) {
                            assert(kv.contains(p));
                            let j = choose|j: int| 0 <= j < kv.len() && kv[j] == p;
                            assert(pair_views(kept@)[j] == p);
                        }
                    }
                }
            } else {
                assert forall|p| #[trigger] pair_views(kept@).contains(p) <==>
                    (p != (src@, dst@) && exists|k: int| 0 <= k < i + 1 && before[k] == p) by {
                    if exists|k: int| 0 <= k < i + 1 && before[k] == p {
                        let k = choose|k: int| 0 <= k < i + 1 && before[k] == p;
                        if k < i {
                            assert(exists|k: int| 0 <= k < i && before[k] == p);
                        }
                    }
                }
            }
            i = i + 1;
        }
        self.failed_pairs = kept;
        assert(self.failed() =~= old(self).failed().remove((src@, dst@))) by {
            assert forall|p| #[trigger] self.failed().contains(p) == old(self).failed().remove((src@, dst@)).contains(p) by {
                if before.contains(p) {
                    let k = choose|k: int| 0 <= k < before.len() && before[k] == p;
                    assert(exists|k: int| 0 <= k < i && before[k] == p);
                }
            }
        }
    }

    /// Decides for the declared link from `src_name` to `dst_name`, with the
    /// name indexes `inputs` and `outputs` built from the graph, and keeps
    /// the set of reported pairs up to date.
    pub fn do_link(
        &mut self,
        inputs: &NameIndex<Input>,
        outputs: &NameIndex<Output>,
        src_name: &PortName,
        dst_name: &PortName,
    ) -> (r: Option<LinkAction>)
        requires
            old(self).wf(),
            keys_unique(index_entries(inputs@)),
            keys_unique(index_entries(outputs@)),
            index_in_graph(index_map(inputs@), &old(self).graph),
            index_in_graph(index_map(outputs@), &old(self).graph),
        ensures
            final(self).graph == old(self).graph,
            final(self).config_links == old(self).config_links,
            final(self).dump_and_exit == old(self).dump_and_exit,
            ({
                let s = link_step(old(self).graph.port_table(), old(self).graph.link_table(), index_map(outputs@),
                    index_map(inputs@), old(self).failed(), (src_name@, dst_name@));
                &&& final(self).failed() == s.1
                &&& match r {
                    Some(a) => s.0 == Some(a@),
                    None => s.0 is None,
                }
            }),
    {
        let src = index_find(outputs, src_name);
        let dst = index_find(inputs, dst_name);
        if let (Some(s), Some(d)) = (src, dst) {
            let out_id = &outputs[s].1;
            let in_id = &inputs[d].1;
            if self.graph.find_links(&out_id.0, &in_id.0).is_some() {
                return None;
            }
            let sp = match self.graph.find_port(&out_id.0) {
                Some(k) => self.graph.ports[k].1.copied(),
                None => {
                    proof {
                        assert(index_map(outputs@).contains_key(src_name@));
                    }
                    return None;
                },
            };
            let dp = match self.graph.find_port(&in_id.0) {
                Some(k) => self.graph.ports[k].1.copied(),
                None => {
                    proof {
                        assert(index_map(inputs@).contains_key(dst_name@));
                    }
                    return None;
                },
            };
            let action = LinkAction::Connect(out_id.copied(), in_id.copied(), sp, dp);
            self.failed_remove(src_name, dst_name);
            Some(action)
        } else if self.failed_contains(src_name, dst_name) {
            None
        } else {
            self.failed_insert(src_name, dst_name);
            Some(LinkAction::Report(src_name.copied(), dst_name.copied()))
        }
    }

    /// Decides for every declared link, in order, with the name indexes
    /// `inputs` and `outputs` built from the graph.
    pub fn reconcile(&mut self, inputs: &NameIndex<Input>, outputs: &NameIndex<Output>) -> (r: Vec<LinkAction>)
        requires
            old(self).wf(),
            keys_unique(index_entries(inputs@)),
            keys_unique(index_entries(outputs@)),
            index_in_graph(index_map(inputs@), &old(self).graph),
            index_in_graph(index_map(outputs@), &old(self).graph),
        ensures
            final(self).graph == old(self).graph,
            final(self).config_links == old(self).config_links,
            final(self).dump_and_exit == old(self).dump_and_exit,
            reconcile_spec(old(self).graph.port_table(), old(self).graph.link_table(), index_map(outputs@),
                index_map(inputs@), old(self).failed(), old(self).config_links@) == (action_views(r@), final(self).failed()),
    {
        let mut actions: Vec<LinkAction> = Vec::new();
        let mut i: usize = 0;
        assert(old(self).config_links@.subrange(0, 0) =~= Seq::<(Seq<char>, Seq<char>)>::empty());
        assert(action_views(actions@) =~= Seq::<ActionView>::empty());
        while i < self.config_links.0.len()
            invariant
                self.wf(),
                self.graph == old(self).graph,
                self.config_links == old(self).config_links,
                self.dump_and_exit == old(self).dump_and_exit,
                keys_unique(index_entries(inputs@)),
                keys_unique(index_entries(outputs@)),
                index_in_graph(index_map(inputs@), &old(self).graph),
                index_in_graph(index_map(outputs@), &old(self).graph),
                i <= self.config_links@.len(),
                self.config_links@.len() == self.config_links.0@.len(),
                reconcile_spec(old(self).graph.port_table(), old(self).graph.link_table(), index_map(outputs@),
                    index_map(inputs@), old(self).failed(), self.config_links@.subrange(0, i as int))
                    == (action_views(actions@), self.failed()),
            decreases self.config_links@.len() - i,
        {
            let src = self.config_links.0[i].src.copied();
            let dst = self.config_links.0[i].dst.copied();
            let ghost d = self.config_links@.subrange(0, i as int + 1);
            assert(d.drop_last() =~= self.config_links@.subrange(0, i as int));
            assert(d.last() == (src@, dst@));
            let ghost av = action_views(actions@);
            match self.do_link(inputs, outputs, &src, &dst) {
                Some(a) => {
                    actions.push(a);
                    assert(action_views(actions@) =~= av.push(a@));
                },
                None => {},
            }
            i = i + 1;
        }
        assert(self.config_links@.subrange(0, i as int) =~= self.config_links@);
        actions
    }

    /// The declared form of the links of the graph whose two ports are
    /// known, sorted by source name, then destination name.
    pub fn dump_links(&self) -> (r: NamedLinks)
        requires
            self.wf(),
        ensures
            sorted_pairs(r@),
            r@.to_multiset() == resolved_links(self.graph.port_table(), self.graph.link_entries()).to_multiset(),
    {
        let g = &self.graph;
        let mut items: Vec<NamedLink> = Vec::new();
        let mut i: usize = 0;
        assert(g.link_entries().subrange(0, 0) =~= Seq::<((Seq<char>, Seq<char>), Seq<LinkView>)>::empty());
        assert(link_views(items@) =~= Seq::<(Seq<char>, Seq<char>)>::empty());
        while i < g.links.len()
            invariant
                g.wf(),
                i <= g.links@.len(),
                link_views(items@) == resolved_links(g.port_table(), g.link_entries().subrange(0, i as int)),
            decreases g.links@.len() - i,
        {
            let ghost e = g.link_entries().subrange(0, i as int + 1);
            assert(e.drop_last() =~= g.link_entries().subrange(0, i as int));
            assert(e.last() == g.link_entries()[i as int]);
            let key = &g.links[i].0;
            let src = g.find_port(&key.0.0);
            let dst = g.find_port(&key.1.0);
            if let (Some(a), Some(b)) = (src, dst) {
                let l = NamedLink { src: g.ports[a].1.port_name.copied(), dst: g.ports[b].1.port_name.copied() };
                let ghost before = link_views(items@);
                items.push(l);
                assert(link_views(items@) =~= before.push(l@));
            }
            i = i + 1;
        }
        assert(g.link_entries().subrange(0, i as int) =~= g.link_entries());
        NamedLinks(sort_links(&items))
    }

    /// One turn of the control loop, on what the wait for an event gave.
    /// An event is applied to the graph. A quiet moment in dump mode gives
    /// the links to print; otherwise it gives the decision for every
    /// declared link, made with name indexes built from the graph. The end
    /// of the event stream stops the loop.
    pub fn step(&mut self, event: Event) -> (r: Result<Step, InvariantViolation>)
        requires
            old(self).wf(),
        ensures
            final(self).wf(),
            final(self).config_links == old(self).config_links,
            final(self).dump_and_exit == old(self).dump_and_exit,
            match event {
                Event::Received(m) => {
                    &&& final(self).failed() == old(self).failed()
                    &&& (r is Ok ==> (r->Ok_0 matches Step::Continue(a) && a@.len() == 0))
                    &&& match m {
                        Message::Object(o) => add_applied(&old(self).graph, &final(self).graph, o.id@,
                            props_view(o.properties@), match r { Ok(_) => Ok(()), Err(e) => Err(e) }),
                        Message::Remove(id) => r is Ok && remove_applied(&old(self).graph, &final(self).graph, id@),
                    }
                },
                Event::Timeout => {
                    &&& final(self).graph == old(self).graph
                    &&& r is Ok
                    &&& if old(self).dump_and_exit {
                        &&& final(self).failed() == old(self).failed()
                        &&& r->Ok_0 matches Step::Dump(l) && sorted_pairs(l@)
                            && l@.to_multiset() == resolved_links(old(self).graph.port_table(), old(self).graph.link_entries()).to_multiset()
                    } else {
                        r->Ok_0 matches Step::Continue(a) && reconcile_spec(old(self).graph.port_table(), old(self).graph.link_table(),
                            name_index(old(self).graph.port_entries(), PortDirection::Out),
                            name_index(old(self).graph.port_entries(), PortDirection::In),
                            old(self).failed(), old(self).config_links@) == (action_views(a@), final(self).failed())
                    }
                },
                Event::Disconnected => {
                    &&& final(self).graph == old(self).graph
                    &&& final(self).failed() == old(self).failed()
                    &&& r matches Ok(Step::Stop)
                },
            },
    {
        match event {
            Event::Received(m) => {
                match self.process_message(m) {
                    Ok(()) => Ok(Step::Continue(Vec::new())),
                    Err(e) => Err(e),
                }
            },
            Event::Timeout => {
                if self.dump_and_exit {
                    Ok(Step::Dump(self.dump_links()))
                } else {
                    let (inputs, outputs) = name_indexes(&self.graph);
                    proof {
                        lemma_index_in_graph(&self.graph, PortDirection::In);
                        lemma_index_in_graph(&self.graph, PortDirection::Out);
                    }
                    Ok(Step::Continue(self.reconcile(&inputs, &outputs)))
                }
            },
            Event::Disconnected => Ok(Step::Stop),
        }
    }
}

/// What the wait for the next registry event gave.
#[derive(Debug)]
pub enum Event {
    /// An event arrived.
    Received(Message),
    /// None arrived in time: the graph is quiet.
    Timeout,
    /// The event stream has ended with its session.
    Disconnected,
}

/// What the control loop does after one turn.
#[derive(Debug)]
pub enum Step {
    /// Go on, after carrying out these decisions.
    Continue(Vec<LinkAction>),
    /// Print these links in the declared form, end the session as done,
    /// and stop.
    Dump(NamedLinks),
    /// Stop.
    Stop,
}

/// How long the control loop waits for an event before it takes the graph
/// to be quiet, in milliseconds.
pub const QUIET_AFTER_MS: u64 = 100;

/// How long to wait before a new session after one failed, in milliseconds.
pub const RETRY_AFTER_MS: u64 = 1000;

/// What the supervisor does once a session has ended.
#[derive(Debug, Clone, Copy, PartialEq, Eq, Structural)]
pub enum SupervisorAction {
    /// End the process successfully.
    Exit,
    /// Start a new session after the retry delay.
    Retry,
    /// End the process with the session's error.
    Fail,
}

/// The supervisor's decision on a session that ended for `reason`: done
/// ends the process; an error is fatal in dump mode and retried otherwise.
pub fn after_session(reason: QuitReason, dump: bool) -> (r: SupervisorAction)
    ensures
        r == match reason {
            QuitReason::Done => SupervisorAction::Exit,
            QuitReason::Error => if dump { SupervisorAction::Fail } else { SupervisorAction::Retry },
        },
{
    match reason {
        QuitReason::Done => SupervisorAction::Exit,
        QuitReason::Error => if dump {
            SupervisorAction::Fail
        } else {
            SupervisorAction::Retry
        },
    }
}

/// The declared form of the links in `links` whose two ports are in
/// `ports`, in table order: the name of the output port, then that of the
/// input port.
pub open spec fn resolved_links(ports: Map<Seq<char>, PortView>, links: Seq<((Seq<char>, Seq<char>), Seq<LinkView>)>) -> Seq<(Seq<char>, Seq<char>)>
    decreases links.len(),
{
    if links.len() == 0 {
        Seq::empty()
    } else {
        let r = resolved_links(ports, links.drop_last());
        let k = links.last().0;
        if ports.contains_key(k.0) && ports.contains_key(k.1) {
            r.push((ports[k.0].name, ports[k.1].name))
        } else {
            r
        }
    }
}

fn link_less(a: &NamedLink, b: &NamedLink) -> (r: bool)
    ensures
        r == pair_lt(a@, b@),
{
    less_than(&a.src.0, &b.src.0) || (a.src.0 == b.src.0 && less_than(&a.dst.0, &b.dst.0))
}

proof fn lemma_insert_sorted(s: Seq<(Seq<char>, Seq<char>)>, pos: int, x: (Seq<char>, Seq<char>))
    requires
        sorted_pairs(s),
        0 <= pos <= s.len(),
        forall|k: int| 0 <= k < pos ==> !pair_lt(x, #[trigger] s[k]),
        pos < s.len() ==> pair_lt(x, s[pos]),
    ensures
        sorted_pairs(s.insert(pos, x)),
{
    let t = s.insert(pos, x);
    assert forall|i: int, j: int| 0 <= i < j < t.len() implies !pair_lt(#[trigger] t[j], #[trigger] t[i]) by {
        if j < pos {
            assert(t[i] == s[i] && t[j] == s[j]);
        } else if j == pos {
            assert(t[i] == s[i]);
        } else if i < pos {
            assert(t[i] == s[i] && t[j] == s[j - 1]);
        } else if i == pos {
            assert(t[j] == s[j - 1]);
            lemma_pair_order(s[j - 1], x, s[pos]);
            if j - 1 > pos {
                assert(!pair_lt(s[j - 1], s[pos]));
            }
        } else {
            assert(t[i] == s[i - 1] && t[j] == s[j - 1]);
        }
    }
}

/// `items` sorted by source name, then destination name.
fn sort_links(items: &Vec<NamedLink>) -> (r: Vec<NamedLink>)
    ensures
        sorted_pairs(link_views(r@)),
        link_views(r@).to_multiset() == link_views(items@).to_multiset(),
{
    let mut out: Vec<NamedLink> = Vec::new();
    let mut i: usize = 0;
    assert(link_views(items@).subrange(0, 0) =~= Seq::<(Seq<char>, Seq<char>)>::empty());
    assert(link_views(out@) =~= Seq::<(Seq<char>, Seq<char>)>::empty());
    while i < items.len()
        invariant
            i <= items@.len(),
            sorted_pairs(link_views(out@)),
            link_views(out@).to_multiset() == link_views(items@).subrange(0, i as int).to_multiset(),
        decreases items@.len() - i,
    {
        let x = NamedLink { src: items[i].src.copied(), dst: items[i].dst.copied() };
        let mut pos: usize = 0;
        while pos < out.len() && !link_less(&x, &out[pos])
            invariant
                pos <= out@.len(),
                forall|k: int| 0 <= k < pos ==> !pair_lt(x@, #[trigger] link_views(out@)[k]),
            decreases out@.len() - pos,
        {
            pos = pos + 1;
        }
        let ghost before = link_views(out@);
        proof {
            lemma_insert_sorted(before, pos as int, x@);
        }
        let ghost xv = x@;
        assert(xv == link_views(items@)[i as int]);
        out.insert(pos, x);
        assert(link_views(out@) =~= before.insert(pos as int, xv));
        assert(link_views(items@).subrange(0, i as int + 1) =~= link_views(items@).subrange(0, i as int).push(xv));
        proof {
            vstd::seq_lib::to_multiset_insert(before, pos as int, xv);
            vstd::seq_lib::to_multiset_build(link_views(items@).subrange(0, i as int), xv);
        }
        i = i + 1;
    }
    assert(link_views(items@).subrange(0, i as int) =~= link_views(items@));
    out
}

/// Whether `pair` resolves to a port of each direction by name.
pub open spec fn resolves(outs: Map<Seq<char>, Seq<char>>, ins: Map<Seq<char>, Seq<char>>, pair: (Seq<char>, Seq<char>)) -> bool {
    outs.contains_key(pair.0) && ins.contains_key(pair.1)
}

/// A reconciliation pass never requests a link between two ports that
/// are linked already.
pub proof fn law_no_connect_when_linked(
    ports: Map<Seq<char>, PortView>,
    links: Map<(Seq<char>, Seq<char>), Seq<LinkView>>,
    outs: Map<Seq<char>, Seq<char>>,
    ins: Map<Seq<char>, Seq<char>>,
    failed: Set<(Seq<char>, Seq<char>)>,
    desired: Seq<(Seq<char>, Seq<char>)>,
)
    ensures
        forall|j: int| 0 <= j < reconcile_spec(ports, links, outs, ins, failed, desired).0.len()
            && (#[trigger] reconcile_spec(ports, links, outs, ins, failed, desired).0[j]) is Connect
            ==> !links.contains_key(reconcile_spec(ports, links, outs, ins, failed, desired).0[j]->Connect_0),
    decreases desired.len(),
{
    if desired.len() > 0 {
        law_no_connect_when_linked(ports, links, outs, ins, failed, desired.drop_last());
    }
}

/// A pass reports a pair that does not resolve at most once, not at all
/// when it was reported before, and leaves it among the reported pairs.
pub proof fn law_report_once(
    ports: Map<Seq<char>, PortView>,
    links: Map<(Seq<char>, Seq<char>), Seq<LinkView>>,
    outs: Map<Seq<char>, Seq<char>>,
    ins: Map<Seq<char>, Seq<char>>,
    failed: Set<(Seq<char>, Seq<char>)>,
    desired: Seq<(Seq<char>, Seq<char>)>,
    pair: (Seq<char>, Seq<char>),
)
    ensures
        ({
            let r = reconcile_spec(ports, links, outs, ins, failed, desired);
            &&& failed.contains(pair) ==> forall|j: int| 0 <= j < r.0.len() ==> #[trigger] r.0[j] != ActionView::Report(pair)
            &&& forall|j1: int, j2: int| 0 <= j1 < r.0.len() && 0 <= j2 < r.0.len()
                && #[trigger] r.0[j1] == ActionView::Report(pair) && #[trigger] r.0[j2] == ActionView::Report(pair) ==> j1 == j2
            &&& (exists|j: int| 0 <= j < r.0.len() && #[trigger] r.0[j] == ActionView::Report(pair)) ==> r.1.contains(pair)
            &&& !resolves(outs, ins, pair) && failed.contains(pair) ==> r.1.contains(pair)
            &&& (exists|j: int| 0 <= j < r.0.len() && #[trigger] r.0[j] == ActionView::Report(pair)) ==> !resolves(outs, ins, pair)
        }),
    decreases desired.len(),
{
    if desired.len() > 0 {
        law_report_once(ports, links, outs, ins, failed, desired.drop_last(), pair);
        let before = reconcile_spec(ports, links, outs, ins, failed, desired.drop_last());
        let s = link_step(ports, links, outs, ins, before.1, desired.last());
        let r = reconcile_spec(ports, links, outs, ins, failed, desired);
        let q = desired.last();
        assert(forall|j: int| 0 <= j < before.0.len() ==> r.0[j] == before.0[j]);
        let last_reports = s.0 == Some(ActionView::Report(pair));
        if s.0 is Some {
            assert(r.0[before.0.len() as int] == s.0->Some_0);
            assert(r.0.len() == before.0.len() + 1);
        } else {
            assert(r.0 == before.0);
        }
        if last_reports {
            assert(q == pair && !resolves(outs, ins, pair) && !before.1.contains(pair));
            assert(s.1.contains(pair));
        }
        if !resolves(outs, ins, pair) && before.1.contains(pair) {
            assert(s.1.contains(pair));
            assert(!last_reports);
        }
        let earlier = exists|j: int| 0 <= j < before.0.len() && #[trigger] before.0[j] == ActionView::Report(pair);
        if exists|j: int| 0 <= j < r.0.len() && #[trigger] r.0[j] == ActionView::Report(pair) {
            let j = choose|j: int| 0 <= j < r.0.len() && #[trigger] r.0[j] == ActionView::Report(pair);
            if j < before.0.len() {
                assert(before.0[j] == ActionView::Report(pair));
                assert(earlier);
            } else {
                assert(last_reports);
            }
        }
        if earlier {
            assert(before.1.contains(pair));
            assert(!last_reports);
        }
        assert forall|j1: int, j2: int| 0 <= j1 < r.0.len() && 0 <= j2 < r.0.len()
            && #[trigger] r.0[j1] == ActionView::Report(pair) && #[trigger] r.0[j2] == ActionView::Report(pair) implies j1 == j2 by {
            if j1 < before.0.len() && j2 < before.0.len() {
                assert(before.0[j1] == ActionView::Report(pair) && before.0[j2] == ActionView::Report(pair));
            } else if j1 < before.0.len() {
                assert(before.0[j1] == ActionView::Report(pair));
                assert(earlier);
            } else if j2 < before.0.len() {
                assert(before.0[j2] == ActionView::Report(pair));
                assert(earlier);
            }
        }
        if failed.contains(pair) {
            assert forall|j: int| 0 <= j < r.0.len() implies #[trigger] r.0[j] != ActionView::Report(pair) by {
                if j < before.0.len() {
                    assert(r.0[j] == before.0[j]);
                } else if r.0[j] == ActionView::Report(pair) {
                    assert(last_reports);
                    assert(before.1.contains(pair));
                }
            }
        }
    }
}

/// The dump of a graph whose port names hold no braces, read back as a
/// declared link set, expands to itself: the same links, in the same
/// sorted order.
pub proof fn law_dump_round_trip(g: &Graph, dumped: Seq<(Seq<char>, Seq<char>)>)
    requires
        forall|i: int| 0 <= i < resolved_links(g.port_table(), g.link_entries()).len() ==>
            brace_free(#[trigger] resolved_links(g.port_table(), g.link_entries())[i].0)
            && brace_free(resolved_links(g.port_table(), g.link_entries())[i].1),
        dumped.to_multiset() == resolved_links(g.port_table(), g.link_entries()).to_multiset(),
    ensures
        expand_all(dumped) == Ok::<_, (Seq<char>, Seq<char>)>(dumped),
{
    let all = resolved_links(g.port_table(), g.link_entries());
    assert forall|i: int| 0 <= i < dumped.len() implies brace_free(#[trigger] dumped[i].0) && brace_free(dumped[i].1) by {
        vstd::seq_lib::to_multiset_contains(dumped, dumped[i]);
        vstd::seq_lib::to_multiset_contains(all, dumped[i]);
        assert(dumped.contains(dumped[i]));
        let k = choose|k: int| 0 <= k < all.len() && all[k] == dumped[i];
        assert(brace_free(all[k].0));
    }
    law_plain_links(dumped);
}

} // verus!
