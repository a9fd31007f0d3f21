//! The graph model: the ports and links that the media server reports,
//! kept up to date by add and remove events.
use vstd::prelude::*;
use std::marker::PhantomData;
use crate::config::PortName;
use crate::table::{keys_unique, table_map, lemma_table_index, lemma_table_missing, lemma_table_push, lemma_table_remove, lemma_table_update};
use crate::text::decimal_string;
use crate::text::decimal;

verus! {

/// The handle that the server gives a graph object.
#[derive(Debug, Clone, PartialEq, Eq, Hash, PartialOrd)]
pub struct ObjectId(pub String);

impl View for ObjectId {
    type V = Seq<char>;

    open spec fn view(&self) -> Seq<char> {
        self.0@
    }
}

impl ObjectId {
    /// The handle of the global object numbered `id`, in decimal.
    pub fn from_global(id: u32) -> (r: ObjectId)
        ensures
            r@ == decimal(id as nat),
    {
        ObjectId(decimal_string(id as u64))
    }
}

/// Tags a port handle whose direction is that of an input port.
#[derive(Debug, Clone, PartialEq, Eq, Hash, PartialOrd)]
pub struct Input();

/// Tags a port handle whose direction is that of an output port.
#[derive(Debug, Clone, PartialEq, Eq, Hash, PartialOrd)]
pub struct Output();

/// Tags a port handle whose direction is not known.
#[derive(Debug, Clone, PartialEq, Eq, Hash, PartialOrd)]
pub struct Unknown();

/// The handle of a port, tagged with what is known of its direction, so
/// that a source handle cannot stand where a destination one is wanted.
#[derive(Debug, PartialEq, Eq)]
pub struct PortObjectId<Direction>(pub String, pub PhantomData<Direction>);

impl<Direction> View for PortObjectId<Direction> {
    type V = Seq<char>;

    open spec fn view(&self) -> Seq<char> {
        self.0@
    }
}

impl<Direction> PortObjectId<Direction> {
    /// The port handle of an object.
    pub fn from_object(id: ObjectId) -> (r: PortObjectId<Direction>)
        ensures
            r@ == id@,
    {
        PortObjectId(id.0, PhantomData)
    }

    /// The port handle written `s`.
    pub fn from_text(s: &str) -> (r: PortObjectId<Direction>)
        ensures
            r@ == s@,
    {
        PortObjectId(String::from_str(s), PhantomData)
    }

    /// The object handle of the port.
    pub fn object(self) -> (r: ObjectId)
        ensures
            r@ == self@,
    {
        ObjectId(self.0)
    }

    /// A copy of the handle.
    pub fn copied(&self) -> (r: PortObjectId<Direction>)
        ensures
            r@ == self@,
    {
        PortObjectId(self.0.clone(), PhantomData)
    }
}

impl PortObjectId<Unknown> {
    /// The same handle, known to be that of an input port.
    pub fn input(self) -> (r: PortObjectId<Input>)
        ensures
            r@ == self@,
    {
        PortObjectId::<Input>(self.0, PhantomData)
    }

    /// The same handle, known to be that of an output port.
    pub fn output(self) -> (r: PortObjectId<Output>)
        ensures
            r@ == self@,
    {
        PortObjectId::<Output>(self.0, PhantomData)
    }
}

impl PortObjectId<Input> {
    /// The same handle, for a lookup among all ports.
    pub fn unknown(self) -> (r: PortObjectId<Unknown>)
        ensures
            r@ == self@,
    {
        PortObjectId::<Unknown>(self.0, PhantomData)
    }
}

impl PortObjectId<Output> {
    /// The same handle, for a lookup among all ports.
    pub fn unknown(self) -> (r: PortObjectId<Unknown>)
        ensures
            r@ == self@,
    {
        PortObjectId::<Unknown>(self.0, PhantomData)
    }
}

/// The handle of a link object.
#[derive(Debug, Clone, PartialEq, Eq, Hash, PartialOrd)]
pub struct LinkObjectId(pub String);

impl View for LinkObjectId {
    type V = Seq<char>;

    open spec fn view(&self) -> Seq<char> {
        self.0@
    }
}

impl LinkObjectId {
    /// The link handle of an object.
    pub fn from_object(id: ObjectId) -> (r: LinkObjectId)
        ensures
            r@ == id@,
    {
        LinkObjectId(id.0)
    }

    /// The object handle of the link.
    pub fn object(self) -> (r: ObjectId)
        ensures
            r@ == self@,
    {
        ObjectId(self.0)
    }
}

/// Whether a port takes media in or sends it out.
#[derive(Debug, Clone, Copy, PartialEq, Eq, Hash, PartialOrd, Structural)]
pub enum PortDirection {
    In,
    Out,
}

/// The node that a port belongs to, as the server writes it.
#[derive(Debug, Clone, PartialEq, Eq, Hash, PartialOrd)]
pub struct NodeId(pub String);

/// The number of a port within its node, as the server writes it.
#[derive(Debug, Clone, PartialEq, Eq, Hash, PartialOrd)]
pub struct PortId(pub String);

/// A port as the graph model holds it.
#[derive(Debug, Clone)]
pub struct Port {
    pub node_id: NodeId,
    pub port_name: PortName,
    pub port_id: PortId,
    pub port_direction: PortDirection,
}

/// What the model knows of a port.
pub struct PortView {
    pub node: Seq<char>,
    pub name: Seq<char>,
    pub port: Seq<char>,
    pub direction: PortDirection,
}

impl View for Port {
    type V = PortView;

    open spec fn view(&self) -> PortView {
        PortView {
            node: self.node_id.0@,
            name: self.port_name@,
            port: self.port_id.0@,
            direction: self.port_direction,
        }
    }
}

impl Port {
    /// A copy of the port.
    pub fn copied(&self) -> (r: Port)
        ensures
            r@ == self@,
    {
        Port {
            node_id: NodeId(self.node_id.0.clone()),
            port_name: self.port_name.copied(),
            port_id: PortId(self.port_id.0.clone()),
            port_direction: self.port_direction,
        }
    }
}

/// A link as the graph model holds it: from an output port to an input port.
#[derive(Debug)]
pub struct Link {
    pub link_input_node: NodeId,
    pub link_input_port: PortObjectId<Input>,
    pub link_output_node: NodeId,
    pub link_output_port: PortObjectId<Output>,
}

/// What the model knows of a link.
pub struct LinkView {
    pub input_node: Seq<char>,
    pub input_port: Seq<char>,
    pub output_node: Seq<char>,
    pub output_port: Seq<char>,
}

impl View for Link {
    type V = LinkView;

    open spec fn view(&self) -> LinkView {
        LinkView {
            input_node: self.link_input_node.0@,
            input_port: self.link_input_port@,
            output_node: self.link_output_node.0@,
            output_port: self.link_output_port@,
        }
    }
}

/// The key of the links between two ports: the output port, then the
/// input port.
pub type LinkKey = (PortObjectId<Output>, PortObjectId<Input>);

/// The handles of the two ports of a link key.
pub open spec fn key_view(k: LinkKey) -> (Seq<char>, Seq<char>) {
    (k.0@, k.1@)
}

/// An object that the server announced, with its properties.
#[derive(Debug)]
pub struct Object {
    pub id: ObjectId,
    pub properties: Vec<(String, String)>,
}

/// An event of the server's registry.
#[derive(Debug)]
pub enum Message {
    Object(Object),
    Remove(ObjectId),
}

/// The message that announces the removal of the global object `id`.
pub fn global_remove_callback(id: u32) -> (r: Message)
    ensures
        r matches Message::Remove(o) && o@ == decimal(id as nat),
{
    Message::Remove(ObjectId::from_global(id))
}

/// A report from the server that contradicts what the model holds.
#[derive(Debug, Clone, Copy, PartialEq, Eq, Structural)]
pub enum InvariantViolation {
    /// A port's direction is neither `in` nor `out`.
    UnknownDirection,
    /// A port was added under a handle that a port already has.
    DuplicatePort,
    /// A link was added under a handle that a link already has.
    DuplicateLink,
}

/// The views of a list of properties.
pub open spec fn props_view(p: Seq<(String, String)>) -> Seq<(Seq<char>, Seq<char>)> {
    p.map_values(|e: (String, String)| (e.0@, e.1@))
}

/// A lookup of `key` in `props` from the front stops at `i`.
pub open spec fn prop_stop(props: Seq<(Seq<char>, Seq<char>)>, key: Seq<char>, i: int) -> bool {
    &&& 0 <= i <= props.len()
    &&& forall|k: int| 0 <= k < i ==> #[trigger] props[k].0 != key
    &&& i < props.len() ==> props[i].0 == key
}

/// The value of the first property named `key`, if there is one.
pub open spec fn prop(props: Seq<(Seq<char>, Seq<char>)>, key: Seq<char>) -> Option<Seq<char>> {
    let i = choose|i: int| prop_stop(props, key, i);
    if i < props.len() { Some(props[i].1) } else { None }
}

proof fn lemma_prop_stop(props: Seq<(Seq<char>, Seq<char>)>, key: Seq<char>, i: int)
    requires
        prop_stop(props, key, i),
    ensures
        prop(props, key) == (if i < props.len() { Some(props[i].1) } else { None::<Seq<char>> }),
{
    let j = choose|j: int| prop_stop(props, key, j);
    assert(prop_stop(props, key, j));
    if j < i {
        assert(props[j].0 != key);
    } else if i < j {
        assert(props[i].0 != key);
    }
}

/// What an added object is to the graph model.
pub enum AddKind {
    Port(PortView),
    Link(LinkView),
    BadDirection,
    Other,
}

/// The direction written `s`, if it writes one.
pub open spec fn direction_of(s: Seq<char>) -> Option<PortDirection> {
    if s == "in"@ {
        Some(PortDirection::In)
    } else if s == "out"@ {
        Some(PortDirection::Out)
    } else {
        None
    }
}

/// How the properties of an added object classify it: a port when it has
/// a name, a node, a port number and a direction (its alias, if any,
/// standing for its name); else a link when it has both endpoints; else
/// nothing of interest.
pub open spec fn classify(props: Seq<(Seq<char>, Seq<char>)>) -> AddKind {
    let name = prop(props, "port.name"@);
    let node = prop(props, "node.id"@);
    let port = prop(props, "port.id"@);
    let dir = prop(props, "port.direction"@);
    let alias = prop(props, "port.alias"@);
    let out_port = prop(props, "link.output.port"@);
    let out_node = prop(props, "link.output.node"@);
    let in_port = prop(props, "link.input.port"@);
    let in_node = prop(props, "link.input.node"@);
    if name is Some && node is Some && port is Some && dir is Some {
        match direction_of(dir->Some_0) {
            None => AddKind::BadDirection,
            Some(d) => AddKind::Port(PortView {
                node: node->Some_0,
                name: if alias is Some { alias->Some_0 } else { name->Some_0 },
                port: port->Some_0,
                direction: d,
            }),
        }
    } else if out_port is Some && out_node is Some && in_port is Some && in_node is Some {
        AddKind::Link(LinkView {
            input_node: in_node->Some_0,
            input_port: in_port->Some_0,
            output_node: out_node->Some_0,
            output_port: out_port->Some_0,
        })
    } else {
        AddKind::Other
    }
}

/// The ports and links that the server reports, by handle.
pub struct Graph {
    pub ports: Vec<(PortObjectId<Unknown>, Port)>,
    pub links: Vec<(LinkKey, Vec<Link>)>,
    pub links_by_id: Vec<(LinkObjectId, LinkKey)>,
}

/// The views of a list of links.
pub open spec fn link_list_view(v: Seq<Link>) -> Seq<LinkView> {
    v.map_values(|l: Link| l@)
}

impl Graph {
    /// The ports in table order, by handle.
    pub open spec fn port_entries(&self) -> Seq<(Seq<char>, PortView)> {
        self.ports@.map_values(|e: (PortObjectId<Unknown>, Port)| (e.0@, e.1@))
    }

    /// The links in table order, by the key of their ports.
    pub open spec fn link_entries(&self) -> Seq<((Seq<char>, Seq<char>), Seq<LinkView>)> {
        self.links@.map_values(|e: (LinkKey, Vec<Link>)| (key_view(e.0), link_list_view(e.1@)))
    }

    /// The link keys in table order, by the handle of the link.
    pub open spec fn link_id_entries(&self) -> Seq<(Seq<char>, (Seq<char>, Seq<char>))> {
        self.links_by_id@.map_values(|e: (LinkObjectId, LinkKey)| (e.0@, key_view(e.1)))
    }

    /// The port table: each port by its handle.
    pub open spec fn port_table(&self) -> Map<Seq<char>, PortView> {
        table_map(self.port_entries())
    }

    /// The link table: the links between two ports, in the order they
    /// were added, by the key of the two ports.
    pub open spec fn link_table(&self) -> Map<(Seq<char>, Seq<char>), Seq<LinkView>> {
        table_map(self.link_entries())
    }

    /// The key of each link by the link's own handle.
    pub open spec fn link_ids(&self) -> Map<Seq<char>, (Seq<char>, Seq<char>)> {
        table_map(self.link_id_entries())
    }

    /// The tables have distinct keys and no empty list of links.
    pub open spec fn wf(&self) -> bool {
        &&& keys_unique(self.port_entries())
        &&& keys_unique(self.link_entries())
        &&& keys_unique(self.link_id_entries())
        &&& forall|k| #[trigger] self.link_table().contains_key(k) ==> self.link_table()[k].len() > 0
    }

    /// An empty graph.
    pub fn new() -> (r: Graph)
        ensures
            r.wf(),
            r.port_table() == Map::<Seq<char>, PortView>::empty(),
            r.link_table() == Map::<(Seq<char>, Seq<char>), Seq<LinkView>>::empty(),
            r.link_ids() == Map::<Seq<char>, (Seq<char>, Seq<char>)>::empty(),
    {
        let r = Graph { ports: Vec::new(), links: Vec::new(), links_by_id: Vec::new() };
        assert(r.port_table() =~= Map::empty());
        assert(r.link_table() =~= Map::empty());
        assert(r.link_ids() =~= Map::empty());
        r
    }

    /// Where the port with handle `id` stands in the port table.
    pub fn find_port(&self, id: &String) -> (r: Option<usize>)
        requires
            self.wf(),
        ensures
            match r {
                Some(i) => i < self.ports@.len() && self.ports@[i as int].0@ == id@
                    && self.port_table().contains_key(id@) && self.port_table()[id@] == self.ports@[i as int].1@,
                None => !self.port_table().contains_key(id@),
            },
    {
        let mut i: usize = 0;
        while i < self.ports.len()
            invariant
                self.wf(),
                i <= self.ports@.len(),
                forall|k: int| 0 <= k < i ==> #[trigger] self.port_entries()[k].0 != id@,
            decreases self.ports@.len() - i,
        {
            if self.ports[i].0.0 == *id {
                proof {
                    lemma_table_index(self.port_entries(), i as int);
                }
                return Some(i);
            }
            i = i + 1;
        }
        proof {
            lemma_table_missing(self.port_entries(), id@);
        }
        None
    }

    /// Where the links under `key` stand in the link table.
    pub fn find_links(&self, out_port: &String, in_port: &String) -> (r: Option<usize>)
        requires
            self.wf(),
        ensures
            match r {
                Some(i) => i < self.links@.len() && key_view(self.links@[i as int].0) == (out_port@, in_port@)
                    && self.link_table().contains_key((out_port@, in_port@))
                    && self.link_table()[(out_port@, in_port@)] == link_list_view(self.links@[i as int].1@),
                None => !self.link_table().contains_key((out_port@, in_port@)),
            },
    {
        let mut i: usize = 0;
        while i < self.links.len()
            invariant
                self.wf(),
                i <= self.links@.len(),
                forall|k: int| 0 <= k < i ==> #[trigger] self.link_entries()[k].0 != (out_port@, in_port@),
            decreases self.links@.len() - i,
        {
            if self.links[i].0.0.0 == *out_port && self.links[i].0.1.0 == *in_port {
                proof {
                    lemma_table_index(self.link_entries(), i as int);
                }
                return Some(i);
            }
            i = i + 1;
        }
        proof {
            lemma_table_missing(self.link_entries(), (out_port@, in_port@));
        }
        None
    }

    /// Where the link with handle `id` stands in the index of link handles.
    pub fn find_link_id(&self, id: &String) -> (r: Option<usize>)
        requires
            self.wf(),
        ensures
            match r {
                Some(i) => i < self.links_by_id@.len() && self.links_by_id@[i as int].0@ == id@
                    && self.link_ids().contains_key(id@)
                    && self.link_ids()[id@] == key_view(self.links_by_id@[i as int].1),
                None => !self.link_ids().contains_key(id@),
            },
    {
        let mut i: usize = 0;
        while i < self.links_by_id.len()
            invariant
                self.wf(),
                i <= self.links_by_id@.len(),
                forall|k: int| 0 <= k < i ==> #[trigger] self.link_id_entries()[k].0 != id@,
            decreases self.links_by_id@.len() - i,
        {
            if self.links_by_id[i].0.0 == *id {
                proof {
                    lemma_table_index(self.link_id_entries(), i as int);
                }
                return Some(i);
            }
            i = i + 1;
        }
        proof {
            lemma_table_missing(self.link_id_entries(), id@);
        }
        None
    }
}

/// The value of the first property named `key`, if there is one.
pub fn property<'a>(props: &'a Vec<(String, String)>, key: &str) -> (r: Option<&'a String>)
    ensures
        prop(props_view(props@), key@) == match r {
            Some(v) => Some(v@),
            None => None::<Seq<char>>,
        },
{
    let k = String::from_str(key);
    let mut i: usize = 0;
    while i < props.len()
        invariant
            k@ == key@,
            i <= props@.len(),
            forall|j: int| 0 <= j < i ==> #[trigger] props_view(props@)[j].0 != key@,
        decreases props@.len() - i,
    {
        if props[i].0 == k {
            proof {
                lemma_prop_stop(props_view(props@), key@, i as int);
            }
            return Some(&props[i].1);
        }
        i = i + 1;
    }
    proof {
        lemma_prop_stop(props_view(props@), key@, i as int);
    }
    None
}

impl PortDirection {
    /// The direction written `s`: `in` or `out`.
    pub fn parse(s: &String) -> (r: Option<PortDirection>)
        ensures
            r == direction_of(s@),
    {
        if *s == String::from_str("in") {
            Some(PortDirection::In)
        } else if *s == String::from_str("out") {
            Some(PortDirection::Out)
        } else {
            None
        }
    }
}

/// The links under `key` after `l` is added to them.
pub open spec fn with_link(t: Map<(Seq<char>, Seq<char>), Seq<LinkView>>, key: (Seq<char>, Seq<char>), l: LinkView) -> Map<(Seq<char>, Seq<char>), Seq<LinkView>> {
    t.insert(key, (if t.contains_key(key) { t[key] } else { Seq::empty() }).push(l))
}

/// `new` is `old` after the object `id` with the properties `props` was
/// announced, and `r` is what the announcement returned.
pub open spec fn add_applied(old: &Graph, new: &Graph, id: Seq<char>, props: Seq<(Seq<char>, Seq<char>)>, r: Result<(), InvariantViolation>) -> bool {
    match classify(props) {
        AddKind::Port(p) => if old.port_table().contains_key(id) {
            r == Err::<(), _>(InvariantViolation::DuplicatePort) && new.same_tables(old)
        } else {
            &&& r is Ok
            &&& new.port_table() == old.port_table().insert(id, p)
            &&& new.link_table() == old.link_table()
            &&& new.link_ids() == old.link_ids()
        },
        AddKind::Link(l) => if old.link_ids().contains_key(id) {
            r == Err::<(), _>(InvariantViolation::DuplicateLink) && new.same_tables(old)
        } else {
            &&& r is Ok
            &&& new.port_table() == old.port_table()
            &&& new.link_table() == with_link(old.link_table(), (l.output_port, l.input_port), l)
            &&& new.link_ids() == old.link_ids().insert(id, (l.output_port, l.input_port))
        },
        AddKind::BadDirection => r == Err::<(), _>(InvariantViolation::UnknownDirection) && new.same_tables(old),
        AddKind::Other => r is Ok && new.same_tables(old),
    }
}

/// `new` is `old` after the object `id` was removed.
pub open spec fn remove_applied(old: &Graph, new: &Graph, id: Seq<char>) -> bool {
    &&& new.port_table() == old.port_table().remove(id)
    &&& new.link_ids() == old.link_ids().remove(id)
    &&& new.link_table() == if old.link_ids().contains_key(id) {
        old.link_table().remove(old.link_ids()[id])
    } else {
        old.link_table()
    }
}

impl Graph {
    /// The three tables of `self` and `other` are the same.
    pub open spec fn same_tables(&self, other: &Graph) -> bool {
        &&& self.port_table() == other.port_table()
        &&& self.link_table() == other.link_table()
        &&& self.link_ids() == other.link_ids()
    }

    /// Records the object `id` that the server announced with the
    /// properties `props`: a port goes into the port table, a link into the
    /// link table under the key of its ports and into the index of link
    /// handles; any other object is ignored. A port whose direction is
    /// neither `in` nor `out`, and a handle that is already taken, are
    /// refused, and the graph stays as it was.
    pub fn apply_add(&mut self, id: ObjectId, props: &Vec<(String, String)>) -> (r: Result<(), InvariantViolation>)
        requires
            old(self).wf(),
        ensures
            final(self).wf(),
            add_applied(old(self), final(self), id@, props_view(props@), r),
    {
        let name = property(props, "port.name");
        let node = property(props, "node.id");
        let port = property(props, "port.id");
        let dir = property(props, "port.direction");
        if let (Some(name), Some(node), Some(port), Some(dir)) = (name, node, port, dir) {
            let direction = match PortDirection::parse(dir) {
                Some(d) => d,
                None => {
                    return Err(InvariantViolation::UnknownDirection);
                },
            };
            let port_name = match property(props, "port.alias") {
                Some(alias) => PortName(alias.clone()),
                None => PortName(name.clone()),
            };
            let p = Port {
                node_id: NodeId(node.clone()),
                port_name,
                port_id: PortId(port.clone()),
                port_direction: direction,
            };
            if self.find_port(&id.0).is_some() {
                return Err(InvariantViolation::DuplicatePort);
            }
            let ghost before = self.port_entries();
            let key: PortObjectId<Unknown> = PortObjectId::from_object(id);
            let ghost kv = key@;
            self.ports.push((key, p));
            proof {
                assert(self.port_entries() =~= before.push((kv, p@)));
                lemma_table_push(before, kv, p@);
                assert(self.link_table() == old(self).link_table());
            }
            return Ok(());
        }
        let out_port = property(props, "link.output.port");
        let out_node = property(props, "link.output.node");
        let in_port = property(props, "link.input.port");
        let in_node = property(props, "link.input.node");
        if let (Some(out_port), Some(out_node), Some(in_port), Some(in_node)) = (out_port, out_node, in_port, in_node) {
            if self.find_link_id(&id.0).is_some() {
                return Err(InvariantViolation::DuplicateLink);
            }
            let link = Link {
                link_input_node: NodeId(in_node.clone()),
                link_input_port: PortObjectId::from_text(in_port.as_str()),
                link_output_node: NodeId(out_node.clone()),
                link_output_port: PortObjectId::from_text(out_port.as_str()),
            };
            let ghost kv = (out_port@, in_port@);
            let ghost lv = link@;
            let ghost old_links = self.link_table();
            match self.find_links(out_port, in_port) {
                Some(i) => {
                    let ghost before = self.link_entries();
                    let mut entry = self.links.remove(i);
                    entry.1.push(link);
                    let ghost ev = (key_view(entry.0), link_list_view(entry.1@));
                    self.links.insert(i, entry);
                    proof {
                        assert(ev.1 =~= before[i as int].1.push(lv));
                        assert(self.link_entries() =~= before.update(i as int, (before[i as int].0, ev.1)));
                        lemma_table_update(before, i as int, ev.1);
                        lemma_table_index(before, i as int);
                    }
                },
                None => {
                    let ghost before = self.link_entries();
                    let key: LinkKey = (PortObjectId::from_text(out_port.as_str()), PortObjectId::from_text(in_port.as_str()));
                    let mut bucket: Vec<Link> = Vec::new();
                    bucket.push(link);
                    assert(link_list_view(bucket@) =~= Seq::<LinkView>::empty().push(lv));
                    self.links.push((key, bucket));
                    proof {
                        
                        assert(self.link_entries() =~= before.push((kv, Seq::<LinkView>::empty().push(lv))));
                        lemma_table_push(before, kv, Seq::<LinkView>::empty().push(lv));
                    }
                },
            }
            proof {
                assert(self.link_table() =~= with_link(old_links, kv, lv));
            }
            let ghost before = self.link_id_entries();
            let lid = LinkObjectId::from_object(id);
            let ghost idv = lid@;
            self.links_by_id.push((lid, (PortObjectId::from_text(out_port.as_str()), PortObjectId::from_text(in_port.as_str()))));
            proof {
                assert(self.link_id_entries() =~= before.push((idv, kv)));
                lemma_table_push(before, idv, kv);
            }
            return Ok(());
        }
        Ok(())
    }

    /// Forgets the object `id`: the port with that handle, if any, and the
    /// links under the key that the link with that handle has, if any.
    pub fn apply_remove(&mut self, id: &ObjectId)
        requires
            old(self).wf(),
        ensures
            final(self).wf(),
            remove_applied(old(self), final(self), id@),
    {
        match self.find_port(&id.0) {
            Some(i) => {
                let ghost before = self.port_entries();
                self.ports.remove(i);
                proof {
                    assert(self.port_entries() =~= before.remove(i as int));
                    lemma_table_remove(before, i as int);
                    assert(keys_unique(self.port_entries()));
                    assert(keys_unique(self.link_entries()));
                    assert(keys_unique(self.link_id_entries()));
                    assert(self.link_table() == old(self).link_table());
                }
            },
            None => {
                assert(self.port_table() =~= self.port_table().remove(id@));
            },
        }
        match self.find_link_id(&id.0) {
            Some(j) => {
                let ghost before = self.link_id_entries();
                let (_, key) = self.links_by_id.remove(j);
                proof {
                    assert(self.link_id_entries() =~= before.remove(j as int));
                    lemma_table_remove(before, j as int);
                    assert(self.link_table() == old(self).link_table());
                }
                match self.find_links(&key.0.0, &key.1.0) {
                    Some(i) => {
                        let ghost before = self.link_entries();
                        self.links.remove(i);
                        proof {
                            assert(self.link_entries() =~= before.remove(i as int));
                            lemma_table_remove(before, i as int);
                            assert(self.link_table() =~= old(self).link_table().remove(before[i as int].0));
                        }
                    },
                    None => {
                        assert(self.link_table() =~= self.link_table().remove(key_view(key)));
                    },
                }
            },
            None => {
                assert(self.link_ids() =~= self.link_ids().remove(id@));
            },
        }
    }
}

/// Adding a port and then removing its handle leaves the port table
/// without that handle and as it was for every other handle; the links are
/// untouched.
pub proof fn law_port_add_then_remove(
    g0: &Graph,
    g1: &Graph,
    g2: &Graph,
    id: Seq<char>,
    props: Seq<(Seq<char>, Seq<char>)>,
)
    requires
        classify(props) is Port,
        !g0.link_ids().contains_key(id),
        add_applied(g0, g1, id, props, Ok(())),
        remove_applied(g1, g2, id),
    ensures
        !g2.port_table().contains_key(id),
        g2.port_table() == g0.port_table().remove(id),
        g2.link_table() == g0.link_table(),
        g2.link_ids() == g0.link_ids(),
{
    assert(g2.port_table() =~= g0.port_table().remove(id));
    assert(g2.link_ids() =~= g0.link_ids());
}

/// Two links added under the same pair of ports are both kept under that
/// pair, after those it held, in the order they came.
pub proof fn law_links_same_key(
    g0: &Graph,
    g1: &Graph,
    g2: &Graph,
    id1: Seq<char>,
    id2: Seq<char>,
    props1: Seq<(Seq<char>, Seq<char>)>,
    props2: Seq<(Seq<char>, Seq<char>)>,
)
    requires
        classify(props1) is Link,
        classify(props2) is Link,
        classify(props1)->Link_0.output_port == classify(props2)->Link_0.output_port,
        classify(props1)->Link_0.input_port == classify(props2)->Link_0.input_port,
        add_applied(g0, g1, id1, props1, Ok(())),
        add_applied(g1, g2, id2, props2, Ok(())),
    ensures
        ({
            let l1 = classify(props1)->Link_0;
            let l2 = classify(props2)->Link_0;
            let key = (l1.output_port, l1.input_port);
            let held = if g0.link_table().contains_key(key) { g0.link_table()[key] } else { Seq::empty() };
            g2.link_table()[key] == held.push(l1).push(l2)
        }),
{
}

/// Removing a link's own handle removes the whole list of links under its
/// key, and leaves every other key as it was.
pub proof fn law_link_remove(g0: &Graph, g1: &Graph, id: Seq<char>)
    requires
        g0.link_ids().contains_key(id),
        remove_applied(g0, g1, id),
    ensures
        !g1.link_table().contains_key(g0.link_ids()[id]),
        forall|k| k != g0.link_ids()[id] ==> (#[trigger] g1.link_table().contains_key(k) == g0.link_table().contains_key(k)
            && g1.link_table()[k] == g0.link_table()[k]),
{
}

} // verus!
