//! Keeps the links of a PipeWire graph in line with a declared set of
//! named port connections.
//!
//! The library holds the logic: the brace expansion of port name patterns,
//! the graph model fed by add and remove events, and the reconciler that
//! decides which connections to request. The program around it talks to
//! the server, reads the configuration and prints.
pub mod config;
pub mod expansion;
pub mod graph;
pub mod order;
pub mod reconcile;
pub mod table;
pub mod text;

pub use config::{expand_links, Config, Error, NamedLink, NamedLinks, ParseError, PortName};
pub use expansion::{brace_expansion, expand_with_numeric, is_numeric_string, BraceExpansionError};
pub use graph::{
    global_remove_callback, Graph, Input, InvariantViolation, Link, LinkObjectId, Message, NodeId, Object, ObjectId,
    Output, Port, PortDirection, PortId, PortObjectId, Unknown,
};
pub use reconcile::{after_session, name_indexes, Event, LinkAction, Main, PWRequest, QuitReason, Step, SupervisorAction};
