//! Failures of the graph compiler.

use crate::expression::NodeId;
use vstd::prelude::*;

verus! {

/// Why a query graph could not be compiled. Each of these is a fault of the
/// graph handed in, not of the request behind it.
#[derive(Clone, Copy, Debug, PartialEq, Eq, Structural)]
pub enum InterpreterError {
    /// An end of the edge with this index is no node of the graph.
    DanglingEdge(usize),
    /// There is not exactly one node at which no edge arrives.
    MissingRoot,
    /// The content of the node was asked for after it had been taken out.
    NodeConsumed(NodeId),
    /// The node holds something that the compiler has no rule for yet.
    NotYetSupported(NodeId),
    /// The walk cannot come to the node: it lies on a cycle, or behind one.
    UnreachableNode(NodeId),
}

pub type InterpretationResult<T> = Result<T, InterpreterError>;

} // verus!
