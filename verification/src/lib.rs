//! A verified behavior-tree evaluator.
//!
//! A behavior tree is a hierarchy of nodes — sequences, conditions and
//! actions — that is evaluated ("ticked") against a shared mutable
//! blackboard.  Conditions and actions are registered in dispatch maps keyed
//! by node id; each tick walks the tree depth-first and reports `Success`,
//! `Failure` or `Running` for the root.
//!
//! Every executable function carries a contract relating it to a
//! mathematical model of one tick, and the evaluation rules for sequences
//! are proved from that model in [`semantics`].

mod store;

pub mod blackboard;
pub mod node;
pub mod semantics;
