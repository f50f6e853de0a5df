//! Proved evaluation rules for sequence, condition and action nodes.
//!
//! The statements here are about [`spec_tick`], the model that every
//! evaluator function in [`crate::node`] is proved to follow, so each rule
//! carries over to the executable [`crate::node::tick`].
//!
//! For sequences the rules are phrased with [`state_after`] (the blackboard
//! and action states once the first `n` children have been ticked in
//! order) and [`child_status`] (what child `i` reports when its turn
//! comes).  That a sequence's tick leaves exactly the state of the
//! children up to and including the deciding one is the precise sense in
//! which the later children are not evaluated on that tick.

use vstd::prelude::*;

use crate::node::Action;
use crate::node::Condition;
use crate::node::Node;
use crate::node::NodeType;
use crate::node::Status;
use crate::node::spec_tick;
use crate::node::spec_tick_children;

verus! {

/// The blackboard and action states once the first `n` children have been
/// ticked in declared order, each against the state its predecessors left.
pub open spec fn state_after(
    children: Seq<Node>,
    bb: Map<u64, i64>,
    cm: Map<u64, Condition>,
    am: Map<u64, Action>,
    n: int,
) -> (Map<u64, i64>, Map<u64, Action>)
    decreases n,
{
    if n <= 0 {
        (bb, am)
    } else {
        let (pbb, pam) = state_after(children, bb, cm, am, n - 1);
        let (status, nbb, nam) = spec_tick(children[n - 1], pbb, cm, pam);
        (nbb, nam)
    }
}

/// The status child `i` reports when ticked against the state left by the
/// children before it.
pub open spec fn child_status(
    children: Seq<Node>,
    bb: Map<u64, i64>,
    cm: Map<u64, Condition>,
    am: Map<u64, Action>,
    i: int,
) -> Status {
    let (pbb, pam) = state_after(children, bb, cm, am, i);
    spec_tick(children[i], pbb, cm, pam).0
}

proof fn lemma_state_after_shift(
    children: Seq<Node>,
    bb: Map<u64, i64>,
    cm: Map<u64, Condition>,
    am: Map<u64, Action>,
    n: int,
)
    requires
        0 <= n < children.len(),
    ensures
        ({
            let (s0, bb0, am0) = spec_tick(children[0], bb, cm, am);
            state_after(children, bb, cm, am, n + 1) == state_after(
                children.drop_first(),
                bb0,
                cm,
                am0,
                n,
            )
        }),
    decreases n,
{
    let (s0, bb0, am0) = spec_tick(children[0], bb, cm, am);
    let rest = children.drop_first();
    if n > 0 {
        lemma_state_after_shift(children, bb, cm, am, n - 1);
        assert(children[n] == rest[n - 1]);
        assert(state_after(rest, bb0, cm, am0, n - 1) == state_after(children, bb, cm, am, n));
    } else {
        assert(state_after(children, bb, cm, am, 0) == (bb, am));
    }
}

proof fn lemma_child_status_shift(
    children: Seq<Node>,
    bb: Map<u64, i64>,
    cm: Map<u64, Condition>,
    am: Map<u64, Action>,
    i: int,
)
    requires
        1 <= i < children.len(),
    ensures
        ({
            let (s0, bb0, am0) = spec_tick(children[0], bb, cm, am);
            child_status(children, bb, cm, am, i) == child_status(
                children.drop_first(),
                bb0,
                cm,
                am0,
                i - 1,
            )
        }),
{
    lemma_state_after_shift(children, bb, cm, am, i - 1);
    assert(children[i] == children.drop_first()[i - 1]);
}

/// A sequence whose children all succeed, each against the state its
/// predecessors left, reports `Success` and leaves the state of all its
/// children threaded in order.
pub proof fn lemma_children_all_success(
    children: Seq<Node>,
    bb: Map<u64, i64>,
    cm: Map<u64, Condition>,
    am: Map<u64, Action>,
)
    requires
        forall|i: int|
            0 <= i < children.len() ==> #[trigger] child_status(children, bb, cm, am, i)
                == Status::Success,
    ensures
        ({
            let (fbb, fam) = state_after(children, bb, cm, am, children.len() as int);
            spec_tick_children(children, bb, cm, am) == (Status::Success, fbb, fam)
        }),
    decreases children.len(),
{
    if children.len() > 0 {
        let (s0, bb0, am0) = spec_tick(children[0], bb, cm, am);
        assert(child_status(children, bb, cm, am, 0) == s0);
        let rest = children.drop_first();
        assert forall|i: int| 0 <= i < rest.len() implies #[trigger] child_status(
            rest,
            bb0,
            cm,
            am0,
            i,
        ) == Status::Success by {
            lemma_child_status_shift(children, bb, cm, am, i + 1);
        }
        lemma_children_all_success(rest, bb0, cm, am0);
        lemma_state_after_shift(children, bb, cm, am, children.len() - 1);
    }
}

/// Child `i` is the first child of the sequence not to report `Success`
/// on this tick: it does not succeed, while every child before it does,
/// each ticked against the state its predecessors left.
pub open spec fn first_non_success(
    children: Seq<Node>,
    bb: Map<u64, i64>,
    cm: Map<u64, Condition>,
    am: Map<u64, Action>,
    i: int,
) -> bool {
    &&& 0 <= i < children.len()
    &&& child_status(children, bb, cm, am, i) != Status::Success
    &&& forall|j: int|
        0 <= j < i ==> #[trigger] child_status(children, bb, cm, am, j) == Status::Success
}

/// A sequence whose child `i` is the first not to succeed stops there: it
/// reports exactly what child `i` reports, and leaves exactly the state of
/// the children up to and including `i` — the children after `i` are not
/// evaluated on that tick.
pub proof fn lemma_children_stop_at_first_non_success(
    children: Seq<Node>,
    bb: Map<u64, i64>,
    cm: Map<u64, Condition>,
    am: Map<u64, Action>,
    i: int,
)
    requires
        first_non_success(children, bb, cm, am, i),
    ensures
        ({
            let (fbb, fam) = state_after(children, bb, cm, am, i + 1);
            spec_tick_children(children, bb, cm, am) == (
                child_status(children, bb, cm, am, i),
                fbb,
                fam,
            )
        }),
    decreases children.len(),
{
    let (s0, bb0, am0) = spec_tick(children[0], bb, cm, am);
    if i == 0 {
        assert(child_status(children, bb, cm, am, 0) == s0);
    } else {
        assert(child_status(children, bb, cm, am, 0) == s0);
        assert(s0 == Status::Success);
        let rest = children.drop_first();
        assert forall|j: int| 0 <= j < i - 1 implies #[trigger] child_status(
            rest,
            bb0,
            cm,
            am0,
            j,
        ) == Status::Success by {
            lemma_child_status_shift(children, bb, cm, am, j + 1);
        }
        lemma_child_status_shift(children, bb, cm, am, i);
        lemma_children_stop_at_first_non_success(rest, bb0, cm, am0, i - 1);
        lemma_state_after_shift(children, bb, cm, am, i);
    }
}

proof fn lemma_first_non_success_exists(
    children: Seq<Node>,
    bb: Map<u64, i64>,
    cm: Map<u64, Condition>,
    am: Map<u64, Action>,
    k: int,
)
    requires
        0 <= k < children.len(),
        child_status(children, bb, cm, am, k) != Status::Success,
    ensures
        exists|i: int| #[trigger] first_non_success(children, bb, cm, am, i),
    decreases k,
{
    if forall|j: int|
        0 <= j < k ==> #[trigger] child_status(children, bb, cm, am, j) == Status::Success {
        assert(first_non_success(children, bb, cm, am, k));
    } else {
        let j = choose|j: int|
            0 <= j < k && #[trigger] child_status(children, bb, cm, am, j) != Status::Success;
        lemma_first_non_success_exists(children, bb, cm, am, j);
    }
}

/// A condition node reports `Success` exactly when its registered
/// predicate holds of the blackboard, `Failure` otherwise, never
/// `Running`; neither the blackboard nor any action state changes.
pub proof fn lemma_condition_node(
    node: Node,
    bb: Map<u64, i64>,
    cm: Map<u64, Condition>,
    am: Map<u64, Action>,
)
    requires
        node.node_type == NodeType::Condition,
    ensures
        ({
            let (s, bb2, am2) = spec_tick(node, bb, cm, am);
            &&& (s == Status::Success <==> cm[node.id].spec_holds(bb))
            &&& (s == Status::Failure <==> !cm[node.id].spec_holds(bb))
            &&& s != Status::Running
            &&& bb2 == bb
            &&& am2 == am
        }),
{
}

/// An action node reports exactly the status its registered action
/// returns for this tick, with the action's effect on the blackboard and
/// the action's own next state recorded under the node's id.
pub proof fn lemma_action_node(
    node: Node,
    bb: Map<u64, i64>,
    cm: Map<u64, Condition>,
    am: Map<u64, Action>,
)
    requires
        node.node_type == NodeType::Action,
    ensures
        ({
            let (s, bb2, action) = am[node.id].spec_execute(bb);
            spec_tick(node, bb, cm, am) == (s, bb2, am.insert(node.id, action))
        }),
{
}

/// A sequence node with no children reports `Success` and changes
/// nothing.
pub proof fn lemma_empty_sequence(
    node: Node,
    bb: Map<u64, i64>,
    cm: Map<u64, Condition>,
    am: Map<u64, Action>,
)
    requires
        node.node_type == NodeType::Sequence,
        node.children@.len() == 0,
    ensures
        spec_tick(node, bb, cm, am) == (Status::Success, bb, am),
{
}

/// A sequence node reports `Success` exactly when every child reports
/// `Success`, each ticked against the state its predecessors left.
pub proof fn lemma_sequence_success_iff(
    node: Node,
    bb: Map<u64, i64>,
    cm: Map<u64, Condition>,
    am: Map<u64, Action>,
)
    requires
        node.node_type == NodeType::Sequence,
    ensures
        spec_tick(node, bb, cm, am).0 == Status::Success <==> forall|i: int|
            0 <= i < node.children@.len() ==> #[trigger] child_status(
                node.children@,
                bb,
                cm,
                am,
                i,
            ) == Status::Success,
{
    let children = node.children@;
    if forall|i: int|
        0 <= i < children.len() ==> #[trigger] child_status(children, bb, cm, am, i)
            == Status::Success {
        lemma_children_all_success(children, bb, cm, am);
    } else {
        let k = choose|k: int|
            0 <= k < children.len() && #[trigger] child_status(children, bb, cm, am, k)
                != Status::Success;
        lemma_first_non_success_exists(children, bb, cm, am, k);
        let i = choose|i: int| #[trigger] first_non_success(children, bb, cm, am, i);
        lemma_children_stop_at_first_non_success(children, bb, cm, am, i);
    }
}

/// A sequence node reports `Failure` exactly when the first child not to
/// succeed reports `Failure`; the lemma
/// [`lemma_children_stop_at_first_non_success`] adds that the children
/// after it are not evaluated on that tick.
pub proof fn lemma_sequence_failure_iff(
    node: Node,
    bb: Map<u64, i64>,
    cm: Map<u64, Condition>,
    am: Map<u64, Action>,
)
    requires
        node.node_type == NodeType::Sequence,
    ensures
        spec_tick(node, bb, cm, am).0 == Status::Failure <==> exists|i: int|
            #[trigger] first_non_success(node.children@, bb, cm, am, i) && child_status(
                node.children@,
                bb,
                cm,
                am,
                i,
            ) == Status::Failure,
{
    lemma_sequence_halt_iff(node, bb, cm, am, Status::Failure);
}

/// A sequence node reports `Running` exactly when the first child not to
/// succeed reports `Running`; the children after it are not evaluated on
/// that tick (see [`lemma_children_stop_at_first_non_success`]).
pub proof fn lemma_sequence_running_iff(
    node: Node,
    bb: Map<u64, i64>,
    cm: Map<u64, Condition>,
    am: Map<u64, Action>,
)
    requires
        node.node_type == NodeType::Sequence,
    ensures
        spec_tick(node, bb, cm, am).0 == Status::Running <==> exists|i: int|
            #[trigger] first_non_success(node.children@, bb, cm, am, i) && child_status(
                node.children@,
                bb,
                cm,
                am,
                i,
            ) == Status::Running,
{
    lemma_sequence_halt_iff(node, bb, cm, am, Status::Running);
}

proof fn lemma_sequence_halt_iff(
    node: Node,
    bb: Map<u64, i64>,
    cm: Map<u64, Condition>,
    am: Map<u64, Action>,
    halt: Status,
)
    requires
        node.node_type == NodeType::Sequence,
        halt != Status::Success,
    ensures
        spec_tick(node, bb, cm, am).0 == halt <==> exists|i: int|
            #[trigger] first_non_success(node.children@, bb, cm, am, i) && child_status(
                node.children@,
                bb,
                cm,
                am,
                i,
            ) == halt,
{
    let children = node.children@;
    if exists|i: int|
        #[trigger] first_non_success(children, bb, cm, am, i) && child_status(
            children,
            bb,
            cm,
            am,
            i,
        ) == halt {
        let i = choose|i: int|
            #[trigger] first_non_success(children, bb, cm, am, i) && child_status(
                children,
                bb,
                cm,
                am,
                i,
            ) == halt;
        lemma_children_stop_at_first_non_success(children, bb, cm, am, i);
    }
    if spec_tick(node, bb, cm, am).0 == halt {
        lemma_sequence_success_iff(node, bb, cm, am);
        let k = choose|k: int|
            0 <= k < children.len() && #[trigger] child_status(children, bb, cm, am, k)
                != Status::Success;
        lemma_first_non_success_exists(children, bb, cm, am, k);
        let i = choose|i: int| #[trigger] first_non_success(children, bb, cm, am, i);
        lemma_children_stop_at_first_non_success(children, bb, cm, am, i);
        assert(first_non_success(children, bb, cm, am, i) && child_status(children, bb, cm, am, i)
            == halt);
    }
}

/// A tick of a sequence always begins with its first child: the evaluator
/// keeps no resume point, so a tick that follows one on which some child
/// reported `Running` re-evaluates the children from the first one,
/// against whatever blackboard and action states stand now.  The outcome
/// of a tick depends on those states and the tree alone, never on earlier
/// ticks.
pub proof fn lemma_sequence_restarts_at_first_child(
    node: Node,
    bb: Map<u64, i64>,
    cm: Map<u64, Condition>,
    am: Map<u64, Action>,
)
    requires
        node.node_type == NodeType::Sequence,
        node.children@.len() > 0,
    ensures
        ({
            let (s0, bb0, am0) = spec_tick(node.children@[0], bb, cm, am);
            spec_tick(node, bb, cm, am) == (if s0 == Status::Running {
                (Status::Running, bb0, am0)
            } else if s0 == Status::Failure {
                (Status::Failure, bb0, am0)
            } else {
                spec_tick_children(node.children@.drop_first(), bb0, cm, am0)
            })
        }),
{
}

} // verus!
