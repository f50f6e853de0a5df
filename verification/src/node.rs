//! The tree data model, the dispatch maps, and the tick evaluator.
//!
//! A tree is a hierarchy of [`Node`]s, each carrying an id, a kind and its
//! children.  Conditions and actions are registered per node id in a
//! [`ConditionMap`] and an [`ActionMap`]; [`tick`] walks the tree
//! depth-first against a [`Blackboard`] and returns a [`Status`].
//!
//! Every evaluator function is proved to agree with the mathematical model
//! [`spec_tick`], a pure function from a node, a blackboard and the two
//! dispatch maps to the resulting status and the updated blackboard and
//! action states.

use vstd::prelude::*;

use crate::blackboard::Blackboard;
use crate::store::KvStore;

verus! {

/// The tri-state outcome of evaluating one node on one tick.
///
/// `Running` is a logical signal that the caller should tick again on the
/// next control cycle; nothing is suspended inside the tree itself.
#[derive(Clone, Copy, Debug, PartialEq, Eq, Structural)]
pub enum Status {
    Failure,
    Success,
    Running,
}

/// The kind of behavior a node exhibits.
#[derive(Clone, Copy, Debug, PartialEq, Eq, Structural)]
pub enum NodeType {
    /// A composite that evaluates its children in order, short-circuiting
    /// on the first child that does not succeed.
    Sequence,
    /// A leaf that evaluates the condition registered under its id.
    Condition,
    /// A leaf that executes the action registered under its id.
    Action,
}

/// One element of a tree: an id (the dispatch key, unique across the
/// tree), a kind, and the ordered, owned children (empty for leaves).
pub struct Node {
    pub id: u64,
    pub node_type: NodeType,
    pub children: Vec<Node>,
}

impl Node {
    /// A childless node of the given kind; children may be pushed onto
    /// `children` before the first tick.
    pub fn new(id: u64, node_type: NodeType) -> (n: Node)
        ensures
            n.id == id,
            n.node_type == node_type,
            n.children@ == Seq::<Node>::empty(),
    {
        Node { id, node_type, children: Vec::new() }
    }
}

/// A side-effect-free predicate over the blackboard's current contents.
#[derive(Clone, Copy, Debug, PartialEq, Eq, Structural)]
pub enum Predicate {
    /// Holds exactly when the payload is `true`, whatever the blackboard.
    Always(bool),
    /// Holds when some value is stored under the key.
    Has(u64),
    /// Holds when exactly the given value is stored under the key.
    Equals(u64, i64),
    /// Holds when a value at least the given bound is stored under the key.
    AtLeast(u64, i64),
}

impl Predicate {
    /// Whether the predicate holds of the given blackboard contents.
    pub open spec fn holds(self, bb: Map<u64, i64>) -> bool {
        match self {
            Predicate::Always(b) => b,
            Predicate::Has(key) => bb.contains_key(key),
            Predicate::Equals(key, value) => bb.contains_key(key) && bb[key] == value,
            Predicate::AtLeast(key, bound) => bb.contains_key(key) && bb[key] >= bound,
        }
    }
}

/// The condition registered for a node: a pure predicate evaluated against
/// a read-only view of the blackboard.
#[derive(Clone, Copy, Debug, PartialEq, Eq, Structural)]
pub struct Condition {
    pub pred: Predicate,
}

impl Condition {
    pub fn new(pred: Predicate) -> (c: Condition)
        ensures
            c.pred == pred,
    {
        Condition { pred }
    }

    /// Whether this condition holds of the given blackboard contents.
    pub open spec fn spec_holds(self, bb: Map<u64, i64>) -> bool {
        self.pred.holds(bb)
    }

    /// Evaluates the predicate; the blackboard is not changed.
    pub fn evaluate(&self, blackboard: &Blackboard) -> (r: bool)
        ensures
            r == self.spec_holds(blackboard@),
    {
        match self.pred {
            Predicate::Always(b) => b,
            Predicate::Has(key) => blackboard.contains(key),
            Predicate::Equals(key, value) => {
                match blackboard.get(key) {
                    Some(v) => v == value,
                    None => false,
                }
            },
            Predicate::AtLeast(key, bound) => {
                match blackboard.get(key) {
                    Some(v) => v >= bound,
                    None => false,
                }
            },
        }
    }
}

/// What an action does on one tick: the blackboard it leaves behind, the
/// status it reports, and its own next state.
#[derive(Clone, Copy, Debug, PartialEq, Eq, Structural)]
pub enum Routine {
    /// Reports the given status and changes nothing.
    Finish(Status),
    /// Stores the value under the key and reports `Success`.
    Store(u64, i64),
    /// Adds one to the value under the key (`0` when the key is absent,
    /// saturating at `i64::MAX`) and reports `Success`.
    Bump(u64),
    /// A multi-tick operation: reports `Running` and counts down while the
    /// counter is positive, `Success` once it has reached zero.
    Countdown(u64),
}

/// The action registered for a node: a callback over a mutable blackboard
/// that may carry its own mutable state from tick to tick.
#[derive(Clone, Copy, Debug, PartialEq, Eq, Structural)]
pub struct Action {
    pub routine: Routine,
}

impl Action {
    pub fn new(routine: Routine) -> (a: Action)
        ensures
            a.routine == routine,
    {
        Action { routine }
    }

    /// The status this action reports, the blackboard it leaves behind,
    /// and its own next state, given the blackboard contents it is run on.
    pub open spec fn spec_execute(self, bb: Map<u64, i64>) -> (Status, Map<u64, i64>, Action) {
        match self.routine {
            Routine::Finish(status) => (status, bb, self),
            Routine::Store(key, value) => (Status::Success, bb.insert(key, value), self),
            Routine::Bump(key) => {
                let cur: int = if bb.contains_key(key) {
                    bb[key] as int
                } else {
                    0
                };
                let next: int = if cur == i64::MAX {
                    cur
                } else {
                    cur + 1
                };
                (Status::Success, bb.insert(key, next as i64), self)
            },
            Routine::Countdown(n) => {
                if n == 0 {
                    (Status::Success, bb, self)
                } else {
                    (Status::Running, bb, Action { routine: Routine::Countdown((n - 1) as u64) })
                }
            },
        }
    }

    /// Runs the action for one tick, mutating the blackboard and the
    /// action's own state exactly as [`Action::spec_execute`] says.
    pub fn execute(&mut self, blackboard: &mut Blackboard) -> (r: Status)
        ensures
            ({
                let (s, bb, a) = old(self).spec_execute(old(blackboard)@);
                r == s && final(blackboard)@ == bb && *final(self) == a
            }),
    {
        match self.routine {
            Routine::Finish(status) => status,
            Routine::Store(key, value) => {
                blackboard.set(key, value);
                Status::Success
            },
            Routine::Bump(key) => {
                let cur = match blackboard.get(key) {
                    Some(v) => v,
                    None => 0,
                };
                let next = if cur == i64::MAX {
                    cur
                } else {
                    cur + 1
                };
                blackboard.set(key, next);
                Status::Success
            },
            Routine::Countdown(n) => {
                if n == 0 {
                    Status::Success
                } else {
                    self.routine = Routine::Countdown(n - 1);
                    Status::Running
                }
            },
        }
    }
}

/// The conditions of a tree, keyed by node id.
pub struct ConditionMap {
    store: KvStore<Condition>,
}

impl View for ConditionMap {
    type V = Map<u64, Condition>;

    closed spec fn view(&self) -> Map<u64, Condition> {
        self.store@
    }
}

impl ConditionMap {
    pub fn new() -> (m: ConditionMap)
        ensures
            m@ == Map::<u64, Condition>::empty(),
    {
        ConditionMap { store: KvStore::new() }
    }

    /// Registers the condition for `node_id`; a later registration for the
    /// same id silently overwrites an earlier one.
    pub fn add_condition(&mut self, node_id: u64, condition: Condition)
        ensures
            final(self)@ == old(self)@.insert(node_id, condition),
    {
        self.store.insert(node_id, condition);
    }

    /// The condition registered for `node_id`.  Looking up an id that was
    /// never registered is a tree-construction error, ruled out here by
    /// contract rather than discovered at run time.
    pub fn get_condition(&self, node_id: u64) -> (r: &Condition)
        requires
            self@.contains_key(node_id),
        ensures
            *r == self@[node_id],
    {
        self.store.get(node_id).unwrap()
    }
}

/// The actions of a tree, keyed by node id.
pub struct ActionMap {
    store: KvStore<Action>,
}

impl View for ActionMap {
    type V = Map<u64, Action>;

    closed spec fn view(&self) -> Map<u64, Action> {
        self.store@
    }
}

impl ActionMap {
    pub fn new() -> (m: ActionMap)
        ensures
            m@ == Map::<u64, Action>::empty(),
    {
        ActionMap { store: KvStore::new() }
    }

    /// Registers the action for `node_id`; a later registration for the
    /// same id silently overwrites an earlier one.
    pub fn add_action(&mut self, node_id: u64, action: Action)
        ensures
            final(self)@ == old(self)@.insert(node_id, action),
    {
        self.store.insert(node_id, action);
    }

    /// A mutable handle on the action registered for `node_id`, so that
    /// executing it can update its internal state.  As with conditions, an
    /// unregistered id is ruled out by contract.
    pub fn get_action(&mut self, node_id: u64) -> (r: &mut Action)
        requires
            old(self)@.contains_key(node_id),
        ensures
            *r == old(self)@[node_id],
            final(self)@ == old(self)@.insert(node_id, *final(r)),
    {
        self.store.get_mut(node_id)
    }
}

/// Whether every condition and action node of the tree under `node` has a
/// registration: condition ids among `cond_ids`, action ids among
/// `act_ids`.  This is the construction-time contract a tree must meet
/// before it is ticked.
pub open spec fn registered(node: Node, cond_ids: Set<u64>, act_ids: Set<u64>) -> bool
    decreases node, 1int,
{
    match node.node_type {
        NodeType::Sequence => children_registered(node.children@, cond_ids, act_ids),
        NodeType::Condition => cond_ids.contains(node.id),
        NodeType::Action => act_ids.contains(node.id),
    }
}

/// [`registered`], for every node of a child sequence.
pub open spec fn children_registered(children: Seq<Node>, cond_ids: Set<u64>, act_ids: Set<u64>) -> bool
    decreases children, 0int,
{
    forall|i: int|
        0 <= i < children.len() ==> registered(#[trigger] children[i], cond_ids, act_ids)
}

/// The model of one tick: the status `node` reports, the blackboard it
/// leaves behind, and the updated action states.
///
/// A condition node reports `Success` exactly when its registered
/// predicate holds, and changes nothing.  An action node reports whatever
/// its registered action reports, with the action's effect on the
/// blackboard and on its own state.  A sequence node is modeled by
/// [`spec_tick_children`].
pub open spec fn spec_tick(
    node: Node,
    bb: Map<u64, i64>,
    cm: Map<u64, Condition>,
    am: Map<u64, Action>,
) -> (Status, Map<u64, i64>, Map<u64, Action>)
    decreases node, 1int,
{
    match node.node_type {
        NodeType::Sequence => spec_tick_children(node.children@, bb, cm, am),
        NodeType::Condition => {
            let status = if cm[node.id].spec_holds(bb) {
                Status::Success
            } else {
                Status::Failure
            };
            (status, bb, am)
        },
        NodeType::Action => {
            let (status, bb2, action) = am[node.id].spec_execute(bb);
            (status, bb2, am.insert(node.id, action))
        },
    }
}

/// The model of ticking a child sequence in order, left to right: an empty
/// sequence reports `Success`; a child that reports `Running` or `Failure`
/// ends the tick at once with that status, leaving the later children
/// unevaluated; a child that reports `Success` passes the updated state to
/// the children after it.
pub open spec fn spec_tick_children(
    children: Seq<Node>,
    bb: Map<u64, i64>,
    cm: Map<u64, Condition>,
    am: Map<u64, Action>,
) -> (Status, Map<u64, i64>, Map<u64, Action>)
    decreases children, 0int,
{
    if children.len() == 0 {
        (Status::Success, bb, am)
    } else {
        let (status, bb2, am2) = spec_tick(children[0], bb, cm, am);
        if status == Status::Running {
            (Status::Running, bb2, am2)
        } else if status == Status::Failure {
            (Status::Failure, bb2, am2)
        } else {
            spec_tick_children(children.drop_first(), bb2, cm, am2)
        }
    }
}

/// A tick never adds or removes an action registration: it only updates
/// the states of actions that are already registered.
pub proof fn lemma_spec_tick_preserves_action_ids(
    node: Node,
    bb: Map<u64, i64>,
    cm: Map<u64, Condition>,
    am: Map<u64, Action>,
)
    requires
        registered(node, cm.dom(), am.dom()),
    ensures
        spec_tick(node, bb, cm, am).2.dom() == am.dom(),
    decreases node, 1int,
{
    match node.node_type {
        NodeType::Sequence => {
            lemma_spec_tick_children_preserves_action_ids(node.children@, bb, cm, am);
        },
        NodeType::Condition => {},
        NodeType::Action => {
            let (status, bb2, action) = am[node.id].spec_execute(bb);
            assert(am.insert(node.id, action).dom() =~= am.dom());
        },
    }
}

/// [`lemma_spec_tick_preserves_action_ids`], for a child sequence.
pub proof fn lemma_spec_tick_children_preserves_action_ids(
    children: Seq<Node>,
    bb: Map<u64, i64>,
    cm: Map<u64, Condition>,
    am: Map<u64, Action>,
)
    requires
        children_registered(children, cm.dom(), am.dom()),
    ensures
        spec_tick_children(children, bb, cm, am).2.dom() == am.dom(),
    decreases children, 0int,
{
    if children.len() > 0 {
        let (status, bb2, am2) = spec_tick(children[0], bb, cm, am);
        lemma_spec_tick_preserves_action_ids(children[0], bb, cm, am);
        if status != Status::Running && status != Status::Failure {
            assert(children_registered(children.drop_first(), cm.dom(), am2.dom()));
            lemma_spec_tick_children_preserves_action_ids(children.drop_first(), bb2, cm, am2);
        }
    }
}

/// Evaluates `node` for one tick against the blackboard, dispatching on
/// its kind, and reports the resulting status.  The status and the new
/// blackboard and action states are exactly those of [`spec_tick`].
pub fn tick(
    node: &Node,
    blackboard: &mut Blackboard,
    condition_map: &ConditionMap,
    action_map: &mut ActionMap,
) -> (status: Status)
    requires
        registered(*node, condition_map@.dom(), old(action_map)@.dom()),
    ensures
        ({
            let (s, bb, am) = spec_tick(*node, old(blackboard)@, condition_map@, old(action_map)@);
            status == s && final(blackboard)@ == bb && final(action_map)@ == am
        }),
    decreases *node, 1int,
{
    match node.node_type {
        NodeType::Sequence => execute_sequence_node(node, blackboard, condition_map, action_map),
        NodeType::Condition => execute_condition_node(node, blackboard, condition_map),
        NodeType::Action => execute_action_node(node, blackboard, action_map),
    }
}

/// Ticks the children of `node` in declared order, short-circuiting: the
/// first child to report `Running` or `Failure` decides the status and
/// ends the tick with the later children unevaluated; if every child
/// reports `Success` — vacuously so with no children — the sequence does.
pub fn execute_sequence_node(
    node: &Node,
    blackboard: &mut Blackboard,
    condition_map: &ConditionMap,
    action_map: &mut ActionMap,
) -> (status: Status)
    requires
        children_registered(node.children@, condition_map@.dom(), old(action_map)@.dom()),
    ensures
        ({
            let (s, bb, am) = spec_tick_children(
                node.children@,
                old(blackboard)@,
                condition_map@,
                old(action_map)@,
            );
            status == s && final(blackboard)@ == bb && final(action_map)@ == am
        }),
    decreases *node, 0int,
{
    let ghost children = node.children@;
    let ghost bb0 = blackboard@;
    let ghost am0 = action_map@;
    let n = node.children.len();
    proof {
        assert(children.subrange(0, n as int) =~= children);
    }
    let mut i: usize = 0;
    while i < n
        invariant
            n == children.len(),
            i <= n,
            children == node.children@,
            bb0 == old(blackboard)@,
            am0 == old(action_map)@,
            children_registered(children, condition_map@.dom(), action_map@.dom()),
            spec_tick_children(children, bb0, condition_map@, am0) == spec_tick_children(
                children.subrange(i as int, n as int),
                blackboard@,
                condition_map@,
                action_map@,
            ),
        decreases n - i,
    {
        let ghost rest = children.subrange(i as int, n as int);
        let ghost pre_bb = blackboard@;
        let ghost pre_am = action_map@;
        proof {
            assert(decreases_to!(*node => node.children));
            assert(decreases_to!(node.children => node.children@));
            assert(decreases_to!(node.children@ => node.children@[i as int]));
            assert(registered(children[i as int], condition_map@.dom(), action_map@.dom()));
        }
        let child = &node.children[i];
        let status = tick(child, blackboard, condition_map, action_map);
        proof {
            assert(rest.len() > 0 && rest[0] == children[i as int]);
            lemma_spec_tick_preserves_action_ids(
                children[i as int],
                pre_bb,
                condition_map@,
                pre_am,
            );
            assert(action_map@.dom() == pre_am.dom());
        }
        if status == Status::Running {
            proof {
                assert(spec_tick_children(rest, pre_bb, condition_map@, pre_am) == (
                    Status::Running,
                    blackboard@,
                    action_map@,
                ));
            }
            return Status::Running;
        } else if status == Status::Failure {
            proof {
                assert(spec_tick_children(rest, pre_bb, condition_map@, pre_am) == (
                    Status::Failure,
                    blackboard@,
                    action_map@,
                ));
            }
            return Status::Failure;
        }
        proof {
            assert(rest.drop_first() =~= children.subrange(i + 1, n as int));
        }
        i = i + 1;
    }
    proof {
        assert(children.subrange(n as int, n as int) =~= Seq::<Node>::empty());
    }
    Status::Success
}

/// Looks up the condition registered for `node` and evaluates it: the
/// status is `Success` exactly when the predicate holds, never `Running`,
/// and the blackboard is not changed.
pub fn execute_condition_node(
    node: &Node,
    blackboard: &Blackboard,
    condition_map: &ConditionMap,
) -> (status: Status)
    requires
        condition_map@.contains_key(node.id),
    ensures
        status == (if condition_map@[node.id].spec_holds(blackboard@) {
            Status::Success
        } else {
            Status::Failure
        }),
{
    let condition = condition_map.get_condition(node.id);
    if condition.evaluate(blackboard) {
        Status::Success
    } else {
        Status::Failure
    }
}

/// Looks up the action registered for `node` and executes it for one
/// tick: the status is exactly what the action reports, and the
/// blackboard and the action's own state are updated by its effect.
pub fn execute_action_node(
    node: &Node,
    blackboard: &mut Blackboard,
    action_map: &mut ActionMap,
) -> (status: Status)
    requires
        old(action_map)@.contains_key(node.id),
    ensures
        ({
            let (s, bb, action) = old(action_map)@[node.id].spec_execute(old(blackboard)@);
            status == s && final(blackboard)@ == bb && final(action_map)@ == old(
                action_map,
            )@.insert(node.id, action)
        }),
{
    let action = action_map.get_action(node.id);
    action.execute(blackboard)
}

} // verus!
