//! Which nodes of a cluster are worth looking at.
//!
//! A node that has been down for days has no recent numbers, and would look
//! like a fault of whoever asks it for some.

use vstd::prelude::*;

verus! {

/// A condition that a node reports of itself.
pub struct Condition {
    pub kind: String,
    pub status: String,
}

/// What a node reports of itself.
pub struct NodeStatus {
    pub conditions: Option<Vec<Condition>>,
}

/// A node, as far as the checks look at it.
pub struct Node {
    pub name: String,
    pub status: Option<NodeStatus>,
}

impl Condition {
    /// The condition `Ready`, with the status `True`.
    pub open spec fn says_ready(self) -> bool {
        self.kind@ == "Ready"@ && self.status@ == "True"@
    }
}

/// One of the conditions says that the node is ready.
pub open spec fn some_says_ready(conditions: Seq<Condition>) -> bool {
    exists|i: int| 0 <= i < conditions.len() && (#[trigger] conditions[i]).says_ready()
}

fn any_says_ready(conditions: &Vec<Condition>) -> (b: bool)
    ensures
        b == some_says_ready(conditions@),
{
    let ready: String = "Ready".to_string();
    let yes: String = "True".to_string();
    let mut i: usize = 0;
    while i < conditions.len()
        invariant
            i <= conditions@.len(),
            ready@ == "Ready"@,
            yes@ == "True"@,
            forall|k: int| 0 <= k < i ==> !(#[trigger] conditions@[k]).says_ready(),
        decreases conditions@.len() - i,
    {
        if conditions[i].kind == ready && conditions[i].status == yes {
            assert(conditions@[i as int].says_ready());
            return true;
        }
        i += 1;
    }
    false
}

impl Node {
    /// The node has a status with a condition that says that it is ready.
    pub open spec fn ready(self) -> bool {
        &&& self.status matches Some(status)
        &&& status.conditions matches Some(conditions)
        &&& some_says_ready(conditions@)
    }

    /// Whether the node is ready. A node without a status, or whose status has
    /// no conditions, is not.
    pub fn is_ready(&self) -> (b: bool)
        ensures
            b == self.ready(),
            self.status is None ==> !b,
            self.status matches Some(status) ==> status.conditions is None ==> !b,
            self.status matches Some(status) ==> status.conditions matches Some(conditions) ==> (b
                <==> exists|i: int|
                0 <= i < conditions@.len() && (#[trigger] conditions@[i]).kind@ == "Ready"@
                    && conditions@[i].status@ == "True"@),
    {
        proof {
            law_ready_is_told_by_one_condition(*self);
        }
        match &self.status {
            Some(status) => match &status.conditions {
                Some(conditions) => any_says_ready(conditions),
                None => false,
            },
            None => false,
        }
    }
}

/// A node is ready exactly where one of the conditions that it reports is
/// `Ready` with the status `True`, whatever and however many the others are.
pub proof fn law_ready_is_told_by_one_condition(node: Node)
    ensures
        node.status is None ==> !node.ready(),
        node.status matches Some(status) ==> status.conditions is None ==> !node.ready(),
        node.status matches Some(status) ==> status.conditions matches Some(conditions) ==> (
        node.ready() <==> exists|i: int|
            0 <= i < conditions@.len() && (#[trigger] conditions@[i]).kind@ == "Ready"@
                && conditions@[i].status@ == "True"@),
{
    if let Some(status) = node.status {
        if let Some(conditions) = status.conditions {
            assert forall|i: int| 0 <= i < conditions@.len() implies (
            #[trigger] conditions@[i]).says_ready() == (conditions@[i].kind@ == "Ready"@
                && conditions@[i].status@ == "True"@) by {}
        }
    }
}

/// Further conditions never make a ready node unready, and neither their order
/// nor the name of the node matters: a node that reports every condition of a
/// ready one is ready too.
pub proof fn law_more_conditions_keep_a_node_ready(node: Node, other: Node)
    requires
        node.ready(),
        node.status matches Some(status) && status.conditions matches Some(conditions) && (
        other.status matches Some(more) && more.conditions matches Some(others) && forall|i: int|
            0 <= i < conditions@.len() ==> others@.contains(#[trigger] conditions@[i])),
    ensures
        other.ready(),
{
    law_ready_is_told_by_one_condition(node);
    law_ready_is_told_by_one_condition(other);
    let conditions = node.status->0.conditions->0@;
    let others = other.status->0.conditions->0@;
    let i = choose|i: int|
        0 <= i < conditions.len() && (#[trigger] conditions[i]).kind@ == "Ready"@
            && conditions[i].status@ == "True"@;
    assert(others.contains(conditions[i]));
    let j = choose|j: int| 0 <= j < others.len() && others[j] == conditions[i];
    assert(others[j].kind@ == "Ready"@);
}

/// The place of the first node that is ready, `None` where none is.
pub fn first_ready(nodes: &Vec<Node>) -> (found: Option<usize>)
    ensures
        match found {
            Some(i) => i < nodes@.len() && nodes@[i as int].ready() && forall|k: int|
                0 <= k < i ==> !(#[trigger] nodes@[k]).ready(),
            None => forall|k: int| 0 <= k < nodes@.len() ==> !(#[trigger] nodes@[k]).ready(),
        },
{
    let mut i: usize = 0;
    while i < nodes.len()
        invariant
            i <= nodes@.len(),
            forall|k: int| 0 <= k < i ==> !(#[trigger] nodes@[k]).ready(),
        decreases nodes@.len() - i,
    {
        if nodes[i].is_ready() {
            return Some(i);
        }
        i += 1;
    }
    None
}

} // verus!
