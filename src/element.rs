use vstd::prelude::*;

use crate::law::Law;

verus! {

/// Status of a basic event. `Dynamic` is reserved for element kinds whose
/// state is neither plainly alive nor dead; no basic event is ever in it.
#[derive(Clone, Copy, Debug, PartialEq, Eq, Structural)]
pub enum Status {
    Alive,
    Dead,
    Dynamic,
}

/// A leaf of the fault tree: a component that fails and is repaired.
#[derive(Clone, Copy, Debug)]
pub struct BasicEvent {
    pub id: usize,
    pub status: Status,
    pub failure_distribution: Law,
    pub repair_distribution: Law,
}

/// Reasons a basic event cannot be built.
#[derive(Clone, Copy, Debug, PartialEq, Eq, Structural)]
pub enum LawError {
    /// The failure law never yields an interval.
    NoFailureLaw,
}

impl BasicEvent {
    /// A basic event that starts alive. The failure law must be able to
    /// yield an interval.
    pub fn new(id: usize, failure_distribution: Law, repair_distribution: Law) -> (r: Result<
        BasicEvent,
        LawError,
    >)
        ensures
            failure_distribution is NoRepair <==> r is Err,
            r is Ok ==> r->Ok_0.id == id && r->Ok_0.status == Status::Alive
                && r->Ok_0.failure_distribution == failure_distribution
                && r->Ok_0.repair_distribution == repair_distribution,
    {
        if !failure_distribution.can_fail() {
            return Err(LawError::NoFailureLaw);
        }
        Ok(BasicEvent { id, status: Status::Alive, failure_distribution, repair_distribution })
    }

    /// Well-formed: the event is alive or dead and can fail.
    pub open spec fn wf(&self) -> bool {
        &&& self.status != Status::Dynamic
        &&& !(self.failure_distribution is NoRepair)
    }

    pub fn get_failed(&self) -> (r: bool)
        requires
            self.status != Status::Dynamic,
        ensures
            r == (self.status == Status::Dead),
    {
        match self.status {
            Status::Dead => true,
            _ => false,
        }
    }

    pub fn get_id(&self) -> (r: usize)
        ensures
            r == self.id,
    {
        self.id
    }

    pub fn set_status(&mut self, status: Status)
        ensures
            *final(self) == (BasicEvent { status, ..*old(self) }),
    {
        self.status = status;
    }

    /// The law of the next failure interval.
    pub fn failure_law(&self) -> (r: &Law)
        ensures
            *r == self.failure_distribution,
    {
        &self.failure_distribution
    }

    /// The law of the next repair interval.
    pub fn repair_law(&self) -> (r: &Law)
        ensures
            *r == self.repair_distribution,
    {
        &self.repair_distribution
    }
}

/// The ordered identifiers of a gate's children.
#[derive(Clone, Debug)]
pub struct Children {
    pub children: Vec<usize>,
}

impl View for Children {
    type V = Seq<usize>;

    open spec fn view(&self) -> Seq<usize> {
        self.children@
    }
}

impl Children {
    pub fn new() -> (r: Children)
        ensures
            r@ == Seq::<usize>::empty(),
    {
        Children { children: Vec::new() }
    }

    pub fn get(&self) -> (r: &Vec<usize>)
        ensures
            r@ == self@,
    {
        &self.children
    }

    /// Appends the identifier of `child`.
    pub fn add(&mut self, child: &Element)
        ensures
            final(self)@ == old(self)@.push(child.id()),
    {
        self.children.push(child.get_id());
    }
}

/// Failed iff it has children and every one is failed.
#[derive(Clone, Debug)]
pub struct GateAnd {
    pub id: usize,
    pub children: Children,
}

/// Failed iff some child is failed.
#[derive(Clone, Debug)]
pub struct GateOr {
    pub id: usize,
    pub children: Children,
}

/// Failed iff more than half of the children are failed.
#[derive(Clone, Debug)]
pub struct GateVote {
    pub id: usize,
    pub children: Children,
}

impl GateAnd {
    pub fn new(id: usize) -> (r: GateAnd)
        ensures
            r.id == id,
            r.children@ == Seq::<usize>::empty(),
    {
        GateAnd { id, children: Children::new() }
    }

    pub fn get_id(&self) -> (r: usize)
        ensures
            r == self.id,
    {
        self.id
    }
}

impl GateOr {
    pub fn new(id: usize) -> (r: GateOr)
        ensures
            r.id == id,
            r.children@ == Seq::<usize>::empty(),
    {
        GateOr { id, children: Children::new() }
    }

    pub fn get_id(&self) -> (r: usize)
        ensures
            r == self.id,
    {
        self.id
    }
}

impl GateVote {
    pub fn new(id: usize) -> (r: GateVote)
        ensures
            r.id == id,
            r.children@ == Seq::<usize>::empty(),
    {
        GateVote { id, children: Children::new() }
    }

    pub fn get_id(&self) -> (r: usize)
        ensures
            r == self.id,
    {
        self.id
    }
}

/// The kind of an element.
#[derive(Clone, Copy, Debug, PartialEq, Eq, Structural)]
pub enum ElementKind {
    Basic,
    Static,
}

/// An element of a fault tree.
#[derive(Clone, Debug)]
pub enum Element {
    Basic(BasicEvent),
    And(GateAnd),
    Or(GateOr),
    Vote(GateVote),
}

impl Element {
    pub open spec fn id(&self) -> usize {
        match self {
            Element::Basic(b) => b.id,
            Element::And(g) => g.id,
            Element::Or(g) => g.id,
            Element::Vote(g) => g.id,
        }
    }

    /// The children of a gate; none for a basic event.
    pub open spec fn children_spec(&self) -> Seq<usize> {
        match self {
            Element::Basic(_) => Seq::empty(),
            Element::And(g) => g.children@,
            Element::Or(g) => g.children@,
            Element::Vote(g) => g.children@,
        }
    }

    pub fn get_id(&self) -> (r: usize)
        ensures
            r == self.id(),
    {
        match self {
            Element::Basic(b) => b.get_id(),
            Element::And(g) => g.get_id(),
            Element::Or(g) => g.get_id(),
            Element::Vote(g) => g.get_id(),
        }
    }

    pub fn get_type(&self) -> (r: ElementKind)
        ensures
            (r == ElementKind::Basic) == (*self is Basic),
    {
        match self {
            Element::Basic(_) => ElementKind::Basic,
            _ => ElementKind::Static,
        }
    }
}

} // verus!
