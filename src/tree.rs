use vstd::prelude::*;

use crate::element::{BasicEvent, Element, GateAnd, GateOr, GateVote, Status};
use crate::law::Law;
use crate::schedule::{EventKind, EventTime};

verus! {

/// Whether there are children and every one is failed, given the failed
/// state `p` of each element.
pub open spec fn all_failed(p: Seq<bool>, ch: Seq<usize>) -> bool {
    &&& ch.len() > 0
    &&& forall|j: int| 0 <= j < ch.len() ==> #[trigger] p[ch[j] as int]
}

/// Whether some listed child is failed.
pub open spec fn any_failed(p: Seq<bool>, ch: Seq<usize>) -> bool {
    exists|j: int| 0 <= j < ch.len() && #[trigger] p[ch[j] as int]
}

/// How many of the listed children are failed.
pub open spec fn count_failed(p: Seq<bool>, ch: Seq<usize>) -> nat
    decreases ch.len(),
{
    if ch.len() == 0 {
        0
    } else {
        count_failed(p, ch.drop_last()) + if p[ch.last() as int] {
            1nat
        } else {
            0nat
        }
    }
}

/// Whether more than half of the listed children are failed.
pub open spec fn majority_failed(p: Seq<bool>, ch: Seq<usize>) -> bool {
    count_failed(p, ch) > ch.len() / 2
}

/// The failed state of `e`, given the failed state `p` of the other elements.
pub open spec fn eval(e: Element, p: Seq<bool>) -> bool {
    match e {
        Element::Basic(b) => b.status == Status::Dead,
        Element::And(g) => all_failed(p, g.children@),
        Element::Or(g) => any_failed(p, g.children@),
        Element::Vote(g) => majority_failed(p, g.children@),
    }
}

/// Whether every listed child is an element of a tree whose elements are
/// marked by `q`, and is marked.
pub open spec fn children_in(q: Seq<bool>, ch: Seq<usize>) -> bool {
    forall|j: int| 0 <= j < ch.len() ==> #[trigger] ch[j] < q.len() && q[ch[j] as int]
}

/// Which elements rest on nothing but present elements through at most `p`
/// levels of gates: an element is resolved at `p + 1` when all its children
/// are resolved at `p`.
pub open spec fn resolved(els: Seq<Element>, p: nat) -> Seq<bool>
    decreases p,
{
    if p == 0 {
        Seq::new(els.len(), |k: int| false)
    } else {
        let q = resolved(els, (p - 1) as nat);
        Seq::new(els.len(), |k: int| children_in(q, els[k].children_spec()))
    }
}

/// Every gate names only present elements and no gate depends on itself:
/// every element is resolved within as many levels as there are elements.
pub open spec fn linked(els: Seq<Element>) -> bool {
    forall|i: int| 0 <= i < els.len() ==> #[trigger] resolved(els, els.len())[i]
}

/// Every child named by a gate is an element of the tree.
pub open spec fn children_present(els: Seq<Element>) -> bool {
    forall|i: int, j: int|
        0 <= i < els.len() && 0 <= j < els[i].children_spec().len() ==> (#[trigger] els[i].children_spec()[j])
            < els.len()
}

/// The failed state of every element after `p` rounds of evaluation, each
/// round applying every element's rule to the states of the round before.
pub open spec fn level(els: Seq<Element>, p: nat) -> Seq<bool>
    decreases p,
{
    if p == 0 {
        Seq::new(els.len(), |k: int| false)
    } else {
        let q = level(els, (p - 1) as nat);
        Seq::new(els.len(), |k: int| eval(els[k], q))
    }
}

/// The failed state of every element of a tree.
pub open spec fn failed_states(els: Seq<Element>) -> Seq<bool> {
    level(els, els.len())
}

/// Elements sit at their own identifier, and every basic event is alive
/// or dead and can fail.
pub open spec fn well_formed(els: Seq<Element>) -> bool {
    &&& forall|i: int| 0 <= i < els.len() ==> (#[trigger] els[i]).id() == i
    &&& forall|i: int| 0 <= i < els.len() && (#[trigger] els[i]) is Basic ==> els[i]->Basic_0.wf()
}

/// `u` has the elements of `s` with the same kinds and children; only the
/// statuses of basic events may differ.
pub open spec fn same_links(s: Seq<Element>, u: Seq<Element>) -> bool {
    &&& s.len() == u.len()
    &&& forall|i: int| 0 <= i < s.len() && !((#[trigger] s[i]) is Basic) ==> u[i] == s[i]
    &&& forall|i: int| 0 <= i < s.len() && (#[trigger] s[i]) is Basic ==> u[i] is Basic
        && u[i]->Basic_0.id == s[i]->Basic_0.id
        && u[i]->Basic_0.failure_distribution == s[i]->Basic_0.failure_distribution
}

/// `e` with its status set to `s`, if it is a basic event.
pub open spec fn with_status(e: Element, s: Status) -> Element {
    match e {
        Element::Basic(b) => Element::Basic(BasicEvent { status: s, ..b }),
        _ => e,
    }
}

/// Every basic event set back to alive; gates are untouched.
pub open spec fn reset_all(els: Seq<Element>) -> Seq<Element> {
    Seq::new(els.len(), |i: int| with_status(els[i], Status::Alive))
}

/// The identifiers, in order, of the basic events among the first `n` elements.
pub open spec fn basic_ids(els: Seq<Element>, n: nat) -> Seq<usize>
    decreases n,
{
    if n == 0 {
        Seq::empty()
    } else if els[n - 1] is Basic {
        basic_ids(els, (n - 1) as nat).push((n - 1) as usize)
    } else {
        basic_ids(els, (n - 1) as nat)
    }
}

proof fn lemma_count_agree(p: Seq<bool>, q: Seq<bool>, ch: Seq<usize>)
    requires
        forall|j: int| 0 <= j < ch.len() ==> p[ch[j] as int] == q[ch[j] as int],
    ensures
        count_failed(p, ch) == count_failed(q, ch),
    decreases ch.len(),
{
    if ch.len() > 0 {
        let d = ch.drop_last();
        assert forall|j: int| 0 <= j < d.len() implies p[d[j] as int] == q[d[j] as int] by {
            assert(d[j] == ch[j]);
        }
        lemma_count_agree(p, q, d);
        assert(p[ch[ch.len() - 1] as int] == q[ch[ch.len() - 1] as int]);
    }
}

proof fn lemma_eval_agree(e: Element, p: Seq<bool>, q: Seq<bool>)
    requires
        forall|j: int|
            0 <= j < e.children_spec().len() ==> p[e.children_spec()[j] as int] == q[e.children_spec()[j] as int],
    ensures
        eval(e, p) == eval(e, q),
{
    let ch = e.children_spec();
    lemma_count_agree(p, q, ch);
    if all_failed(p, ch) {
        assert forall|j: int| 0 <= j < ch.len() implies #[trigger] q[ch[j] as int] by {
            assert(p[ch[j] as int]);
        }
    }
    if all_failed(q, ch) {
        assert forall|j: int| 0 <= j < ch.len() implies #[trigger] p[ch[j] as int] by {
            assert(q[ch[j] as int]);
        }
    }
    if any_failed(p, ch) {
        let j = choose|j: int| 0 <= j < ch.len() && #[trigger] p[ch[j] as int];
        assert(q[ch[j] as int]);
    }
    if any_failed(q, ch) {
        let j = choose|j: int| 0 <= j < ch.len() && #[trigger] q[ch[j] as int];
        assert(p[ch[j] as int]);
    }
}

/// Once an element is resolved at `p`, further rounds leave its failed state as it is.
pub proof fn lemma_level_stable(els: Seq<Element>, p: nat, q: nat, i: int)
    requires
        0 <= i < els.len(),
        resolved(els, p)[i],
        p <= q,
    ensures
        level(els, q)[i] == level(els, p)[i],
    decreases p,
{
    if p > 0 {
        let ch = els[i].children_spec();
        let lp = level(els, (p - 1) as nat);
        let lq = level(els, (q - 1) as nat);
        assert(children_in(resolved(els, (p - 1) as nat), ch));
        assert forall|j: int| 0 <= j < ch.len() implies lp[ch[j] as int] == lq[ch[j] as int] by {
            assert(resolved(els, (p - 1) as nat)[ch[j] as int]);
            lemma_level_stable(els, (p - 1) as nat, (q - 1) as nat, ch[j] as int);
        }
        lemma_eval_agree(els[i], lp, lq);
    }
}

/// The failed state of an element of a linked tree is what its own rule
/// gives on the failed state of the whole tree.
pub proof fn lemma_failed_unfold(els: Seq<Element>, i: int)
    requires
        linked(els),
        0 <= i < els.len(),
    ensures
        failed_states(els).len() == els.len(),
        failed_states(els)[i] == eval(els[i], failed_states(els)),
{
    let n = els.len();
    assert(resolved(els, n)[i]);
    let ch = els[i].children_spec();
    let prev = level(els, (n - 1) as nat);
    assert(children_in(resolved(els, (n - 1) as nat), ch));
    assert forall|j: int| 0 <= j < ch.len() implies prev[ch[j] as int] == failed_states(els)[ch[j] as int] by {
        assert(resolved(els, (n - 1) as nat)[ch[j] as int]);
        lemma_level_stable(els, (n - 1) as nat, n, ch[j] as int);
    }
    lemma_eval_agree(els[i], prev, failed_states(els));
}

/// Reasons a fault-tree operation is refused.
#[derive(Clone, Copy, Debug, PartialEq, Eq, Structural)]
pub enum FtError {
    /// No element has this identifier.
    UnknownElement,
    /// The element is a gate, not a basic event.
    NotBasicEvent,
    /// The element's identifier is not the next free slot.
    OutOfOrder,
    /// A gate names a child that is not in the tree.
    UnknownChild,
    /// A gate depends on itself through its children.
    Cycle,
    /// A basic event that is neither alive nor dead, or cannot fail.
    InvalidBasicEvent,
}

/// A fault tree: its elements, each at its own identifier, and the root.
pub struct FT {
    root: usize,
    elements: Vec<Element>,
}

impl View for FT {
    type V = Seq<Element>;

    closed spec fn view(&self) -> Seq<Element> {
        self.elements@
    }
}

impl FT {
    pub closed spec fn root_spec(&self) -> usize {
        self.root
    }

    /// The elements sit at their identifiers; this holds while the tree is built.
    pub open spec fn wf(&self) -> bool {
        well_formed(self@)
    }

    /// Complete and free of cycles: the tree can be evaluated.
    pub open spec fn linked(&self) -> bool {
        well_formed(self@) && linked(self@)
    }

    pub fn new() -> (r: FT)
        ensures
            r@ == Seq::<Element>::empty(),
            r.root_spec() == 0,
            r.wf(),
    {
        FT { root: 0, elements: Vec::new() }
    }

    pub fn len(&self) -> (r: usize)
        ensures
            r == self@.len(),
    {
        self.elements.len()
    }

    pub fn get_root(&self) -> (r: usize)
        ensures
            r == self.root_spec(),
    {
        self.root
    }

    /// Designates the root element.
    pub fn set_root(&mut self, root: usize)
        ensures
            final(self)@ == old(self)@,
            final(self).root_spec() == root,
    {
        self.root = root;
    }

    /// Adds `element` at its identifier, which must be the next free slot.
    /// A gate may name children that are added later; `check_links` tells
    /// when the tree is complete.
    pub fn add_element(&mut self, element: Element) -> (r: Result<(), FtError>)
        requires
            old(self).wf(),
        ensures
            final(self).wf(),
            final(self).root_spec() == old(self).root_spec(),
            element.id() != old(self)@.len() ==> r == Err::<(), FtError>(FtError::OutOfOrder),
            element.id() == old(self)@.len() && element is Basic && !element->Basic_0.wf() ==> r == Err::<
                (),
                FtError,
            >(FtError::InvalidBasicEvent),
            r is Ok <==> element.id() == old(self)@.len() && (element is Basic ==> element->Basic_0.wf()),
            r is Ok ==> final(self)@ == old(self)@.push(element),
            r is Err ==> final(self)@ == old(self)@,
    {
        let n = self.elements.len();
        if element.get_id() != n {
            return Err(FtError::OutOfOrder);
        }
        if let Element::Basic(b) = &element {
            if b.status == Status::Dynamic || !b.failure_distribution.can_fail() {
                return Err(FtError::InvalidBasicEvent);
            }
        }
        let ghost s = self@.push(element);
        assert(s[n as int] == element);
        assert forall|i: int| 0 <= i < n implies s[i] == self@[i] by {}
        self.elements.push(element);
        Ok(())
    }

    /// Whether the tree is complete and free of cycles. Fails with
    /// `UnknownChild` if a gate names a missing element, else with `Cycle`
    /// if a gate depends on itself.
    pub fn check_links(&self) -> (r: Result<(), FtError>)
        requires
            self.wf(),
        ensures
            r is Ok <==> linked(self@),
            r is Err && !children_present(self@) ==> r == Err::<(), FtError>(FtError::UnknownChild),
            r is Err && children_present(self@) ==> r == Err::<(), FtError>(FtError::Cycle),
    {
        let n = self.elements.len();
        let mut k: usize = 0;
        while k < n
            invariant
                n == self@.len(),
                k <= n,
                forall|i: int, j: int|
                    0 <= i < k && 0 <= j < self@[i].children_spec().len() ==> (#[trigger] self@[i].children_spec()[j])
                        < n,
            decreases n - k,
        {
            if !element_children_below(&self.elements[k], n) {
                proof {
                    let ch = self@[k as int].children_spec();
                    let j = choose|j: int| 0 <= j < ch.len() && !(#[trigger] ch[j] < n);
                    assert(self@[k as int].children_spec()[j] >= n);
                    assert(resolved(self@, (n - 1) as nat).len() == n);
                    assert(resolved(self@, n as nat)[k as int] == children_in(resolved(self@, (n - 1) as nat), ch));
                    assert(!resolved(self@, n as nat)[k as int]);
                }
                return Err(FtError::UnknownChild);
            }
            k += 1;
        }
        assert(children_present(self@));
        let mut cur: Vec<bool> = Vec::new();
        let mut k: usize = 0;
        while k < n
            invariant
                children_present(self@),
                n == self@.len(),
                k <= n,
                cur@ =~= Seq::new(k as nat, |i: int| false),
            decreases n - k,
        {
            cur.push(false);
            k += 1;
        }
        assert(cur@ =~= resolved(self@, 0));
        let mut p: usize = 0;
        while p < n
            invariant
                children_present(self@),
                n == self@.len(),
                p <= n,
                cur@ == resolved(self@, p as nat),
            decreases n - p,
        {
            let mut next: Vec<bool> = Vec::new();
            let mut k: usize = 0;
            while k < n
                invariant
                    n == self@.len(),
                    k <= n,
                    cur@ == resolved(self@, p as nat),
                    next@ =~= Seq::new(k as nat, |i: int| children_in(cur@, self@[i].children_spec())),
                decreases n - k,
            {
                next.push(element_resolved(&self.elements[k], &cur));
                k += 1;
            }
            assert(next@ =~= resolved(self@, (p + 1) as nat));
            cur = next;
            p += 1;
        }
        let mut k: usize = 0;
        while k < n
            invariant
                children_present(self@),
                n == self@.len(),
                k <= n,
                cur@ == resolved(self@, n as nat),
                forall|i: int| 0 <= i < k ==> #[trigger] resolved(self@, n as nat)[i],
            decreases n - k,
        {
            if !cur[k] {
                return Err(FtError::Cycle);
            }
            k += 1;
        }
        Ok(())
    }

    /// Whether element `element` is failed after `p` rounds of evaluation.
    fn failed_at(&self, element: usize, p: Ghost<nat>) -> (r: bool)
        requires
            self.wf(),
            element < self@.len(),
            resolved(self@, p@)[element as int],
        ensures
            r == level(self@, p@)[element as int],
        decreases p@, 0int,
    {
        let ghost q = (p@ - 1) as nat;
        assert(p@ > 0);
        let ghost ch = self@[element as int].children_spec();
        assert(children_in(resolved(self@, q), ch));
        assert forall|j: int| 0 <= j < ch.len() implies #[trigger] ch[j] < self@.len() && resolved(self@, q)[ch[j] as int] by {
            assert(resolved(self@, q)[ch[j] as int]);
        }
        match &self.elements[element] {
            Element::Basic(b) => b.get_failed(),
            Element::And(g) => g.failed_with(self, Ghost(q)),
            Element::Or(g) => g.failed_with(self, Ghost(q)),
            Element::Vote(g) => g.failed_with(self, Ghost(q)),
        }
    }

    /// Whether element `element` is failed. Fails on an unknown identifier.
    pub fn get_failed(&self, element: usize) -> (r: Result<bool, FtError>)
        requires
            self.linked(),
        ensures
            r is Err <==> element >= self@.len(),
            r is Err ==> r == Err::<bool, FtError>(FtError::UnknownElement),
            r is Ok ==> r->Ok_0 == failed_states(self@)[element as int],
    {
        if element >= self.elements.len() {
            return Err(FtError::UnknownElement);
        }
        Ok(self.failed_at(element, Ghost(self@.len())))
    }
}

pub open spec fn status_after(kind: EventKind) -> Status {
    match kind {
        EventKind::Failure => Status::Dead,
        EventKind::Repair => Status::Alive,
    }
}

impl FT {
    /// The identifiers of the basic events, in increasing order.
    pub fn get_basic_events(&self) -> (r: Vec<usize>)
        ensures
            r@ == basic_ids(self@, self@.len()),
    {
        let mut basic_events: Vec<usize> = Vec::new();
        let mut i: usize = 0;
        while i < self.elements.len()
            invariant
                i <= self@.len(),
                basic_events@ == basic_ids(self@, i as nat),
            decreases self@.len() - i,
        {
            if let Element::Basic(_) = &self.elements[i] {
                basic_events.push(i);
            }
            i += 1;
        }
        basic_events
    }

    /// Sets every basic event back to alive.
    pub fn reset_basic_events(&mut self)
        requires
            old(self).wf(),
        ensures
            final(self).wf(),
            linked(old(self)@) ==> linked(final(self)@),
            final(self)@ == reset_all(old(self)@),
            final(self).root_spec() == old(self).root_spec(),
    {
        let ghost s = self@;
        let mut i: usize = 0;
        while i < self.elements.len()
            invariant
                i <= self@.len(),
                self@.len() == s.len(),
                well_formed(s),
                forall|j: int| 0 <= j < i ==> self@[j] == with_status(s[j], Status::Alive),
                forall|j: int| i <= j < s.len() ==> self@[j] == s[j],
                self.root == old(self).root,
            decreases self@.len() - i,
        {
            if let Element::Basic(b) = &self.elements[i] {
                let nb = BasicEvent { status: Status::Alive, ..*b };
                self.elements[i] = Element::Basic(nb);
            }
            i += 1;
        }
        assert(self@ =~= reset_all(s));
        proof {
            lemma_status_keeps_links(s, self@);
        }
    }

    /// Applies an event: a failure leaves its basic event dead, a repair
    /// leaves it alive. Gates have no status of their own to set, so the
    /// event must name a basic event of the tree.
    pub fn process_event_time(&mut self, event_time: EventTime)
        requires
            old(self).wf(),
            event_time.element < old(self)@.len(),
            old(self)@[event_time.element as int] is Basic,
        ensures
            final(self).wf(),
            linked(old(self)@) ==> linked(final(self)@),
            final(self).root_spec() == old(self).root_spec(),
            final(self)@ == old(self)@.update(
                event_time.element as int,
                with_status(old(self)@[event_time.element as int], status_after(event_time.event_type)),
            ),
    {
        let id = event_time.element;
        let status = match event_time.event_type {
            EventKind::Failure => Status::Dead,
            EventKind::Repair => Status::Alive,
        };
        let ghost s = self@;
        if let Element::Basic(b) = &self.elements[id] {
            let nb = BasicEvent { status, ..*b };
            self.elements[id] = Element::Basic(nb);
        }
        proof {
            let u = s.update(id as int, with_status(s[id as int], status));
            assert(u =~= self@);
            lemma_status_keeps_links(s, u);
        }
    }

    /// The failure law of basic event `element`.
    pub fn failure_law_of(&self, element: usize) -> (r: Result<Law, FtError>)
        requires
            self.wf(),
        ensures
            element >= self@.len() ==> r == Err::<Law, FtError>(FtError::UnknownElement),
            element < self@.len() && !(self@[element as int] is Basic) ==> r == Err::<Law, FtError>(FtError::NotBasicEvent),
            element < self@.len() && self@[element as int] is Basic ==> r == Ok::<Law, FtError>(
                self@[element as int]->Basic_0.failure_distribution,
            ),
            r is Ok ==> !(r->Ok_0 is NoRepair),
    {
        if element >= self.elements.len() {
            return Err(FtError::UnknownElement);
        }
        match &self.elements[element] {
            Element::Basic(b) => Ok(*b.failure_law()),
            _ => Err(FtError::NotBasicEvent),
        }
    }

    /// The repair law of basic event `element`.
    pub fn repair_law_of(&self, element: usize) -> (r: Result<Law, FtError>)
        ensures
            element >= self@.len() ==> r == Err::<Law, FtError>(FtError::UnknownElement),
            element < self@.len() && !(self@[element as int] is Basic) ==> r == Err::<Law, FtError>(FtError::NotBasicEvent),
            element < self@.len() && self@[element as int] is Basic ==> r == Ok::<Law, FtError>(
                self@[element as int]->Basic_0.repair_distribution,
            ),
    {
        if element >= self.elements.len() {
            return Err(FtError::UnknownElement);
        }
        match &self.elements[element] {
            Element::Basic(b) => Ok(*b.repair_law()),
            _ => Err(FtError::NotBasicEvent),
        }
    }
}

/// Changing only the statuses of basic events, keeping them alive or dead,
/// keeps a tree well formed and linked.
pub proof fn lemma_status_keeps_links(s: Seq<Element>, u: Seq<Element>)
    requires
        well_formed(s),
        same_links(s, u),
        forall|i: int| 0 <= i < u.len() && (#[trigger] u[i]) is Basic ==> u[i]->Basic_0.status != Status::Dynamic,
    ensures
        well_formed(u),
        linked(s) ==> linked(u),
        forall|p: nat| resolved(s, p) == #[trigger] resolved(u, p),
{
    assert forall|i: int| 0 <= i < u.len() implies (#[trigger] u[i]).id() == i by {
        assert(s[i].id() == i);
    }
    assert forall|i: int| 0 <= i < u.len() && (#[trigger] u[i]) is Basic implies u[i]->Basic_0.wf() by {
        assert(s[i] is Basic);
    }
    assert forall|p: nat| resolved(s, p) == #[trigger] resolved(u, p) by {
        lemma_resolved_same(s, u, p);
    }
}

proof fn lemma_resolved_same(s: Seq<Element>, u: Seq<Element>, p: nat)
    requires
        same_links(s, u),
    ensures
        resolved(s, p) == resolved(u, p),
    decreases p,
{
    if p > 0 {
        lemma_resolved_same(s, u, (p - 1) as nat);
        assert forall|k: int| 0 <= k < s.len() implies s[k].children_spec() == u[k].children_spec() by {}
    }
    assert(resolved(s, p) =~= resolved(u, p));
}

/// Whether every listed child is below `n`.
pub open spec fn all_below(ch: Seq<usize>, n: nat) -> bool {
    forall|j: int| 0 <= j < ch.len() ==> #[trigger] ch[j] < n
}

/// Whether every identifier in `ch` is below `n`.
fn children_before(ch: &Vec<usize>, n: usize) -> (r: bool)
    ensures
        r == all_below(ch@, n as nat),
{
    let mut i: usize = 0;
    while i < ch.len()
        invariant
            i <= ch@.len(),
            forall|j: int| 0 <= j < i ==> ch@[j] < n,
        decreases ch@.len() - i,
    {
        if ch[i] >= n {
            return false;
        }
        i += 1;
    }
    true
}

/// Whether every child of `e` is below `n`.
fn element_children_below(e: &Element, n: usize) -> (r: bool)
    ensures
        r == all_below(e.children_spec(), n as nat),
{
    match e {
        Element::Basic(_) => true,
        Element::And(g) => children_before(g.children.get(), n),
        Element::Or(g) => children_before(g.children.get(), n),
        Element::Vote(g) => children_before(g.children.get(), n),
    }
}

/// Whether every identifier in `ch` is marked in `q`.
fn children_marked(ch: &Vec<usize>, q: &Vec<bool>) -> (r: bool)
    ensures
        r == children_in(q@, ch@),
{
    let mut i: usize = 0;
    while i < ch.len()
        invariant
            i <= ch@.len(),
            forall|j: int| 0 <= j < i ==> #[trigger] ch@[j] < q@.len() && q@[ch@[j] as int],
        decreases ch@.len() - i,
    {
        if ch[i] >= q.len() || !q[ch[i]] {
            assert(!(ch@[i as int] < q@.len() && q@[ch@[i as int] as int]));
            return false;
        }
        assert(ch@[i as int] < q@.len() && q@[ch@[i as int] as int]);
        i += 1;
    }
    true
}

/// Whether every child of `e` is marked in `q`.
fn element_resolved(e: &Element, q: &Vec<bool>) -> (r: bool)
    ensures
        r == children_in(q@, e.children_spec()),
{
    match e {
        Element::Basic(_) => true,
        Element::And(g) => children_marked(g.children.get(), q),
        Element::Or(g) => children_marked(g.children.get(), q),
        Element::Vote(g) => children_marked(g.children.get(), q),
    }
}

/// What evaluating a gate's children for `p` rounds needs of the tree.
pub open spec fn gate_ready(ft: &FT, ch: Seq<usize>, p: nat) -> bool {
    &&& ft.wf()
    &&& forall|j: int| 0 <= j < ch.len() ==> #[trigger] ch[j] < ft@.len() && resolved(ft@, p)[ch[j] as int]
}

/// What a gate's evaluation needs of the tree: a linked tree that holds
/// every child.
pub open spec fn gate_in(ft: &FT, ch: Seq<usize>) -> bool {
    &&& ft.linked()
    &&& forall|j: int| 0 <= j < ch.len() ==> #[trigger] ch[j] < ft@.len()
}

impl GateAnd {
    fn failed_with(&self, ft: &FT, p: Ghost<nat>) -> (r: bool)
        requires
            gate_ready(ft, self.children@, p@),
        ensures
            r == all_failed(level(ft@, p@), self.children@),
        decreases p@, 1int,
    {
        let ch = self.children.get();
        if ch.len() == 0 {
            return false;
        }
        let mut i: usize = 0;
        while i < ch.len()
            invariant
                gate_ready(ft, ch@, p@),
                ch@ == self.children@,
                i <= ch@.len(),
                forall|j: int| 0 <= j < i ==> #[trigger] level(ft@, p@)[ch@[j] as int],
            decreases ch@.len() - i,
        {
            if !ft.failed_at(ch[i], p) {
                return false;
            }
            i += 1;
        }
        true
    }

    /// Failed iff it has children and every one is failed in `ft`.
    pub fn get_failed(&self, ft: &FT) -> (r: bool)
        requires
            gate_in(ft, self.children@),
        ensures
            r == all_failed(failed_states(ft@), self.children@),
    {
        self.failed_with(ft, Ghost(ft@.len()))
    }
}

impl GateOr {
    fn failed_with(&self, ft: &FT, p: Ghost<nat>) -> (r: bool)
        requires
            gate_ready(ft, self.children@, p@),
        ensures
            r == any_failed(level(ft@, p@), self.children@),
        decreases p@, 1int,
    {
        let ch = self.children.get();
        let mut i: usize = 0;
        while i < ch.len()
            invariant
                gate_ready(ft, ch@, p@),
                ch@ == self.children@,
                i <= ch@.len(),
                forall|j: int| 0 <= j < i ==> !#[trigger] level(ft@, p@)[ch@[j] as int],
            decreases ch@.len() - i,
        {
            if ft.failed_at(ch[i], p) {
                return true;
            }
            i += 1;
        }
        false
    }

    /// Failed iff some child is failed in `ft`.
    pub fn get_failed(&self, ft: &FT) -> (r: bool)
        requires
            gate_in(ft, self.children@),
        ensures
            r == any_failed(failed_states(ft@), self.children@),
    {
        self.failed_with(ft, Ghost(ft@.len()))
    }
}

impl GateVote {
    fn failed_with(&self, ft: &FT, p: Ghost<nat>) -> (r: bool)
        requires
            gate_ready(ft, self.children@, p@),
        ensures
            r == majority_failed(level(ft@, p@), self.children@),
        decreases p@, 1int,
    {
        let ch = self.children.get();
        let threshold: usize = ch.len() / 2;
        let mut failed: usize = 0;
        let mut i: usize = 0;
        while i < ch.len()
            invariant
                gate_ready(ft, ch@, p@),
                ch@ == self.children@,
                i <= ch@.len(),
                failed <= i,
                failed == count_failed(level(ft@, p@), ch@.subrange(0, i as int)),
            decreases ch@.len() - i,
        {
            let f = ft.failed_at(ch[i], p);
            proof {
                let s = ch@.subrange(0, i as int + 1);
                assert(s.drop_last() =~= ch@.subrange(0, i as int));
                assert(s.last() == ch@[i as int]);
            }
            if f {
                failed += 1;
            }
            i += 1;
        }
        assert(ch@.subrange(0, ch@.len() as int) =~= ch@);
        failed > threshold
    }

    /// Failed iff more than half of the children are failed in `ft`.
    pub fn get_failed(&self, ft: &FT) -> (r: bool)
        requires
            gate_in(ft, self.children@),
        ensures
            r == majority_failed(failed_states(ft@), self.children@),
    {
        self.failed_with(ft, Ghost(ft@.len()))
    }
}

} // verus!
