use vstd::prelude::*;

use crate::element::{BasicEvent, Element, Status};
use crate::schedule::{is_insert_pos, lemma_insert_sorted, sorted, EventTime};
use crate::tree::{
    all_failed, any_failed, children_present, count_failed, eval, failed_states, level, majority_failed,
    reset_all, well_formed, with_status,
};

verus! {

proof fn lemma_count_bounds(p: Seq<bool>, ch: Seq<usize>)
    ensures
        count_failed(p, ch) <= ch.len(),
        (ch.len() > 0 && count_failed(p, ch) == ch.len()) <==> all_failed(p, ch),
        count_failed(p, ch) >= 1 <==> any_failed(p, ch),
    decreases ch.len(),
{
    if ch.len() > 0 {
        let d = ch.drop_last();
        let l = ch.len() - 1;
        lemma_count_bounds(p, d);
        assert forall|j: int| 0 <= j < d.len() implies d[j] == ch[j] by {}
        if all_failed(p, ch) {
            assert forall|j: int| 0 <= j < d.len() implies #[trigger] p[d[j] as int] by {
                assert(p[ch[j] as int]);
            }
            assert(p[ch[l] as int]);
        }
        if count_failed(p, ch) == ch.len() {
            assert(count_failed(p, d) == d.len());
            assert forall|j: int| 0 <= j < ch.len() implies #[trigger] p[ch[j] as int] by {
                if j < l {
                    assert(p[d[j] as int]);
                }
            }
        }
        if any_failed(p, ch) {
            let j = choose|j: int| 0 <= j < ch.len() && #[trigger] p[ch[j] as int];
            if j < l {
                assert(p[d[j] as int]);
            }
        }
        if count_failed(p, d) >= 1 {
            let j = choose|j: int| 0 <= j < d.len() && #[trigger] p[d[j] as int];
            assert(p[ch[j] as int]);
        }
        if p[ch[l] as int] {
            assert(any_failed(p, ch));
        }
    }
}

/// With `f` of the `n` children failed: an AND gate is failed iff `f == n`
/// and it has children,
/// an OR gate iff `f >= 1`, a vote gate iff `f > n / 2`. So a vote over
/// three children is failed iff two or three are, and a vote over two
/// children is failed iff both are, as an AND gate over them.
pub proof fn law_gate_rules(p: Seq<bool>, ch: Seq<usize>)
    ensures
        ({
            let f = count_failed(p, ch);
            let n = ch.len();
            &&& f <= n
            &&& all_failed(p, ch) <==> n >= 1 && f == n
            &&& any_failed(p, ch) <==> f >= 1
            &&& majority_failed(p, ch) <==> f > n / 2
            &&& n == 3 ==> (majority_failed(p, ch) <==> (f == 2 || f == 3))
            &&& n == 2 ==> (majority_failed(p, ch) <==> f == 2)
            &&& n == 2 ==> (majority_failed(p, ch) <==> all_failed(p, ch))
        }),
{
    lemma_count_bounds(p, ch);
}

proof fn lemma_level_same(s: Seq<Element>, t: Seq<Element>, n: nat)
    requires
        s.len() == t.len(),
        forall|i: int| 0 <= i < s.len() && !((#[trigger] s[i]) is Basic) ==> t[i] == s[i],
        forall|i: int| 0 <= i < s.len() && (#[trigger] s[i]) is Basic ==> t[i] is Basic
            && t[i]->Basic_0.status == s[i]->Basic_0.status,
    ensures
        level(s, n) == level(t, n),
    decreases n,
{
    if n > 0 {
        lemma_level_same(s, t, (n - 1) as nat);
        let q = level(s, (n - 1) as nat);
        assert forall|i: int| 0 <= i < s.len() implies eval(s[i], q) == eval(t[i], q) by {
            if s[i] is Basic {
                assert(t[i] is Basic);
            } else {
                assert(t[i] == s[i]);
            }
        }
    }
    assert(level(s, n) =~= level(t, n));
}

/// A gate holds no state of its own: two trees with the same gates and the
/// same statuses of their basic events are failed at the same elements, so
/// querying without changing a status gives the same answer every time.
pub proof fn law_derived_state(s: Seq<Element>, t: Seq<Element>)
    requires
        s.len() == t.len(),
        forall|i: int| 0 <= i < s.len() && !((#[trigger] s[i]) is Basic) ==> t[i] == s[i],
        forall|i: int| 0 <= i < s.len() && (#[trigger] s[i]) is Basic ==> t[i] is Basic
            && t[i]->Basic_0.status == s[i]->Basic_0.status,
    ensures
        failed_states(s) == failed_states(t),
{
    lemma_level_same(s, t, s.len());
}

proof fn lemma_count_mono(p: Seq<bool>, q: Seq<bool>, ch: Seq<usize>)
    requires
        forall|j: int| 0 <= j < ch.len() && p[ch[j] as int] ==> q[ch[j] as int],
    ensures
        count_failed(p, ch) <= count_failed(q, ch),
    decreases ch.len(),
{
    if ch.len() > 0 {
        let d = ch.drop_last();
        assert forall|j: int| 0 <= j < d.len() && p[d[j] as int] implies q[d[j] as int] by {
            assert(d[j] == ch[j]);
        }
        lemma_count_mono(p, q, d);
        assert(p[ch[ch.len() - 1] as int] ==> q[ch[ch.len() - 1] as int]);
    }
}

/// Same gates at the same places, and every basic event failed in `s` also
/// failed in `t`.
pub open spec fn more_failed(s: Seq<Element>, t: Seq<Element>) -> bool {
    &&& s.len() == t.len()
    &&& forall|i: int| 0 <= i < s.len() && !((#[trigger] s[i]) is Basic) ==> t[i] == s[i]
    &&& forall|i: int| 0 <= i < s.len() && (#[trigger] s[i]) is Basic ==> t[i] is Basic && (s[i]->Basic_0.status
        == Status::Dead ==> t[i]->Basic_0.status == Status::Dead)
}

proof fn lemma_level_mono(s: Seq<Element>, t: Seq<Element>, n: nat)
    requires
        children_present(s),
        more_failed(s, t),
    ensures
        forall|i: int| 0 <= i < s.len() && #[trigger] level(s, n)[i] ==> level(t, n)[i],
    decreases n,
{
    if n > 0 {
        let m = (n - 1) as nat;
        lemma_level_mono(s, t, m);
        let p = level(s, m);
        let q = level(t, m);
        assert forall|i: int| 0 <= i < s.len() && #[trigger] level(s, n)[i] implies level(t, n)[i] by {
            let ch = s[i].children_spec();
            assert forall|j: int| 0 <= j < ch.len() && p[ch[j] as int] implies q[ch[j] as int] by {
                assert(s[i].children_spec()[j] < s.len());
            }
            if !(s[i] is Basic) {
                assert(t[i] == s[i]);
                lemma_count_mono(p, q, ch);
                if any_failed(p, ch) {
                    let j = choose|j: int| 0 <= j < ch.len() && #[trigger] p[ch[j] as int];
                    assert(q[ch[j] as int]);
                }
                if all_failed(p, ch) {
                    assert forall|j: int| 0 <= j < ch.len() implies #[trigger] q[ch[j] as int] by {
                        assert(p[ch[j] as int]);
                    }
                }
            }
        }
    }
}

/// Gates are monotone: failing more basic events never repairs an element.
/// So if some set of failed basic events fails the root, the root is failed
/// once every one of them has failed, whatever the others do.
pub proof fn law_monotone(s: Seq<Element>, t: Seq<Element>)
    requires
        children_present(s),
        more_failed(s, t),
    ensures
        forall|i: int| 0 <= i < s.len() && #[trigger] failed_states(s)[i] ==> failed_states(t)[i],
{
    lemma_level_mono(s, t, s.len());
}

proof fn lemma_count_remove(p: Seq<bool>, s: Seq<usize>, k: int)
    requires
        0 <= k < s.len(),
    ensures
        count_failed(p, s) == count_failed(p, s.remove(k)) + if p[s[k] as int] {
            1nat
        } else {
            0nat
        },
    decreases s.len(),
{
    let l = s.len() - 1;
    if k == l {
        assert(s.remove(k) =~= s.drop_last());
    } else {
        let d = s.drop_last();
        lemma_count_remove(p, d, k);
        let r = s.remove(k);
        assert(r.drop_last() =~= d.remove(k));
        assert(r.last() == s.last());
        assert(d[k] == s[k]);
    }
}

proof fn lemma_count_perm(p: Seq<bool>, a: Seq<usize>, b: Seq<usize>)
    requires
        a.to_multiset() == b.to_multiset(),
    ensures
        count_failed(p, a) == count_failed(p, b),
    decreases a.len(),
{
    broadcast use vstd::seq_lib::group_to_multiset_ensures;

    assert(a.len() == a.to_multiset().len());
    assert(b.len() == b.to_multiset().len());
    if a.len() > 0 {
        let x = a.last();
        let d = a.drop_last();
        assert(d.push(x) =~= a);
        assert(a.to_multiset() =~= d.to_multiset().insert(x));
        assert(a.to_multiset().count(x) > 0);
        assert(b.contains(x));
        let k = choose|k: int| 0 <= k < b.len() && b[k] == x;
        let r = b.remove(k);
        assert(r.to_multiset() =~= b.to_multiset().remove(x));
        assert(d.to_multiset() =~= a.to_multiset().remove(x));
        lemma_count_perm(p, d, r);
        lemma_count_remove(p, b, k);
    }
}

/// The order of a gate's children does not matter: over the same children
/// in any order, the counts of failed children agree, and so do the AND,
/// OR and vote rules.
pub proof fn law_children_order(p: Seq<bool>, a: Seq<usize>, b: Seq<usize>)
    requires
        a.to_multiset() == b.to_multiset(),
    ensures
        count_failed(p, a) == count_failed(p, b),
        all_failed(p, a) == all_failed(p, b),
        any_failed(p, a) == any_failed(p, b),
        majority_failed(p, a) == majority_failed(p, b),
{
    broadcast use vstd::seq_lib::group_to_multiset_ensures;

    assert(a.len() == a.to_multiset().len());
    assert(b.len() == b.to_multiset().len());
    lemma_count_perm(p, a, b);
    lemma_count_bounds(p, a);
    lemma_count_bounds(p, b);
}

/// Applying a failure to a basic event leaves it failed; applying a repair
/// after that leaves it alive, and gives back the tree as it was when the
/// event started out alive.
pub proof fn law_status_round_trip(els: Seq<Element>, id: int)
    requires
        well_formed(els),
        0 <= id < els.len(),
        els[id] is Basic,
    ensures
        ({
            let dead = els.update(id, with_status(els[id], Status::Dead));
            let back = dead.update(id, with_status(dead[id], Status::Alive));
            &&& well_formed(dead)
            &&& failed_states(dead)[id]
            &&& back[id]->Basic_0.status == Status::Alive
            &&& els[id]->Basic_0.status == Status::Alive ==> back == els
        }),
{
    let dead = els.update(id, with_status(els[id], Status::Dead));
    let back = dead.update(id, with_status(dead[id], Status::Alive));
    assert forall|i: int| 0 <= i < dead.len() implies (#[trigger] dead[i]).id() == i by {
        assert(els[i].id() == i);
    }
    assert forall|i: int| 0 <= i < dead.len() && (#[trigger] dead[i]) is Basic implies dead[i]->Basic_0.wf() by {
        assert(els[i] is Basic);
    }
    assert(failed_states(dead)[id] == eval(dead[id], level(dead, (dead.len() - 1) as nat)));
    if els[id]->Basic_0.status == Status::Alive {
        let b = els[id]->Basic_0;
        assert(back[id] == Element::Basic(BasicEvent { status: Status::Alive, ..b }));
        assert(back =~= els);
    }
}

/// Resetting a tree whose basic events are all alive leaves it as it is;
/// resetting twice is resetting once; after a reset every basic event is
/// alive and every gate is as it was.
pub proof fn law_reset(els: Seq<Element>)
    ensures
        (forall|i: int| 0 <= i < els.len() && (#[trigger] els[i]) is Basic ==> els[i]->Basic_0.status == Status::Alive)
            ==> reset_all(els) == els,
        reset_all(reset_all(els)) == reset_all(els),
        reset_all(els).len() == els.len(),
        forall|i: int| 0 <= i < els.len() && (#[trigger] els[i]) is Basic ==> reset_all(els)[i] is Basic
            && reset_all(els)[i]->Basic_0.status == Status::Alive,
        forall|i: int| 0 <= i < els.len() && !((#[trigger] els[i]) is Basic) ==> reset_all(els)[i] == els[i],
{
    if forall|i: int| 0 <= i < els.len() && (#[trigger] els[i]) is Basic ==> els[i]->Basic_0.status == Status::Alive {
        assert forall|i: int| 0 <= i < els.len() implies reset_all(els)[i] == els[i] by {
            if els[i] is Basic {
                let b = els[i]->Basic_0;
                assert(b.status == Status::Alive);
                assert(BasicEvent { status: Status::Alive, ..b } == b);
            }
        }
        assert(reset_all(els) =~= els);
    }
    assert(reset_all(reset_all(els)) =~= reset_all(els));
}

/// Whatever events are inserted, the schedule stays in order of time, so
/// taking the earliest event twice yields non-decreasing times.
pub proof fn law_schedule_order(s: Seq<EventTime>, e: EventTime, k: int)
    requires
        sorted(s),
    ensures
        is_insert_pos(s, e.time, k) ==> sorted(s.insert(k, e)),
        sorted(s.drop_first()) || s.len() == 0,
        s.len() >= 2 ==> s[0].time <= s.drop_first()[0].time,
{
    if is_insert_pos(s, e.time, k) {
        lemma_insert_sorted(s, e, k);
    }
    if s.len() > 0 {
        let d = s.drop_first();
        assert forall|i: int, j: int| 0 <= i <= j < d.len() implies #[trigger] d[i].time <= #[trigger] d[j].time by {
            assert(s[i + 1].time <= s[j + 1].time);
        }
    }
    if s.len() >= 2 {
        assert(s[0].time <= s[1].time);
    }
}

} // verus!
