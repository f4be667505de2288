use ftsim::{
    finish_trial, process_next, schedule_failure, schedule_repair, BasicEvent, Children, Element, ElementKind,
    EventKind, EventTime, FtError, GateAnd, GateOr, GateVote, IDGenerator, Law, LawError, Schedule,
    ScheduleError, Status, Step, TrialError, FT,
};
use rand::distributions::Distribution;
use rand::rngs::StdRng;
use rand::SeedableRng;
use statrs::distribution::{Exp, Weibull};

fn key(x: f64) -> u64 {
    x.to_bits()
}

fn val(k: u64) -> f64 {
    f64::from_bits(k)
}

fn exp_law(rate: f64) -> Law {
    Law::Exp(Exp::new(rate).unwrap())
}

fn basic(id: usize, repair: Law) -> BasicEvent {
    BasicEvent::new(id, exp_law(0.01), repair).unwrap()
}

fn sample(law: &Law, rng: &mut StdRng) -> f64 {
    match law {
        Law::Exp(d) => d.sample(rng),
        Law::Weibull(d) => d.sample(rng),
        Law::Gamma(d) => d.sample(rng),
        Law::NoRepair => 0.0,
    }
}

/// Builds `n` basic events followed by one gate over all of them.
fn flat_tree(n: usize, gate: &str, repair: Law) -> FT {
    let mut ids = IDGenerator::new();
    let mut ft = FT::new();
    let mut children = Vec::new();
    for _ in 0..n {
        let e = Element::Basic(basic(ids.get_next(), repair));
        children.push(e.clone());
        ft.add_element(e).unwrap();
    }
    let id = ids.get_next();
    let root = match gate {
        "and" => {
            let mut g = GateAnd::new(id);
            for c in &children {
                g.children.add(c);
            }
            Element::And(g)
        }
        "or" => {
            let mut g = GateOr::new(id);
            for c in &children {
                g.children.add(c);
            }
            Element::Or(g)
        }
        _ => {
            let mut g = GateVote::new(id);
            for c in &children {
                g.children.add(c);
            }
            Element::Vote(g)
        }
    };
    ft.add_element(root).unwrap();
    ft.set_root(id);
    ft.check_links().unwrap();
    ft
}

fn fail(ft: &mut FT, element: usize) {
    ft.process_event_time(EventTime { time: 0, element, event_type: EventKind::Failure });
}

fn repair(ft: &mut FT, element: usize) {
    ft.process_event_time(EventTime { time: 0, element, event_type: EventKind::Repair });
}

/// Runs one trial; returns the system-failure time and the first failure
/// time drawn for each basic event.
fn run_trial(ft: &mut FT, rng: &mut StdRng) -> (f64, Vec<f64>) {
    let mut schedule = Schedule::new();
    let mut first = Vec::new();
    for e in ft.get_basic_events() {
        let t = sample(&ft.failure_law_of(e).unwrap(), rng);
        first.push(t);
        schedule_failure(&mut schedule, e, key(t));
    }
    loop {
        match process_next(ft, &mut schedule).unwrap() {
            Step::SystemFailed { time } => return (val(time), first),
            Step::SampleRepair { element, time } => {
                let d = sample(&ft.repair_law_of(element).unwrap(), rng);
                schedule_repair(&mut schedule, element, key(d), key(val(time) + d));
            }
            Step::SampleFailure { element, time } => {
                let d = sample(&ft.failure_law_of(element).unwrap(), rng);
                schedule_failure(&mut schedule, element, key(val(time) + d));
            }
        }
    }
}

#[test]
fn id_generator_counts_from_zero() {
    let mut g = IDGenerator::new();
    assert_eq!(g.get_next(), 0);
    assert_eq!(g.get_next(), 1);
    assert_eq!(g.get_next(), 2);
}

#[test]
fn basic_event_starts_alive() {
    let e = basic(4, Law::NoRepair);
    assert_eq!(e.get_id(), 4);
    assert_eq!(e.status, Status::Alive);
    assert!(!e.get_failed());
    assert!(matches!(e.repair_law(), Law::NoRepair));
}

#[test]
fn basic_event_rejects_no_failure_law() {
    let r = BasicEvent::new(0, Law::NoRepair, exp_law(0.01));
    assert_eq!(r.err(), Some(LawError::NoFailureLaw));
}

#[test]
fn basic_event_set_status() {
    let mut e = basic(0, exp_law(0.01));
    e.set_status(Status::Dead);
    assert!(e.get_failed());
    e.set_status(Status::Alive);
    assert!(!e.get_failed());
}

#[test]
fn children_keep_order() {
    let mut c = Children::new();
    c.add(&Element::Basic(basic(3, Law::NoRepair)));
    c.add(&Element::Basic(basic(1, Law::NoRepair)));
    assert_eq!(c.get(), &vec![3, 1]);
}

#[test]
fn element_kind_and_id() {
    let b = Element::Basic(basic(0, Law::NoRepair));
    let g = Element::Or(GateOr::new(5));
    assert_eq!(b.get_type(), ElementKind::Basic);
    assert_eq!(g.get_type(), ElementKind::Static);
    assert_eq!(g.get_id(), 5);
}

#[test]
fn add_element_out_of_order() {
    let mut ft = FT::new();
    let r = ft.add_element(Element::Basic(basic(1, Law::NoRepair)));
    assert_eq!(r, Err(FtError::OutOfOrder));
    assert_eq!(ft.len(), 0);
}

#[test]
fn check_links_unknown_child() {
    let mut ft = FT::new();
    ft.add_element(Element::Basic(basic(0, Law::NoRepair))).unwrap();
    let mut g = GateAnd::new(1);
    g.children.add(&Element::Basic(basic(2, Law::NoRepair)));
    assert_eq!(ft.add_element(Element::And(g)), Ok(()));
    assert_eq!(ft.len(), 2);
    assert_eq!(ft.check_links(), Err(FtError::UnknownChild));
}

#[test]
fn gate_added_before_its_children() {
    let mut ft = FT::new();
    let mut g = GateAnd::new(0);
    let c1 = Element::Basic(basic(1, Law::NoRepair));
    let c2 = Element::Basic(basic(2, Law::NoRepair));
    g.children.add(&c1);
    g.children.add(&c2);
    let gate = g.clone();
    assert_eq!(ft.add_element(Element::And(g)), Ok(()));
    assert_eq!(ft.check_links(), Err(FtError::UnknownChild));
    ft.add_element(c1).unwrap();
    ft.add_element(c2).unwrap();
    assert_eq!(ft.check_links(), Ok(()));
    fail(&mut ft, 1);
    assert_eq!(ft.get_failed(0), Ok(false));
    assert!(!gate.get_failed(&ft));
    fail(&mut ft, 2);
    assert_eq!(ft.get_failed(0), Ok(true));
    assert!(gate.get_failed(&ft));
}

#[test]
fn check_links_cycle() {
    let mut ft = FT::new();
    let mut g0 = GateOr::new(0);
    let mut g1 = GateAnd::new(1);
    g0.children.add(&Element::And(GateAnd::new(1)));
    g1.children.add(&Element::Or(GateOr::new(0)));
    ft.add_element(Element::Or(g0)).unwrap();
    ft.add_element(Element::And(g1)).unwrap();
    assert_eq!(ft.check_links(), Err(FtError::Cycle));
}

#[test]
fn vote_ignores_child_order() {
    let mut ft = flat_tree(3, "or", Law::NoRepair);
    fail(&mut ft, 0);
    fail(&mut ft, 2);
    let mut a = GateVote::new(9);
    let mut b = GateVote::new(9);
    for i in [0usize, 1, 2] {
        a.children.add(&Element::Basic(basic(i, Law::NoRepair)));
    }
    for i in [2usize, 1, 0] {
        b.children.add(&Element::Basic(basic(i, Law::NoRepair)));
    }
    assert!(a.get_failed(&ft));
    assert_eq!(a.get_failed(&ft), b.get_failed(&ft));
}

#[test]
fn add_element_invalid_basic_event() {
    let mut ft = FT::new();
    let mut e = basic(0, Law::NoRepair);
    e.set_status(Status::Dynamic);
    assert_eq!(ft.add_element(Element::Basic(e)), Err(FtError::InvalidBasicEvent));
}

#[test]
fn unknown_element_and_not_basic() {
    let ft = flat_tree(2, "and", Law::NoRepair);
    assert_eq!(ft.get_failed(3), Err(FtError::UnknownElement));
    assert_eq!(ft.failure_law_of(9).err(), Some(FtError::UnknownElement));
    assert_eq!(ft.failure_law_of(2).err(), Some(FtError::NotBasicEvent));
    assert_eq!(ft.repair_law_of(2).err(), Some(FtError::NotBasicEvent));
    assert_eq!(ft.repair_law_of(5).err(), Some(FtError::UnknownElement));
}

#[test]
fn basic_events_listed_in_order() {
    let ft = flat_tree(3, "or", Law::NoRepair);
    assert_eq!(ft.get_basic_events(), vec![0, 1, 2]);
}

#[test]
fn and_gate_semantics() {
    let mut ft = flat_tree(2, "and", Law::NoRepair);
    assert_eq!(ft.get_failed(2), Ok(false));
    fail(&mut ft, 0);
    assert_eq!(ft.get_failed(2), Ok(false));
    fail(&mut ft, 1);
    assert_eq!(ft.get_failed(2), Ok(true));
}

#[test]
fn or_gate_semantics() {
    let mut ft = flat_tree(3, "or", Law::NoRepair);
    assert_eq!(ft.get_failed(3), Ok(false));
    fail(&mut ft, 2);
    assert_eq!(ft.get_failed(3), Ok(true));
}

#[test]
fn empty_gates_are_not_failed() {
    let mut ft = FT::new();
    ft.add_element(Element::And(GateAnd::new(0))).unwrap();
    ft.add_element(Element::Or(GateOr::new(1))).unwrap();
    ft.add_element(Element::Vote(GateVote::new(2))).unwrap();
    ft.check_links().unwrap();
    assert_eq!(ft.get_failed(0), Ok(false));
    assert_eq!(ft.get_failed(1), Ok(false));
    assert_eq!(ft.get_failed(2), Ok(false));
}

#[test]
fn vote_of_three_needs_two() {
    let mut ft = flat_tree(3, "vote", Law::NoRepair);
    fail(&mut ft, 0);
    assert_eq!(ft.get_failed(3), Ok(false));
    fail(&mut ft, 2);
    assert_eq!(ft.get_failed(3), Ok(true));
    fail(&mut ft, 1);
    assert_eq!(ft.get_failed(3), Ok(true));
}

#[test]
fn vote_of_two_is_and() {
    let mut ft = flat_tree(2, "vote", Law::NoRepair);
    fail(&mut ft, 0);
    assert_eq!(ft.get_failed(2), Ok(false));
    fail(&mut ft, 1);
    assert_eq!(ft.get_failed(2), Ok(true));
}

#[test]
fn vote_of_four_needs_three() {
    let mut ft = flat_tree(4, "vote", Law::NoRepair);
    fail(&mut ft, 0);
    fail(&mut ft, 1);
    assert_eq!(ft.get_failed(4), Ok(false));
    fail(&mut ft, 3);
    assert_eq!(ft.get_failed(4), Ok(true));
}

#[test]
fn nested_gates() {
    // vote over three AND gates, each over two basic events
    let mut ids = IDGenerator::new();
    let mut ft = FT::new();
    let mut events = Vec::new();
    for _ in 0..6 {
        let e = Element::Basic(basic(ids.get_next(), exp_law(0.01)));
        events.push(e.clone());
        ft.add_element(e).unwrap();
    }
    let mut vote = GateVote::new(0);
    let mut gates = Vec::new();
    for k in 0..3 {
        let mut g = GateAnd::new(ids.get_next());
        g.children.add(&events[2 * k]);
        g.children.add(&events[2 * k + 1]);
        gates.push(Element::And(g));
    }
    vote.id = ids.get_next();
    for g in gates {
        vote.children.add(&g);
        ft.add_element(g).unwrap();
    }
    ft.add_element(Element::Vote(vote)).unwrap();
    ft.check_links().unwrap();
    fail(&mut ft, 0);
    fail(&mut ft, 1);
    fail(&mut ft, 2);
    assert_eq!(ft.get_failed(6), Ok(true));
    assert_eq!(ft.get_failed(9), Ok(false));
    fail(&mut ft, 5);
    fail(&mut ft, 4);
    assert_eq!(ft.get_failed(9), Ok(true));
}

#[test]
fn repeated_queries_agree() {
    let mut ft = flat_tree(3, "vote", Law::NoRepair);
    fail(&mut ft, 1);
    let a = ft.get_failed(3);
    let b = ft.get_failed(3);
    assert_eq!(a, b);
}

#[test]
fn status_round_trip() {
    let mut ft = flat_tree(1, "or", exp_law(0.01));
    fail(&mut ft, 0);
    assert_eq!(ft.get_failed(0), Ok(true));
    repair(&mut ft, 0);
    assert_eq!(ft.get_failed(0), Ok(false));
}

#[test]
fn reset_when_all_alive_changes_nothing() {
    let mut ft = flat_tree(3, "and", Law::NoRepair);
    ft.reset_basic_events();
    for i in 0..3 {
        assert_eq!(ft.get_failed(i), Ok(false));
    }
    assert_eq!(ft.len(), 4);
}

#[test]
fn reset_after_failures() {
    let mut ft = flat_tree(3, "or", Law::NoRepair);
    fail(&mut ft, 0);
    fail(&mut ft, 2);
    repair(&mut ft, 2);
    fail(&mut ft, 1);
    ft.reset_basic_events();
    for i in 0..4 {
        assert_eq!(ft.get_failed(i), Ok(false));
    }
    assert_eq!(ft.get_basic_events(), vec![0, 1, 2]);
}

#[test]
fn schedule_pops_in_time_order() {
    let mut s = Schedule::new();
    for (i, t) in [5u64, 1, 9, 3, 3, 0, 7].iter().enumerate() {
        s.insert(EventTime { time: *t, element: i, event_type: EventKind::Failure });
    }
    let mut times = Vec::new();
    while let Ok(e) = s.pop_earliest() {
        times.push(e.time);
    }
    assert_eq!(times, vec![0, 1, 3, 3, 5, 7, 9]);
}

#[test]
fn schedule_ties_leave_latest_first() {
    let mut s = Schedule::new();
    s.insert(EventTime { time: 2, element: 0, event_type: EventKind::Failure });
    s.insert(EventTime { time: 2, element: 1, event_type: EventKind::Repair });
    assert_eq!(s.pop_earliest().unwrap().element, 1);
    assert_eq!(s.pop_earliest().unwrap().element, 0);
}

#[test]
fn schedule_empty_queue() {
    let mut s = Schedule::new();
    assert_eq!(s.pop_earliest(), Err(ScheduleError::EmptyQueue));
    assert_eq!(s.len(), 0);
}

#[test]
fn process_next_on_empty_schedule() {
    let mut ft = flat_tree(1, "or", Law::NoRepair);
    let mut s = Schedule::new();
    assert_eq!(process_next(&mut ft, &mut s), Err(TrialError::Schedule(ScheduleError::EmptyQueue)));
}

#[test]
fn process_next_steps() {
    let mut ft = flat_tree(2, "and", exp_law(0.01));
    let mut s = Schedule::new();
    schedule_failure(&mut s, 0, 10);
    schedule_failure(&mut s, 1, 20);
    assert_eq!(process_next(&mut ft, &mut s), Ok(Step::SampleRepair { element: 0, time: 10 }));
    schedule_repair(&mut s, 0, 5, 15);
    assert_eq!(s.len(), 2);
    assert_eq!(process_next(&mut ft, &mut s), Ok(Step::SampleFailure { element: 0, time: 15 }));
    assert_eq!(ft.get_failed(0), Ok(false));
    schedule_failure(&mut s, 0, 30);
    assert_eq!(process_next(&mut ft, &mut s), Ok(Step::SampleRepair { element: 1, time: 20 }));
    assert_eq!(process_next(&mut ft, &mut s), Ok(Step::SystemFailed { time: 30 }));
}

#[test]
fn zero_repair_interval_schedules_nothing() {
    let mut s = Schedule::new();
    schedule_repair(&mut s, 0, 0, 12);
    assert_eq!(s.len(), 0);
    schedule_repair(&mut s, 0, 1, 12);
    assert_eq!(s.pop_earliest(), Ok(EventTime { time: 12, element: 0, event_type: EventKind::Repair }));
}

#[test]
fn process_next_unknown_root() {
    let mut ft = flat_tree(1, "or", Law::NoRepair);
    ft.set_root(8);
    assert_eq!(ft.get_root(), 8);
    let mut s = Schedule::new();
    schedule_failure(&mut s, 0, 1);
    assert_eq!(process_next(&mut ft, &mut s), Err(TrialError::Tree(FtError::UnknownElement)));
}

#[test]
fn and_of_two_exponential_trial() {
    let mut ft = flat_tree(2, "and", exp_law(0.01));
    let mut rng = StdRng::seed_from_u64(7);
    let (t, first) = run_trial(&mut ft, &mut rng);
    assert!(t >= 0.0);
    assert!(t >= first[0].max(first[1]));
}

#[test]
fn vote_without_repair_fails_after_two() {
    let mut ft = flat_tree(3, "vote", Law::NoRepair);
    let mut rng = StdRng::seed_from_u64(11);
    let (t, first) = run_trial(&mut ft, &mut rng);
    let mut sorted = first.clone();
    sorted.sort_by(|a, b| a.partial_cmp(b).unwrap());
    assert_eq!(t, sorted[1]);
}

#[test]
fn campaign_records_every_trial() {
    let mut ft = flat_tree(2, "and", exp_law(0.01));
    let mut rng = StdRng::seed_from_u64(3);
    let mut times: Vec<u64> = Vec::new();
    let k = 25;
    for _ in 0..k {
        let (t, _) = run_trial(&mut ft, &mut rng);
        finish_trial(&mut ft, &mut times, key(t));
    }
    assert_eq!(times.len(), k);
    assert!(times.iter().all(|t| val(*t) >= 0.0));
    for i in 0..2 {
        assert_eq!(ft.get_failed(i), Ok(false));
    }
}

#[test]
fn weibull_law_can_fail() {
    let w = Law::Weibull(Weibull::new(1.5, 100.0).unwrap());
    assert!(w.can_fail());
    assert!(!Law::NoRepair.can_fail());
}
