use ownership::model::{BindState, ErrorKind, Event, Kind, Op, Payload};
use ownership::simulator::Simulator;

fn s(text: &str) -> String {
    text.to_string()
}

fn free_events(events: &[Event], h: usize) -> usize {
    events.iter().filter(|e| e.op == Op::Free && e.value == h).count()
}

fn dropped_names(events: &[Event]) -> Vec<String> {
    events
        .iter()
        .filter(|e| e.op == Op::Drop)
        .filter_map(|e| e.name.clone())
        .collect()
}

#[test]
fn unique_use_after_move_fails() {
    let mut sim = Simulator::new(true);
    let h = sim.allocate(Kind::Unique, Payload::Text(s("V")));
    sim.bind(&s("x"), h).unwrap();
    assert_eq!(sim.move_out(&s("x")).unwrap(), h);
    let e = sim.use_binding(&s("x")).unwrap_err();
    assert_eq!(e.kind, ErrorKind::UseAfterMove);
    assert_eq!(e.name, "x");
    // and again: still moved
    assert_eq!(sim.use_binding(&s("x")).unwrap_err().kind, ErrorKind::UseAfterMove);
    assert_eq!(sim.move_out(&s("x")).unwrap_err().kind, ErrorKind::UseAfterMove);
}

#[test]
fn copyable_survives_being_passed() {
    let mut sim = Simulator::new(true);
    let h = sim.allocate(Kind::Copyable, Payload::Int(109));
    sim.bind(&s("a"), h).unwrap();
    let copy = sim.move_out(&s("a")).unwrap();
    assert_ne!(copy, h);
    sim.drop_value(copy).unwrap();
    assert_eq!(sim.use_binding(&s("a")).unwrap(), h);
    assert!(matches!(sim.payload(h), Some(Payload::Int(109))));
    assert_eq!(sim.binding(&s("a")).unwrap().state, BindState::Owned);
}

#[test]
fn copyable_use_repeats_without_moving() {
    let mut sim = Simulator::new(true);
    let h = sim.allocate(Kind::Copyable, Payload::Int(7));
    sim.bind(&s("n"), h).unwrap();
    for _ in 0..10 {
        assert_eq!(sim.use_binding(&s("n")).unwrap(), h);
        assert_eq!(sim.binding(&s("n")).unwrap().state, BindState::Owned);
    }
}

#[test]
fn shared_freed_once_after_last_drop() {
    let mut sim = Simulator::new(true);
    let h = sim.allocate(Kind::Shared, Payload::Text(s("David")));
    assert_eq!(sim.clone_value(h).unwrap(), h);
    assert_eq!(sim.clone_value(h).unwrap(), h);
    assert_eq!(sim.cell(h).unwrap().owners, 3);
    sim.drop_value(h).unwrap();
    sim.drop_value(h).unwrap();
    assert_eq!(free_events(sim.events(), h), 0);
    assert_eq!(sim.cell(h).unwrap().owners, 1);
    sim.drop_value(h).unwrap();
    assert_eq!(free_events(sim.events(), h), 1);
    let last = sim.events().last().unwrap();
    assert_eq!(last.op, Op::Free);
    assert_eq!(last.value, h);
    assert!(sim.cell(h).unwrap().freed);
    assert_eq!(sim.drop_value(h).unwrap_err(), ErrorKind::DanglingHandle);
}

#[test]
fn shared_count_follows_clones_and_drops() {
    let mut sim = Simulator::new(true);
    let h = sim.allocate(Kind::Shared, Payload::Int(1));
    let ops = [true, true, false, true, false, false];
    let mut k = 0u64;
    let mut m = 0u64;
    for op in ops {
        if op {
            sim.clone_value(h).unwrap();
            k += 1;
        } else {
            sim.drop_value(h).unwrap();
            m += 1;
        }
        assert_eq!(sim.cell(h).unwrap().owners, 1 + k - m);
        assert_eq!(free_events(sim.events(), h), 0);
    }
    sim.drop_value(h).unwrap();
    assert_eq!(sim.cell(h).unwrap().owners, 0);
    assert_eq!(free_events(sim.events(), h), 1);
}

#[test]
fn rebinding_drops_old_value_at_once() {
    let mut sim = Simulator::new(true);
    let old = sim.allocate(Kind::Unique, Payload::Text(s("Marcus")));
    sim.bind(&s("name"), old).unwrap();
    let new = sim.allocate(Kind::Unique, Payload::Text(s("Victus")));
    sim.bind(&s("name"), new).unwrap();
    assert!(sim.cell(old).unwrap().freed);
    assert_eq!(free_events(sim.events(), old), 1);
    assert_eq!(sim.use_binding(&s("name")).unwrap(), new);
    assert!(!sim.cell(new).unwrap().freed);
}

#[test]
fn rebinding_after_move_drops_nothing() {
    let mut sim = Simulator::new(true);
    let first = sim.allocate(Kind::Unique, Payload::Text(s("Marcus")));
    sim.bind(&s("name"), first).unwrap();
    let taken = sim.move_out(&s("name")).unwrap();
    sim.bind(&s("t"), taken).unwrap();
    let second = sim.allocate(Kind::Unique, Payload::Text(s("Edvard")));
    sim.bind(&s("name"), second).unwrap();
    assert!(!sim.cell(first).unwrap().freed);
    assert_eq!(dropped_names(sim.events()), Vec::<String>::new());
    assert_eq!(sim.use_binding(&s("t")).unwrap(), first);
    assert_eq!(sim.use_binding(&s("name")).unwrap(), second);
}

#[test]
fn mutable_borrow_during_shared_borrow_conflicts() {
    let mut sim = Simulator::new(true);
    let h = sim.allocate(Kind::Unique, Payload::Int(5));
    sim.bind(&s("x"), h).unwrap();
    assert_eq!(sim.borrow(&s("x"), false).unwrap(), h);
    let e = sim.borrow(&s("x"), true).unwrap_err();
    assert_eq!(e.kind, ErrorKind::BorrowConflict);
    assert_eq!(e.name, "x");
    assert_eq!(sim.binding(&s("x")).unwrap().state, BindState::Borrowed(1));
}

#[test]
fn borrows_count_and_end() {
    let mut sim = Simulator::new(true);
    let h = sim.allocate(Kind::Unique, Payload::Int(5));
    sim.bind(&s("x"), h).unwrap();
    sim.borrow(&s("x"), false).unwrap();
    sim.borrow(&s("x"), false).unwrap();
    assert_eq!(sim.binding(&s("x")).unwrap().state, BindState::Borrowed(2));
    assert_eq!(sim.move_out(&s("x")).unwrap_err().kind, ErrorKind::BorrowConflict);
    sim.end_borrow(&s("x")).unwrap();
    sim.end_borrow(&s("x")).unwrap();
    assert_eq!(sim.binding(&s("x")).unwrap().state, BindState::Owned);
    sim.borrow(&s("x"), true).unwrap();
    assert_eq!(sim.binding(&s("x")).unwrap().state, BindState::BorrowedMut);
    assert_eq!(sim.borrow(&s("x"), false).unwrap_err().kind, ErrorKind::BorrowConflict);
    sim.end_borrow(&s("x")).unwrap();
    assert_eq!(sim.end_borrow(&s("x")).unwrap_err().kind, ErrorKind::BorrowConflict);
}

#[test]
fn borrow_of_moved_binding_conflicts() {
    let mut sim = Simulator::new(true);
    let h = sim.allocate(Kind::Unique, Payload::Int(5));
    sim.bind(&s("x"), h).unwrap();
    sim.move_out(&s("x")).unwrap();
    assert_eq!(sim.borrow(&s("x"), false).unwrap_err().kind, ErrorKind::BorrowConflict);
}

#[test]
fn frame_pop_drops_in_reverse_creation_order() {
    let mut sim = Simulator::new(true);
    sim.push_frame();
    for n in ["a", "b", "c", "d"] {
        let h = sim.allocate(Kind::Unique, Payload::Text(s(n)));
        sim.bind(&s(n), h).unwrap();
    }
    let b = sim.move_out(&s("b")).unwrap();
    sim.pop_frame();
    assert_eq!(dropped_names(sim.events()), vec![s("d"), s("c"), s("a")]);
    assert!(!sim.cell(b).unwrap().freed);
    assert_eq!(sim.use_binding(&s("a")).unwrap_err().kind, ErrorKind::Unbound);
}

#[test]
fn inner_frame_shadows_outer_binding() {
    let mut sim = Simulator::new(true);
    let outer = sim.allocate(Kind::Unique, Payload::Int(1));
    sim.bind(&s("x"), outer).unwrap();
    sim.push_frame();
    let inner = sim.allocate(Kind::Unique, Payload::Int(2));
    sim.bind(&s("x"), inner).unwrap();
    assert_eq!(sim.use_binding(&s("x")).unwrap(), inner);
    assert!(!sim.cell(outer).unwrap().freed);
    sim.pop_frame();
    assert!(sim.cell(inner).unwrap().freed);
    assert_eq!(sim.use_binding(&s("x")).unwrap(), outer);
}

#[test]
fn shared_value_survives_one_frame() {
    let mut sim = Simulator::new(true);
    let h = sim.allocate(Kind::Shared, Payload::Text(s("David")));
    sim.bind(&s("rc"), h).unwrap();
    sim.push_frame();
    let c = sim.clone_value(h).unwrap();
    sim.bind(&s("c"), c).unwrap();
    sim.pop_frame();
    assert_eq!(sim.cell(h).unwrap().owners, 1);
    assert!(!sim.cell(h).unwrap().freed);
    sim.pop_frame();
    assert!(sim.cell(h).unwrap().freed);
    assert_eq!(free_events(sim.events(), h), 1);
}

#[test]
fn unique_clone_is_invalid() {
    let mut sim = Simulator::new(true);
    let h = sim.allocate(Kind::Unique, Payload::Int(1));
    assert_eq!(sim.clone_value(h).unwrap_err(), ErrorKind::InvalidClone);
    assert_eq!(sim.cell(h).unwrap().owners, 1);
}

#[test]
fn copyable_clone_is_a_new_value() {
    let mut sim = Simulator::new(true);
    let h = sim.allocate(Kind::Copyable, Payload::Text(s("abc")));
    let c = sim.clone_value(h).unwrap();
    assert_ne!(c, h);
    assert!(matches!(sim.payload(c), Some(Payload::Text(t)) if t == "abc"));
    assert_eq!(sim.cell(c).unwrap().kind, Kind::Copyable);
}

#[test]
fn duplicate_binding_without_shadowing() {
    let mut sim = Simulator::new(false);
    let h = sim.allocate(Kind::Unique, Payload::Int(1));
    sim.bind(&s("x"), h).unwrap();
    let g = sim.allocate(Kind::Unique, Payload::Int(2));
    let e = sim.bind(&s("x"), g).unwrap_err();
    assert_eq!(e.kind, ErrorKind::DuplicateBinding);
    assert_eq!(e.name, "x");
    assert_eq!(sim.use_binding(&s("x")).unwrap(), h);
}

#[test]
fn unknown_name_is_unbound() {
    let mut sim = Simulator::new(true);
    assert_eq!(sim.use_binding(&s("nope")).unwrap_err().kind, ErrorKind::Unbound);
    assert_eq!(sim.move_out(&s("nope")).unwrap_err().kind, ErrorKind::Unbound);
    assert_eq!(sim.borrow(&s("nope"), true).unwrap_err().kind, ErrorKind::Unbound);
    assert_eq!(sim.end_borrow(&s("nope")).unwrap_err().kind, ErrorKind::Unbound);
}

#[test]
fn dangling_handles_are_refused() {
    let mut sim = Simulator::new(true);
    assert_eq!(sim.clone_value(3).unwrap_err(), ErrorKind::DanglingHandle);
    assert_eq!(sim.drop_value(0).unwrap_err(), ErrorKind::DanglingHandle);
    assert_eq!(sim.bind(&s("x"), 0).unwrap_err().kind, ErrorKind::DanglingHandle);
    let h = sim.allocate(Kind::Unique, Payload::Int(1));
    sim.bind(&s("x"), h).unwrap();
    sim.drop_value(h).unwrap();
    assert_eq!(sim.use_binding(&s("x")).unwrap_err().kind, ErrorKind::DanglingHandle);
    assert!(sim.cell(9).is_none());
}

#[test]
fn trace_records_each_operation() {
    let mut sim = Simulator::new(true);
    let h = sim.allocate(Kind::Unique, Payload::Int(1));
    sim.bind(&s("x"), h).unwrap();
    sim.use_binding(&s("x")).unwrap();
    sim.borrow(&s("x"), false).unwrap();
    sim.end_borrow(&s("x")).unwrap();
    sim.move_out(&s("x")).unwrap();
    let ops: Vec<Op> = sim.events().iter().map(|e| e.op).collect();
    assert_eq!(ops, vec![Op::Alloc, Op::Bind, Op::Use, Op::Borrow, Op::EndBorrow, Op::Move]);
    assert!(sim.events()[1..].iter().all(|e| e.name.as_deref() == Some("x") && e.value == h));
}
