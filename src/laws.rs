//! Properties that hold across several operations of the simulator.
use vstd::prelude::*;
use crate::model::{err, lemma_find_last, live, release, release_frame, BindState, ErrorKind, Event, Kind, Op, SimState, Slot};

verus! {

/// Once a uniquely owned value has been moved out of a binding, using that
/// binding fails with a use-after-move error.
pub proof fn law_use_after_move(st: SimState, name: String)
    requires
        st.wf(),
        st.move_out(name).1 is Ok,
        st.lookup(name@) matches Some(i) && st.cells[st.slots[i as int].handle as int].kind == Kind::Unique,
    ensures
        st.move_out(name).0.use_binding(name).1 == err::<usize>(ErrorKind::UseAfterMove, name),
{
    lemma_find_last(st.names, name@, st.names.len() as int);
}

/// The state after `n` uses of `name`.
pub open spec fn use_n(st: SimState, name: String, n: nat) -> SimState
    decreases n,
{
    if n == 0 {
        st
    } else {
        use_n(st, name, (n - 1) as nat).use_binding(name).0
    }
}

/// A binding of a copyable value can be used any number of times: every use
/// succeeds with the same value, and no use changes any binding or value.
pub proof fn law_copyable_use_repeats(st: SimState, name: String, n: nat)
    requires
        st.wf(),
        st.lookup(name@) matches Some(i) && {
            let s = st.slots[i as int];
            &&& !(s.state is Moved)
            &&& live(st.cells, s.handle)
            &&& st.cells[s.handle as int].kind == Kind::Copyable
        },
    ensures
        use_n(st, name, n).names == st.names,
        use_n(st, name, n).slots == st.slots,
        use_n(st, name, n).cells == st.cells,
        use_n(st, name, n).use_binding(name).1 == Ok::<usize, crate::model::OwnershipError>(
            st.slots[st.lookup(name@)->Some_0 as int].handle,
        ),
    decreases n,
{
    if n > 0 {
        law_copyable_use_repeats(st, name, (n - 1) as nat);
    }
}

/// Moving out of a binding of a copyable value hands out a copy and leaves
/// every binding as it was.
pub proof fn law_copyable_move_keeps_binding(st: SimState, name: String)
    requires
        st.wf(),
        st.lookup(name@) matches Some(i) && {
            let s = st.slots[i as int];
            &&& s.state == BindState::Owned
            &&& live(st.cells, s.handle)
            &&& st.cells[s.handle as int].kind == Kind::Copyable
        },
    ensures
        st.move_out(name).1 is Ok,
        st.move_out(name).0.slots == st.slots,
        st.move_out(name).0.names == st.names,
{
}

/// How many of `ops` equal `b`.
pub open spec fn count_ops(ops: Seq<bool>, b: bool) -> nat
    decreases ops.len(),
{
    if ops.len() == 0 {
        0
    } else {
        count_ops(ops.drop_last(), b) + if ops.last() == b { 1nat } else { 0nat }
    }
}

/// Applies to value `h`, in order, a clone for each `true` of `ops` and a drop
/// for each `false`.
pub open spec fn run_store(st: SimState, h: usize, ops: Seq<bool>) -> SimState
    decreases ops.len(),
{
    if ops.len() == 0 {
        st
    } else {
        let prev = run_store(st, h, ops.drop_last());
        if ops.last() {
            prev.clone_value(h).0
        } else {
            prev.drop_value(h).0
        }
    }
}

/// The number of events of `log` that free value `h`.
pub open spec fn free_count(log: Seq<Event>, h: usize) -> nat
    decreases log.len(),
{
    if log.len() == 0 {
        0
    } else {
        free_count(log.drop_last(), h) + if log.last().op == Op::Free && log.last().value == h {
            1nat
        } else {
            0nat
        }
    }
}

proof fn lemma_free_count_push(log: Seq<Event>, e: Event, h: usize)
    ensures
        free_count(log.push(e), h) == free_count(log, h) + if e.op == Op::Free && e.value == h {
            1nat
        } else {
            0nat
        },
{
    assert(log.push(e).drop_last() =~= log);
}

proof fn lemma_count_ops_take(ops: Seq<bool>, j: int)
    requires
        0 <= j < ops.len(),
    ensures
        ops.drop_last().take(j) == ops.take(j),
{
    assert(ops.drop_last().take(j) =~= ops.take(j));
}

/// A shared value that starts with one owner has, after `k` clones and `m`
/// drops in any order that never lets the count reach zero early, exactly
/// `1 + k - m` owners; it is freed, with exactly one free event, precisely
/// when that count is zero.
pub proof fn law_shared_count(st: SimState, h: usize, ops: Seq<bool>)
    requires
        st.wf(),
        live(st.cells, h),
        st.cells[h as int].kind == Kind::Shared,
        st.cells[h as int].owners == 1,
        count_ops(ops, true) < u64::MAX - 1,
        forall|j: int| 0 <= j < ops.len() ==> count_ops(#[trigger] ops.take(j), false) <= count_ops(ops.take(j), true),
    ensures
        ({
            let end = run_store(st, h, ops);
            let n = 1 + count_ops(ops, true) - count_ops(ops, false);
            &&& end.cells.len() == st.cells.len()
            &&& end.cells[h as int].kind == Kind::Shared
            &&& end.cells[h as int].owners == n
            &&& end.cells[h as int].freed <==> n == 0
            &&& free_count(end.log, h) == free_count(st.log, h) + if n == 0 { 1nat } else { 0nat }
        }),
    decreases ops.len(),
{
    if ops.len() > 0 {
        let init = ops.drop_last();
        assert forall|j: int| 0 <= j < init.len() implies count_ops(#[trigger] init.take(j), false) <= count_ops(init.take(j), true) by {
            lemma_count_ops_take(ops, j);
            assert(count_ops(ops.take(j), false) <= count_ops(ops.take(j), true));
        }
        assert(ops.take(init.len() as int) =~= init);
        assert(count_ops(ops.take(init.len() as int), false) <= count_ops(ops.take(init.len() as int), true));
        law_shared_count(st, h, init);
        let prev = run_store(st, h, init);
        let c = prev.cells[h as int];
        if ops.last() {
            lemma_free_count_push(prev.log, Event { op: Op::Clone, name: None, value: h }, h);
        } else {
            let log1 = prev.log.push(Event { op: Op::Drop, name: None, value: h });
            lemma_free_count_push(prev.log, Event { op: Op::Drop, name: None, value: h }, h);
            lemma_free_count_push(log1, Event { op: Op::Free, name: None, value: h }, h);
        }
    }
}

/// The names of the bindings that dropped a value, in the order of `log`.
pub open spec fn drop_names(log: Seq<Event>) -> Seq<String>
    decreases log.len(),
{
    if log.len() == 0 {
        Seq::empty()
    } else {
        let init = drop_names(log.drop_last());
        match log.last().name {
            Some(n) => if log.last().op == Op::Drop {
                init.push(n)
            } else {
                init
            },
            None => init,
        }
    }
}

/// The names of the bindings from `lo` up to `i`, in creation order, that
/// still own their value.
pub open spec fn owning_names(names: Seq<String>, slots: Seq<Slot>, lo: int, i: int) -> Seq<String>
    decreases i - lo,
{
    if i <= lo {
        Seq::empty()
    } else {
        let init = owning_names(names, slots, lo, i - 1);
        if slots[i - 1].state is Moved {
            init
        } else {
            init.push(names[i - 1])
        }
    }
}

proof fn lemma_drop_names_push(log: Seq<Event>, e: Event)
    ensures
        drop_names(log.push(e)) == if e.op == Op::Drop && e.name is Some {
            drop_names(log).push(e.name->Some_0)
        } else {
            drop_names(log)
        },
{
    assert(log.push(e).drop_last() =~= log);
}

proof fn lemma_release_frame_drops(
    cells: Seq<crate::model::Cell>,
    log: Seq<Event>,
    names: Seq<String>,
    slots: Seq<Slot>,
    lo: int,
    i: int,
)
    requires
        0 <= lo,
        i <= names.len(),
        names.len() == slots.len(),
    ensures
        drop_names(release_frame(cells, log, names, slots, lo, i).1) == drop_names(log) + owning_names(
            names,
            slots,
            lo,
            i,
        ).reverse(),
    decreases i - lo,
{
    if i <= lo {
        assert(drop_names(log) + Seq::<String>::empty().reverse() =~= drop_names(log));
    } else {
        let s = slots[i - 1];
        let next = if s.state is Moved {
            (cells, log)
        } else {
            release(cells, log, s.handle, Some(names[i - 1]))
        };
        lemma_release_frame_drops(next.0, next.1, names, slots, lo, i - 1);
        let rest = owning_names(names, slots, lo, i - 1);
        if s.state is Moved {
        } else {
            let e = Event { op: Op::Drop, name: Some(names[i - 1]), value: s.handle };
            lemma_drop_names_push(log, e);
            lemma_drop_names_push(log.push(e), Event { op: Op::Free, name: None, value: s.handle });
            assert(rest.push(names[i - 1]).reverse() =~= seq![names[i - 1]] + rest.reverse());
            assert(drop_names(log).push(names[i - 1]) + rest.reverse() =~= drop_names(log) + (seq![names[i - 1]]
                + rest.reverse()));
        }
    }
}

/// Closing a frame drops the values of its bindings in exactly the reverse
/// of the order in which the bindings were made, skipping those moved away.
pub proof fn law_frame_drop_order(st: SimState)
    requires
        st.wf(),
    ensures
        drop_names(st.pop_frame().log) == drop_names(st.log) + owning_names(
            st.names,
            st.slots,
            st.frame_start() as int,
            st.slots.len() as int,
        ).reverse(),
{
    lemma_release_frame_drops(
        st.cells,
        st.log,
        st.names,
        st.slots,
        st.frame_start() as int,
        st.slots.len() as int,
    );
}

} // verus!
