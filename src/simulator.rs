//! The executable ownership simulator: a value store, bindings in nested
//! frames, the ownership checks, and the drops at the end of a frame.
use vstd::prelude::*;
use crate::model::{
    find_last, lemma_find_last, lemma_release_wf, lemma_slot_wf, lemma_store_wf, live, release, release_frame, BindState, Cell, ErrorKind, Event, Kind, Op, OwnershipError,
    Payload, SimState, Slot,
};

verus! {

broadcast use vstd::string::group_string_axioms;

/// Values, bindings, open frames and the trace of every operation.
pub struct Simulator {
    cells: Vec<Cell>,
    payloads: Vec<Payload>,
    names: Vec<String>,
    slots: Vec<Slot>,
    frames: Vec<usize>,
    log: Vec<Event>,
    allow_shadowing: bool,
}

impl View for Simulator {
    type V = SimState;

    closed spec fn view(&self) -> SimState {
        SimState {
            cells: self.cells@,
            payloads: self.payloads@,
            names: self.names@,
            slots: self.slots@,
            frames: self.frames@,
            log: self.log@,
            allow_shadowing: self.allow_shadowing,
        }
    }
}

fn new_error(kind: ErrorKind, name: &String) -> (r: OwnershipError)
    ensures
        r == (OwnershipError { kind, name: *name }),
{
    OwnershipError { kind, name: name.clone() }
}

impl Simulator {
    /// An empty simulator; `allow_shadowing` says whether a name may be bound
    /// again while a binding of it is visible.
    pub fn new(allow_shadowing: bool) -> (r: Simulator)
        ensures
            r@.wf(),
            r@.cells.len() == 0,
            r@.payloads.len() == 0,
            r@.names.len() == 0,
            r@.slots.len() == 0,
            r@.frames.len() == 0,
            r@.log.len() == 0,
            r@.allow_shadowing == allow_shadowing,
    {
        Simulator {
            cells: Vec::new(),
            payloads: Vec::new(),
            names: Vec::new(),
            slots: Vec::new(),
            frames: Vec::new(),
            log: Vec::new(),
            allow_shadowing,
        }
    }

    /// The position of the visible binding named `name`.
    fn lookup(&self, name: &String) -> (r: Option<usize>)
        requires
            self@.wf(),
        ensures
            r == self@.lookup(name@),
            r matches Some(i) ==> i < self@.slots.len(),
    {
        let mut i: usize = self.names.len();
        proof {
            lemma_find_last(self.names@, name@, i as int);
        }
        while i > 0
            invariant
                self@.wf(),
                i <= self.names@.len(),
                find_last(self.names@, name@, self.names@.len() as int) == find_last(self.names@, name@, i as int),
            decreases i,
        {
            if self.names[i - 1] == *name {
                return Some(i - 1);
            }
            i = i - 1;
        }
        None
    }

    fn is_live(&self, h: usize) -> (r: bool)
        ensures
            r == live(self@.cells, h),
    {
        h < self.cells.len() && !self.cells[h].freed
    }

    /// Gives up one owner of `h` on behalf of `name`.
    fn release(&mut self, h: usize, name: Option<String>)
        requires
            old(self)@.wf(),
        ensures
            final(self)@ == old(self)@.with_store(
                release(old(self)@.cells, old(self)@.log, h, name).0,
                old(self)@.payloads,
                release(old(self)@.cells, old(self)@.log, h, name).1,
            ),
            final(self)@.wf(),
    {
        proof {
            lemma_release_wf(old(self)@, h, name);
        }
        self.log.push(Event { op: Op::Drop, name, value: h });
        if self.is_live(h) {
            let c = self.cells[h];
            if c.owners <= 1 {
                self.cells.set(h, Cell { kind: c.kind, owners: 0, freed: true });
                self.log.push(Event { op: Op::Free, name: None, value: h });
            } else {
                self.cells.set(h, Cell { kind: c.kind, owners: c.owners - 1, freed: false });
            }
        }
    }

    /// Stores a new value with one owner and returns its handle.
    pub fn allocate(&mut self, kind: Kind, payload: Payload) -> (h: usize)
        requires
            old(self)@.wf(),
        ensures
            final(self)@.wf(),
            (final(self)@, h) == old(self)@.allocate(kind, payload),
    {
        let h = self.add_value(kind, payload);
        self.log.push(Event { op: Op::Alloc, name: None, value: h });
        h
    }

    /// Appends a value with one owner, without logging it.
    fn add_value(&mut self, kind: Kind, payload: Payload) -> (h: usize)
        requires
            old(self)@.wf(),
        ensures
            final(self)@.wf(),
            h == old(self)@.cells.len(),
            final(self)@ == old(self)@.with_store(
                old(self)@.cells.push(Cell { kind, owners: 1, freed: false }),
                old(self)@.payloads.push(payload),
                old(self)@.log,
            ),
    {
        let h = self.cells.len();
        self.cells.push(Cell { kind, owners: 1, freed: false });
        self.payloads.push(payload);
        proof {
            let st = final(self)@;
            assert forall|k: int| 0 <= k < st.cells.len() && !st.cells[k].freed implies #[trigger] st.cells[k].owners >= 1 by {
                if k < h {
                    assert(st.cells[k] == old(self)@.cells[k]);
                }
            }
            lemma_store_wf(old(self)@, st.cells, st.payloads, st.log);
        }
        h
    }

    /// A further owner of `h`: the same handle with one more owner for a
    /// shared value, a fresh copy for a copyable one; a unique value cannot be
    /// cloned.
    pub fn clone_value(&mut self, h: usize) -> (r: Result<usize, ErrorKind>)
        requires
            old(self)@.wf(),
            old(self)@.clone_fits(h),
        ensures
            final(self)@.wf(),
            (final(self)@, r) == old(self)@.clone_value(h),
    {
        if !self.is_live(h) {
            return Err(ErrorKind::DanglingHandle);
        }
        let c = self.cells[h];
        match c.kind {
            Kind::Unique => Err(ErrorKind::InvalidClone),
            Kind::Shared => {
                self.cells.set(h, Cell { kind: c.kind, owners: c.owners + 1, freed: false });
                self.log.push(Event { op: Op::Clone, name: None, value: h });
                proof {
                    let st = final(self)@;
                    assert forall|k: int| 0 <= k < st.cells.len() && !st.cells[k].freed implies #[trigger] st.cells[k].owners >= 1 by {
                        if k != h {
                            assert(st.cells[k] == old(self)@.cells[k]);
                        }
                    }
                    lemma_store_wf(old(self)@, st.cells, st.payloads, st.log);
                }
                Ok(h)
            },
            Kind::Copyable => {
                let p = self.payloads[h].duplicate();
                let n = self.add_value(Kind::Copyable, p);
                self.log.push(Event { op: Op::Clone, name: None, value: h });
                Ok(n)
            },
        }
    }

    /// Gives up one owner of `h`; the value is freed when none is left.
    pub fn drop_value(&mut self, h: usize) -> (r: Result<(), ErrorKind>)
        requires
            old(self)@.wf(),
        ensures
            final(self)@.wf(),
            (final(self)@, r) == old(self)@.drop_value(h),
    {
        if !self.is_live(h) {
            return Err(ErrorKind::DanglingHandle);
        }
        self.release(h, None);
        Ok(())
    }

    fn set_slot(&mut self, i: usize, s: Slot)
        requires
            old(self)@.wf(),
            i < old(self)@.slots.len(),
            s.handle < old(self)@.cells.len(),
        ensures
            final(self)@.wf(),
            final(self)@ == old(self)@.with_slot(i, s),
    {
        proof {
            lemma_slot_wf(old(self)@, i, s);
        }
        self.slots.set(i, s);
    }

    /// Binds `name` to the value `h`. A binding of the same name in the
    /// innermost frame is reassigned, and the value it still owned is dropped
    /// at once; one in an outer frame is shadowed.
    pub fn bind(&mut self, name: &String, h: usize) -> (r: Result<(), OwnershipError>)
        requires
            old(self)@.wf(),
        ensures
            final(self)@.wf(),
            (final(self)@, r) == old(self)@.bind(*name, h),
    {
        if !self.is_live(h) {
            return Err(new_error(ErrorKind::DanglingHandle, name));
        }
        match self.lookup(name) {
            Some(i) => {
                if !self.allow_shadowing {
                    return Err(new_error(ErrorKind::DuplicateBinding, name));
                }
                let start = self.frame_start();
                if i < start {
                    self.push_binding(name, h);
                    return Ok(());
                }
                let s = self.slots[i];
                match s.state {
                    BindState::Moved => {
                        self.set_slot(i, Slot { handle: h, state: BindState::Owned });
                        self.push_event(Event { op: Op::Bind, name: Some(name.clone()), value: h });
                        Ok(())
                    },
                    BindState::Owned => {
                        self.set_slot(i, Slot { handle: h, state: BindState::Owned });
                        self.release(s.handle, Some(name.clone()));
                        self.push_event(Event { op: Op::Bind, name: Some(name.clone()), value: h });
                        Ok(())
                    },
                    _ => Err(new_error(ErrorKind::BorrowConflict, name)),
                }
            },
            None => {
                self.push_binding(name, h);
                Ok(())
            },
        }
    }

    fn push_event(&mut self, e: Event)
        requires
            old(self)@.wf(),
        ensures
            final(self)@.wf(),
            final(self)@ == old(self)@.with_log(old(self)@.log.push(e)),
    {
        proof {
            lemma_store_wf(old(self)@, old(self)@.cells, old(self)@.payloads, old(self)@.log.push(e));
        }
        self.log.push(e);
        proof {
            assert(final(self)@ == old(self)@.with_store(old(self)@.cells, old(self)@.payloads, old(self)@.log.push(e)));
        }
    }

    fn frame_start(&self) -> (r: usize)
        ensures
            r == self@.frame_start(),
    {
        if self.frames.len() == 0 {
            0
        } else {
            self.frames[self.frames.len() - 1]
        }
    }

    fn push_binding(&mut self, name: &String, h: usize)
        requires
            old(self)@.wf(),
            h < old(self)@.cells.len(),
        ensures
            final(self)@.wf(),
            final(self)@ == old(self)@.push_binding(*name, h),
    {
        self.names.push(name.clone());
        self.slots.push(Slot { handle: h, state: BindState::Owned });
        self.log.push(Event { op: Op::Bind, name: Some(name.clone()), value: h });
        let count: usize = self.names.len();
        proof {
            let st = final(self)@;
            assert(st.names.len() == count);
            assert forall|k: int| 0 <= k < st.slots.len() implies #[trigger] st.slots[k].handle < st.cells.len() by {
                if k < old(self)@.slots.len() {
                    assert(st.slots[k] == old(self)@.slots[k]);
                }
            }
            assert forall|k: int| 0 <= k < st.frames.len() implies #[trigger] st.frames[k] <= st.slots.len() by {
                assert(old(self)@.frames[k] <= old(self)@.slots.len());
            }
            assert(st == old(self)@.push_binding(*name, h));
        }
    }

    /// The value bound to `name`; the binding stays as it is.
    pub fn use_binding(&mut self, name: &String) -> (r: Result<usize, OwnershipError>)
        requires
            old(self)@.wf(),
        ensures
            final(self)@.wf(),
            (final(self)@, r) == old(self)@.use_binding(*name),
    {
        match self.lookup(name) {
            None => Err(new_error(ErrorKind::Unbound, name)),
            Some(i) => {
                let s = self.slots[i];
                if s.state == BindState::Moved {
                    Err(new_error(ErrorKind::UseAfterMove, name))
                } else if !self.is_live(s.handle) {
                    Err(new_error(ErrorKind::DanglingHandle, name))
                } else {
                    self.push_event(Event { op: Op::Use, name: Some(name.clone()), value: s.handle });
                    Ok(s.handle)
                }
            },
        }
    }

    /// Takes the value out of `name`. A copyable value is copied and the
    /// binding stays usable; any other leaves the binding moved.
    pub fn move_out(&mut self, name: &String) -> (r: Result<usize, OwnershipError>)
        requires
            old(self)@.wf(),
        ensures
            final(self)@.wf(),
            (final(self)@, r) == old(self)@.move_out(*name),
    {
        match self.lookup(name) {
            None => Err(new_error(ErrorKind::Unbound, name)),
            Some(i) => {
                let s = self.slots[i];
                if s.state == BindState::Moved {
                    Err(new_error(ErrorKind::UseAfterMove, name))
                } else if s.state != BindState::Owned {
                    Err(new_error(ErrorKind::BorrowConflict, name))
                } else if !self.is_live(s.handle) {
                    Err(new_error(ErrorKind::DanglingHandle, name))
                } else if self.cells[s.handle].kind == Kind::Copyable {
                    let p = self.payloads[s.handle].duplicate();
                    let n = self.add_value(Kind::Copyable, p);
                    self.push_event(Event { op: Op::Move, name: Some(name.clone()), value: n });
                    Ok(n)
                } else {
                    self.set_slot(i, Slot { handle: s.handle, state: BindState::Moved });
                    self.push_event(Event { op: Op::Move, name: Some(name.clone()), value: s.handle });
                    Ok(s.handle)
                }
            },
        }
    }

    /// Grants a shared or a mutable borrow of `name`, and returns the value
    /// it reaches.
    pub fn borrow(&mut self, name: &String, mutable: bool) -> (r: Result<usize, OwnershipError>)
        requires
            old(self)@.wf(),
        ensures
            final(self)@.wf(),
            (final(self)@, r) == old(self)@.borrow(*name, mutable),
    {
        match self.lookup(name) {
            None => Err(new_error(ErrorKind::Unbound, name)),
            Some(i) => {
                let s = self.slots[i];
                let next = match s.state {
                    BindState::Owned => Some(if mutable { BindState::BorrowedMut } else { BindState::Borrowed(1) }),
                    BindState::Borrowed(n) => if !mutable && n < u64::MAX {
                        Some(BindState::Borrowed(n + 1))
                    } else {
                        None
                    },
                    _ => None,
                };
                match next {
                    None => Err(new_error(ErrorKind::BorrowConflict, name)),
                    Some(t) => {
                        self.set_slot(i, Slot { handle: s.handle, state: t });
                        self.push_event(Event { op: Op::Borrow, name: Some(name.clone()), value: s.handle });
                        Ok(s.handle)
                    },
                }
            },
        }
    }

    /// Ends one borrow of `name`.
    pub fn end_borrow(&mut self, name: &String) -> (r: Result<(), OwnershipError>)
        requires
            old(self)@.wf(),
        ensures
            final(self)@.wf(),
            (final(self)@, r) == old(self)@.end_borrow(*name),
    {
        match self.lookup(name) {
            None => Err(new_error(ErrorKind::Unbound, name)),
            Some(i) => {
                let s = self.slots[i];
                let next = match s.state {
                    BindState::Borrowed(n) => Some(if n <= 1 { BindState::Owned } else { BindState::Borrowed(n - 1) }),
                    BindState::BorrowedMut => Some(BindState::Owned),
                    _ => None,
                };
                match next {
                    None => Err(new_error(ErrorKind::BorrowConflict, name)),
                    Some(t) => {
                        self.set_slot(i, Slot { handle: s.handle, state: t });
                        self.push_event(Event { op: Op::EndBorrow, name: Some(name.clone()), value: s.handle });
                        Ok(())
                    },
                }
            },
        }
    }

    /// Opens a frame: bindings made from now on belong to it.
    pub fn push_frame(&mut self)
        requires
            old(self)@.wf(),
        ensures
            final(self)@.wf(),
            final(self)@ == old(self)@.push_frame(),
    {
        self.frames.push(self.slots.len());
        proof {
            let st = final(self)@;
            let old_st = old(self)@;
            assert forall|k: int| 0 <= k < st.frames.len() implies #[trigger] st.frames[k] <= st.slots.len() by {
                if k < old_st.frames.len() {
                    assert(st.frames[k] == old_st.frames[k]);
                }
            }
            assert forall|a: int, b: int| 0 <= a <= b < st.frames.len() implies #[trigger] st.frames[a] <= #[trigger] st.frames[b] by {
                if b < old_st.frames.len() {
                    assert(old_st.frames[a] <= old_st.frames[b]);
                } else if a < old_st.frames.len() {
                    assert(old_st.frames[a] <= old_st.slots.len());
                }
            }
            assert(st == old_st.push_frame());
        }
    }

    /// Closes the innermost frame (the outermost one if none is open): each
    /// of its bindings that still owns its value drops it, the latest binding
    /// first, and the bindings go away.
    pub fn pop_frame(&mut self)
        requires
            old(self)@.wf(),
        ensures
            final(self)@.wf(),
            final(self)@ == old(self)@.pop_frame(),
    {
        let lo = self.frame_start();
        let mut i: usize = self.slots.len();
        proof {
            assert(lo <= i) by {
                if self.frames@.len() > 0 {
                    assert(self.frames@[self.frames@.len() - 1] <= self.slots@.len());
                }
            }
        }
        while i > lo
            invariant
                self@.wf(),
                lo <= i <= self@.slots.len(),
                lo == old(self)@.frame_start(),
                self@.names == old(self)@.names,
                self@.slots == old(self)@.slots,
                self@.frames == old(self)@.frames,
                self@.payloads == old(self)@.payloads,
                self@.allow_shadowing == old(self)@.allow_shadowing,
                self@.cells.len() == old(self)@.cells.len(),
                release_frame(self@.cells, self@.log, self@.names, self@.slots, lo as int, i as int)
                    == release_frame(
                    old(self)@.cells,
                    old(self)@.log,
                    old(self)@.names,
                    old(self)@.slots,
                    lo as int,
                    old(self)@.slots.len() as int,
                ),
            decreases i,
        {
            let s = self.slots[i - 1];
            if s.state != BindState::Moved {
                let name = self.names[i - 1].clone();
                self.release(s.handle, Some(name));
            }
            i = i - 1;
        }
        self.names.truncate(lo);
        self.slots.truncate(lo);
        if self.frames.len() > 0 {
            self.frames.pop();
        }
        proof {
            let st = final(self)@;
            let o = old(self)@;
            assert(st.cells.len() == o.cells.len());
            assert forall|k: int| 0 <= k < st.slots.len() implies #[trigger] st.slots[k].handle < st.cells.len() by {
                assert(o.slots[k].handle < o.cells.len());
            }
            assert forall|k: int| 0 <= k < st.frames.len() implies #[trigger] st.frames[k] <= st.slots.len() by {
                assert(o.frames[k] <= o.frames[o.frames.len() - 1]);
            }
            assert forall|a: int, b: int| 0 <= a <= b < st.frames.len() implies #[trigger] st.frames[a] <= #[trigger] st.frames[b] by {
                assert(o.frames[a] <= o.frames[b]);
            }
            assert forall|h: int| 0 <= h < st.cells.len() && !st.cells[h].freed implies #[trigger] st.cells[h].owners >= 1 by {
            }
            assert(st == o.pop_frame());
        }
    }

    /// The bookkeeping of value `h`, if there is such a value.
    pub fn cell(&self, h: usize) -> (r: Option<Cell>)
        ensures
            r == (if h < self@.cells.len() { Some(self@.cells[h as int]) } else { None }),
    {
        if h < self.cells.len() {
            Some(self.cells[h])
        } else {
            None
        }
    }

    /// The payload of value `h`, if there is such a value.
    pub fn payload(&self, h: usize) -> (r: Option<&Payload>)
        ensures
            r == (if h < self@.payloads.len() { Some(&self@.payloads[h as int]) } else { None }),
    {
        if h < self.payloads.len() {
            Some(&self.payloads[h])
        } else {
            None
        }
    }

    /// The visible binding named `name`: its value and its access state.
    pub fn binding(&self, name: &String) -> (r: Option<Slot>)
        requires
            self@.wf(),
        ensures
            r == (match self@.lookup(name@) {
                Some(i) => Some(self@.slots[i as int]),
                None => None,
            }),
    {
        match self.lookup(name) {
            Some(i) => Some(self.slots[i]),
            None => None,
        }
    }

    /// The trace of every operation so far, oldest first.
    pub fn events(&self) -> (r: &Vec<Event>)
        ensures
            r@ == self@.log,
    {
        &self.log
    }
}

} // verus!
