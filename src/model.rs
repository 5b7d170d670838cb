//! The abstract state of the ownership simulator and the effect of each
//! operation on it.
use vstd::prelude::*;

verus! {

/// How a value may be shared between owners.
#[derive(Clone, Copy, Debug, PartialEq, Eq, Structural)]
pub enum Kind {
    /// Duplicated on every use, never moved.
    Copyable,
    /// Exactly one owner at a time.
    Unique,
    /// Reference counted: many owners, freed when the last one lets go.
    Shared,
}

/// The access state of one binding.
#[derive(Clone, Copy, Debug, PartialEq, Eq, Structural)]
pub enum BindState {
    Owned,
    Moved,
    /// Shared borrows, with their number.
    Borrowed(u64),
    BorrowedMut,
}

/// What went wrong with an operation.
#[derive(Clone, Copy, Debug, PartialEq, Eq, Structural)]
pub enum ErrorKind {
    /// The binding's value was moved away.
    UseAfterMove,
    /// A uniquely owned value cannot be duplicated.
    InvalidClone,
    /// The borrow rules forbid the operation.
    BorrowConflict,
    /// The name is already bound and shadowing is turned off.
    DuplicateBinding,
    /// No binding has this name.
    Unbound,
    /// The handle names no value, or one that was freed.
    DanglingHandle,
}

/// An error together with the binding it concerns.
#[derive(Debug)]
pub struct OwnershipError {
    pub kind: ErrorKind,
    pub name: String,
}

/// The payload of a value.
#[derive(Debug)]
pub enum Payload {
    Int(i64),
    Text(String),
}

impl Payload {
    /// An equal payload.
    pub fn duplicate(&self) -> (r: Payload)
        ensures
            r == *self,
    {
        match self {
            Payload::Int(i) => Payload::Int(*i),
            Payload::Text(s) => Payload::Text(s.clone()),
        }
    }
}

/// The bookkeeping of one value in the store.
#[derive(Clone, Copy, Debug, PartialEq, Eq, Structural)]
pub struct Cell {
    pub kind: Kind,
    pub owners: u64,
    pub freed: bool,
}

/// Where a binding points and how it may be accessed.
#[derive(Clone, Copy, Debug, PartialEq, Eq, Structural)]
pub struct Slot {
    pub handle: usize,
    pub state: BindState,
}

/// The kind of a logged operation.
#[derive(Clone, Copy, Debug, PartialEq, Eq, Structural)]
pub enum Op {
    Alloc,
    Bind,
    Use,
    Move,
    Clone,
    Drop,
    Free,
    Borrow,
    EndBorrow,
}

/// One entry of the trace: the operation, the binding it went through (if
/// any) and the value it concerns.
#[derive(Debug)]
pub struct Event {
    pub op: Op,
    pub name: Option<String>,
    pub value: usize,
}

/// The simulator's state as mathematical sequences. Values are numbered by
/// their position in `cells` and `payloads`; bindings by their position in
/// `names` and `slots`, in creation order; `frames` holds where each open
/// frame starts.
pub struct SimState {
    pub cells: Seq<Cell>,
    pub payloads: Seq<Payload>,
    pub names: Seq<String>,
    pub slots: Seq<Slot>,
    pub frames: Seq<usize>,
    pub log: Seq<Event>,
    pub allow_shadowing: bool,
}

pub open spec fn live(cells: Seq<Cell>, h: usize) -> bool {
    h < cells.len() && !cells[h as int].freed
}

pub open spec fn ev(op: Op, name: Option<String>, value: usize) -> Event {
    Event { op, name, value }
}

pub open spec fn err<T>(kind: ErrorKind, name: String) -> Result<T, OwnershipError> {
    Err(OwnershipError { kind, name })
}

/// Gives up one owner of `h`: a drop is logged; a live value loses an owner
/// and is freed, with a free event, when none is left.
pub open spec fn release(cells: Seq<Cell>, log: Seq<Event>, h: usize, name: Option<String>) -> (
    Seq<Cell>,
    Seq<Event>,
) {
    let log1 = log.push(ev(Op::Drop, name, h));
    if !live(cells, h) {
        (cells, log1)
    } else {
        let c = cells[h as int];
        if c.owners <= 1 {
            (
                cells.update(h as int, Cell { kind: c.kind, owners: 0, freed: true }),
                log1.push(ev(Op::Free, None, h)),
            )
        } else {
            (
                cells.update(h as int, Cell { kind: c.kind, owners: (c.owners - 1) as u64, freed: false }),
                log1,
            )
        }
    }
}

/// Releases, from index `i - 1` down to `lo`, every binding that was not
/// moved away.
pub open spec fn release_frame(
    cells: Seq<Cell>,
    log: Seq<Event>,
    names: Seq<String>,
    slots: Seq<Slot>,
    lo: int,
    i: int,
) -> (Seq<Cell>, Seq<Event>)
    decreases i - lo,
{
    if i <= lo {
        (cells, log)
    } else {
        let s = slots[i - 1];
        let next = if s.state is Moved {
            (cells, log)
        } else {
            release(cells, log, s.handle, Some(names[i - 1]))
        };
        release_frame(next.0, next.1, names, slots, lo, i - 1)
    }
}

/// The position of the latest binding named `name` among the first `i`.
pub open spec fn find_last(names: Seq<String>, name: Seq<char>, i: int) -> Option<usize>
    decreases i,
{
    if i <= 0 {
        None
    } else if names[i - 1]@ == name {
        Some((i - 1) as usize)
    } else {
        find_last(names, name, i - 1)
    }
}

/// A name found among the first `i` bindings is one of them and carries the name.
pub proof fn lemma_find_last(names: Seq<String>, name: Seq<char>, i: int)
    requires
        i <= names.len(),
        i <= usize::MAX,
    ensures
        find_last(names, name, i) matches Some(k) ==> k < i && names[k as int]@ == name,
    decreases i,
{
    if i > 0 && names[i - 1]@ != name {
        lemma_find_last(names, name, i - 1);
    }
}

/// A store that keeps every value numbered as before and every live value
/// owned keeps the state well formed.
pub proof fn lemma_store_wf(st: SimState, cells: Seq<Cell>, payloads: Seq<Payload>, log: Seq<Event>)
    requires
        st.wf(),
        cells.len() >= st.cells.len(),
        payloads.len() == cells.len(),
        forall|k: int| 0 <= k < cells.len() && !cells[k].freed ==> #[trigger] cells[k].owners >= 1,
    ensures
        st.with_store(cells, payloads, log).wf(),
{
    let st2 = st.with_store(cells, payloads, log);
    assert forall|i: int| 0 <= i < st2.slots.len() implies #[trigger] st2.slots[i].handle < st2.cells.len() by {
        assert(st.slots[i].handle < st.cells.len());
    }
    assert forall|i: int| 0 <= i < st2.frames.len() implies #[trigger] st2.frames[i] <= st2.slots.len() by {
        assert(st.frames[i] <= st.slots.len());
    }
    assert forall|i: int, j: int| 0 <= i <= j < st2.frames.len() implies #[trigger] st2.frames[i] <= #[trigger] st2.frames[j] by {
        assert(st.frames[i] <= st.frames[j]);
    }
}

/// A binding pointed at an existing value keeps the state well formed.
pub proof fn lemma_slot_wf(st: SimState, i: usize, s: Slot)
    requires
        st.wf(),
        i < st.slots.len(),
        s.handle < st.cells.len(),
    ensures
        st.with_slot(i, s).wf(),
{
    let st2 = st.with_slot(i, s);
    assert forall|k: int| 0 <= k < st2.slots.len() implies #[trigger] st2.slots[k].handle < st2.cells.len() by {
        if k != i {
            assert(st.slots[k].handle < st.cells.len());
        }
    }
    assert forall|k: int| 0 <= k < st2.frames.len() implies #[trigger] st2.frames[k] <= st2.slots.len() by {
        assert(st.frames[k] <= st.slots.len());
    }
    assert forall|a: int, b: int| 0 <= a <= b < st2.frames.len() implies #[trigger] st2.frames[a] <= #[trigger] st2.frames[b] by {
        assert(st.frames[a] <= st.frames[b]);
    }
}

/// Releasing keeps every value numbered as before, and every live value owned.
pub proof fn lemma_release_wf(st: SimState, h: usize, name: Option<String>)
    requires
        st.wf(),
    ensures
        st.with_store(release(st.cells, st.log, h, name).0, st.payloads, release(st.cells, st.log, h, name).1).wf(),
{
    let r = release(st.cells, st.log, h, name);
    assert forall|k: int| 0 <= k < r.0.len() && !r.0[k].freed implies #[trigger] r.0[k].owners >= 1 by {
        if live(st.cells, h) && k == h {
        } else {
            assert(r.0[k] == st.cells[k]);
        }
    }
    lemma_store_wf(st, r.0, st.payloads, r.1);
}

impl SimState {
    pub open spec fn wf(self) -> bool {
        &&& self.cells.len() == self.payloads.len()
        &&& self.names.len() == self.slots.len()
        &&& self.names.len() <= usize::MAX
        &&& forall|i: int| 0 <= i < self.slots.len() ==> #[trigger] self.slots[i].handle < self.cells.len()
        &&& forall|h: int| 0 <= h < self.cells.len() && !self.cells[h].freed ==> #[trigger] self.cells[h].owners >= 1
        &&& forall|i: int| 0 <= i < self.frames.len() ==> #[trigger] self.frames[i] <= self.slots.len()
        &&& forall|i: int, j: int| 0 <= i <= j < self.frames.len() ==> #[trigger] self.frames[i] <= #[trigger] self.frames[j]
    }

    pub open spec fn lookup(self, name: Seq<char>) -> Option<usize> {
        find_last(self.names, name, self.names.len() as int)
    }

    /// Where the innermost frame starts; the outermost starts at 0.
    pub open spec fn frame_start(self) -> usize {
        if self.frames.len() == 0 {
            0
        } else {
            self.frames.last()
        }
    }

    pub open spec fn with_store(self, cells: Seq<Cell>, payloads: Seq<Payload>, log: Seq<Event>) -> SimState {
        SimState { cells, payloads, log, ..self }
    }

    pub open spec fn with_log(self, log: Seq<Event>) -> SimState {
        SimState { log, ..self }
    }

    pub open spec fn with_slot(self, i: usize, s: Slot) -> SimState {
        SimState { slots: self.slots.update(i as int, s), ..self }
    }

    pub open spec fn allocate(self, kind: Kind, payload: Payload) -> (SimState, usize) {
        let h = self.cells.len() as usize;
        (
            self.with_store(
                self.cells.push(Cell { kind, owners: 1, freed: false }),
                self.payloads.push(payload),
                self.log.push(ev(Op::Alloc, None, h)),
            ),
            h,
        )
    }

    /// Room for one more owner of `h`.
    pub open spec fn clone_fits(self, h: usize) -> bool {
        live(self.cells, h) && self.cells[h as int].kind == Kind::Shared ==> self.cells[h as int].owners < u64::MAX
    }

    pub open spec fn clone_value(self, h: usize) -> (SimState, Result<usize, ErrorKind>) {
        if !live(self.cells, h) {
            (self, Err(ErrorKind::DanglingHandle))
        } else {
            let c = self.cells[h as int];
            match c.kind {
                Kind::Unique => (self, Err(ErrorKind::InvalidClone)),
                Kind::Shared => (
                    self.with_store(
                        self.cells.update(h as int, Cell { kind: c.kind, owners: (c.owners + 1) as u64, freed: false }),
                        self.payloads,
                        self.log.push(ev(Op::Clone, None, h)),
                    ),
                    Ok(h),
                ),
                Kind::Copyable => (
                    self.with_store(
                        self.cells.push(Cell { kind: Kind::Copyable, owners: 1, freed: false }),
                        self.payloads.push(self.payloads[h as int]),
                        self.log.push(ev(Op::Clone, None, h)),
                    ),
                    Ok(self.cells.len() as usize),
                ),
            }
        }
    }

    pub open spec fn drop_value(self, h: usize) -> (SimState, Result<(), ErrorKind>) {
        if !live(self.cells, h) {
            (self, Err(ErrorKind::DanglingHandle))
        } else {
            let r = release(self.cells, self.log, h, None);
            (self.with_store(r.0, self.payloads, r.1), Ok(()))
        }
    }

    pub open spec fn bind(self, name: String, h: usize) -> (SimState, Result<(), OwnershipError>) {
        if !live(self.cells, h) {
            (self, err(ErrorKind::DanglingHandle, name))
        } else {
            match self.lookup(name@) {
                Some(i) => {
                    if !self.allow_shadowing {
                        (self, err(ErrorKind::DuplicateBinding, name))
                    } else if i < self.frame_start() {
                        (self.push_binding(name, h), Ok(()))
                    } else {
                        let s = self.slots[i as int];
                        match s.state {
                            BindState::Moved => (
                                self.with_slot(i, Slot { handle: h, state: BindState::Owned }).with_log(
                                    self.log.push(ev(Op::Bind, Some(name), h)),
                                ),
                                Ok(()),
                            ),
                            BindState::Owned => {
                                let r = release(self.cells, self.log, s.handle, Some(name));
                                (
                                    self.with_slot(i, Slot { handle: h, state: BindState::Owned }).with_store(
                                        r.0,
                                        self.payloads,
                                        r.1.push(ev(Op::Bind, Some(name), h)),
                                    ),
                                    Ok(()),
                                )
                            },
                            _ => (self, err(ErrorKind::BorrowConflict, name)),
                        }
                    }
                },
                None => (self.push_binding(name, h), Ok(())),
            }
        }
    }

    pub open spec fn push_binding(self, name: String, h: usize) -> SimState {
        SimState {
            names: self.names.push(name),
            slots: self.slots.push(Slot { handle: h, state: BindState::Owned }),
            log: self.log.push(ev(Op::Bind, Some(name), h)),
            ..self
        }
    }

    pub open spec fn use_binding(self, name: String) -> (SimState, Result<usize, OwnershipError>) {
        match self.lookup(name@) {
            None => (self, err(ErrorKind::Unbound, name)),
            Some(i) => {
                let s = self.slots[i as int];
                if s.state is Moved {
                    (self, err(ErrorKind::UseAfterMove, name))
                } else if !live(self.cells, s.handle) {
                    (self, err(ErrorKind::DanglingHandle, name))
                } else {
                    (self.with_log(self.log.push(ev(Op::Use, Some(name), s.handle))), Ok(s.handle))
                }
            },
        }
    }

    pub open spec fn move_out(self, name: String) -> (SimState, Result<usize, OwnershipError>) {
        match self.lookup(name@) {
            None => (self, err(ErrorKind::Unbound, name)),
            Some(i) => {
                let s = self.slots[i as int];
                if s.state is Moved {
                    (self, err(ErrorKind::UseAfterMove, name))
                } else if !(s.state is Owned) {
                    (self, err(ErrorKind::BorrowConflict, name))
                } else if !live(self.cells, s.handle) {
                    (self, err(ErrorKind::DanglingHandle, name))
                } else if self.cells[s.handle as int].kind == Kind::Copyable {
                    let n = self.cells.len() as usize;
                    (
                        self.with_store(
                            self.cells.push(Cell { kind: Kind::Copyable, owners: 1, freed: false }),
                            self.payloads.push(self.payloads[s.handle as int]),
                            self.log.push(ev(Op::Move, Some(name), n)),
                        ),
                        Ok(n),
                    )
                } else {
                    (
                        self.with_slot(i, Slot { handle: s.handle, state: BindState::Moved }).with_log(
                            self.log.push(ev(Op::Move, Some(name), s.handle)),
                        ),
                        Ok(s.handle),
                    )
                }
            },
        }
    }

    /// The state a binding takes on after a granted borrow, if any.
    pub open spec fn borrowed_state(st: BindState, mutable: bool) -> Option<BindState> {
        match st {
            BindState::Owned => Some(if mutable { BindState::BorrowedMut } else { BindState::Borrowed(1) }),
            BindState::Borrowed(n) => if !mutable && n < u64::MAX {
                Some(BindState::Borrowed((n + 1) as u64))
            } else {
                None
            },
            _ => None,
        }
    }

    pub open spec fn borrow(self, name: String, mutable: bool) -> (SimState, Result<usize, OwnershipError>) {
        match self.lookup(name@) {
            None => (self, err(ErrorKind::Unbound, name)),
            Some(i) => {
                let s = self.slots[i as int];
                match Self::borrowed_state(s.state, mutable) {
                    None => (self, err(ErrorKind::BorrowConflict, name)),
                    Some(t) => (
                        self.with_slot(i, Slot { handle: s.handle, state: t }).with_log(
                            self.log.push(ev(Op::Borrow, Some(name), s.handle)),
                        ),
                        Ok(s.handle),
                    ),
                }
            },
        }
    }

    /// The state a binding takes on when one of its borrows ends, if it has any.
    pub open spec fn released_state(st: BindState) -> Option<BindState> {
        match st {
            BindState::Borrowed(n) => Some(if n <= 1 { BindState::Owned } else { BindState::Borrowed((n - 1) as u64) }),
            BindState::BorrowedMut => Some(BindState::Owned),
            _ => None,
        }
    }

    pub open spec fn end_borrow(self, name: String) -> (SimState, Result<(), OwnershipError>) {
        match self.lookup(name@) {
            None => (self, err(ErrorKind::Unbound, name)),
            Some(i) => {
                let s = self.slots[i as int];
                match Self::released_state(s.state) {
                    None => (self, err(ErrorKind::BorrowConflict, name)),
                    Some(t) => (
                        self.with_slot(i, Slot { handle: s.handle, state: t }).with_log(
                            self.log.push(ev(Op::EndBorrow, Some(name), s.handle)),
                        ),
                        Ok(()),
                    ),
                }
            },
        }
    }

    pub open spec fn push_frame(self) -> SimState {
        SimState { frames: self.frames.push(self.slots.len() as usize), ..self }
    }

    pub open spec fn pop_frame(self) -> SimState {
        let lo = self.frame_start() as int;
        let r = release_frame(self.cells, self.log, self.names, self.slots, lo, self.slots.len() as int);
        SimState {
            cells: r.0,
            log: r.1,
            names: self.names.subrange(0, lo),
            slots: self.slots.subrange(0, lo),
            frames: if self.frames.len() == 0 { self.frames } else { self.frames.drop_last() },
            ..self
        }
    }
}

} // verus!
