use std::collections::HashMap;
use crate::search::SearchResult;
use vstd::prelude::*;

verus! {

broadcast use vstd::std_specs::hash::group_hash_axioms;

/// Abstract state of a registry: which session identity is bound to which
/// live handle, which dispatched queries are still in flight (ticket to
/// originating session and the handle it had at dispatch time), and the next
/// fresh handle and ticket.
pub struct RegistryState {
    pub table: Map<u64, u64>,
    pub in_flight: Map<u64, (u64, u64)>,
    pub next_handle: nat,
    pub next_ticket: nat,
}

/// Every bound handle and in-flight ticket was issued before, and no two
/// identities share a handle.
pub open spec fn registry_wf(s: RegistryState) -> bool {
    &&& forall|id: u64| #[trigger] s.table.contains_key(id) ==> s.table[id] < s.next_handle
    &&& forall|a: u64, b: u64|
        #![trigger s.table[a], s.table[b]]
        s.table.contains_key(a) && s.table.contains_key(b) && a != b ==> s.table[a] != s.table[b]
    &&& forall|t: u64| #[trigger] s.in_flight.contains_key(t) ==> t < s.next_ticket
    &&& s.next_handle <= u64::MAX
    &&& s.next_ticket <= u64::MAX
}

/// The counters can still issue `n` fresh handles and `n` fresh tickets.
pub open spec fn has_room(s: RegistryState, n: nat) -> bool {
    s.next_handle + n <= u64::MAX && s.next_ticket + n <= u64::MAX
}

/// Binds `id` to the fresh handle `s.next_handle`, replacing any earlier binding.
pub open spec fn register_spec(s: RegistryState, id: u64) -> RegistryState {
    RegistryState {
        table: s.table.insert(id, s.next_handle as u64),
        next_handle: s.next_handle + 1,
        ..s
    }
}

/// Removes the binding of `id`, if any.
pub open spec fn unregister_spec(s: RegistryState, id: u64) -> RegistryState {
    RegistryState { table: s.table.remove(id), ..s }
}

/// Records a query of `session` as in flight under the ticket `s.next_ticket`,
/// if the session is registered; otherwise nothing changes.
pub open spec fn dispatch_spec(s: RegistryState, session: u64) -> RegistryState {
    if s.table.contains_key(session) {
        RegistryState {
            in_flight: s.in_flight.insert(
                s.next_ticket as u64,
                (session, s.table[session]),
            ),
            next_ticket: s.next_ticket + 1,
            ..s
        }
    } else {
        s
    }
}

/// Where the outcome of `ticket` goes: to its originating session and the
/// handle that session had at dispatch, only while that binding still stands.
pub open spec fn delivery_target(s: RegistryState, ticket: u64) -> Option<(u64, u64)> {
    if s.in_flight.contains_key(ticket) {
        let (session, handle) = s.in_flight[ticket];
        if s.table.contains_key(session) && s.table[session] == handle {
            Some((session, handle))
        } else {
            None
        }
    } else {
        None
    }
}

/// Removes the binding of `id` only while it is still bound to `handle`, so a
/// superseded connection cannot remove the binding of the one that replaced it.
pub open spec fn release_spec(s: RegistryState, id: u64, handle: u64) -> RegistryState {
    if s.table.contains_key(id) && s.table[id] == handle {
        unregister_spec(s, id)
    } else {
        s
    }
}

/// Completing `ticket` takes it out of flight.
pub open spec fn complete_spec(s: RegistryState, ticket: u64) -> RegistryState {
    RegistryState { in_flight: s.in_flight.remove(ticket), ..s }
}

/// One step that a registry can take.
pub enum RegistryOp {
    Register(u64),
    Unregister(u64),
    Dispatch(u64),
    Complete(u64),
}

pub open spec fn apply_op(s: RegistryState, op: RegistryOp) -> RegistryState {
    match op {
        RegistryOp::Register(id) => register_spec(s, id),
        RegistryOp::Unregister(id) => unregister_spec(s, id),
        RegistryOp::Dispatch(id) => dispatch_spec(s, id),
        RegistryOp::Complete(t) => complete_spec(s, t),
    }
}

pub open spec fn apply_ops(s: RegistryState, ops: Seq<RegistryOp>) -> RegistryState
    decreases ops.len(),
{
    if ops.len() == 0 {
        s
    } else {
        apply_op(apply_ops(s, ops.drop_last()), ops.last())
    }
}

/// Only registering and dispatching draw on the counters.
pub open spec fn draws_counter(op: RegistryOp) -> bool {
    op is Register || op is Dispatch
}

proof fn lemma_op_preserves_wf(s: RegistryState, op: RegistryOp)
    requires
        registry_wf(s),
        draws_counter(op) ==> has_room(s, 1),
    ensures
        registry_wf(apply_op(s, op)),
        apply_op(s, op).next_handle <= s.next_handle + 1,
        apply_op(s, op).next_ticket <= s.next_ticket + 1,
{
    let s2 = apply_op(s, op);
    match op {
        RegistryOp::Register(id) => {
            assert forall|a: u64, b: u64|
                #![trigger s2.table[a], s2.table[b]]
                s2.table.contains_key(a) && s2.table.contains_key(b) && a != b implies s2.table[a]
                != s2.table[b] by {
                if a != id && b != id {
                    assert(s.table.contains_key(a) && s.table.contains_key(b));
                } else if a == id {
                    assert(s.table.contains_key(b));
                } else {
                    assert(s.table.contains_key(a));
                }
            }
        },
        RegistryOp::Unregister(id) => {
            assert forall|a: u64, b: u64|
                #![trigger s2.table[a], s2.table[b]]
                s2.table.contains_key(a) && s2.table.contains_key(b) && a != b implies s2.table[a]
                != s2.table[b] by {
                assert(s.table.contains_key(a) && s.table.contains_key(b));
            }
        },
        RegistryOp::Complete(t) => {
            assert forall|u: u64| #[trigger] s2.in_flight.contains_key(u) implies u < s2.next_ticket by {
                assert(s.in_flight.contains_key(u));
            }
        },
        RegistryOp::Dispatch(_) => {},
    }
}

/// Every sequence of registry steps from a well-formed state keeps it
/// well-formed: each identity has at most one handle, and no handle serves two
/// identities.
pub proof fn lemma_ops_preserve_wf(s: RegistryState, ops: Seq<RegistryOp>)
    requires
        registry_wf(s),
        has_room(s, ops.len()),
    ensures
        registry_wf(apply_ops(s, ops)),
        s.next_handle <= apply_ops(s, ops).next_handle <= s.next_handle + ops.len(),
        s.next_ticket <= apply_ops(s, ops).next_ticket <= s.next_ticket + ops.len(),
    decreases ops.len(),
{
    if ops.len() > 0 {
        lemma_ops_preserve_wf(s, ops.drop_last());
        lemma_op_preserves_wf(apply_ops(s, ops.drop_last()), ops.last());
    }
}

/// After `Unregister(id)` the table has no entry for `id`, and unregistering
/// again changes nothing.
pub proof fn lemma_unregister_idempotent(s: RegistryState, id: u64)
    ensures
        !unregister_spec(s, id).table.contains_key(id),
        unregister_spec(unregister_spec(s, id), id) == unregister_spec(s, id),
{
    assert(unregister_spec(s, id).table.remove(id) =~= unregister_spec(s, id).table);
}

/// The last step of a sequence that ends in `Unregister(id)` leaves no entry
/// for `id`, whatever came before.
pub proof fn lemma_no_entry_after_unregister(s: RegistryState, ops: Seq<RegistryOp>, id: u64)
    requires
        registry_wf(s),
        has_room(s, ops.len()),
        ops.len() > 0,
        ops.last() == RegistryOp::Unregister(id),
    ensures
        registry_wf(apply_ops(s, ops)),
        !apply_ops(s, ops).table.contains_key(id),
{
    lemma_ops_preserve_wf(s, ops);
}

pub open spec fn handle_unbound(s: RegistryState, h: u64) -> bool {
    forall|id: u64| #[trigger] s.table.contains_key(id) ==> s.table[id] != h
}

/// Delivery to handle `h` happens for no ticket.
pub open spec fn never_delivers_to(s: RegistryState, h: u64) -> bool {
    forall|t: u64|
        match #[trigger] delivery_target(s, t) {
            Some(target) => target.1 != h,
            None => true,
        }
}

/// A handle that was issued and is no longer bound stays unbound through every
/// later sequence of steps, so no outcome is ever delivered to it.
pub proof fn lemma_released_handle_stays_dead(s: RegistryState, h: u64, ops: Seq<RegistryOp>)
    requires
        registry_wf(s),
        has_room(s, ops.len()),
        h < s.next_handle,
        handle_unbound(s, h),
    ensures
        handle_unbound(apply_ops(s, ops), h),
        never_delivers_to(apply_ops(s, ops), h),
    decreases ops.len(),
{
    let s2 = apply_ops(s, ops);
    if ops.len() > 0 {
        let s1 = apply_ops(s, ops.drop_last());
        lemma_released_handle_stays_dead(s, h, ops.drop_last());
        lemma_ops_preserve_wf(s, ops.drop_last());
        match ops.last() {
            RegistryOp::Register(id) => {
                assert forall|i: u64| #[trigger] s2.table.contains_key(i) implies s2.table[i] != h by {
                    if i != id {
                        assert(s1.table.contains_key(i));
                    }
                }
            },
            RegistryOp::Unregister(id) => {
                assert forall|i: u64| #[trigger] s2.table.contains_key(i) implies s2.table[i] != h by {
                    assert(s1.table.contains_key(i));
                }
            },
            _ => {},
        }
    }
    assert forall|t: u64|
        match #[trigger] delivery_target(s2, t) {
            Some(target) => target.1 != h,
            None => true,
        } by {
        if s2.in_flight.contains_key(t) && s2.table.contains_key(s2.in_flight[t].0) {
            assert(s2.table[s2.in_flight[t].0] != h);
        }
    }
}

/// A session that unregisters receives nothing afterwards: whatever steps
/// follow, no outcome is delivered to the handle it had.
pub proof fn lemma_no_delivery_after_teardown(s: RegistryState, id: u64, ops: Seq<RegistryOp>)
    requires
        registry_wf(s),
        has_room(s, ops.len() + 1),
        s.table.contains_key(id),
    ensures
        never_delivers_to(apply_ops(unregister_spec(s, id), ops), s.table[id]),
{
    let s1 = unregister_spec(s, id);
    lemma_op_preserves_wf(s, RegistryOp::Unregister(id));
    assert forall|i: u64| #[trigger] s1.table.contains_key(i) implies s1.table[i] != s.table[id] by {
        assert(s.table.contains_key(i));
    }
    lemma_released_handle_stays_dead(s1, s.table[id], ops);
}

/// Registering an identity that is already bound leaves exactly one entry for
/// it, bound to the fresh handle, and the superseded handle never receives a
/// delivery afterwards, whatever was in flight for it.
pub proof fn lemma_supersession(s: RegistryState, id: u64, ops: Seq<RegistryOp>)
    requires
        registry_wf(s),
        has_room(s, ops.len() + 1),
        s.table.contains_key(id),
    ensures
        register_spec(s, id).table[id] == s.next_handle,
        s.table[id] != s.next_handle,
        never_delivers_to(apply_ops(register_spec(s, id), ops), s.table[id]),
{
    let s1 = register_spec(s, id);
    lemma_op_preserves_wf(s, RegistryOp::Register(id));
    assert forall|i: u64| #[trigger] s1.table.contains_key(i) implies s1.table[i] != s.table[id] by {
        if i != id {
            assert(s.table.contains_key(i));
        }
    }
    lemma_released_handle_stays_dead(s1, s.table[id], ops);
}

/// Steps that leave the binding of `id` and the ticket `t` alone.
pub open spec fn leaves_alone(op: RegistryOp, id: u64, t: u64) -> bool {
    match op {
        RegistryOp::Register(i) => i != id,
        RegistryOp::Unregister(i) => i != id,
        RegistryOp::Dispatch(_) => true,
        RegistryOp::Complete(u) => u != t,
    }
}

/// A query dispatched by a registered session is delivered to that session's
/// handle exactly once: it stays deliverable while the session stays
/// connected, and once completed it is never delivered again.
pub proof fn lemma_delivered_exactly_once(s: RegistryState, id: u64, ops: Seq<RegistryOp>)
    requires
        registry_wf(s),
        has_room(s, ops.len() + 1),
        s.table.contains_key(id),
        forall|k: int| 0 <= k < ops.len() ==> leaves_alone(#[trigger] ops[k], id, s.next_ticket as u64),
    ensures
        ({
            let t = s.next_ticket as u64;
            let s2 = apply_ops(dispatch_spec(s, id), ops);
            &&& delivery_target(s2, t) == Some((id, s.table[id]))
            &&& delivery_target(complete_spec(s2, t), t) is None
        }),
    decreases ops.len(),
{
    let t = s.next_ticket as u64;
    let s1 = dispatch_spec(s, id);
    if ops.len() > 0 {
        let prefix = ops.drop_last();
        assert forall|k: int| 0 <= k < prefix.len() implies leaves_alone(#[trigger] prefix[k], id, t) by {
            assert(prefix[k] == ops[k]);
        }
        lemma_delivered_exactly_once(s, id, prefix);
        let p = apply_ops(s1, prefix);
        lemma_op_preserves_wf(s, RegistryOp::Dispatch(id));
        lemma_ops_preserve_wf(s1, prefix);
        assert(leaves_alone(ops[ops.len() - 1], id, t));
        match ops.last() {
            RegistryOp::Dispatch(_) => {
                assert(p.in_flight.contains_key(t));
            },
            _ => {},
        }
    }
}

/// A ticket that has been issued and is no longer in flight stays out of
/// flight through every later sequence of steps, since dispatch only issues
/// fresh tickets.
proof fn lemma_retired_ticket_stays_retired(s: RegistryState, t: u64, ops: Seq<RegistryOp>)
    requires
        registry_wf(s),
        has_room(s, ops.len()),
        t < s.next_ticket,
        !s.in_flight.contains_key(t),
    ensures
        !apply_ops(s, ops).in_flight.contains_key(t),
        t < apply_ops(s, ops).next_ticket,
    decreases ops.len(),
{
    if ops.len() > 0 {
        lemma_retired_ticket_stays_retired(s, t, ops.drop_last());
        lemma_ops_preserve_wf(s, ops.drop_last());
    }
}

/// An outcome is delivered at most once: once `ticket` has been completed, it
/// has no delivery target after any later sequence of steps.
pub proof fn lemma_delivered_at_most_once(s: RegistryState, ticket: u64, ops: Seq<RegistryOp>)
    requires
        registry_wf(s),
        has_room(s, ops.len()),
        s.in_flight.contains_key(ticket),
    ensures
        delivery_target(apply_ops(complete_spec(s, ticket), ops), ticket) is None,
{
    lemma_op_preserves_wf(s, RegistryOp::Complete(ticket));
    lemma_retired_ticket_stays_retired(complete_spec(s, ticket), ticket, ops);
}

/// Coordination failures that no client observes.
#[derive(Clone, Copy, PartialEq, Eq, Debug, Structural)]
pub enum RegistryError {
    /// The originating session is no longer registered.
    SessionGone,
}

/// What the search side hands back for one dispatched query.
pub enum QueryOutcome {
    Found(SearchResult),
    /// The corpus store failed or timed out.
    BackendUnavailable,
}

/// The outcome of one query, addressed to the session and handle that issued it.
pub struct Delivery {
    pub session: u64,
    pub handle: u64,
    pub outcome: QueryOutcome,
}

/// The handle issued to a registration, and the handle it superseded, if any;
/// the superseded connection is to be torn down.
#[derive(Clone, Copy, PartialEq, Eq, Debug, Structural)]
pub struct Registration {
    pub handle: u64,
    pub superseded: Option<u64>,
}

/// The session table and the queries in flight.
pub struct Registry {
    table: HashMap<u64, u64>,
    in_flight: HashMap<u64, (u64, u64)>,
    next_handle: u64,
    next_ticket: u64,
}

impl View for Registry {
    type V = RegistryState;

    closed spec fn view(&self) -> RegistryState {
        RegistryState {
            table: self.table@,
            in_flight: self.in_flight@,
            next_handle: self.next_handle as nat,
            next_ticket: self.next_ticket as nat,
        }
    }
}

/// The value `m` holds under `key`, if any.
pub open spec fn entry_of<V>(m: Map<u64, V>, key: u64) -> Option<V> {
    if m.contains_key(key) {
        Some(m[key])
    } else {
        None
    }
}

impl Registry {
    pub open spec fn wf(&self) -> bool {
        registry_wf(self@)
    }

    pub fn new() -> (r: Registry)
        ensures
            r.wf(),
            r@.table == Map::<u64, u64>::empty(),
            r@.in_flight == Map::<u64, (u64, u64)>::empty(),
            r@.next_handle == 0,
            r@.next_ticket == 0,
    {
        Registry { table: HashMap::new(), in_flight: HashMap::new(), next_handle: 0, next_ticket: 0 }
    }

    /// The counters can issue another handle and ticket.
    pub fn has_capacity(&self) -> (r: bool)
        ensures
            r == has_room(self@, 1),
    {
        self.next_handle < u64::MAX && self.next_ticket < u64::MAX
    }

    /// The handle currently bound to `id`.
    pub fn handle_of(&self, id: u64) -> (r: Option<u64>)
        ensures
            r == entry_of(self@.table, id),
    {
        match self.table.get(&id) {
            Some(h) => Some(*h),
            None => None,
        }
    }

    /// Binds `id` to a fresh handle. An earlier binding of `id` is superseded and
    /// returned; it is not an error.
    pub fn register(&mut self, id: u64) -> (r: Registration)
        requires
            old(self).wf(),
            has_room(old(self)@, 1),
        ensures
            final(self).wf(),
            final(self)@ == register_spec(old(self)@, id),
            r.handle == old(self)@.next_handle,
            r.superseded == entry_of(old(self)@.table, id),
    {
        proof {
            lemma_op_preserves_wf(self@, RegistryOp::Register(id));
        }
        let handle = self.next_handle;
        let superseded = self.table.insert(id, handle);
        self.next_handle = self.next_handle + 1;
        Registration { handle, superseded }
    }

    /// Removes the binding of `id`; removing an absent identity does nothing.
    /// Returns the handle that was bound.
    pub fn unregister(&mut self, id: u64) -> (r: Option<u64>)
        requires
            old(self).wf(),
        ensures
            final(self).wf(),
            final(self)@ == unregister_spec(old(self)@, id),
            r == entry_of(old(self)@.table, id),
    {
        proof {
            lemma_op_preserves_wf(self@, RegistryOp::Unregister(id));
        }
        self.table.remove(&id)
    }

    /// Unregisters `id` on teardown of the connection that holds `handle`;
    /// returns whether the binding was removed.
    pub fn release(&mut self, id: u64, handle: u64) -> (r: bool)
        requires
            old(self).wf(),
        ensures
            final(self).wf(),
            final(self)@ == release_spec(old(self)@, id, handle),
            r == (old(self)@.table.contains_key(id) && old(self)@.table[id] == handle),
    {
        match self.handle_of(id) {
            Some(h) => {
                if h == handle {
                    self.unregister(id);
                    true
                } else {
                    false
                }
            },
            None => false,
        }
    }

    /// Records a query of `session` as in flight and returns its ticket, or
    /// fails with `SessionGone` when the session is not registered.
    pub fn dispatch(&mut self, session: u64) -> (r: Result<u64, RegistryError>)
        requires
            old(self).wf(),
            has_room(old(self)@, 1),
        ensures
            final(self).wf(),
            final(self)@ == dispatch_spec(old(self)@, session),
            match r {
                Ok(t) => old(self)@.table.contains_key(session) && t == old(self)@.next_ticket,
                Err(e) => !old(self)@.table.contains_key(session) && e == RegistryError::SessionGone,
            },
    {
        proof {
            lemma_op_preserves_wf(self@, RegistryOp::Dispatch(session));
        }
        match self.table.get(&session) {
            Some(h) => {
                let ticket = self.next_ticket;
                let handle = *h;
                self.in_flight.insert(ticket, (session, handle));
                self.next_ticket = self.next_ticket + 1;
                Ok(ticket)
            },
            None => Err(RegistryError::SessionGone),
        }
    }

    /// Takes `ticket` out of flight and routes its outcome to the session and
    /// handle that dispatched it, if that binding still stands; otherwise the
    /// outcome is discarded.
    pub fn complete(&mut self, ticket: u64, outcome: QueryOutcome) -> (r: Option<Delivery>)
        requires
            old(self).wf(),
        ensures
            final(self).wf(),
            final(self)@ == complete_spec(old(self)@, ticket),
            match r {
                Some(d) => delivery_target(old(self)@, ticket) == Some((d.session, d.handle))
                    && d.outcome == outcome,
                None => delivery_target(old(self)@, ticket) is None,
            },
    {
        proof {
            lemma_op_preserves_wf(self@, RegistryOp::Complete(ticket));
        }
        match self.in_flight.remove(&ticket) {
            Some(entry) => {
                let (session, handle) = entry;
                match self.table.get(&session) {
                    Some(h) => {
                        if *h == handle {
                            Some(Delivery { session, handle, outcome })
                        } else {
                            None
                        }
                    },
                    None => None,
                }
            },
            None => None,
        }
    }
}

} // verus!
