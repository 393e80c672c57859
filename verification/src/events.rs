use vstd::prelude::*;

verus! {

/// A script asked `entity` to move to the point `(x, y)`.
///
/// Entities are carried as their 64-bit identifiers and coordinates as the
/// bit patterns of their 32-bit floating-point values; the queue only stores
/// and returns them.
#[derive(Clone, Copy, PartialEq, Eq, Structural, Debug)]
pub struct MoveToEvent {
    pub entity: u64,
    pub x_bits: u32,
    pub y_bits: u32,
}

/// A script asked `entity` to attack `target`.
#[derive(Clone, Copy, PartialEq, Eq, Structural, Debug)]
pub struct AttackEvent {
    pub entity: u64,
    pub target: u64,
}

/// A script asked for the state of `entity`.
#[derive(Clone, Copy, PartialEq, Eq, Structural, Debug)]
pub struct GetStateEvent {
    pub entity: u64,
}

/// The requests made by scripts since the queue was last drained, one list
/// per kind of request, each in the order in which the requests were made.
pub struct LuaEventQueue {
    move_to: Vec<MoveToEvent>,
    attack: Vec<AttackEvent>,
    get_state: Vec<GetStateEvent>,
}

/// A request that a script makes through the script API.
pub enum ScriptRequest {
    MoveTo(MoveToEvent),
    Attack(AttackEvent),
    GetState(GetStateEvent),
}

/// What a queue holds: the pending requests of each kind, oldest first.
#[verifier::ext_equal]
pub struct QueueView {
    pub move_to: Seq<MoveToEvent>,
    pub attack: Seq<AttackEvent>,
    pub get_state: Seq<GetStateEvent>,
}

impl View for LuaEventQueue {
    type V = QueueView;

    closed spec fn view(&self) -> QueueView {
        QueueView { move_to: self.move_to@, attack: self.attack@, get_state: self.get_state@ }
    }
}

impl QueueView {
    /// The queue after the request `r`: it joins the end of its own list.
    pub open spec fn after_request(self, r: ScriptRequest) -> QueueView {
        match r {
            ScriptRequest::MoveTo(e) => QueueView {
                move_to: self.move_to.push(e),
                attack: self.attack,
                get_state: self.get_state,
            },
            ScriptRequest::Attack(e) => QueueView {
                move_to: self.move_to,
                attack: self.attack.push(e),
                get_state: self.get_state,
            },
            ScriptRequest::GetState(e) => QueueView {
                move_to: self.move_to,
                attack: self.attack,
                get_state: self.get_state.push(e),
            },
        }
    }

    /// The queue after the requests `rs`, made in order.
    pub open spec fn after_requests(self, rs: Seq<ScriptRequest>) -> QueueView
        decreases rs.len(),
    {
        if rs.len() == 0 {
            self
        } else {
            self.after_requests(rs.drop_last()).after_request(rs.last())
        }
    }
}

/// The queue with nothing pending.
pub open spec fn empty_queue() -> QueueView {
    QueueView { move_to: Seq::empty(), attack: Seq::empty(), get_state: Seq::empty() }
}

impl LuaEventQueue {
    /// An empty queue.
    pub fn new() -> (q: Self)
        ensures
            q@ == empty_queue(),
    {
        LuaEventQueue { move_to: Vec::new(), attack: Vec::new(), get_state: Vec::new() }
    }

    /// Records a move request; the other lists are left as they were.
    pub fn push_move_to(&mut self, entity: u64, x_bits: u32, y_bits: u32)
        ensures
            final(self)@ =~= old(self)@.after_request(
                ScriptRequest::MoveTo(MoveToEvent { entity, x_bits, y_bits }),
            ),
    {
        self.move_to.push(MoveToEvent { entity, x_bits, y_bits });
    }

    /// Records an attack request; the other lists are left as they were.
    pub fn push_attack(&mut self, entity: u64, target: u64)
        ensures
            final(self)@ =~= old(self)@.after_request(
                ScriptRequest::Attack(AttackEvent { entity, target }),
            ),
    {
        self.attack.push(AttackEvent { entity, target });
    }

    /// Records a state request; the other lists are left as they were.
    pub fn push_get_state(&mut self, entity: u64)
        ensures
            final(self)@ =~= old(self)@.after_request(
                ScriptRequest::GetState(GetStateEvent { entity }),
            ),
    {
        self.get_state.push(GetStateEvent { entity });
    }

    /// Hands out every pending move request, oldest first, and forgets them.
    pub fn drain_move_to(&mut self) -> (r: Vec<MoveToEvent>)
        ensures
            r@ == old(self)@.move_to,
            final(self)@.move_to == Seq::<MoveToEvent>::empty(),
            final(self)@.attack == old(self)@.attack,
            final(self)@.get_state == old(self)@.get_state,
    {
        let mut r: Vec<MoveToEvent> = Vec::new();
        std::mem::swap(&mut r, &mut self.move_to);
        r
    }

    /// Hands out every pending attack request, oldest first, and forgets them.
    pub fn drain_attack(&mut self) -> (r: Vec<AttackEvent>)
        ensures
            r@ == old(self)@.attack,
            final(self)@.attack == Seq::<AttackEvent>::empty(),
            final(self)@.move_to == old(self)@.move_to,
            final(self)@.get_state == old(self)@.get_state,
    {
        let mut r: Vec<AttackEvent> = Vec::new();
        std::mem::swap(&mut r, &mut self.attack);
        r
    }

    /// Hands out every pending state request, oldest first, and forgets them.
    pub fn drain_get_state(&mut self) -> (r: Vec<GetStateEvent>)
        ensures
            r@ == old(self)@.get_state,
            final(self)@.get_state == Seq::<GetStateEvent>::empty(),
            final(self)@.move_to == old(self)@.move_to,
            final(self)@.attack == old(self)@.attack,
    {
        let mut r: Vec<GetStateEvent> = Vec::new();
        std::mem::swap(&mut r, &mut self.get_state);
        r
    }
}

/// The move requests among `rs`, in order.
pub open spec fn move_requests(rs: Seq<ScriptRequest>) -> Seq<MoveToEvent>
    decreases rs.len(),
{
    if rs.len() == 0 {
        Seq::empty()
    } else {
        match rs.last() {
            ScriptRequest::MoveTo(e) => move_requests(rs.drop_last()).push(e),
            _ => move_requests(rs.drop_last()),
        }
    }
}

/// The attack requests among `rs`, in order.
pub open spec fn attack_requests(rs: Seq<ScriptRequest>) -> Seq<AttackEvent>
    decreases rs.len(),
{
    if rs.len() == 0 {
        Seq::empty()
    } else {
        match rs.last() {
            ScriptRequest::Attack(e) => attack_requests(rs.drop_last()).push(e),
            _ => attack_requests(rs.drop_last()),
        }
    }
}

/// The state requests among `rs`, in order.
pub open spec fn state_requests(rs: Seq<ScriptRequest>) -> Seq<GetStateEvent>
    decreases rs.len(),
{
    if rs.len() == 0 {
        Seq::empty()
    } else {
        match rs.last() {
            ScriptRequest::GetState(e) => state_requests(rs.drop_last()).push(e),
            _ => state_requests(rs.drop_last()),
        }
    }
}

/// Requests come out of the drains in the order in which they were made:
/// after any interleaving `rs` of requests of the three kinds, each list
/// holds what it held before followed by the requests of its kind, in the
/// order in which they were made.
pub proof fn lemma_requests_drain_in_order(q: QueueView, rs: Seq<ScriptRequest>)
    ensures
        q.after_requests(rs) == (QueueView {
            move_to: q.move_to + move_requests(rs),
            attack: q.attack + attack_requests(rs),
            get_state: q.get_state + state_requests(rs),
        }),
    decreases rs.len(),
{
    if rs.len() == 0 {
        assert(q.move_to + Seq::<MoveToEvent>::empty() =~= q.move_to);
        assert(q.attack + Seq::<AttackEvent>::empty() =~= q.attack);
        assert(q.get_state + Seq::<GetStateEvent>::empty() =~= q.get_state);
    } else {
        lemma_requests_drain_in_order(q, rs.drop_last());
        let p = rs.drop_last();
        match rs.last() {
            ScriptRequest::MoveTo(e) => {
                assert(q.move_to + move_requests(p).push(e) =~= (q.move_to + move_requests(p)).push(e));
            },
            ScriptRequest::Attack(e) => {
                assert(q.attack + attack_requests(p).push(e) =~= (q.attack + attack_requests(p)).push(e));
            },
            ScriptRequest::GetState(e) => {
                assert(q.get_state + state_requests(p).push(e) =~= (q.get_state + state_requests(p)).push(e));
            },
        }
    }
}

} // verus!
