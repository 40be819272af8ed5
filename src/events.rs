//! The event journal: an append-only log of contract and debug events that
//! can be rolled back to an earlier length.
use vstd::prelude::*;
use crate::value::Val;

verus! {

/// Message of the debug event that stands for one rolled-back contract event.
pub const ROLLED_BACK_EVENT_MSG: &'static str = "rolled-back contract event: type {}, id {}, topics {}, data {}";

/// Message of the debug event that closes a rollback.
pub const ROLLBACK_MSG: &'static str = "{} contract events rolled back. Rollback start pos = {}";

#[derive(Clone, Copy, Debug, PartialEq, Eq, Structural)]
pub enum ContractEventType {
    System,
    Contract,
    Diagnostic,
}

/// An event recorded by a contract.
#[derive(Clone, Copy, Debug, PartialEq, Eq, Structural)]
pub struct ContractEvent {
    pub contract_id: Option<Val>,
    pub event_type: ContractEventType,
    /// Handle of the vector of topics.
    pub topics: Val,
    pub data: Val,
}

/// A diagnostic event: an optional message and its arguments.
pub struct DebugEvent {
    pub msg: Option<String>,
    pub args: Vec<Val>,
}

pub enum HostEvent {
    Contract(ContractEvent),
    Debug(DebugEvent),
}

/// The content of an event.
pub enum EventView {
    Contract(ContractEvent),
    Debug(Option<Seq<char>>, Seq<Val>),
}

impl View for HostEvent {
    type V = EventView;

    open spec fn view(&self) -> EventView {
        match self {
            HostEvent::Contract(c) => EventView::Contract(*c),
            HostEvent::Debug(d) => EventView::Debug(
                match d.msg {
                    Some(m) => Some(m@),
                    None => None,
                },
                d.args@,
            ),
        }
    }
}

/// Why the journal refused an operation.
#[derive(Clone, Copy, Debug, PartialEq, Eq, Structural)]
pub enum EventError {
    /// The cursor is past the end of the journal.
    BadCursor,
    /// The journal is too long for its positions to be told as `u32` values.
    TooManyEvents,
}

/// The code an event type has as a value.
pub open spec fn type_val(t: ContractEventType) -> Val {
    match t {
        ContractEventType::System => Val::I32(0),
        ContractEventType::Contract => Val::I32(1),
        ContractEventType::Diagnostic => Val::I32(2),
    }
}

pub open spec fn id_val(id: Option<Val>) -> Val {
    match id {
        Some(v) => v,
        None => Val::Void,
    }
}

/// The debug event that stands for a rolled-back contract event.
pub open spec fn rolled_back_summary(c: ContractEvent) -> EventView {
    EventView::Debug(
        Some(ROLLED_BACK_EVENT_MSG@),
        seq![type_val(c.event_type), id_val(c.contract_id), c.topics, c.data],
    )
}

/// The debug event that closes a rollback of `n` events from position `start`.
pub open spec fn rollback_summary(n: int, start: int) -> EventView {
    EventView::Debug(Some(ROLLBACK_MSG@), seq![Val::U32(n as u32), Val::U32(start as u32)])
}

/// One summary for each contract event of `removed`, in order.
pub open spec fn rollback_trail(removed: Seq<EventView>) -> Seq<EventView>
    decreases removed.len(),
{
    if removed.len() == 0 {
        Seq::empty()
    } else {
        rollback_trail(removed.drop_last()) + match removed.last() {
            EventView::Contract(c) => seq![rolled_back_summary(c)],
            _ => Seq::empty(),
        }
    }
}

/// The journal after a rollback to `cursor`: the events before it, then a
/// summary of each contract event removed, then one summary of the rollback.
pub open spec fn rolled_back(events: Seq<EventView>, cursor: int) -> Seq<EventView> {
    if cursor >= events.len() {
        events
    } else {
        events.subrange(0, cursor) + rollback_trail(events.subrange(cursor, events.len() as int))
            + seq![rollback_summary(events.len() - cursor, cursor)]
    }
}

pub open spec fn views(s: Seq<HostEvent>) -> Seq<EventView> {
    s.map_values(|e: HostEvent| e@)
}

fn copy_vals(v: &Vec<Val>) -> (r: Vec<Val>)
    ensures
        r@ == v@,
{
    let mut out: Vec<Val> = Vec::new();
    let mut i: usize = 0;
    while i < v.len()
        invariant
            i <= v@.len(),
            out@ == v@.subrange(0, i as int),
        decreases v@.len() - i,
    {
        out.push(v[i]);
        i = i + 1;
        assert(out@ == v@.subrange(0, i as int));
    }
    assert(out@ == v@);
    out
}

impl DebugEvent {
    /// A debug event with no message and no arguments.
    pub fn new() -> (r: DebugEvent)
        ensures
            r.msg is None,
            r.args@ == Seq::<Val>::empty(),
    {
        DebugEvent { msg: None, args: Vec::new() }
    }

    /// This event with its message set to `m`.
    pub fn msg(self, m: &str) -> (r: DebugEvent)
        ensures
            r.msg matches Some(s) && s@ == m@,
            r.args@ == self.args@,
    {
        DebugEvent { msg: Some(String::from_str(m)), args: self.args }
    }

    /// This event with `v` added to its arguments.
    pub fn arg(self, v: Val) -> (r: DebugEvent)
        ensures
            r.msg == self.msg,
            r.args@ == self.args@.push(v),
    {
        let mut args = self.args;
        args.push(v);
        DebugEvent { msg: self.msg, args }
    }
}

impl HostEvent {
    /// A copy of this event.
    pub fn copy(&self) -> (r: HostEvent)
        ensures
            r@ == self@,
    {
        match self {
            HostEvent::Contract(c) => HostEvent::Contract(*c),
            HostEvent::Debug(d) => {
                let msg = match &d.msg {
                    Some(m) => Some(m.clone()),
                    None => None,
                };
                HostEvent::Debug(DebugEvent { msg, args: copy_vals(&d.args) })
            },
        }
    }
}

fn type_val_exec(t: ContractEventType) -> (r: Val)
    ensures
        r == type_val(t),
{
    match t {
        ContractEventType::System => Val::I32(0),
        ContractEventType::Contract => Val::I32(1),
        ContractEventType::Diagnostic => Val::I32(2),
    }
}

fn summarize(c: &ContractEvent) -> (r: HostEvent)
    ensures
        r@ == rolled_back_summary(*c),
{
    let id = match c.contract_id {
        Some(v) => v,
        None => Val::Void,
    };
    let mut args: Vec<Val> = Vec::new();
    args.push(type_val_exec(c.event_type));
    args.push(id);
    args.push(c.topics);
    args.push(c.data);
    assert(args@ =~= seq![type_val(c.event_type), id_val(c.contract_id), c.topics, c.data]);
    HostEvent::Debug(DebugEvent { msg: Some(String::from_str(ROLLED_BACK_EVENT_MSG)), args })
}

/// The journal of one host instance.
pub struct Events {
    pub events: Vec<HostEvent>,
}

impl View for Events {
    type V = Seq<EventView>;

    open spec fn view(&self) -> Seq<EventView> {
        views(self.events@)
    }
}

impl Events {
    pub fn new() -> (r: Events)
        ensures
            r@ == Seq::<EventView>::empty(),
    {
        let r = Events { events: Vec::new() };
        assert(r@ =~= Seq::<EventView>::empty());
        r
    }

    /// Appends an event.
    pub fn record(&mut self, e: HostEvent)
        ensures
            final(self)@ == old(self)@.push(e@),
    {
        self.events.push(e);
        assert(final(self)@ =~= old(self)@.push(e@));
    }

    /// The current length, to roll back to later.
    pub fn snapshot(&self) -> (r: usize)
        ensures
            r == self@.len(),
    {
        self.events.len()
    }

    /// The journal's current contents, in the order they were appended.
    pub fn externalize(&self) -> (r: Vec<HostEvent>)
        ensures
            views(r@) == self@,
    {
        let mut out: Vec<HostEvent> = Vec::new();
        let mut i: usize = 0;
        while i < self.events.len()
            invariant
                i <= self.events@.len(),
                out@.len() == i,
                forall|k: int| 0 <= k < i ==> #[trigger] out@[k]@ == self.events@[k]@,
            decreases self.events@.len() - i,
        {
            out.push(self.events[i].copy());
            i = i + 1;
        }
        assert(views(out@) =~= self@);
        out
    }

    /// Rolls the journal back to `cursor`: every event from `cursor` on is
    /// removed, each removed contract event is replaced by a debug event that
    /// describes it, and one debug event closes the rollback with the number
    /// of events removed and `cursor`. Rolling back to the current length
    /// changes nothing.
    pub fn rollback(&mut self, cursor: usize) -> (r: Result<(), EventError>)
        ensures
            r == Err::<(), EventError>(EventError::BadCursor) <==> cursor > old(self)@.len(),
            r == Err::<(), EventError>(EventError::TooManyEvents) <==> cursor < old(self)@.len()
                && old(self)@.len() > u32::MAX,
            r is Err ==> final(self)@ == old(self)@,
            r is Ok ==> final(self)@ == rolled_back(old(self)@, cursor as int),
    {
        let n = self.events.len();
        if cursor > n {
            return Err(EventError::BadCursor);
        }
        if cursor == n {
            return Ok(());
        }
        if n > u32::MAX as usize {
            return Err(EventError::TooManyEvents);
        }
        let ghost before = self@;
        let mut trail: Vec<HostEvent> = Vec::new();
        let mut i: usize = cursor;
        while i < n
            invariant
                cursor <= i <= n,
                n == self.events@.len(),
                self@ == before,
                views(trail@) == rollback_trail(before.subrange(cursor as int, i as int)),
            decreases n - i,
        {
            match &self.events[i] {
                HostEvent::Contract(c) => {
                    trail.push(summarize(c));
                },
                HostEvent::Debug(_) => {},
            }
            proof {
                let s = before.subrange(cursor as int, i + 1);
                assert(s.drop_last() =~= before.subrange(cursor as int, i as int));
                assert(s.last() == self.events@[i as int]@);
                assert(views(trail@) =~= rollback_trail(s));
            }
            i = i + 1;
        }
        self.events.truncate(cursor);
        let mut j: usize = 0;
        let ghost kept = self.events@;
        assert(views(kept) =~= before.subrange(0, cursor as int));
        while j < trail.len()
            invariant
                j <= trail@.len(),
                self.events@.len() == kept.len() + j,
                forall|k: int| 0 <= k < kept.len() ==> #[trigger] self.events@[k] == kept[k],
                forall|k: int|
                    0 <= k < j ==> #[trigger] self.events@[kept.len() + k]@ == trail@[k]@,
            decreases trail@.len() - j,
        {
            self.events.push(trail[j].copy());
            j = j + 1;
        }
        assert(self@ =~= views(kept) + views(trail@)) by {
            assert forall|k: int| 0 <= k < self.events@.len() implies #[trigger] self@[k] == (
            views(kept) + views(trail@))[k] by {
                if k >= kept.len() {
                    assert(self.events@[kept.len() + (k - kept.len())]@ == trail@[k - kept.len()]@);
                }
            }
        }
        let mut args: Vec<Val> = Vec::new();
        args.push(Val::U32((n - cursor) as u32));
        args.push(Val::U32(cursor as u32));
        self.events.push(
            HostEvent::Debug(DebugEvent { msg: Some(String::from_str(ROLLBACK_MSG)), args }),
        );
        proof {
            assert(args@ =~= seq![Val::U32((n - cursor) as u32), Val::U32(cursor as u32)]);
            assert(self@ =~= rolled_back(before, cursor as int));
        }
        Ok(())
    }
}

proof fn lemma_trail_all_debug(removed: Seq<EventView>)
    ensures
        forall|i: int|
            0 <= i < rollback_trail(removed).len() ==> #[trigger] rollback_trail(removed)[i] is Debug,
    decreases removed.len(),
{
    if removed.len() > 0 {
        lemma_trail_all_debug(removed.drop_last());
    }
}

/// After a rollback to `cursor` the events before `cursor` are exactly those
/// that stood there before, and no contract event from `cursor` on survives:
/// all that follows them is debug events.
pub proof fn lemma_rollback_keeps_prefix(events: Seq<EventView>, cursor: int)
    requires
        0 <= cursor <= events.len(),
    ensures
        rolled_back(events, cursor).subrange(0, cursor) == events.subrange(0, cursor),
        forall|i: int|
            cursor <= i < rolled_back(events, cursor).len() ==> #[trigger] rolled_back(
                events,
                cursor,
            )[i] is Debug,
{
    if cursor < events.len() {
        let removed = events.subrange(cursor, events.len() as int);
        lemma_trail_all_debug(removed);
        let r = rolled_back(events, cursor);
        assert(r.subrange(0, cursor) =~= events.subrange(0, cursor));
        assert forall|i: int| cursor <= i < r.len() implies #[trigger] r[i] is Debug by {
            if i < cursor + rollback_trail(removed).len() {
                assert(r[i] == rollback_trail(removed)[i - cursor]);
            }
        }
    }
}

} // verus!
