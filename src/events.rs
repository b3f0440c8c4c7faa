//! Records of swaps and collateral provisions, and a log that keeps them in order.
use crate::keyed::copy_bytes;
use vstd::prelude::*;

verus! {

pub struct SwapEvent {
    pub caller: Vec<u8>,
    pub token_id_in: Vec<u8>,
    pub token_amount_in: u128,
    pub token_id_out: Vec<u8>,
    pub token_amount_out: u128,
    pub fee_amount: u128,
    pub block: u64,
    pub epoch: u64,
    pub timestamp: u64,
}

pub struct SwapEventView {
    pub caller: Seq<u8>,
    pub token_id_in: Seq<u8>,
    pub token_amount_in: u128,
    pub token_id_out: Seq<u8>,
    pub token_amount_out: u128,
    pub fee_amount: u128,
    pub block: u64,
    pub epoch: u64,
    pub timestamp: u64,
}

impl View for SwapEvent {
    type V = SwapEventView;

    open spec fn view(&self) -> SwapEventView {
        SwapEventView {
            caller: self.caller@,
            token_id_in: self.token_id_in@,
            token_amount_in: self.token_amount_in,
            token_id_out: self.token_id_out@,
            token_amount_out: self.token_amount_out,
            fee_amount: self.fee_amount,
            block: self.block,
            epoch: self.epoch,
            timestamp: self.timestamp,
        }
    }
}

pub struct ProvisionEvent {
    pub caller: Vec<u8>,
    pub token_id_in: Vec<u8>,
    pub token_amount_in: u128,
    pub block: u64,
    pub epoch: u64,
    pub timestamp: u64,
}

pub struct ProvisionEventView {
    pub caller: Seq<u8>,
    pub token_id_in: Seq<u8>,
    pub token_amount_in: u128,
    pub block: u64,
    pub epoch: u64,
    pub timestamp: u64,
}

impl View for ProvisionEvent {
    type V = ProvisionEventView;

    open spec fn view(&self) -> ProvisionEventView {
        ProvisionEventView {
            caller: self.caller@,
            token_id_in: self.token_id_in@,
            token_amount_in: self.token_amount_in,
            block: self.block,
            epoch: self.epoch,
            timestamp: self.timestamp,
        }
    }
}

/// One emitted event.
pub enum Event {
    Swap(SwapEvent),
    ProvideCollateral(ProvisionEvent),
}

pub enum EventView {
    Swap(SwapEventView),
    ProvideCollateral(ProvisionEventView),
}

impl View for Event {
    type V = EventView;

    open spec fn view(&self) -> EventView {
        match self {
            Event::Swap(e) => EventView::Swap(e@),
            Event::ProvideCollateral(e) => EventView::ProvideCollateral(e@),
        }
    }
}

/// Emission of swap and provision events; each emission appends exactly that event.
pub trait EventsModule: Sized {
    /// The events emitted so far, oldest first.
    spec fn emitted(&self) -> Seq<EventView>;

    fn emit_swap_event(&mut self, swap_event: &SwapEvent)
        ensures
            final(self).emitted() == old(self).emitted().push(EventView::Swap(swap_event@)),
    ;

    fn emit_provide_collateral_event(&mut self, provide_collateral_event: &ProvisionEvent)
        ensures
            final(self).emitted() == old(self).emitted().push(
                EventView::ProvideCollateral(provide_collateral_event@),
            ),
    ;
}

/// An in-memory event log.
pub struct EventLog {
    events: Vec<Event>,
}

impl EventLog {
    pub fn new() -> (r: EventLog)
        ensures
            r.emitted() == Seq::<EventView>::empty(),
    {
        let r = EventLog { events: Vec::new() };
        assert(r.emitted() =~= Seq::<EventView>::empty());
        r
    }

    pub fn len(&self) -> (r: usize)
        ensures
            r == self.emitted().len(),
    {
        self.events.len()
    }

    /// The `i`-th event emitted.
    pub fn get(&self, i: usize) -> (r: &Event)
        requires
            i < self.emitted().len(),
        ensures
            r@ == self.emitted()[i as int],
    {
        &self.events[i]
    }
}

impl EventsModule for EventLog {
    closed spec fn emitted(&self) -> Seq<EventView> {
        self.events@.map_values(|e: Event| e@)
    }

    fn emit_swap_event(&mut self, swap_event: &SwapEvent) {
        let copy = SwapEvent {
            caller: copy_bytes(swap_event.caller.as_slice()),
            token_id_in: copy_bytes(swap_event.token_id_in.as_slice()),
            token_amount_in: swap_event.token_amount_in,
            token_id_out: copy_bytes(swap_event.token_id_out.as_slice()),
            token_amount_out: swap_event.token_amount_out,
            fee_amount: swap_event.fee_amount,
            block: swap_event.block,
            epoch: swap_event.epoch,
            timestamp: swap_event.timestamp,
        };
        let ghost before = self.emitted();
        self.events.push(Event::Swap(copy));
        assert(self.emitted() =~= before.push(EventView::Swap(swap_event@)));
    }

    fn emit_provide_collateral_event(&mut self, provide_collateral_event: &ProvisionEvent) {
        let e = provide_collateral_event;
        let copy = ProvisionEvent {
            caller: copy_bytes(e.caller.as_slice()),
            token_id_in: copy_bytes(e.token_id_in.as_slice()),
            token_amount_in: e.token_amount_in,
            block: e.block,
            epoch: e.epoch,
            timestamp: e.timestamp,
        };
        let ghost before = self.emitted();
        self.events.push(Event::ProvideCollateral(copy));
        assert(self.emitted() =~= before.push(EventView::ProvideCollateral(e@)));
    }
}

} // verus!
