//! What a subscriber of the event bus receives.

use crate::event::Event;
use vstd::prelude::*;

verus! {

/// What the channel under the bus hands to a subscriber.
pub enum Delivery {
    /// The next event.
    Event(Event),
    /// The subscriber fell behind, and so many events were dropped for it.
    Lagged(u64),
    /// The bus is gone.
    Closed,
}

/// What a subscriber receives.
#[derive(Debug, PartialEq, Eq)]
pub enum ReceiveResult {
    /// An event.
    Event(Event),
    /// The subscriber fell behind, and so many events were dropped.
    Lagged(u64),
}

impl Clone for ReceiveResult {
    fn clone(&self) -> (copy: Self)
        ensures
            copy == *self,
    {
        match self {
            ReceiveResult::Event(event) => ReceiveResult::Event(event.clone()),
            ReceiveResult::Lagged(n) => ReceiveResult::Lagged(*n),
        }
    }
}

impl ReceiveResult {
    /// What a subscriber receives of a delivery. Nothing comes once the bus is gone.
    pub fn of_delivery(delivery: Delivery) -> (received: Option<ReceiveResult>)
        ensures
            received == (match delivery {
                Delivery::Event(event) => Some(ReceiveResult::Event(event)),
                Delivery::Lagged(n) => Some(ReceiveResult::Lagged(n)),
                Delivery::Closed => None,
            }),
    {
        match delivery {
            Delivery::Event(event) => Some(ReceiveResult::Event(event)),
            Delivery::Lagged(n) => Some(ReceiveResult::Lagged(n)),
            Delivery::Closed => None,
        }
    }
}

} // verus!
