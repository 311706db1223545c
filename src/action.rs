use vstd::prelude::*;

use crate::payment_method::Method;

verus! {

/// One message of the shop protocol: the unit that nodes replicate and log.
///
/// The mutating requests (`Block`, `CompleteOrder`, `FailOrder`) carry, last,
/// the id of the shop whose coffee machine waits for the answer.
#[derive(Debug, Clone, PartialEq, Eq)]
pub enum Action {
    /// `Block(customer_id, shop_id)`
    Block(u32, u32),
    /// `CompleteOrder(customer_id, price, method, shop_id)`
    CompleteOrder(u32, u32, Method, u32),
    /// `FailOrder(customer_id, shop_id)`
    FailOrder(u32, u32),
    ClientAlreadyBlocked(u32),
    NotEnoughPoints(u32),
    Ack,
    Try,
    Up,
    Down,
    /// `Sync(line_count)`: asks for the live log from that line on.
    Sync(u32),
    SyncStart,
    /// One replayed log line, sent as it stands.
    SyncPart(String),
    SyncEnd,
}

} // verus!
