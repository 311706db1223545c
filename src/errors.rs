use vstd::prelude::*;

verus! {

/// Every failure that the shop nodes, the coffee machines and their helpers report.
#[derive(Debug, Clone, Copy, PartialEq, Eq, Structural)]
pub enum Error {
    NotFileInput,
    FileNotFound,
    WrongFileFormat,
    NoMoreOrders,
    CantSendMessage,
    CantCloneSocket,
    CantSetReadTimeout,
    Timeout,
    NotShopIdInput,
    InvalidShopId,
    CantLockLeaderId,
    CantGetLeaderId,
    CantParseMessage,
    CantGetShopId,
    CantReceiveMessage,
    InvalidMessageFormat,
    NotEnoughPoints,
    PointsOverflow,
    UserAlreadyBlocked,
    ClientAlreadyBlocked,
    Lock,
    Sync,
    Down,
}

} // verus!
