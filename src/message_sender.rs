use vstd::prelude::*;

use crate::action::Action;
use crate::errors::Error;
use crate::message_parser::{decode, MessageParser};

verus! {

/// How long a receive waits when the caller names no timeout, in milliseconds.
pub const DEFAULT_TIMEOUT_MS: u64 = 10000;

/// The request/answer side of the protocol: what an answer means, and
/// whether a request that got none is sent again.
pub struct MessageSender {}

/// What an answer to a request means: `ACK` is success, `notEnough` and
/// `alreadyBlocked` are declines, and anything else is not an answer.
pub open spec fn outcome_of(m: Seq<char>) -> Result<(), Error> {
    match decode(m) {
        Ok(Action::Ack) => Ok(()),
        Ok(Action::NotEnoughPoints(_)) => Err(Error::NotEnoughPoints),
        Ok(Action::ClientAlreadyBlocked(_)) => Err(Error::ClientAlreadyBlocked),
        _ => Err(Error::InvalidMessageFormat),
    }
}

impl MessageSender {
    /// Reads the answer received to a request.
    pub fn outcome(message: &String) -> (r: Result<(), Error>)
        ensures
            r == outcome_of(message@),
    {
        match MessageParser::parse(message.clone()) {
            Ok(Action::Ack) => Ok(()),
            Ok(Action::NotEnoughPoints(_)) => Err(Error::NotEnoughPoints),
            Ok(Action::ClientAlreadyBlocked(_)) => Err(Error::ClientAlreadyBlocked),
            _ => Err(Error::InvalidMessageFormat),
        }
    }

    /// After a receive timed out with `attempts` tries left, the tries left
    /// for sending again; `Timeout` when that was the last one.
    pub fn retry_after_timeout(attempts: u32) -> (r: Result<u32, Error>)
        ensures
            attempts > 1 ==> r == Ok::<u32, Error>((attempts - 1) as u32),
            attempts <= 1 ==> r == Err::<u32, Error>(Error::Timeout),
    {
        if attempts > 1 {
            Ok(attempts - 1)
        } else {
            Err(Error::Timeout)
        }
    }
}

/// The receive timeout, in milliseconds: the one given, or ten seconds.
pub fn set_duration(timeout: Option<u64>) -> (r: u64)
    ensures
        r == match timeout {
            Some(d) => d,
            None => DEFAULT_TIMEOUT_MS,
        },
{
    match timeout {
        None => DEFAULT_TIMEOUT_MS,
        Some(d) => d,
    }
}

} // verus!
