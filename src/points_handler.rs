use std::collections::HashMap;
use vstd::prelude::*;

use crate::errors::Error;

verus! {

broadcast use vstd::std_specs::hash::group_hash_axioms;

/// The loyalty-points ledger: for each customer, a balance and whether an
/// order of theirs is in flight (blocked).
#[derive(Clone)]
pub struct PointsHandler {
    pub points: HashMap<u32, (i32, bool)>,
}

impl PointsHandler {
    /// The entry of a customer; one never seen has `(0, false)`.
    pub open spec fn entry(&self, client_id: u32) -> (i32, bool) {
        if self.points@.contains_key(client_id) {
            self.points@[client_id]
        } else {
            (0, false)
        }
    }

    pub open spec fn balance(&self, client_id: u32) -> int {
        self.entry(client_id).0 as int
    }

    pub open spec fn is_blocked(&self, client_id: u32) -> bool {
        self.entry(client_id).1
    }

    /// No balance is negative.
    pub open spec fn wf(&self) -> bool {
        forall|k: u32| #[trigger] self.points@.contains_key(k) ==> self.points@[k].0 >= 0
    }

    /// Creates a new instance of [`PointsHandler`].
    pub fn new() -> (r: PointsHandler)
        ensures
            r.wf(),
            r.points@ == Map::<u32, (i32, bool)>::empty(),
    {
        PointsHandler { points: HashMap::new() }
    }

    /// The entry of a customer, without creating it.
    pub fn current(&self, client_id: u32) -> (r: (i32, bool))
        ensures
            r == self.entry(client_id),
    {
        match self.points.get(&client_id) {
            Some(info) => *info,
            None => (0, false),
        }
    }

    /// Returns the current information associated with the client id.
    /// If the client account does not exist, it is created.
    pub fn get_client(&mut self, client_id: u32) -> (r: (i32, bool))
        ensures
            r == old(self).entry(client_id),
            final(self).points@ == old(self).points@.insert(client_id, r),
            old(self).wf() ==> final(self).wf(),
    {
        match self.points.get(&client_id) {
            Some(info) => {
                let r = *info;
                self.points.insert(client_id, r);
                r
            },
            None => {
                self.points.insert(client_id, (0, false));
                (0, false)
            },
        }
    }

    /// Blocks the client.
    /// Returns error If the client was already blocked.
    pub fn block(&mut self, client_id: u32) -> (r: Result<(), Error>)
        ensures
            old(self).is_blocked(client_id) ==> r == Err::<(), Error>(Error::UserAlreadyBlocked)
                && final(self).points@ == old(self).points@,
            !old(self).is_blocked(client_id) ==> r is Ok && final(self).points@
                == old(self).points@.insert(client_id, (old(self).entry(client_id).0, true)),
            old(self).wf() ==> final(self).wf(),
    {
        let current = self.current(client_id);
        if !current.1 {
            self.points.insert(client_id, (current.0, true));
        } else {
            return Err(Error::UserAlreadyBlocked);
        }
        Ok(())
    }

    /// Unblocks the client; it never fails, and does nothing to a client
    /// that is not blocked.
    pub fn unblock(&mut self, client_id: u32)
        ensures
            final(self).points@ == old(self).points@.insert(
                client_id,
                (old(self).entry(client_id).0, false),
            ),
            old(self).wf() ==> final(self).wf(),
    {
        let current = self.current(client_id);
        self.points.insert(client_id, (current.0, false));
    }

    /// Updates the points associated with the client id by `points`, which
    /// may be negative. Returns `NotEnoughPoints`, and changes nothing, when
    /// the balance would fall below zero; `PointsOverflow` when it would not
    /// fit in an `i32`.
    pub fn update_points(&mut self, client_id: u32, points: i32) -> (r: Result<(), Error>)
        ensures
            old(self).balance(client_id) + points < 0 ==> r == Err::<(), Error>(
                Error::NotEnoughPoints,
            ) && final(self).points@ == old(self).points@,
            old(self).balance(client_id) + points > i32::MAX ==> r == Err::<(), Error>(
                Error::PointsOverflow,
            ) && final(self).points@ == old(self).points@,
            0 <= old(self).balance(client_id) + points <= i32::MAX ==> r is Ok
                && final(self).points@ == old(self).points@.insert(
                client_id,
                (
                    (old(self).balance(client_id) + points) as i32,
                    old(self).is_blocked(client_id),
                ),
            ),
            old(self).wf() ==> final(self).wf(),
    {
        let current = self.current(client_id);
        let updated_points = current.0 as i64 + points as i64;
        if updated_points < 0 {
            return Err(Error::NotEnoughPoints);
        }
        if updated_points > i32::MAX as i64 {
            return Err(Error::PointsOverflow);
        }
        self.points.insert(client_id, (updated_points as i32, current.1));
        Ok(())
    }

    /// Acumulates points to the associated client id: the update is made when
    /// `update_points` accepts it, and dropped when it does not.
    pub fn acumulate(&mut self, client_id: u32, points: i32)
        ensures
            0 <= old(self).balance(client_id) + points <= i32::MAX ==> final(self).points@
                == old(self).points@.insert(
                client_id,
                (
                    (old(self).balance(client_id) + points) as i32,
                    old(self).is_blocked(client_id),
                ),
            ),
            !(0 <= old(self).balance(client_id) + points <= i32::MAX) ==> final(self).points@
                == old(self).points@,
            old(self).wf() ==> final(self).wf(),
    {
        let _ = self.update_points(client_id, points);
    }
}

impl Default for PointsHandler {
    fn default() -> (r: Self)
        ensures
            r.wf(),
            r.points@ == Map::<u32, (i32, bool)>::empty(),
    {
        Self::new()
    }
}

/// Every operation keeps a ledger well formed, and in a well-formed ledger
/// no customer's balance is negative.
pub proof fn lemma_balance_never_negative(h: PointsHandler)
    requires
        h.wf(),
    ensures
        forall|k: u32| h.balance(k) >= 0,
{
    assert forall|k: u32| h.balance(k) >= 0 by {
        if h.points@.contains_key(k) {
            assert(h.points@[k].0 >= 0);
        }
    }
}

/// Unblocking a customer who is not blocked, or whom the ledger has never
/// seen, changes no customer's entry.
pub proof fn lemma_unblock_is_no_op(before: PointsHandler, after: PointsHandler, client_id: u32)
    requires
        !before.is_blocked(client_id),
        after.points@ == before.points@.insert(client_id, (before.entry(client_id).0, false)),
    ensures
        forall|k: u32| #[trigger] after.entry(k) == before.entry(k),
{
}

} // verus!
