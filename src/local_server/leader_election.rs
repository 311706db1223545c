use vstd::prelude::*;

use crate::errors::Error;

verus! {

/// The three kinds of ring messages.
#[derive(Debug, Clone, Copy, PartialEq, Eq, Structural)]
pub enum RingKind {
    /// Gathers the ids of the nodes it has passed.
    Election,
    /// Acknowledges one hop; carries the id of the node that took it.
    Ack,
    /// Names the winner first, then the nodes that have learnt it.
    Coordinator,
}

/// A message of the ring election.
pub struct RingMessage {
    pub kind: RingKind,
    pub ids: Vec<u64>,
}

/// What a node sends after taking a ring message.
pub struct RingReply {
    /// Whether the sender of the message gets an `Ack` carrying this node's id.
    pub ack_sender: bool,
    /// The message to hand on to the next live node of the ring, if any.
    pub forward: Option<RingMessage>,
}

/// What `find_new` asks of the node.
pub enum FindNew {
    /// The election subsystem is stopped: nothing happens.
    Suspended,
    /// The ring has this node alone: it is the leader, and nothing is sent.
    SelfElected,
    /// The election message to send to the node `to`, then to wait for the leader.
    Send { to: u64, msg: RingMessage },
}

/// The election state of one node of a ring of `shops_amount` nodes,
/// numbered from 0.
pub struct Election {
    pub id: u64,
    pub shops_amount: u64,
    /// Empty while an election is running.
    pub leader_id: Option<u64>,
    /// The last node that acknowledged a hop.
    pub got_ack: Option<u64>,
    /// Set while the node is administratively paused.
    pub stopped: bool,
}

/// The largest id of a nonempty list.
pub open spec fn max_of(ids: Seq<u64>) -> u64
    recommends
        ids.len() > 0,
    decreases ids.len(),
{
    if ids.len() <= 1 {
        ids[0]
    } else {
        let m = max_of(ids.drop_last());
        if m >= ids.last() {
            m
        } else {
            ids.last()
        }
    }
}

/// The message that a node `id` hands on after taking a ring message of
/// `kind` with the ids `ids`.
pub open spec fn forward_of(id: u64, kind: RingKind, ids: Seq<u64>) -> Option<(RingKind, Seq<u64>)> {
    match kind {
        RingKind::Ack => None,
        RingKind::Election => if ids.contains(id) {
            Some((RingKind::Coordinator, seq![max_of(ids)]))
        } else {
            Some((RingKind::Election, ids.push(id)))
        },
        RingKind::Coordinator => if ids.drop_first().contains(id) {
            None
        } else {
            Some((RingKind::Coordinator, ids.push(id)))
        },
    }
}

pub open spec fn spec_next(id: u64, n: u64) -> u64 {
    if id + 1 >= n {
        0
    } else {
        (id + 1) as u64
    }
}

impl RingMessage {
    pub open spec fn model(&self) -> (RingKind, Seq<u64>) {
        (self.kind, self.ids@)
    }
}

impl Election {
    pub open spec fn wf(&self) -> bool {
        0 < self.shops_amount && self.id < self.shops_amount
    }

    /// A node that starts with itself as leader, and then runs `find_new`.
    pub fn new(id: u64, shops_amount: u64) -> (r: Election)
        requires
            id < shops_amount,
        ensures
            r.wf(),
            r.id == id,
            r.shops_amount == shops_amount,
            r.leader_id == Some(id),
            r.got_ack is None,
            !r.stopped,
    {
        Election { id, shops_amount, leader_id: Some(id), got_ack: None, stopped: false }
    }

    /// The successor of `id` on the ring.
    pub fn next(&self, id: u64) -> (r: u64)
        requires
            self.shops_amount > 0,
            id < u64::MAX,
        ensures
            r == (id + 1) % (self.shops_amount as int),
            r < self.shops_amount,
            id < self.shops_amount ==> r == spec_next(id, self.shops_amount),
    {
        proof {
            vstd::arithmetic::div_mod::lemma_mod_pos_bound((id + 1) as int, self.shops_amount as int);
            if id >= self.shops_amount {
            } else if id + 1 < self.shops_amount {
                vstd::arithmetic::div_mod::lemma_small_mod((id + 1) as nat, self.shops_amount as nat);
            } else {
                vstd::arithmetic::div_mod::lemma_mod_self_0(self.shops_amount as int);
            }
        }
        ((id + 1) % self.shops_amount) as u64
    }

    /// Whether this node is the known leader; `None` while an election runs.
    pub fn am_i_leader(&self) -> (r: Option<bool>)
        ensures
            r == match self.leader_id {
                Some(l) => Some(l == self.id),
                None => None::<bool>,
            },
    {
        match self.leader_id {
            Some(l) => Some(l == self.id),
            None => None,
        }
    }

    /// Starts an election: forgets the leader and builds the `Election`
    /// message with this node alone, for the successor. A node alone on its
    /// ring elects itself at once; a stopped node does nothing.
    pub fn find_new(&mut self) -> (r: FindNew)
        requires
            old(self).wf(),
        ensures
            final(self).wf(),
            final(self).id == old(self).id,
            final(self).shops_amount == old(self).shops_amount,
            final(self).stopped == old(self).stopped,
            final(self).got_ack == old(self).got_ack,
            old(self).stopped ==> r is Suspended && final(self).leader_id == old(self).leader_id,
            !old(self).stopped && spec_next(old(self).id, old(self).shops_amount) == old(self).id
                ==> r is SelfElected && final(self).leader_id == Some(old(self).id),
            !old(self).stopped && old(self).shops_amount == 1 ==> r is SelfElected
                && final(self).leader_id == Some(old(self).id),
            !old(self).stopped && spec_next(old(self).id, old(self).shops_amount) != old(self).id
                ==> final(self).leader_id is None && match r {
                FindNew::Send { to, msg } => to == spec_next(old(self).id, old(self).shops_amount)
                    && msg.model() == (RingKind::Election, seq![old(self).id]),
                _ => false,
            },
    {
        if self.stopped {
            return FindNew::Suspended;
        }
        let to = self.next(self.id);
        if to == self.id {
            self.leader_id = Some(self.id);
            return FindNew::SelfElected;
        }
        self.leader_id = None;
        let mut ids: Vec<u64> = Vec::new();
        ids.push(self.id);
        assert(ids@ =~= seq![self.id]);
        FindNew::Send { to, msg: RingMessage { kind: RingKind::Election, ids } }
    }

    /// After the node `failed` let a hop time out, the node to try next:
    /// the one after it, unless that is this node itself, when no other node
    /// answered and the hop fails.
    pub fn next_hop(&self, failed: u64) -> (r: Option<u64>)
        requires
            self.wf(),
            failed < self.shops_amount,
        ensures
            spec_next(failed, self.shops_amount) == self.id ==> r is None,
            spec_next(failed, self.shops_amount) != self.id ==> r == Some(
                spec_next(failed, self.shops_amount),
            ),
    {
        let n = self.next(failed);
        if n == self.id {
            None
        } else {
            Some(n)
        }
    }

    /// Takes the lead after no other node acknowledged the election.
    pub fn declare_self(&mut self)
        ensures
            final(self).leader_id == Some(old(self).id),
            final(self).id == old(self).id,
            final(self).shops_amount == old(self).shops_amount,
            final(self).got_ack == old(self).got_ack,
            final(self).stopped == old(self).stopped,
    {
        self.leader_id = Some(self.id);
    }

    /// Forgets the last acknowledgement, before a hop is sent.
    pub fn clear_ack(&mut self)
        ensures
            final(self).got_ack is None,
            final(self).id == old(self).id,
            final(self).shops_amount == old(self).shops_amount,
            final(self).leader_id == old(self).leader_id,
            final(self).stopped == old(self).stopped,
    {
        self.got_ack = None;
    }

    /// Whether the hop sent to `hop` has been acknowledged.
    pub fn acked_by(&self, hop: u64) -> (r: bool)
        ensures
            r == (self.got_ack == Some(hop)),
    {
        match self.got_ack {
            Some(a) => a == hop,
            None => false,
        }
    }

    /// Pauses the election subsystem.
    pub fn stop(&mut self)
        ensures
            final(self).stopped,
            final(self).id == old(self).id,
            final(self).shops_amount == old(self).shops_amount,
            final(self).leader_id == old(self).leader_id,
            final(self).got_ack == old(self).got_ack,
    {
        self.stopped = true;
    }

    /// Resumes the election subsystem.
    pub fn up(&mut self)
        ensures
            !final(self).stopped,
            final(self).id == old(self).id,
            final(self).shops_amount == old(self).shops_amount,
            final(self).leader_id == old(self).leader_id,
            final(self).got_ack == old(self).got_ack,
    {
        self.stopped = false;
    }

    /// Takes one ring message. A stopped node, or a message without ids,
    /// changes nothing and gets no answer. Otherwise the sender is
    /// acknowledged unless the message is an `Ack`; an `Ack` records its
    /// node, a `Coordinator` sets the leader to its first id; and the message
    /// to hand on is the one `forward_of` gives.
    pub fn on_message(&mut self, msg: RingMessage) -> (r: RingReply)
        ensures
            final(self).id == old(self).id,
            final(self).shops_amount == old(self).shops_amount,
            final(self).stopped == old(self).stopped,
            old(self).stopped || msg.ids@.len() == 0 ==> !r.ack_sender && r.forward is None
                && final(self).leader_id == old(self).leader_id && final(self).got_ack == old(
                self,
            ).got_ack,
            !old(self).stopped && msg.ids@.len() > 0 ==> {
                &&& r.ack_sender == (msg.kind != RingKind::Ack)
                &&& match r.forward {
                    Some(f) => forward_of(old(self).id, msg.kind, msg.ids@) == Some(f.model()),
                    None => forward_of(old(self).id, msg.kind, msg.ids@) is None,
                }
                &&& final(self).leader_id == if msg.kind == RingKind::Coordinator {
                    Some(msg.ids@[0])
                } else {
                    old(self).leader_id
                }
                &&& final(self).got_ack == if msg.kind == RingKind::Ack {
                    Some(msg.ids@[0])
                } else {
                    old(self).got_ack
                }
            },
    {
        if self.stopped || msg.ids.len() == 0 {
            return RingReply { ack_sender: false, forward: None };
        }
        let first = msg.ids[0];
        match msg.kind {
            RingKind::Ack => {
                self.got_ack = Some(first);
                RingReply { ack_sender: false, forward: None }
            },
            RingKind::Election => {
                assert(msg.ids@.subrange(0, msg.ids@.len() as int) =~= msg.ids@);
                if contains_id(&msg.ids, 0, self.id) {
                    let winner = max_id(&msg.ids);
                    let mut ids: Vec<u64> = Vec::new();
                    ids.push(winner);
                    assert(ids@ =~= seq![max_of(msg.ids@)]);
                    RingReply {
                        ack_sender: true,
                        forward: Some(RingMessage { kind: RingKind::Coordinator, ids }),
                    }
                } else {
                    let mut ids = msg.ids;
                    ids.push(self.id);
                    RingReply {
                        ack_sender: true,
                        forward: Some(RingMessage { kind: RingKind::Election, ids }),
                    }
                }
            },
            RingKind::Coordinator => {
                self.leader_id = Some(first);
                proof {
                    assert(msg.ids@.subrange(1, msg.ids@.len() as int) =~= msg.ids@.drop_first());
                }
                if contains_id(&msg.ids, 1, self.id) {
                    RingReply { ack_sender: true, forward: None }
                } else {
                    let mut ids = msg.ids;
                    ids.push(self.id);
                    RingReply {
                        ack_sender: true,
                        forward: Some(RingMessage { kind: RingKind::Coordinator, ids }),
                    }
                }
            },
        }
    }
}

/// The node `i` hops after `k` on a ring of `n` nodes, for `i <= n`.
pub open spec fn ring_pos(k: u64, i: int, n: u64) -> u64 {
    if k + i < n {
        (k + i) as u64
    } else {
        (k + i - n) as u64
    }
}

/// The ids that the election message started by node `k` carries after
/// passing `j` nodes, the initiator included.
pub open spec fn lap(k: u64, j: int, n: u64) -> Seq<u64> {
    Seq::new(j as nat, |i: int| ring_pos(k, i, n))
}

proof fn lemma_max_of(ids: Seq<u64>)
    requires
        ids.len() > 0,
    ensures
        forall|i: int| 0 <= i < ids.len() ==> ids[i] <= max_of(ids),
        exists|i: int| 0 <= i < ids.len() && ids[i] == max_of(ids),
    decreases ids.len(),
{
    if ids.len() > 1 {
        let p = ids.drop_last();
        lemma_max_of(p);
        assert forall|i: int| 0 <= i < ids.len() implies ids[i] <= max_of(ids) by {
            if i < p.len() {
                assert(ids[i] == p[i]);
            }
        }
        if max_of(p) >= ids.last() {
            let i = choose|i: int| 0 <= i < p.len() && p[i] == max_of(p);
            assert(ids[i] == max_of(ids));
        } else {
            assert(ids[ids.len() - 1] == max_of(ids));
        }
    } else {
        assert(ids[0] == max_of(ids));
    }
}

proof fn lemma_lap_step(n: u64, k: u64, j: int)
    requires
        k < n,
        1 <= j < n,
    ensures
        forward_of(ring_pos(k, j, n), RingKind::Election, lap(k, j, n)) == Some(
            (RingKind::Election, lap(k, j + 1, n)),
        ),
{
    let l = lap(k, j, n);
    let p = ring_pos(k, j, n);
    assert forall|i: int| 0 <= i < l.len() implies l[i] != p by {}
    assert(!l.contains(p));
    assert(l.push(p) =~= lap(k, j + 1, n));
}

proof fn lemma_ring_pos_next(n: u64, k: u64, j: int)
    requires
        k < n,
        1 <= j <= n,
    ensures
        spec_next(ring_pos(k, j - 1, n), n) == ring_pos(k, j, n),
{
}

proof fn lemma_lap_closes(n: u64, k: u64)
    requires
        k < n,
    ensures
        forward_of(k, RingKind::Election, lap(k, n as int, n)) == Some(
            (RingKind::Coordinator, seq![(n - 1) as u64]),
        ),
{
    let full = lap(k, n as int, n);
    assert(full[0] == k);
    assert(full.contains(k));
    lemma_max_of(full);
    assert(full[(n - 1 - k) as int] == n - 1);
    let i = choose|i: int| 0 <= i < full.len() && full[i] == max_of(full);
    assert(full[i] < n);
}

/// On a ring of `n` nodes that all answer, the election started by any node
/// `k` goes round the ring: each node in turn, not yet among the ids, adds
/// itself and hands the message to its successor; back at `k` the message
/// holds every id, and `k` announces the largest, `n - 1`, as the leader.
/// So the winner is the largest id whichever node started the election.
pub proof fn lemma_ring_elects_max(n: u64, k: u64)
    requires
        k < n,
    ensures
        lap(k, 1, n) == seq![k],
        forall|j: int|
            1 <= j <= n ==> #[trigger] spec_next(ring_pos(k, j - 1, n), n) == ring_pos(k, j, n),
        ring_pos(k, n as int, n) == k,
        forall|j: int|
            1 <= j < n ==> #[trigger] forward_of(ring_pos(k, j, n), RingKind::Election, lap(k, j, n))
                == Some((RingKind::Election, lap(k, j + 1, n))),
        forward_of(k, RingKind::Election, lap(k, n as int, n)) == Some(
            (RingKind::Coordinator, seq![(n - 1) as u64]),
        ),
{
    assert(lap(k, 1, n) =~= seq![k]);
    assert forall|j: int| 1 <= j <= n implies #[trigger] spec_next(ring_pos(k, j - 1, n), n)
        == ring_pos(k, j, n) by {
        lemma_ring_pos_next(n, k, j);
    }
    assert forall|j: int| 1 <= j < n implies #[trigger] forward_of(
        ring_pos(k, j, n),
        RingKind::Election,
        lap(k, j, n),
    ) == Some((RingKind::Election, lap(k, j + 1, n))) by {
        lemma_lap_step(n, k, j);
    }
    lemma_lap_closes(n, k);
}

/// Whether `id` is among `ids` from position `from` on.
fn contains_id(ids: &Vec<u64>, from: usize, id: u64) -> (r: bool)
    requires
        from <= ids@.len(),
    ensures
        r == ids@.subrange(from as int, ids@.len() as int).contains(id),
{
    let mut i: usize = from;
    while i < ids.len()
        invariant
            from <= i <= ids@.len(),
            forall|j: int| from <= j < i ==> ids@[j] != id,
        decreases ids@.len() - i,
    {
        if ids[i] == id {
            assert(ids@.subrange(from as int, ids@.len() as int)[i - from] == id);
            return true;
        }
        i = i + 1;
    }
    assert forall|j: int| 0 <= j < ids@.len() - from implies ids@.subrange(
        from as int,
        ids@.len() as int,
    )[j] != id by {
        assert(ids@.subrange(from as int, ids@.len() as int)[j] == ids@[j + from]);
    }
    false
}

/// The largest of a nonempty list of ids.
fn max_id(ids: &Vec<u64>) -> (r: u64)
    requires
        ids@.len() > 0,
    ensures
        r == max_of(ids@),
{
    let mut m = ids[0];
    let mut i: usize = 1;
    while i < ids.len()
        invariant
            1 <= i <= ids@.len(),
            m == max_of(ids@.take(i as int)),
        decreases ids@.len() - i,
    {
        let ghost pre = ids@.take(i as int);
        assert(ids@.take(i + 1).drop_last() =~= pre);
        if ids[i] > m {
            m = ids[i];
        }
        i = i + 1;
    }
    assert(ids@.take(ids@.len() as int) =~= ids@);
    m
}

/// The byte that starts each kind of ring message.
pub open spec fn kind_tag(k: RingKind) -> u8 {
    match k {
        RingKind::Election => 69,
        RingKind::Ack => 65,
        RingKind::Coordinator => 67,
    }
}

/// The eight bytes of `v`, least significant first.
pub open spec fn le_bytes(v: u64) -> Seq<u8> {
    seq![
        (v & 0xff) as u8,
        ((v >> 8) & 0xff) as u8,
        ((v >> 16) & 0xff) as u8,
        ((v >> 24) & 0xff) as u8,
        ((v >> 32) & 0xff) as u8,
        ((v >> 40) & 0xff) as u8,
        ((v >> 48) & 0xff) as u8,
        ((v >> 56) & 0xff) as u8,
    ]
}

/// The number that eight bytes write, least significant first.
pub open spec fn from_le(b: Seq<u8>) -> u64 {
    (b[0] as u64) | ((b[1] as u64) << 8) | ((b[2] as u64) << 16) | ((b[3] as u64) << 24) | ((
    b[4] as u64) << 32) | ((b[5] as u64) << 40) | ((b[6] as u64) << 48) | ((b[7] as u64) << 56)
}

/// The ids written one after the other, eight bytes each.
pub open spec fn ids_bytes(ids: Seq<u64>) -> Seq<u8>
    decreases ids.len(),
{
    if ids.len() == 0 {
        Seq::empty()
    } else {
        ids_bytes(ids.drop_last()) + le_bytes(ids.last())
    }
}

/// A ring message on the wire: its kind's byte, the number of ids, then the
/// ids, each number in eight little-endian bytes.
pub open spec fn ring_bytes(kind: RingKind, ids: Seq<u64>) -> Seq<u8> {
    seq![kind_tag(kind)] + le_bytes(ids.len() as u64) + ids_bytes(ids)
}

pub proof fn lemma_from_le_bytes(v: u64)
    ensures
        from_le(le_bytes(v)) == v,
{
    assert(((v & 0xff) as u8 as u64) | ((((v >> 8) & 0xff) as u8 as u64) << 8) | ((((v >> 16)
        & 0xff) as u8 as u64) << 16) | ((((v >> 24) & 0xff) as u8 as u64) << 24) | ((((v >> 32)
        & 0xff) as u8 as u64) << 32) | ((((v >> 40) & 0xff) as u8 as u64) << 40) | ((((v >> 48)
        & 0xff) as u8 as u64) << 48) | ((((v >> 56) & 0xff) as u8 as u64) << 56) == v)
        by (bit_vector);
}

proof fn lemma_ids_bytes_len(ids: Seq<u64>)
    ensures
        ids_bytes(ids).len() == 8 * ids.len(),
    decreases ids.len(),
{
    if ids.len() > 0 {
        lemma_ids_bytes_len(ids.drop_last());
    }
}

/// Appends the eight bytes of `v`.
fn push_le(buf: &mut Vec<u8>, v: u64)
    ensures
        final(buf)@ == old(buf)@ + le_bytes(v),
{
    buf.push((v & 0xff) as u8);
    buf.push(((v >> 8) & 0xff) as u8);
    buf.push(((v >> 16) & 0xff) as u8);
    buf.push(((v >> 24) & 0xff) as u8);
    buf.push(((v >> 32) & 0xff) as u8);
    buf.push(((v >> 40) & 0xff) as u8);
    buf.push(((v >> 48) & 0xff) as u8);
    buf.push(((v >> 56) & 0xff) as u8);
    assert(buf@ =~= old(buf)@ + le_bytes(v));
}

/// Reads eight bytes from `at`.
fn read_le(buf: &[u8], at: usize) -> (r: u64)
    requires
        at + 8 <= buf@.len(),
    ensures
        r == from_le(buf@.subrange(at as int, at + 8)),
{
    let ghost b = buf@.subrange(at as int, at + 8);
    assert(b[0] == buf@[at as int] && b[1] == buf@[at + 1] && b[2] == buf@[at + 2] && b[3]
        == buf@[at + 3]);
    assert(b[4] == buf@[at + 4] && b[5] == buf@[at + 5] && b[6] == buf@[at + 6] && b[7]
        == buf@[at + 7]);
    (buf[at] as u64) | ((buf[at + 1] as u64) << 8) | ((buf[at + 2] as u64) << 16) | ((buf[at
        + 3] as u64) << 24) | ((buf[at + 4] as u64) << 32) | ((buf[at + 5] as u64) << 40) | ((
    buf[at + 6] as u64) << 48) | ((buf[at + 7] as u64) << 56)
}

impl RingMessage {
    /// The message on the wire.
    pub fn to_bytes(&self) -> (r: Vec<u8>)
        ensures
            r@ == ring_bytes(self.kind, self.ids@),
    {
        let mut buf: Vec<u8> = Vec::new();
        let tag: u8 = match self.kind {
            RingKind::Election => 69,
            RingKind::Ack => 65,
            RingKind::Coordinator => 67,
        };
        buf.push(tag);
        push_le(&mut buf, self.ids.len() as u64);
        let ghost head = buf@;
        let mut i: usize = 0;
        while i < self.ids.len()
            invariant
                i <= self.ids@.len(),
                buf@ == head + ids_bytes(self.ids@.take(i as int)),
            decreases self.ids@.len() - i,
        {
            push_le(&mut buf, self.ids[i]);
            assert(self.ids@.take(i + 1).drop_last() =~= self.ids@.take(i as int));
            i = i + 1;
            assert(buf@ =~= head + ids_bytes(self.ids@.take(i as int)));
        }
        assert(self.ids@.take(self.ids@.len() as int) =~= self.ids@);
        assert(buf@ =~= ring_bytes(self.kind, self.ids@));
        buf
    }

    /// Reads a ring message from the bytes received. Fails with
    /// `CantParseMessage` when the first byte names no kind, the count is
    /// missing, or fewer ids follow than it says; bytes after the ids are
    /// ignored. Bytes that start with a message give that message back.
    pub fn parse_message(buf: &[u8]) -> (r: Result<RingMessage, Error>)
        ensures
            match r {
                Ok(m) => {
                    &&& buf@.len() >= 9 + 8 * m.ids@.len()
                    &&& buf@.subrange(0, 9 + 8 * m.ids@.len() as int) == ring_bytes(m.kind, m.ids@)
                },
                Err(e) => e == Error::CantParseMessage,
            },
            (exists|k: RingKind, ids: Seq<u64>| is_ring_prefix(buf@, k, ids)) ==> r is Ok,
            forall|k: RingKind, ids: Seq<u64>|
                is_ring_prefix(buf@, k, ids) ==> r is Ok && (#[trigger] r->Ok_0.model()) == (k, ids),
    {
        let len = buf.len();
        if len < 9 {
            proof { lemma_ring_bytes_checks(buf@); }
            return Err(Error::CantParseMessage);
        }
        let kind = if buf[0] == 69 {
            RingKind::Election
        } else if buf[0] == 65 {
            RingKind::Ack
        } else if buf[0] == 67 {
            RingKind::Coordinator
        } else {
            proof { lemma_ring_bytes_checks(buf@); }
            return Err(Error::CantParseMessage);
        };
        let count = read_le(buf, 1);
        if count > ((buf.len() - 9) / 8) as u64 {
            proof { lemma_ring_bytes_checks(buf@); }
            return Err(Error::CantParseMessage);
        }
        let count = count as usize;
        proof {
            let l = (buf@.len() - 9) as int;
            assert(8 * count <= l) by (nonlinear_arith)
                requires
                    count <= l / 8,
                    l >= 0,
            ;
        }
        let mut ids: Vec<u64> = Vec::new();
        let mut i: usize = 0;
        let mut at: usize = 9;
        while i < count
            invariant
                9 + 8 * count <= buf@.len(),
                buf@.len() == len,
                i <= count,
                at == 9 + 8 * i,
                ids@.len() == i,
                forall|j: int| 0 <= j < i ==> ids@[j] == from_le(#[trigger] buf@.subrange(9 + 8 * j, 9 + 8 * j + 8)),
            decreases count - i,
        {
            let v = read_le(buf, at);
            ids.push(v);
            i = i + 1;
            at = at + 8;
        }
        proof {
            lemma_ring_bytes_read(buf@, kind, ids@, count as u64);
            assert forall|k: RingKind, xs: Seq<u64>| is_ring_prefix(buf@, k, xs) implies (
                kind,
                ids@,
            ) == (k, xs) by {
                lemma_ring_prefix_fields(buf@, k, xs);
                assert(ids@.len() == xs.len());
                assert forall|j: int| 0 <= j < xs.len() implies ids@[j] == xs[j] by {
                    assert(ids@[j] == from_le(buf@.subrange(9 + 8 * j, 9 + 8 * j + 8)));
                }
                assert(ids@ =~= xs);
            }
        }
        Ok(RingMessage { kind, ids })
    }
}

/// Eight bytes are the bytes of the number they write.
proof fn lemma_le_bytes_from_le(b: Seq<u8>)
    requires
        b.len() == 8,
    ensures
        le_bytes(from_le(b)) == b,
{
    let (b0, b1, b2, b3, b4, b5, b6, b7) = (b[0], b[1], b[2], b[3], b[4], b[5], b[6], b[7]);
    let v = from_le(b);
    assert(v == (b0 as u64) | ((b1 as u64) << 8) | ((b2 as u64) << 16) | ((b3 as u64) << 24) | ((
    b4 as u64) << 32) | ((b5 as u64) << 40) | ((b6 as u64) << 48) | ((b7 as u64) << 56));
    assert((v & 0xff) as u8 == b0) by (bit_vector)
        requires
            v == (b0 as u64) | ((b1 as u64) << 8) | ((b2 as u64) << 16) | ((b3 as u64) << 24) | ((
            b4 as u64) << 32) | ((b5 as u64) << 40) | ((b6 as u64) << 48) | ((b7 as u64) << 56),
    ;
    assert(((v >> 8) & 0xff) as u8 == b1) by (bit_vector)
        requires
            v == (b0 as u64) | ((b1 as u64) << 8) | ((b2 as u64) << 16) | ((b3 as u64) << 24) | ((
            b4 as u64) << 32) | ((b5 as u64) << 40) | ((b6 as u64) << 48) | ((b7 as u64) << 56),
    ;
    assert(((v >> 16) & 0xff) as u8 == b2) by (bit_vector)
        requires
            v == (b0 as u64) | ((b1 as u64) << 8) | ((b2 as u64) << 16) | ((b3 as u64) << 24) | ((
            b4 as u64) << 32) | ((b5 as u64) << 40) | ((b6 as u64) << 48) | ((b7 as u64) << 56),
    ;
    assert(((v >> 24) & 0xff) as u8 == b3) by (bit_vector)
        requires
            v == (b0 as u64) | ((b1 as u64) << 8) | ((b2 as u64) << 16) | ((b3 as u64) << 24) | ((
            b4 as u64) << 32) | ((b5 as u64) << 40) | ((b6 as u64) << 48) | ((b7 as u64) << 56),
    ;
    assert(((v >> 32) & 0xff) as u8 == b4) by (bit_vector)
        requires
            v == (b0 as u64) | ((b1 as u64) << 8) | ((b2 as u64) << 16) | ((b3 as u64) << 24) | ((
            b4 as u64) << 32) | ((b5 as u64) << 40) | ((b6 as u64) << 48) | ((b7 as u64) << 56),
    ;
    assert(((v >> 40) & 0xff) as u8 == b5) by (bit_vector)
        requires
            v == (b0 as u64) | ((b1 as u64) << 8) | ((b2 as u64) << 16) | ((b3 as u64) << 24) | ((
            b4 as u64) << 32) | ((b5 as u64) << 40) | ((b6 as u64) << 48) | ((b7 as u64) << 56),
    ;
    assert(((v >> 48) & 0xff) as u8 == b6) by (bit_vector)
        requires
            v == (b0 as u64) | ((b1 as u64) << 8) | ((b2 as u64) << 16) | ((b3 as u64) << 24) | ((
            b4 as u64) << 32) | ((b5 as u64) << 40) | ((b6 as u64) << 48) | ((b7 as u64) << 56),
    ;
    assert(((v >> 56) & 0xff) as u8 == b7) by (bit_vector)
        requires
            v == (b0 as u64) | ((b1 as u64) << 8) | ((b2 as u64) << 16) | ((b3 as u64) << 24) | ((
            b4 as u64) << 32) | ((b5 as u64) << 40) | ((b6 as u64) << 48) | ((b7 as u64) << 56),
    ;
    assert(le_bytes(v) =~= b);
}

/// Ids read eight bytes at a time from `start` on are those bytes.
proof fn lemma_ids_bytes_of(buf: Seq<u8>, ids: Seq<u64>, start: int)
    requires
        0 <= start,
        buf.len() >= start + 8 * ids.len(),
        forall|j: int|
            0 <= j < ids.len() ==> ids[j] == from_le(
                #[trigger] buf.subrange(start + 8 * j, start + 8 * j + 8),
            ),
    ensures
        ids_bytes(ids) == buf.subrange(start, start + 8 * ids.len()),
    decreases ids.len(),
{
    if ids.len() == 0 {
        assert(buf.subrange(start, start) =~= Seq::<u8>::empty());
    } else {
        let p = ids.drop_last();
        let n = ids.len() - 1;
        assert forall|j: int| 0 <= j < p.len() implies p[j] == from_le(
            #[trigger] buf.subrange(start + 8 * j, start + 8 * j + 8),
        ) by {
            assert(p[j] == ids[j]);
        }
        lemma_ids_bytes_of(buf, p, start);
        assert(ids.last() == from_le(buf.subrange(start + 8 * n, start + 8 * n + 8)));
        lemma_le_bytes_from_le(buf.subrange(start + 8 * n, start + 8 * n + 8));
        assert(buf.subrange(start, start + 8 * ids.len()) =~= buf.subrange(start, start + 8 * n)
            + buf.subrange(start + 8 * n, start + 8 * n + 8));
    }
}

/// Bytes that read as a message of `kind` with `ids` are that message's bytes.
proof fn lemma_ring_bytes_read(buf: Seq<u8>, kind: RingKind, ids: Seq<u64>, count: u64)
    requires
        buf.len() >= 9 + 8 * ids.len(),
        ids.len() == count,
        buf[0] == kind_tag(kind),
        count == from_le(buf.subrange(1, 9)),
        forall|j: int|
            0 <= j < ids.len() ==> ids[j] == from_le(
                #[trigger] buf.subrange(9 + 8 * j, 9 + 8 * j + 8),
            ),
    ensures
        buf.subrange(0, 9 + 8 * ids.len() as int) == ring_bytes(kind, ids),
{
    lemma_ids_bytes_of(buf, ids, 9);
    lemma_le_bytes_from_le(buf.subrange(1, 9));
    assert(buf.subrange(0, 9 + 8 * ids.len() as int) =~= seq![buf[0]] + buf.subrange(1, 9)
        + buf.subrange(9, 9 + 8 * ids.len() as int));
}

/// The shape of the bytes of a ring message with ids.
proof fn lemma_ring_bytes_shape(k: RingKind, ids: Seq<u64>)
    requires
        ids.len() <= u64::MAX,
    ensures
        ring_bytes(k, ids).len() == 9 + 8 * ids.len(),
        ring_bytes(k, ids)[0] == kind_tag(k),
        from_le(ring_bytes(k, ids).subrange(1, 9)) == ids.len(),
        forall|j: int| 0 <= j < ids.len() ==> #[trigger] ring_bytes(k, ids).subrange(9 + 8 * j, 9 + 8 * j + 8) == le_bytes(ids[j]),
        (ring_bytes(k, ids).len() - 9) / 8 == ids.len(),
{
    let b = ring_bytes(k, ids);
    lemma_ids_bytes_len(ids);
    assert(b.subrange(1, 9) =~= le_bytes(ids.len() as u64));
    lemma_from_le_bytes(ids.len() as u64);
    let n = ids.len() as int;
    assert((8 * n) / 8 == n) by (nonlinear_arith);
    assert forall|j: int| 0 <= j < ids.len() implies #[trigger] b.subrange(9 + 8 * j, 9 + 8 * j + 8)
        == le_bytes(ids[j]) by {
        lemma_ids_bytes_at(ids, j);
        assert(b.subrange(9 + 8 * j, 9 + 8 * j + 8) =~= ids_bytes(ids).subrange(8 * j, 8 * j + 8));
    }
}

/// The kind, the count and each id of a message that starts `buf`.
proof fn lemma_ring_prefix_fields(buf: Seq<u8>, k: RingKind, ids: Seq<u64>)
    requires
        is_ring_prefix(buf, k, ids),
        buf.len() <= usize::MAX,
    ensures
        buf[0] == kind_tag(k),
        from_le(buf.subrange(1, 9)) == ids.len(),
        forall|j: int|
            0 <= j < ids.len() ==> from_le(#[trigger] buf.subrange(9 + 8 * j, 9 + 8 * j + 8))
                == ids[j],
{
    let n = ids.len() as int;
    let b = ring_bytes(k, ids);
    let p = buf.subrange(0, 9 + 8 * n);
    lemma_ids_bytes_len(ids);
    lemma_ring_bytes_shape(k, ids);
    assert(buf[0] == p[0]);
    assert(buf.subrange(1, 9) =~= p.subrange(1, 9));
    assert forall|j: int| 0 <= j < ids.len() implies from_le(
        #[trigger] buf.subrange(9 + 8 * j, 9 + 8 * j + 8),
    ) == ids[j] by {
        assert(buf.subrange(9 + 8 * j, 9 + 8 * j + 8) =~= b.subrange(9 + 8 * j, 9 + 8 * j + 8));
        assert(b.subrange(9 + 8 * j, 9 + 8 * j + 8) == le_bytes(ids[j]));
        lemma_from_le_bytes(ids[j]);
    }
}

/// Id `i` stands at bytes `8 * i .. 8 * i + 8`.
proof fn lemma_ids_bytes_at(ids: Seq<u64>, i: int)
    requires
        0 <= i < ids.len(),
    ensures
        ids_bytes(ids).subrange(8 * i, 8 * i + 8) == le_bytes(ids[i]),
    decreases ids.len(),
{
    lemma_ids_bytes_len(ids.drop_last());
    if i < ids.len() - 1 {
        lemma_ids_bytes_at(ids.drop_last(), i);
        assert(ids_bytes(ids).subrange(8 * i, 8 * i + 8) =~= ids_bytes(ids.drop_last()).subrange(
            8 * i,
            8 * i + 8,
        ));
    } else {
        assert(ids_bytes(ids).subrange(8 * i, 8 * i + 8) =~= le_bytes(ids.last()));
    }
}

/// Whether `buf` starts with the bytes of a ring message of `k` with the
/// ids `ids`.
pub open spec fn is_ring_prefix(buf: Seq<u8>, k: RingKind, ids: Seq<u64>) -> bool {
    &&& 9 + 8 * ids.len() <= buf.len()
    &&& buf.subrange(0, 9 + 8 * ids.len() as int) == ring_bytes(k, ids)
}

/// Bytes that start with a ring message with ids pass the checks of `parse_message`.
proof fn lemma_ring_bytes_checks(buf: Seq<u8>)
    requires
        buf.len() <= usize::MAX,
    ensures
        (exists|k: RingKind, ids: Seq<u64>| is_ring_prefix(buf, k, ids)) ==> {
            &&& buf.len() >= 9
            &&& (buf[0] == 69 || buf[0] == 65 || buf[0] == 67)
            &&& from_le(buf.subrange(1, 9)) <= (buf.len() - 9) / 8
        },
{
    if exists|k: RingKind, ids: Seq<u64>| is_ring_prefix(buf, k, ids) {
        let (k, ids) = choose|k: RingKind, ids: Seq<u64>| is_ring_prefix(buf, k, ids);
        let n = ids.len() as int;
        let b = ring_bytes(k, ids);
        lemma_ring_bytes_shape(k, ids);
        assert(buf[0] == b[0]);
        assert(buf.subrange(1, 9) =~= b.subrange(1, 9));
        let l = buf.len() - 9;
        assert(n <= l / 8) by (nonlinear_arith)
            requires
                8 * n <= l,
                n >= 0,
        ;
    }
}

} // verus!
