use std::collections::VecDeque;
use vstd::prelude::*;
use vstd::string::*;

use crate::action::Action;
use crate::message_parser::{decode, encode, encode_spec, MessageParser};
use crate::payment_method::Method;
use crate::points_handler::PointsHandler;

verus! {

/// What a shop node holds, seen as values: the ledger, the live and the
/// quarantine logs, the availability flags, the messages held back while the
/// node replays what it missed, and the quarantine lines it has sent to the
/// leader and expects back from it.
pub struct ShopView {
    pub ledger: Map<u32, (i32, bool)>,
    pub live: Seq<String>,
    pub quarantine: Seq<String>,
    pub down: bool,
    pub sync: bool,
    pub queue: Seq<(String, Action)>,
    pub flushed: Seq<String>,
}

/// What taking one message gives, besides the new view.
pub struct Outcome {
    pub view: ShopView,
    /// Messages for the sender, in order.
    pub replies: Seq<Seq<char>>,
    /// The updates applied, in order, as their messages.
    pub updates: Seq<String>,
    /// The answers due to this shop's own coffee machine.
    pub answers: Seq<Seq<char>>,
}

pub open spec fn entry_in(ledger: Map<u32, (i32, bool)>, c: u32) -> (i32, bool) {
    if ledger.contains_key(c) {
        ledger[c]
    } else {
        (0, false)
    }
}

pub open spec fn ack() -> Seq<char> {
    "ACK"@
}

pub open spec fn texts(lines: Seq<String>) -> Seq<Seq<char>> {
    lines.map_values(|l: String| l@)
}

/// The view with `message` appended to the log that the availability selects.
pub open spec fn logged(v: ShopView, message: String) -> ShopView {
    if v.down {
        ShopView { quarantine: v.quarantine.push(message), ..v }
    } else {
        ShopView { live: v.live.push(message), ..v }
    }
}

pub open spec fn with_ledger(v: ShopView, ledger: Map<u32, (i32, bool)>) -> ShopView {
    ShopView { ledger, ..v }
}

/// Blocking a customer: refused when already blocked.
pub open spec fn block_spec(ledger: Map<u32, (i32, bool)>, c: u32) -> (Map<u32, (i32, bool)>, Seq<char>) {
    if entry_in(ledger, c).1 {
        (ledger, encode_spec(Action::ClientAlreadyBlocked(c)))
    } else {
        (ledger.insert(c, (entry_in(ledger, c).0, true)), ack())
    }
}

pub open spec fn unblock_spec(ledger: Map<u32, (i32, bool)>, c: u32) -> Map<u32, (i32, bool)> {
    ledger.insert(c, (entry_in(ledger, c).0, false))
}

/// The balance after a cash order of `price`: its price in points is
/// credited, as far as an `i32` holds.
pub open spec fn credited(balance: int, price: u32) -> int {
    if balance + price <= i32::MAX {
        balance + price
    } else {
        i32::MAX as int
    }
}

/// Settling an order, and the customer is unblocked either way. A cash order
/// earns its price in points; an order paid with points costs its price, and
/// is refused with `notEnough` when the balance is below it.
pub open spec fn settle_spec(ledger: Map<u32, (i32, bool)>, c: u32, price: u32, method: Method) -> (
    Map<u32, (i32, bool)>,
    Seq<char>,
) {
    let b = entry_in(ledger, c).0 as int;
    match method {
        Method::Cash => (ledger.insert(c, (credited(b, price) as i32, false)), ack()),
        Method::Points => if b >= price {
            (ledger.insert(c, ((b - price) as i32, false)), ack())
        } else {
            (unblock_spec(ledger, c), encode_spec(Action::NotEnoughPoints(c)))
        },
    }
}

/// The live log from line `lines` on, framed by `SYNCSTART` and `SYNCEND`.
pub open spec fn replay_spec(live: Seq<String>, lines: u32) -> Seq<Seq<char>> {
    let rest = if lines <= live.len() {
        live.skip(lines as int)
    } else {
        Seq::empty()
    };
    seq!["SYNCSTART"@] + texts(rest) + seq!["SYNCEND"@]
}

/// Whether an action changes the ledger.
pub open spec fn is_update(act: Action) -> bool {
    act is Block || act is CompleteOrder || act is FailOrder
}

/// Whether `message` is an update that is the next quarantine line this node
/// sent on to the leader, which it has already applied.
pub open spec fn is_echo(v: ShopView, message: Seq<char>) -> bool {
    &&& decode(message) is Ok
    &&& is_update(decode(message)->Ok_0)
    &&& v.flushed.len() > 0
    &&& v.flushed[0]@ == message
}

/// A follower gets back from the leader a quarantine line it sent on: the
/// line is logged and acknowledged, and not applied again.
pub open spec fn echo_spec(v: ShopView, message: String) -> ShopView {
    ShopView { flushed: v.flushed.drop_first(), ..logged(v, message) }
}

/// Applying one action, whose text is `message`: the new view and the
/// messages for the sender. Updates are logged to the live log, or to the
/// quarantine log while the node is down.
pub open spec fn process_spec(v: ShopView, message: String, act: Action) -> (ShopView, Seq<Seq<char>>) {
    match act {
            Action::Block(c, _) => {
                let (l, r) = block_spec(v.ledger, c);
                (with_ledger(logged(v, message), l), seq![r])
            },
            Action::CompleteOrder(c, price, method, _) => {
                let (l, r) = settle_spec(v.ledger, c, price, method);
                (with_ledger(logged(v, message), l), seq![r])
            },
            Action::FailOrder(c, _) => (
                with_ledger(logged(v, message), unblock_spec(v.ledger, c)),
                seq![ack()],
            ),
            Action::Try => (v, seq![ack()]),
            Action::Sync(lines) => (v, replay_spec(v.live, lines)),
            _ => (v, Seq::empty()),
        }
}

/// The shop whose coffee machine waits for the answer to an update.
pub open spec fn origin_shop(act: Action) -> Option<u32> {
    match act {
        Action::Block(_, s) => Some(s),
        Action::CompleteOrder(_, _, _, s) => Some(s),
        Action::FailOrder(_, s) => Some(s),
        _ => None,
    }
}

/// The answer for the coffee machine of `shop`, when the update is its own.
pub open spec fn answer_of(act: Action, shop: u32, replies: Seq<Seq<char>>) -> Seq<Seq<char>> {
    if origin_shop(act) == Some(shop) {
        seq![replies[0]]
    } else {
        Seq::empty()
    }
}

pub open spec fn updates_of(act: Action, message: String) -> Seq<String> {
    if is_update(act) {
        seq![message]
    } else {
        Seq::empty()
    }
}

/// Applying the held-back messages in the order they came, through the
/// ordinary processing: the view, the updates applied, and the answers due
/// to the coffee machine of `shop`.
pub open spec fn drain_spec(v: ShopView, q: Seq<(String, Action)>, shop: u32) -> (
    ShopView,
    Seq<String>,
    Seq<Seq<char>>,
)
    decreases q.len(),
{
    if q.len() == 0 {
        (v, Seq::empty(), Seq::empty())
    } else {
        let (w, ups, ans) = drain_spec(v, q.drop_last(), shop);
        let (m, a) = q.last();
        let (w2, rs) = process_spec(w, m, a);
        (w2, ups + updates_of(a, m), ans + answer_of(a, shop, rs))
    }
}

/// A node takes a message. While it replays, it applies nothing: it holds
/// each action back and acknowledges it at once, and `SYNCEND` applies what
/// it held back, in order.
pub open spec fn receive_spec(v: ShopView, message: String, shop: u32) -> Outcome {
    match decode(message@) {
        Err(_) => Outcome { view: v, replies: Seq::empty(), updates: Seq::empty(), answers: Seq::empty() },
        Ok(act) => if v.sync {
            match act {
                Action::SyncStart => Outcome {
                    view: v,
                    replies: Seq::empty(),
                    updates: Seq::empty(),
                    answers: Seq::empty(),
                },
                Action::SyncEnd => {
                    let (w, ups, ans) = drain_spec(v, v.queue, shop);
                    Outcome {
                        view: ShopView { sync: false, queue: Seq::empty(), ..w },
                        replies: Seq::empty(),
                        updates: ups,
                        answers: ans,
                    }
                },
                _ => Outcome {
                    view: ShopView { queue: v.queue.push((message, act)), ..v },
                    replies: seq![ack()],
                    updates: Seq::empty(),
                    answers: Seq::empty(),
                },
            }
        } else {
            let (w, rs) = process_spec(v, message, act);
            Outcome {
                view: w,
                replies: rs,
                updates: updates_of(act, message),
                answers: answer_of(act, shop, rs),
            }
        },
    }
}

/// What a node does after taking one message.
pub struct NodeStep {
    /// Messages for the sender, in order.
    pub replies: Vec<String>,
    /// Messages for every other shop, in order.
    pub rebroadcast: Vec<String>,
    /// Whether the message goes to the leader, unchanged.
    pub forward_to_leader: bool,
    /// Messages for this shop's coffee machine.
    pub to_coffee_machine: Vec<String>,
    /// `Up` or `Down` when the message flipped the node's availability: the
    /// election subsystem is then to be paused, or the node to resynchronize.
    pub availability: Option<Action>,
}

/// What taking one message gives: the messages for the sender, the updates
/// applied and the answers due to the own coffee machine.
pub struct Response {
    pub replies: Vec<String>,
    pub updates: Vec<String>,
    pub answers: Vec<String>,
}

/// What a node that comes back up sends.
pub struct Resync {
    /// `SYNC <watermark>` for the leader, when this node is not the leader.
    pub sync_request: Option<String>,
    /// The actions applied while down.
    pub down_log: Vec<String>,
    /// Whether `down_log` goes to every other shop (this node leads) or to
    /// the leader only.
    pub to_all_peers: bool,
}

/// The logic of one shop node, without its sockets and files.
pub struct Server {
    pub shop_id: u32,
    pub shops_amount: u32,
    pub points_handler: PointsHandler,
    pub down: bool,
    pub sync: bool,
    pub msg_queue: VecDeque<(String, Action)>,
    /// Live log: one line per action applied while up.
    pub log: Vec<String>,
    /// Quarantine log: one line per action applied while down.
    pub log_down: Vec<String>,
    /// Quarantine lines sent to the leader, that it will hand back.
    pub flushed: Vec<String>,
}

pub open spec fn step_is_quiet(s: NodeStep) -> bool {
    &&& s.replies@.len() == 0
    &&& s.rebroadcast@.len() == 0
    &&& !s.forward_to_leader
    &&& s.to_coffee_machine@.len() == 0
    &&& s.availability is None
}

pub open spec fn response_is(r: Response, o: Outcome) -> bool {
    &&& texts(r.replies@) == o.replies
    &&& r.updates@ == o.updates
    &&& texts(r.answers@) == o.answers
}

impl Server {
    pub open spec fn view(&self) -> ShopView {
        ShopView {
            ledger: self.points_handler.points@,
            live: self.log@,
            quarantine: self.log_down@,
            down: self.down,
            sync: self.sync,
            queue: self.msg_queue@,
            flushed: self.flushed@,
        }
    }

    pub open spec fn wf(&self) -> bool {
        &&& self.points_handler.wf()
        &&& self.shop_id < self.shops_amount
    }

    pub open spec fn same_shop(&self, other: &Server) -> bool {
        self.shop_id == other.shop_id && self.shops_amount == other.shops_amount
    }

    /// The node starts up, with empty ledger and logs.
    pub fn new(shop_id: u32, shops_amount: u32) -> (r: Server)
        requires
            shop_id < shops_amount,
        ensures
            r.wf(),
            r.shop_id == shop_id,
            r.shops_amount == shops_amount,
            r.view() == (ShopView {
                ledger: Map::empty(),
                live: Seq::empty(),
                quarantine: Seq::empty(),
                down: false,
                sync: false,
                queue: Seq::empty(),
                flushed: Seq::empty(),
            }),
    {
        let r = Server {
            shop_id,
            shops_amount,
            points_handler: PointsHandler::new(),
            down: false,
            sync: false,
            msg_queue: VecDeque::new(),
            log: Vec::new(),
            log_down: Vec::new(),
            flushed: Vec::new(),
        };
        assert(r.view().live =~= Seq::<String>::empty());
        assert(r.view().flushed =~= Seq::<String>::empty());
        r
    }

    /// Blocks the customer; answers `ACK`, or `alreadyBlocked <id>`.
    pub fn block_client(&mut self, client_id: u32) -> (r: String)
        requires
            old(self).wf(),
        ensures
            final(self).wf(),
            final(self).same_shop(old(self)),
            final(self).view() == with_ledger(
                old(self).view(),
                block_spec(old(self).view().ledger, client_id).0,
            ),
            r@ == block_spec(old(self).view().ledger, client_id).1,
    {
        match self.points_handler.block(client_id) {
            Ok(_) => String::from_str("ACK"),
            Err(_) => encode(&Action::ClientAlreadyBlocked(client_id)),
        }
    }

    /// Changes the customer's balance by the price of an order: credits it
    /// for cash, as far as an `i32` holds, and debits it for points when the
    /// balance covers it. Tells whether the order is paid.
    fn update_points(&mut self, client_id: u32, price: u32, method: Method) -> (r: bool)
        requires
            old(self).wf(),
        ensures
            final(self).wf(),
            final(self).same_shop(old(self)),
            ({
                let b = old(self).points_handler.balance(client_id);
                let blocked = old(self).points_handler.is_blocked(client_id);
                let l = old(self).points_handler.points@;
                match method {
                    Method::Cash => r && final(self).points_handler.points@ == l.insert(
                        client_id,
                        (credited(b, price) as i32, blocked),
                    ),
                    Method::Points => if b >= price {
                        r && final(self).points_handler.points@ == l.insert(
                            client_id,
                            ((b - price) as i32, blocked),
                        )
                    } else {
                        !r && final(self).points_handler.points@ == l
                    },
                }
            }),
            final(self).view() == with_ledger(old(self).view(), final(self).points_handler.points@),
    {
        let (balance, _) = self.points_handler.current(client_id);
        match method {
            Method::Cash => {
                let room: i32 = i32::MAX - balance;
                let credit: i32 = if price as i64 > room as i64 {
                    room
                } else {
                    price as i32
                };
                let _ = self.points_handler.update_points(client_id, credit);
                true
            },
            Method::Points => {
                if price as i64 > balance as i64 {
                    false
                } else {
                    let _ = self.points_handler.update_points(client_id, -(price as i32));
                    true
                }
            },
        }
    }

    /// Settles an order and unblocks the customer; answers `ACK`, or
    /// `notEnough <id>` when points cannot pay it.
    fn complete_order(&mut self, client_id: u32, price: u32, method: Method) -> (r: String)
        requires
            old(self).wf(),
        ensures
            final(self).wf(),
            final(self).same_shop(old(self)),
            final(self).view() == with_ledger(
                old(self).view(),
                settle_spec(old(self).view().ledger, client_id, price, method).0,
            ),
            r@ == settle_spec(old(self).view().ledger, client_id, price, method).1,
    {
        let paid = self.update_points(client_id, price, method);
        self.points_handler.unblock(client_id);
        let ghost l = old(self).view().ledger;
        assert(self.view().ledger =~= settle_spec(l, client_id, price, method).0);
        if paid {
            String::from_str("ACK")
        } else {
            encode(&Action::NotEnoughPoints(client_id))
        }
    }

    /// Appends a line to the log that the node's availability selects.
    fn write_any_log(&mut self, message: String)
        ensures
            final(self).view() == logged(old(self).view(), message),
            final(self).points_handler == old(self).points_handler,
            final(self).same_shop(old(self)),
    {
        if !self.down {
            self.write_log(message);
        } else {
            self.write_down_log(message);
        }
    }

    fn write_log(&mut self, message: String)
        ensures
            final(self).view() == (ShopView { live: old(self).view().live.push(message), ..old(self).view() }),
            final(self).points_handler == old(self).points_handler,
            final(self).same_shop(old(self)),
    {
        self.log.push(message);
    }

    fn write_down_log(&mut self, message: String)
        ensures
            final(self).view() == (ShopView {
                quarantine: old(self).view().quarantine.push(message),
                ..old(self).view()
            }),
            final(self).points_handler == old(self).points_handler,
            final(self).same_shop(old(self)),
    {
        self.log_down.push(message);
    }

    /// The answer to `SYNC <lines>`: `SYNCSTART`, the live log from that
    /// line on, and `SYNCEND`.
    pub fn send_sync(&self, lines: u32) -> (r: Vec<String>)
        ensures
            texts(r@) == replay_spec(self.log@, lines),
    {
        let mut r: Vec<String> = Vec::new();
        r.push(String::from_str("SYNCSTART"));
        let ghost rest = if lines as int <= self.log@.len() {
            self.log@.skip(lines as int)
        } else {
            Seq::<String>::empty()
        };
        let mut i: usize = lines as usize;
        if i > self.log.len() {
            i = self.log.len();
        }
        let start = i;
        assert(rest =~= self.log@.subrange(start as int, self.log@.len() as int));
        while i < self.log.len()
            invariant
                start <= i <= self.log@.len(),
                rest =~= self.log@.subrange(start as int, self.log@.len() as int),
                texts(r@) =~= seq!["SYNCSTART"@] + texts(self.log@.subrange(start as int, i as int)),
            decreases self.log@.len() - i,
        {
            let line = self.log[i].clone();
            let ghost r_old = r@;
            let ghost sub = self.log@.subrange(start as int, i as int);
            r.push(line);
            assert(texts(r@) =~= texts(r_old).push(self.log@[i as int]@));
            assert(self.log@.subrange(start as int, i + 1) =~= sub.push(self.log@[i as int]));
            assert(texts(sub.push(self.log@[i as int])) =~= texts(sub).push(self.log@[i as int]@));
            i = i + 1;
        }
        r.push(String::from_str("SYNCEND"));
        assert(texts(r@) =~= replay_spec(self.log@, lines));
        r
    }


    /// Whether `message` is the echo of the next quarantine line sent on.
    fn is_echo_of(&self, message: &String) -> (r: bool)
        ensures
            r == is_echo(self.view(), message@),
    {
        update_in(message) && self.flushed.len() > 0 && self.flushed[0] == *message
    }

    /// Applies one action, whose text is `message`, and gives the messages
    /// for its sender.
    pub fn process_action(&mut self, message: String, act: Action) -> (r: Vec<String>)
        requires
            old(self).wf(),
        ensures
            final(self).wf(),
            final(self).same_shop(old(self)),
            final(self).view() == process_spec(old(self).view(), message, act).0,
            texts(r@) == process_spec(old(self).view(), message, act).1,
    {
        let mut r: Vec<String> = Vec::new();
        match act {
            Action::Block(client_id, _) => {
                self.write_any_log(message);
                let msg = self.block_client(client_id);
                r.push(msg);
            },
            Action::CompleteOrder(client_id, price, method, _) => {
                self.write_any_log(message);
                let msg = self.complete_order(client_id, price, method);
                r.push(msg);
            },
            Action::FailOrder(client_id, _) => {
                self.write_any_log(message);
                self.points_handler.unblock(client_id);
                r.push(String::from_str("ACK"));
            },
            Action::Try => r.push(String::from_str("ACK")),
            Action::Sync(lines) => r = self.send_sync(lines),
            _ => {},
        }
        proof {
            let ghost v = process_spec(old(self).view(), message, act);
            assert(texts(r@) =~= v.1);
        }
        r
    }

    /// Takes a message from a coffee machine or a peer: applies it, or holds
    /// it back while the node replays, and gives the messages for its sender,
    /// the updates applied and the answers due to this shop's coffee machine.
    pub fn respond(&mut self, message: String) -> (r: Response)
        requires
            old(self).wf(),
        ensures
            final(self).wf(),
            final(self).same_shop(old(self)),
            final(self).view() == receive_spec(old(self).view(), message, old(self).shop_id).view,
            response_is(r, receive_spec(old(self).view(), message, old(self).shop_id)),
    {
        let act = match MessageParser::parse(message.clone()) {
            Ok(m) => m,
            Err(_) => return empty_response(),
        };
        if self.sync {
            match act {
                Action::SyncStart => empty_response(),
                Action::SyncEnd => {
                    let (updates, answers) = self.drain_queue();
                    self.sync = false;
                    let r = Response { replies: Vec::new(), updates, answers };
                    assert(texts(r.replies@) =~= Seq::<Seq<char>>::empty());
                    assert(self.view() == receive_spec(old(self).view(), message, old(self).shop_id).view);
                    r
                },
                _ => {
                    self.msg_queue.push_back((message, act));
                    let mut replies: Vec<String> = Vec::new();
                    replies.push(String::from_str("ACK"));
                    let r = Response { replies, updates: Vec::new(), answers: Vec::new() };
                    assert(texts(r.replies@) =~= seq![ack()]);
                    assert(texts(r.answers@) =~= Seq::<Seq<char>>::empty());
                    r
                },
            }
        } else {
            let update = is_update_action(&act);
            let own = own_update(&act, self.shop_id);
            let kept = message.clone();
            let ghost a = act;
            let replies = self.process_action(message, act);
            let mut updates: Vec<String> = Vec::new();
            if update {
                updates.push(kept);
            }
            let mut answers: Vec<String> = Vec::new();
            proof {
                assert(texts(replies@).len() == replies@.len());
            }
            if own {
                answers.push(replies[0].clone());
            }
            let r = Response { replies, updates, answers };
            proof {
                assert(r.updates@ =~= updates_of(a, message));
                assert(texts(r.answers@) =~= answer_of(a, old(self).shop_id, texts(r.replies@)));
            }
            r
        }
    }

    /// Applies the held-back messages in the order they came, and empties
    /// the queue; gives the updates applied and the answers due to this
    /// shop's coffee machine.
    fn drain_queue(&mut self) -> (r: (Vec<String>, Vec<String>))
        requires
            old(self).wf(),
        ensures
            final(self).wf(),
            final(self).same_shop(old(self)),
            final(self).view() == (ShopView {
                queue: Seq::empty(),
                ..drain_spec(old(self).view(), old(self).view().queue, old(self).shop_id).0
            }),
            r.0@ == drain_spec(old(self).view(), old(self).view().queue, old(self).shop_id).1,
            texts(r.1@) == drain_spec(old(self).view(), old(self).view().queue, old(self).shop_id).2,
    {
        let ghost q = self.msg_queue@;
        let ghost v0 = self.view();
        let ghost shop = self.shop_id;
        let ghost mut done: nat = 0;
        let mut updates: Vec<String> = Vec::new();
        let mut answers: Vec<String> = Vec::new();
        assert(texts(answers@) =~= Seq::<Seq<char>>::empty());
        while self.msg_queue.len() > 0
            invariant
                self.wf(),
                self.same_shop(old(self)),
                shop == self.shop_id,
                done <= q.len(),
                self.msg_queue@ == q.skip(done as int),
                self.view() == (ShopView {
                    queue: self.msg_queue@,
                    ..drain_spec(v0, q.take(done as int), shop).0
                }),
                updates@ == drain_spec(v0, q.take(done as int), shop).1,
                texts(answers@) == drain_spec(v0, q.take(done as int), shop).2,
            decreases self.msg_queue@.len(),
        {
            if let Some((message, action)) = self.msg_queue.pop_front() {
                assert(q.take(done + 1 as int).drop_last() =~= q.take(done as int));
                assert(q.skip(done as int)[0] == q[done as int]);
                assert(q.take(done + 1 as int).last() == q[done as int]);
                let ghost a = action;
                let ghost m = message;
                let ghost ans_old = answers@;
                let ghost ups_old = updates@;
                let update = is_update_action(&action);
                let own = own_update(&action, self.shop_id);
                let kept = message.clone();
                let replies = self.process_action(message, action);
                if update {
                    updates.push(kept);
                }
                proof {
                    assert(texts(replies@).len() == replies@.len());
                }
                if own {
                    answers.push(replies[0].clone());
                }
                proof {
                    assert(updates@ =~= ups_old + updates_of(a, m));
                    assert(texts(answers@) =~= texts(ans_old) + answer_of(a, shop, texts(replies@)));
                    done = done + 1;
                }
                assert(self.msg_queue@ =~= q.skip(done as int));
            }
        }
        assert(q.skip(done as int).len() == 0);
        assert(q.take(done as int) =~= q);
        assert(self.msg_queue@ =~= Seq::<(String, Action)>::empty());
        (updates, answers)
    }

    /// Takes `UP` or `DOWN`: `DOWN` marks the node down, `UP` starts the
    /// replay. Gives the action taken, or `None` for any other message.
    pub fn handle_extra_messages(&mut self, message: &String) -> (r: Option<Action>)
        ensures
            decode(message@) == Ok::<Action, crate::errors::Error>(Action::Down) ==> r == Some(
                Action::Down,
            ) && final(self).view() == (ShopView {
                down: true,
                flushed: Seq::empty(),
                ..old(self).view()
            }),
            decode(message@) == Ok::<Action, crate::errors::Error>(Action::Up) ==> r == Some(
                Action::Up,
            ) && final(self).view() == (ShopView { sync: true, ..old(self).view() }),
            !is_availability(message@) ==> r is None && final(self).view() == old(self).view(),
            final(self).points_handler == old(self).points_handler,
            final(self).same_shop(old(self)),
    {
        match MessageParser::parse(message.clone()) {
            Ok(Action::Up) => {
                self.sync = true;
                Some(Action::Up)
            },
            Ok(Action::Down) => {
                self.down = true;
                self.flushed = Vec::new();
                assert(self.flushed@ =~= Seq::<String>::empty());
                Some(Action::Down)
            },
            _ => None,
        }
    }

    /// Number of lines of the live log, the point from which a replay starts.
    pub fn watermark(&self) -> (r: u32)
        ensures
            r == if self.log@.len() <= u32::MAX {
                self.log@.len() as u32
            } else {
                u32::MAX
            },
    {
        if self.log.len() <= u32::MAX as usize {
            self.log.len() as u32
        } else {
            u32::MAX
        }
    }


    /// Comes back up: the node is no longer down and hands out its quarantine
    /// log, which it empties so that it is sent on once only. A node that
    /// leads sends it to every other shop and keeps its own watermark, so its
    /// replay ends at once. Otherwise the node asks the leader for the live
    /// log from its watermark on, sends the quarantine lines to the leader,
    /// and remembers them, so that it does not apply them again when the
    /// leader hands them back.
    pub fn begin_resync(&mut self, leader: bool) -> (r: Resync)
        ensures
            r.down_log@ == old(self).log_down@,
            r.to_all_peers == leader,
            leader ==> r.sync_request is None && final(self).view() == (ShopView {
                down: false,
                sync: false,
                quarantine: Seq::empty(),
                flushed: Seq::empty(),
                ..old(self).view()
            }),
            !leader ==> r.sync_request is Some && r.sync_request->0@ == encode_spec(
                Action::Sync(
                    if old(self).log@.len() <= u32::MAX {
                        old(self).log@.len() as u32
                    } else {
                        u32::MAX
                    },
                ),
            ) && final(self).view() == (ShopView {
                down: false,
                quarantine: Seq::empty(),
                flushed: old(self).flushed@ + old(self).log_down@,
                ..old(self).view()
            }),
            final(self).points_handler == old(self).points_handler,
            final(self).same_shop(old(self)),
    {
        let w = self.watermark();
        let mut down_log: Vec<String> = Vec::new();
        core::mem::swap(&mut down_log, &mut self.log_down);
        self.down = false;
        assert(self.log_down@ =~= Seq::<String>::empty());
        if leader {
            self.sync = false;
            self.flushed = Vec::new();
            assert(self.flushed@ =~= Seq::<String>::empty());
            return Resync { sync_request: None, down_log, to_all_peers: true };
        }
        let ghost start = self.flushed@;
        let mut i: usize = 0;
        while i < down_log.len()
            invariant
                i <= down_log@.len(),
                self.flushed@ == start + down_log@.take(i as int),
                self.log_down@ == Seq::<String>::empty(),
                self.log == old(self).log,
                self.points_handler == old(self).points_handler,
                self.same_shop(old(self)),
                self.down == false,
                self.sync == old(self).sync,
                self.msg_queue == old(self).msg_queue,
            decreases down_log@.len() - i,
        {
            let line = down_log[i].clone();
            self.flushed.push(line);
            assert(down_log@.take(i + 1) =~= down_log@.take(i as int).push(down_log@[i as int]));
            i = i + 1;
        }
        assert(down_log@.take(i as int) =~= down_log@);
        let sync_request = encode(&Action::Sync(w));
        Resync { sync_request: Some(sync_request), down_log, to_all_peers: false }
    }

    /// A message reaches the node on its coffee-machine socket. `UP` and
    /// `DOWN` flip the availability. A leader, a node that is down and a node
    /// that replays take anything else themselves (a replaying node holds it
    /// back and acknowledges it); a leader that is up has the updates applied
    /// sent on to the other shops, and expects no quarantine line back. A
    /// follower that is up and not replaying hands the message to the leader.
    pub fn on_coffee_machine_message(&mut self, message: String, leader: bool) -> (r: NodeStep)
        requires
            old(self).wf(),
        ensures
            final(self).wf(),
            final(self).same_shop(old(self)),
            is_availability(message@) ==> {
                &&& r.availability == decode(message@).ok()
                &&& r.replies@.len() == 0 && r.rebroadcast@.len() == 0 && !r.forward_to_leader
                &&& r.to_coffee_machine@.len() == 0
                &&& final(self).view() == if decode(message@) == Ok::<Action, crate::errors::Error>(
                    Action::Down,
                ) {
                    ShopView { down: true, flushed: Seq::empty(), ..old(self).view() }
                } else {
                    ShopView { sync: true, ..old(self).view() }
                }
            },
            !is_availability(message@) && (leader || old(self).down || old(self).sync) ==> {
                let o = receive_spec(old(self).view(), message, old(self).shop_id);
                &&& final(self).view() == if leader {
                    ShopView { flushed: Seq::empty(), ..o.view }
                } else {
                    o.view
                }
                &&& texts(r.replies@) == o.replies
                &&& r.rebroadcast@ == if leader && !old(self).down {
                    o.updates
                } else {
                    Seq::empty()
                }
                &&& texts(r.to_coffee_machine@) == if is_update_text(message@) {
                    Seq::empty()
                } else {
                    o.answers
                }
                &&& !r.forward_to_leader && r.availability is None
            },
            !is_availability(message@) && !leader && !old(self).down && !old(self).sync ==> {
                &&& final(self).view() == old(self).view()
                &&& r.forward_to_leader
                &&& r.replies@.len() == 0 && r.rebroadcast@.len() == 0
                &&& r.to_coffee_machine@.len() == 0 && r.availability is None
            },
    {
        let availability = self.handle_extra_messages(&message);
        if availability.is_some() {
            return NodeStep {
                replies: Vec::new(),
                rebroadcast: Vec::new(),
                forward_to_leader: false,
                to_coffee_machine: Vec::new(),
                availability,
            };
        }
        if !leader && !self.down && !self.sync {
            return NodeStep {
                replies: Vec::new(),
                rebroadcast: Vec::new(),
                forward_to_leader: true,
                to_coffee_machine: Vec::new(),
                availability: None,
            };
        }
        let update = update_in(&message);
        let down = self.down;
        let o = self.respond(message);
        if leader {
            self.forget_flushed();
        }
        let rebroadcast = if leader && !down {
            o.updates
        } else {
            Vec::new()
        };
        let to_coffee_machine = if update {
            Vec::new()
        } else {
            o.answers
        };
        NodeStep {
            replies: o.replies,
            rebroadcast,
            forward_to_leader: false,
            to_coffee_machine,
            availability: None,
        }
    }

    /// A message reaches the node on its peer socket. A node that is down
    /// drops it. A follower that gets back the next quarantine line it sent
    /// on only logs and acknowledges it, having applied it already. Otherwise
    /// the node takes the message (holding it back while it replays), answers
    /// its own coffee machine for its own orders, and, when it leads, has the
    /// updates applied sent on to the other shops and expects no quarantine
    /// line back.
    pub fn on_peer_message(&mut self, message: String, leader: bool) -> (r: NodeStep)
        requires
            old(self).wf(),
        ensures
            final(self).wf(),
            final(self).same_shop(old(self)),
            old(self).down ==> step_is_quiet(r) && final(self).view() == old(self).view(),
            !old(self).down && !leader && is_echo(old(self).view(), message@) ==> {
                &&& final(self).view() == echo_spec(old(self).view(), message)
                &&& texts(r.replies@) == seq![ack()]
                &&& r.rebroadcast@.len() == 0 && r.to_coffee_machine@.len() == 0
                &&& !r.forward_to_leader && r.availability is None
            },
            !old(self).down && (leader || !is_echo(old(self).view(), message@)) ==> {
                let o = receive_spec(old(self).view(), message, old(self).shop_id);
                &&& final(self).view() == if leader {
                    ShopView { flushed: Seq::empty(), ..o.view }
                } else {
                    o.view
                }
                &&& texts(r.replies@) == o.replies
                &&& r.rebroadcast@ == if leader {
                    o.updates
                } else {
                    Seq::empty()
                }
                &&& texts(r.to_coffee_machine@) == o.answers
                &&& !r.forward_to_leader && r.availability is None
            },
    {
        if self.down {
            return quiet_step();
        }
        if !leader && self.is_echo_of(&message) {
            self.flushed.remove(0);
            self.write_any_log(message);
            let mut replies: Vec<String> = Vec::new();
            replies.push(String::from_str("ACK"));
            let r = NodeStep {
                replies,
                rebroadcast: Vec::new(),
                forward_to_leader: false,
                to_coffee_machine: Vec::new(),
                availability: None,
            };
            proof {
                assert(old(self).flushed@.remove(0) =~= old(self).flushed@.drop_first());
                assert(self.view() =~= echo_spec(old(self).view(), message));
                assert(texts(r.replies@) =~= seq![ack()]);
            }
            return r;
        }
        let o = self.respond(message);
        if leader {
            self.forget_flushed();
        }
        let rebroadcast = if leader {
            o.updates
        } else {
            Vec::new()
        };
        NodeStep {
            replies: o.replies,
            rebroadcast,
            forward_to_leader: false,
            to_coffee_machine: o.answers,
            availability: None,
        }
    }

    /// A leader expects no quarantine line back.
    fn forget_flushed(&mut self)
        ensures
            final(self).view() == (ShopView { flushed: Seq::empty(), ..old(self).view() }),
            final(self).points_handler == old(self).points_handler,
            final(self).same_shop(old(self)),
    {
        self.flushed = Vec::new();
        assert(self.flushed@ =~= Seq::<String>::empty());
    }

    /// The replay has not ended in time: its counterpart stopped answering.
    /// The node leaves the replay, applies what it held back as `SYNCEND`
    /// would, and reports `Timeout`. A node that is not replaying is left as
    /// it is.
    pub fn replay_timed_out(&mut self, leader: bool) -> (r: (NodeStep, Result<(), crate::errors::Error>))
        requires
            old(self).wf(),
        ensures
            final(self).wf(),
            final(self).same_shop(old(self)),
            !old(self).sync ==> r.1 is Ok && step_is_quiet(r.0) && final(self).view() == old(self).view(),
            old(self).sync ==> {
                let (w, ups, ans) = drain_spec(old(self).view(), old(self).view().queue, old(self).shop_id);
                &&& r.1 == Err::<(), crate::errors::Error>(crate::errors::Error::Timeout)
                &&& final(self).view() == (ShopView { sync: false, queue: Seq::empty(), ..w })
                &&& r.0.rebroadcast@ == if leader && !old(self).down {
                    ups
                } else {
                    Seq::empty()
                }
                &&& texts(r.0.to_coffee_machine@) == ans
                &&& r.0.replies@.len() == 0 && !r.0.forward_to_leader && r.0.availability is None
            },
    {
        if !self.sync {
            return (quiet_step(), Ok(()));
        }
        let down = self.down;
        let (updates, answers) = self.drain_queue();
        self.sync = false;
        let rebroadcast = if leader && !down {
            updates
        } else {
            Vec::new()
        };
        let step = NodeStep {
            replies: Vec::new(),
            rebroadcast,
            forward_to_leader: false,
            to_coffee_machine: answers,
            availability: None,
        };
        (step, Err(crate::errors::Error::Timeout))
    }

    /// The other shops of the group, to which updates are broadcast.
    pub fn peers(&self) -> (r: Vec<u32>)
        ensures
            r@ == peers_below(self.shop_id, self.shops_amount as int),
    {
        let mut r: Vec<u32> = Vec::new();
        let mut i: u32 = 0;
        while i < self.shops_amount
            invariant
                i <= self.shops_amount,
                r@ == peers_below(self.shop_id, i as int),
            decreases self.shops_amount - i,
        {
            if i != self.shop_id {
                r.push(i);
            }
            i = i + 1;
        }
        r
    }
}

/// A quarantine line that a follower sent on to the leader and gets back
/// from it is logged, and leaves the ledger and everything else as it was:
/// it is not applied a second time.
pub proof fn lemma_echo_not_applied(v: ShopView, message: String)
    requires
        is_echo(v, message@),
    ensures
        echo_spec(v, message).ledger == v.ledger,
        echo_spec(v, message).flushed == v.flushed.drop_first(),
        echo_spec(v, message) == (ShopView { flushed: v.flushed.drop_first(), ..logged(v, message) }),
        echo_spec(v, message).sync == v.sync && echo_spec(v, message).queue == v.queue,
{
}

/// Whether the message is `UP` or `DOWN`.
pub open spec fn is_availability(m: Seq<char>) -> bool {
    decode(m) == Ok::<Action, crate::errors::Error>(Action::Up) || decode(m) == Ok::<
        Action,
        crate::errors::Error,
    >(Action::Down)
}

/// Whether the message is an update of the ledger.
pub open spec fn is_update_text(m: Seq<char>) -> bool {
    match decode(m) {
        Ok(a) => is_update(a),
        Err(_) => false,
    }
}

fn quiet_step() -> (r: NodeStep)
    ensures
        step_is_quiet(r),
{
    NodeStep {
        replies: Vec::new(),
        rebroadcast: Vec::new(),
        forward_to_leader: false,
        to_coffee_machine: Vec::new(),
        availability: None,
    }
}

fn empty_response() -> (r: Response)
    ensures
        r.replies@.len() == 0,
        r.updates@.len() == 0,
        r.answers@.len() == 0,
        texts(r.replies@) == Seq::<Seq<char>>::empty(),
        r.updates@ == Seq::<String>::empty(),
        texts(r.answers@) == Seq::<Seq<char>>::empty(),
{
    let r = Response { replies: Vec::new(), updates: Vec::new(), answers: Vec::new() };
    assert(texts(r.replies@) =~= Seq::<Seq<char>>::empty());
    assert(texts(r.answers@) =~= Seq::<Seq<char>>::empty());
    assert(r.updates@ =~= Seq::<String>::empty());
    r
}

fn is_update_action(act: &Action) -> (r: bool)
    ensures
        r == is_update(*act),
{
    match act {
        Action::Block(_, _) => true,
        Action::CompleteOrder(_, _, _, _) => true,
        Action::FailOrder(_, _) => true,
        _ => false,
    }
}

fn own_update(act: &Action, shop: u32) -> (r: bool)
    ensures
        r == (origin_shop(*act) == Some(shop)),
{
    match act {
        Action::Block(_, s) => *s == shop,
        Action::CompleteOrder(_, _, _, s) => *s == shop,
        Action::FailOrder(_, s) => *s == shop,
        _ => false,
    }
}

/// Whether `message` reads as an update of the ledger.
fn update_in(message: &String) -> (r: bool)
    ensures
        r == is_update_text(message@),
{
    match MessageParser::parse(message.clone()) {
        Ok(a) => is_update_action(&a),
        _ => false,
    }
}

/// The shops `0..n` but `me`, in increasing order.
pub open spec fn peers_below(me: u32, n: int) -> Seq<u32>
    decreases n,
{
    if n <= 0 {
        Seq::empty()
    } else if (n - 1) as u32 == me {
        peers_below(me, n - 1)
    } else {
        peers_below(me, n - 1).push((n - 1) as u32)
    }
}

} // verus!
