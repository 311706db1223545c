use vstd::prelude::*;
use vstd::string::*;

use crate::action::Action;
use crate::errors::Error;
use crate::payment_method::Method;
use crate::text::{
    chars_of, decimal, join, lemma_u32_of_decimal, lemma_words_join, lemma_words_nonempty,
    no_space, parse_u32, push_decimal, same_text, split_words, u32_of, views, words,
};

verus! {

/// Reads the text protocol of the shop nodes and coffee machines.
pub struct MessageParser {}

pub open spec fn invalid() -> Result<Action, Error> {
    Err(Error::InvalidMessageFormat)
}

/// A message made of its tag alone.
pub open spec fn bare_of(ws: Seq<Seq<char>>, a: Action) -> Result<Action, Error> {
    if ws.len() == 1 {
        Ok(a)
    } else {
        invalid()
    }
}

/// The number of a message `<tag> <n>`.
pub open spec fn one_number(ws: Seq<Seq<char>>) -> Option<u32> {
    if ws.len() == 2 && u32_of(ws[1]) is Some {
        Some(u32_of(ws[1])->0)
    } else {
        None
    }
}

/// The numbers of a message `<tag> <a> <b>`.
pub open spec fn two_numbers(ws: Seq<Seq<char>>) -> Option<(u32, u32)> {
    if ws.len() == 3 && u32_of(ws[1]) is Some && u32_of(ws[2]) is Some {
        Some((u32_of(ws[1])->0, u32_of(ws[2])->0))
    } else {
        None
    }
}

pub open spec fn block_of(ws: Seq<Seq<char>>) -> Result<Action, Error> {
    match two_numbers(ws) {
        Some((c, s)) => Ok(Action::Block(c, s)),
        None => invalid(),
    }
}

pub open spec fn failure_of(ws: Seq<Seq<char>>) -> Result<Action, Error> {
    match two_numbers(ws) {
        Some((c, s)) => Ok(Action::FailOrder(c, s)),
        None => invalid(),
    }
}

pub open spec fn not_enough_of(ws: Seq<Seq<char>>) -> Result<Action, Error> {
    match one_number(ws) {
        Some(c) => Ok(Action::NotEnoughPoints(c)),
        None => invalid(),
    }
}

pub open spec fn already_blocked_of(ws: Seq<Seq<char>>) -> Result<Action, Error> {
    match one_number(ws) {
        Some(c) => Ok(Action::ClientAlreadyBlocked(c)),
        None => invalid(),
    }
}

pub open spec fn sync_of(ws: Seq<Seq<char>>) -> Result<Action, Error> {
    match one_number(ws) {
        Some(n) => Ok(Action::Sync(n)),
        None => invalid(),
    }
}

pub open spec fn method_of(t: Seq<char>) -> Option<Method> {
    if t == "cash"@ {
        Some(Method::Cash)
    } else if t == "points"@ {
        Some(Method::Points)
    } else {
        None
    }
}

pub open spec fn method_text(m: Method) -> Seq<char> {
    match m {
        Method::Cash => "cash"@,
        Method::Points => "points"@,
    }
}

/// `complete <customer_id> <price> <method> <shop_id>`
pub open spec fn completion_of(ws: Seq<Seq<char>>) -> Result<Action, Error> {
    if ws.len() == 5 && u32_of(ws[1]) is Some && u32_of(ws[2]) is Some && method_of(ws[3]) is Some
        && u32_of(ws[4]) is Some {
        Ok(
            Action::CompleteOrder(
                u32_of(ws[1])->0,
                u32_of(ws[2])->0,
                method_of(ws[3])->0,
                u32_of(ws[4])->0,
            ),
        )
    } else {
        invalid()
    }
}

/// The action that the tokens `ws` of a message stand for: the first token
/// is the tag, and each tag has a fixed number of fields.
pub open spec fn decode_words(ws: Seq<Seq<char>>) -> Result<Action, Error> {
    let tag = ws[0];
    if tag == "block"@ {
        block_of(ws)
    } else if tag == "complete"@ {
        completion_of(ws)
    } else if tag == "ACK"@ {
        bare_of(ws, Action::Ack)
    } else if tag == "notEnough"@ {
        not_enough_of(ws)
    } else if tag == "alreadyBlocked"@ {
        already_blocked_of(ws)
    } else if tag == "fail"@ {
        failure_of(ws)
    } else if tag == "TRY"@ {
        bare_of(ws, Action::Try)
    } else if tag == "DOWN"@ {
        bare_of(ws, Action::Down)
    } else if tag == "UP"@ {
        bare_of(ws, Action::Up)
    } else if tag == "SYNC"@ {
        sync_of(ws)
    } else if tag == "SYNCSTART"@ {
        bare_of(ws, Action::SyncStart)
    } else if tag == "SYNCEND"@ {
        bare_of(ws, Action::SyncEnd)
    } else {
        invalid()
    }
}

/// The action that the message `s` stands for.
pub open spec fn decode(s: Seq<char>) -> Result<Action, Error> {
    decode_words(words(s))
}

pub open spec fn dec(n: u32) -> Seq<char> {
    decimal(n as nat)
}

/// The text of an action on the wire. A replayed log line is sent as it stands.
pub open spec fn encode_spec(a: Action) -> Seq<char> {
    match a {
        Action::Block(c, s) => join(seq!["block"@, dec(c), dec(s)]),
        Action::CompleteOrder(c, p, m, s) => join(
            seq!["complete"@, dec(c), dec(p), method_text(m), dec(s)],
        ),
        Action::FailOrder(c, s) => join(seq!["fail"@, dec(c), dec(s)]),
        Action::ClientAlreadyBlocked(c) => join(seq!["alreadyBlocked"@, dec(c)]),
        Action::NotEnoughPoints(c) => join(seq!["notEnough"@, dec(c)]),
        Action::Ack => "ACK"@,
        Action::Try => "TRY"@,
        Action::Up => "UP"@,
        Action::Down => "DOWN"@,
        Action::Sync(n) => join(seq!["SYNC"@, dec(n)]),
        Action::SyncStart => "SYNCSTART"@,
        Action::SyncPart(line) => line@,
        Action::SyncEnd => "SYNCEND"@,
    }
}

/// Each tag has no space, and no two tags have both the same length and the
/// same first character, so no two are equal.
proof fn lemma_tags()
    ensures
        no_space("block"@) && "block"@.len() == 5 && "block"@[0] == 'b',
        no_space("complete"@) && "complete"@.len() == 8 && "complete"@[0] == 'c',
        no_space("ACK"@) && "ACK"@.len() == 3 && "ACK"@[0] == 'A',
        no_space("notEnough"@) && "notEnough"@.len() == 9 && "notEnough"@[0] == 'n',
        no_space("alreadyBlocked"@) && "alreadyBlocked"@.len() == 14 && "alreadyBlocked"@[0] == 'a',
        no_space("fail"@) && "fail"@.len() == 4 && "fail"@[0] == 'f',
        no_space("TRY"@) && "TRY"@.len() == 3 && "TRY"@[0] == 'T',
        no_space("DOWN"@) && "DOWN"@.len() == 4 && "DOWN"@[0] == 'D',
        no_space("UP"@) && "UP"@.len() == 2 && "UP"@[0] == 'U',
        no_space("SYNC"@) && "SYNC"@.len() == 4 && "SYNC"@[0] == 'S',
        no_space("SYNCSTART"@) && "SYNCSTART"@.len() == 9 && "SYNCSTART"@[0] == 'S',
        no_space("SYNCEND"@) && "SYNCEND"@.len() == 7 && "SYNCEND"@[0] == 'S',
        no_space("cash"@) && "cash"@.len() == 4 && "cash"@[0] == 'c',
        no_space("points"@) && "points"@.len() == 6 && "points"@[0] == 'p',
{
    reveal_strlit("block");
    reveal_strlit("complete");
    reveal_strlit("ACK");
    reveal_strlit("notEnough");
    reveal_strlit("alreadyBlocked");
    reveal_strlit("fail");
    reveal_strlit("TRY");
    reveal_strlit("DOWN");
    reveal_strlit("UP");
    reveal_strlit("SYNC");
    reveal_strlit("SYNCSTART");
    reveal_strlit("SYNCEND");
    reveal_strlit("cash");
    reveal_strlit("points");
}

/// Decoding the text of an action gives that action back, for every action
/// but a replayed log line, which has no tag of its own.
pub proof fn lemma_decode_encode(a: Action)
    requires
        !(a is SyncPart),
    ensures
        decode(encode_spec(a)) == Ok::<Action, Error>(a),
{
    match a {
        Action::Block(c, s) => lemma_block_round_trip(c, s),
        Action::CompleteOrder(c, p, m, s) => lemma_completion_round_trip(c, p, m, s),
        Action::FailOrder(c, s) => lemma_failure_round_trip(c, s),
        Action::ClientAlreadyBlocked(c) => lemma_already_blocked_round_trip(c),
        Action::NotEnoughPoints(c) => lemma_not_enough_round_trip(c),
        Action::Sync(n) => lemma_sync_round_trip(n),
        Action::SyncPart(_) => {},
        _ => lemma_bare_round_trip(a),
    }
}

proof fn lemma_block_round_trip(c: u32, s: u32)
    ensures
        decode(encode_spec(Action::Block(c, s))) == Ok::<Action, Error>(Action::Block(c, s)),
{
    lemma_tags();
    lemma_u32_of_decimal(c);
    lemma_u32_of_decimal(s);
    let ws = seq!["block"@, dec(c), dec(s)];
    assert(no_space(ws[0]));
    lemma_words_join(ws);
}

proof fn lemma_completion_round_trip(c: u32, p: u32, m: Method, s: u32)
    ensures
        decode(encode_spec(Action::CompleteOrder(c, p, m, s))) == Ok::<Action, Error>(
            Action::CompleteOrder(c, p, m, s),
        ),
{
    lemma_tags();
    lemma_u32_of_decimal(c);
    lemma_u32_of_decimal(p);
    lemma_u32_of_decimal(s);
    let ws = seq!["complete"@, dec(c), dec(p), method_text(m), dec(s)];
    assert(no_space(ws[0]));
    assert(no_space(ws[3]));
    assert(method_of(ws[3]) == Some(m));
    lemma_words_join(ws);
}

proof fn lemma_failure_round_trip(c: u32, s: u32)
    ensures
        decode(encode_spec(Action::FailOrder(c, s))) == Ok::<Action, Error>(Action::FailOrder(c, s)),
{
    lemma_tags();
    lemma_u32_of_decimal(c);
    lemma_u32_of_decimal(s);
    let ws = seq!["fail"@, dec(c), dec(s)];
    assert(no_space(ws[0]));
    lemma_words_join(ws);
}

proof fn lemma_already_blocked_round_trip(c: u32)
    ensures
        decode(encode_spec(Action::ClientAlreadyBlocked(c))) == Ok::<Action, Error>(Action::ClientAlreadyBlocked(c)),
{
    lemma_tags();
    lemma_u32_of_decimal(c);
    let ws = seq!["alreadyBlocked"@, dec(c)];
    assert(no_space(ws[0]));
    lemma_words_join(ws);
}

proof fn lemma_not_enough_round_trip(c: u32)
    ensures
        decode(encode_spec(Action::NotEnoughPoints(c))) == Ok::<Action, Error>(Action::NotEnoughPoints(c)),
{
    lemma_tags();
    lemma_u32_of_decimal(c);
    let ws = seq!["notEnough"@, dec(c)];
    assert(no_space(ws[0]));
    lemma_words_join(ws);
}

proof fn lemma_sync_round_trip(n: u32)
    ensures
        decode(encode_spec(Action::Sync(n))) == Ok::<Action, Error>(Action::Sync(n)),
{
    lemma_tags();
    lemma_u32_of_decimal(n);
    let ws = seq!["SYNC"@, dec(n)];
    assert(no_space(ws[0]));
    lemma_words_join(ws);
}

proof fn lemma_bare_round_trip(a: Action)
    requires
        a is Ack || a is Try || a is Up || a is Down || a is SyncStart || a is SyncEnd,
    ensures
        decode(encode_spec(a)) == Ok::<Action, Error>(a),
{
    lemma_tags();
    let t = encode_spec(a);
    assert(no_space(t));
    lemma_words_join(seq![t]);
}

/// Writes an action as its message text.
pub fn encode(a: &Action) -> (r: String)
    ensures
        r@ == encode_spec(*a),
{
    match a {
        Action::Block(c, s) => {
            let mut r = String::from_str("block");
            push_field(&mut r, *c);
            push_field(&mut r, *s);
            proof { assert_join3("block"@, dec(*c), dec(*s)); }
            r
        },
        Action::CompleteOrder(c, p, m, s) => {
            let mut r = String::from_str("complete");
            push_field(&mut r, *c);
            push_field(&mut r, *p);
            r.push(' ');
            match m {
                Method::Cash => r.append("cash"),
                Method::Points => r.append("points"),
            }
            push_field(&mut r, *s);
            proof {
                let w3 = seq!["complete"@, dec(*c), dec(*p)];
                let w4 = w3.push(method_text(*m));
                assert_join3("complete"@, dec(*c), dec(*p));
                lemma_join_push(w3, method_text(*m));
                lemma_join_push(w4, dec(*s));
                assert(w4.push(dec(*s)) =~= seq!["complete"@, dec(*c), dec(*p), method_text(*m), dec(*s)]);
                assert(r@ =~= join(w4.push(dec(*s))));
            }
            r
        },
        Action::FailOrder(c, s) => {
            let mut r = String::from_str("fail");
            push_field(&mut r, *c);
            push_field(&mut r, *s);
            proof { assert_join3("fail"@, dec(*c), dec(*s)); }
            r
        },
        Action::ClientAlreadyBlocked(c) => {
            let mut r = String::from_str("alreadyBlocked");
            push_field(&mut r, *c);
            proof { assert_join2("alreadyBlocked"@, dec(*c)); }
            r
        },
        Action::NotEnoughPoints(c) => {
            let mut r = String::from_str("notEnough");
            push_field(&mut r, *c);
            proof { assert_join2("notEnough"@, dec(*c)); }
            r
        },
        Action::Ack => String::from_str("ACK"),
        Action::Try => String::from_str("TRY"),
        Action::Up => String::from_str("UP"),
        Action::Down => String::from_str("DOWN"),
        Action::Sync(n) => {
            let mut r = String::from_str("SYNC");
            push_field(&mut r, *n);
            proof { assert_join2("SYNC"@, dec(*n)); }
            r
        },
        Action::SyncStart => String::from_str("SYNCSTART"),
        Action::SyncPart(line) => line.clone(),
        Action::SyncEnd => String::from_str("SYNCEND"),
    }
}

proof fn lemma_join_push(ws: Seq<Seq<char>>, t: Seq<char>)
    requires
        ws.len() >= 1,
    ensures
        join(ws.push(t)) == join(ws).push(' ') + t,
{
    assert(ws.push(t).drop_last() =~= ws);
}

proof fn assert_join2(a: Seq<char>, b: Seq<char>)
    ensures
        join(seq![a, b]) == a.push(' ') + b,
{
    assert(join(seq![a]) == a);
    lemma_join_push(seq![a], b);
    assert(seq![a].push(b) =~= seq![a, b]);
}

proof fn assert_join3(a: Seq<char>, b: Seq<char>, c: Seq<char>)
    ensures
        join(seq![a, b, c]) == a.push(' ') + b + seq![' '] + c,
        join(seq![a, b]) == a.push(' ') + b,
{
    assert_join2(a, b);
    lemma_join_push(seq![a, b], c);
    assert(seq![a, b].push(c) =~= seq![a, b, c]);
    assert((a.push(' ') + b).push(' ') + c =~= a.push(' ') + b + seq![' '] + c);
}

/// Appends a space and the decimal writing of `n`.
fn push_field(r: &mut String, n: u32)
    ensures
        final(r)@ == old(r)@.push(' ') + dec(n),
{
    r.push(' ');
    push_decimal(r, n);
}

impl MessageParser {
    /// Reads one message. Fails with `InvalidMessageFormat` when the tag is
    /// unknown, the number of fields is not the tag's, or a field does not read.
    pub fn parse(s: String) -> (r: Result<Action, Error>)
        ensures
            r == decode(s@),
    {
        let chars = chars_of(s.as_str());
        let words = split_words(&chars);
        proof {
            lemma_words_nonempty(chars@);
        }
        let tag = &words[0];
        if same_text(tag, "block") {
            MessageParser::parse_block(words)
        } else if same_text(tag, "complete") {
            MessageParser::parse_completion(words)
        } else if same_text(tag, "ACK") {
            MessageParser::parser_ack(words)
        } else if same_text(tag, "notEnough") {
            MessageParser::parser_not_enough(words)
        } else if same_text(tag, "alreadyBlocked") {
            MessageParser::parser_already_blocked(words)
        } else if same_text(tag, "fail") {
            MessageParser::parse_failure(words)
        } else if same_text(tag, "TRY") {
            MessageParser::parser_try(words)
        } else if same_text(tag, "DOWN") {
            MessageParser::parser_down(words)
        } else if same_text(tag, "UP") {
            MessageParser::parser_up(words)
        } else if same_text(tag, "SYNC") {
            MessageParser::parser_sync(words)
        } else if same_text(tag, "SYNCSTART") {
            MessageParser::parse_sync_start(words)
        } else if same_text(tag, "SYNCEND") {
            MessageParser::parse_sync_end(words)
        } else {
            Err(Error::InvalidMessageFormat)
        }
    }

    /// Reads field `i` as a number.
    fn number(words: &Vec<Vec<char>>, i: usize) -> (r: Option<u32>)
        requires
            i < words@.len(),
        ensures
            r == u32_of(views(words@)[i as int]),
    {
        parse_u32(&words[i])
    }

    fn parse_sync_start(words: Vec<Vec<char>>) -> (r: Result<Action, Error>)
        ensures
            r == bare_of(views(words@), Action::SyncStart),
    {
        if words.len() != 1 {
            return Err(Error::InvalidMessageFormat);
        }
        Ok(Action::SyncStart)
    }

    fn parse_sync_end(words: Vec<Vec<char>>) -> (r: Result<Action, Error>)
        ensures
            r == bare_of(views(words@), Action::SyncEnd),
    {
        if words.len() != 1 {
            return Err(Error::InvalidMessageFormat);
        }
        Ok(Action::SyncEnd)
    }

    fn parser_sync(words: Vec<Vec<char>>) -> (r: Result<Action, Error>)
        ensures
            r == sync_of(views(words@)),
    {
        if words.len() != 2 {
            return Err(Error::InvalidMessageFormat);
        }
        match MessageParser::number(&words, 1) {
            Some(n) => Ok(Action::Sync(n)),
            None => Err(Error::InvalidMessageFormat),
        }
    }

    fn parser_ack(words: Vec<Vec<char>>) -> (r: Result<Action, Error>)
        ensures
            r == bare_of(views(words@), Action::Ack),
    {
        if words.len() != 1 {
            return Err(Error::InvalidMessageFormat);
        }
        Ok(Action::Ack)
    }

    fn parser_down(words: Vec<Vec<char>>) -> (r: Result<Action, Error>)
        ensures
            r == bare_of(views(words@), Action::Down),
    {
        if words.len() != 1 {
            return Err(Error::InvalidMessageFormat);
        }
        Ok(Action::Down)
    }

    fn parser_up(words: Vec<Vec<char>>) -> (r: Result<Action, Error>)
        ensures
            r == bare_of(views(words@), Action::Up),
    {
        if words.len() != 1 {
            return Err(Error::InvalidMessageFormat);
        }
        Ok(Action::Up)
    }

    fn parser_try(words: Vec<Vec<char>>) -> (r: Result<Action, Error>)
        ensures
            r == bare_of(views(words@), Action::Try),
    {
        if words.len() != 1 {
            return Err(Error::InvalidMessageFormat);
        }
        Ok(Action::Try)
    }

    fn parse_block(words: Vec<Vec<char>>) -> (r: Result<Action, Error>)
        ensures
            r == block_of(views(words@)),
    {
        if words.len() != 3 {
            return Err(Error::InvalidMessageFormat);
        }
        let client_id = match MessageParser::number(&words, 1) {
            Some(n) => n,
            None => return Err(Error::InvalidMessageFormat),
        };
        let shop_id = match MessageParser::number(&words, 2) {
            Some(n) => n,
            None => return Err(Error::InvalidMessageFormat),
        };
        Ok(Action::Block(client_id, shop_id))
    }

    fn parse_completion(words: Vec<Vec<char>>) -> (r: Result<Action, Error>)
        ensures
            r == completion_of(views(words@)),
    {
        if words.len() != 5 {
            return Err(Error::InvalidMessageFormat);
        }
        let client_id = match MessageParser::number(&words, 1) {
            Some(n) => n,
            None => return Err(Error::InvalidMessageFormat),
        };
        let price = match MessageParser::number(&words, 2) {
            Some(n) => n,
            None => return Err(Error::InvalidMessageFormat),
        };
        let method = if same_text(&words[3], "cash") {
            Method::Cash
        } else if same_text(&words[3], "points") {
            Method::Points
        } else {
            return Err(Error::InvalidMessageFormat);
        };
        let shop_id = match MessageParser::number(&words, 4) {
            Some(n) => n,
            None => return Err(Error::InvalidMessageFormat),
        };
        Ok(Action::CompleteOrder(client_id, price, method, shop_id))
    }

    fn parser_not_enough(words: Vec<Vec<char>>) -> (r: Result<Action, Error>)
        ensures
            r == not_enough_of(views(words@)),
    {
        if words.len() != 2 {
            return Err(Error::InvalidMessageFormat);
        }
        match MessageParser::number(&words, 1) {
            Some(n) => Ok(Action::NotEnoughPoints(n)),
            None => Err(Error::InvalidMessageFormat),
        }
    }

    fn parser_already_blocked(words: Vec<Vec<char>>) -> (r: Result<Action, Error>)
        ensures
            r == already_blocked_of(views(words@)),
    {
        if words.len() != 2 {
            return Err(Error::InvalidMessageFormat);
        }
        match MessageParser::number(&words, 1) {
            Some(n) => Ok(Action::ClientAlreadyBlocked(n)),
            None => Err(Error::InvalidMessageFormat),
        }
    }

    fn parse_failure(words: Vec<Vec<char>>) -> (r: Result<Action, Error>)
        ensures
            r == failure_of(views(words@)),
    {
        if words.len() != 3 {
            return Err(Error::InvalidMessageFormat);
        }
        let client_id = match MessageParser::number(&words, 1) {
            Some(n) => n,
            None => return Err(Error::InvalidMessageFormat),
        };
        let shop_id = match MessageParser::number(&words, 2) {
            Some(n) => n,
            None => return Err(Error::InvalidMessageFormat),
        };
        Ok(Action::FailOrder(client_id, shop_id))
    }
}

} // verus!
