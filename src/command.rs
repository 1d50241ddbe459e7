//! Requests and replies: a line of text becomes a `Command`, and a command
//! run against the store becomes the reply text.
use vstd::prelude::*;
use vstd::string::StringExecFns;
use vstd::utf8::encode_utf8;

use crate::store::{after_set, lookup, Keyspace, Store};
use crate::text::{decimal, push_decimal, same_text, split_words, u64_of, parse_u64, views, words};

verus! {

/// One parsed request. A time to live is a count of seconds.
pub enum Command {
    Ping,
    Get { key: String },
    SetKey { key: String, value: String, ttl: Option<u64> },
    Del { key: String },
    Exists { key: String },
    Unknown,
}

/// A request, as text.
pub enum Request {
    Ping,
    Get(Seq<char>),
    SetKey(Seq<char>, Seq<char>, Option<u64>),
    Del(Seq<char>),
    Exists(Seq<char>),
    Unknown,
}

impl View for Command {
    type V = Request;

    open spec fn view(&self) -> Request {
        match self {
            Command::Ping => Request::Ping,
            Command::Get { key } => Request::Get(key@),
            Command::SetKey { key, value, ttl } => Request::SetKey(key@, value@, *ttl),
            Command::Del { key } => Request::Del(key@),
            Command::Exists { key } => Request::Exists(key@),
            Command::Unknown => Request::Unknown,
        }
    }
}

/// The request that a line writes, read from its words. The verb is
/// case-sensitive; any other count of words is an unknown request. A time to
/// live that is not a number is dropped, not refused.
pub open spec fn parse_line(line: Seq<char>) -> Request {
    let w = words(line);
    if w.len() == 1 && w[0] == "PING"@ {
        Request::Ping
    } else if w.len() == 2 && w[0] == "GET"@ {
        Request::Get(w[1])
    } else if w.len() == 3 && w[0] == "SET"@ {
        Request::SetKey(w[1], w[2], None)
    } else if w.len() == 5 && w[0] == "SET"@ && w[3] == "EX"@ {
        Request::SetKey(w[1], w[2], u64_of(w[4]))
    } else if w.len() == 2 && w[0] == "DEL"@ {
        Request::Del(w[1])
    } else if w.len() == 2 && w[0] == "EXISTS"@ {
        Request::Exists(w[1])
    } else {
        Request::Unknown
    }
}

/// Milliseconds in one second.
pub const MILLIS_PER_SEC: u64 = 1000;

/// A time to live of `secs` seconds in milliseconds, held at `u64::MAX`.
/// The cap is never observed: a deadline that far past the time of writing
/// lies beyond every time the 64-bit clock can give.
pub open spec fn ttl_millis(secs: u64) -> u64 {
    if secs * 1000 > u64::MAX {
        u64::MAX
    } else {
        (secs * 1000) as u64
    }
}

/// A request's time to live in milliseconds.
pub open spec fn ttl_of(ttl: Option<u64>) -> Option<u64> {
    match ttl {
        Some(secs) => Some(ttl_millis(secs)),
        None => None,
    }
}

/// Converts a time to live from seconds to milliseconds.
pub fn to_millis(ttl: Option<u64>) -> (r: Option<u64>)
    ensures
        r == ttl_of(ttl),
{
    match ttl {
        Some(secs) => {
            if secs > u64::MAX / MILLIS_PER_SEC {
                Some(u64::MAX)
            } else {
                Some(secs * MILLIS_PER_SEC)
            }
        },
        None => None,
    }
}

/// The length in bytes of the UTF-8 encoding of `value`, as `str::len`
/// gives it for a string in memory.
pub open spec fn byte_len(value: Seq<char>) -> nat {
    encode_utf8(value).len() as usize as nat
}

/// The reply to a read that found `value`: its length in bytes, then the
/// value itself.
pub open spec fn bulk_reply(value: Seq<char>) -> Seq<char> {
    "$"@ + decimal(byte_len(value)) + "\r\n"@ + value + "\r\n"@
}

/// The reply that carries a yes-or-no answer.
pub open spec fn flag_reply(b: bool) -> Seq<char> {
    if b {
        ":1\r\n"@
    } else {
        ":0\r\n"@
    }
}

/// The reply to `req` against the keyspace `m` at time `now`.
pub open spec fn reply(req: Request, m: Keyspace, now: int) -> Seq<char> {
    match req {
        Request::Ping => "+PING\r\n"@,
        Request::Get(k) => match lookup(m, k, now) {
            Some(v) => bulk_reply(v),
            None => "$-1\r\n"@,
        },
        Request::SetKey(_, _, _) => "+OK\r\n"@,
        Request::Del(k) => flag_reply(lookup(m, k, now).is_some()),
        Request::Exists(k) => flag_reply(lookup(m, k, now).is_some()),
        Request::Unknown => "-ERR unknown command\r\n"@,
    }
}

/// The keyspace after running `req` against `m` at time `now`.
pub open spec fn effect(req: Request, m: Keyspace, now: int) -> Keyspace {
    match req {
        Request::SetKey(k, v, ttl) => after_set(m, k, v, ttl_of(ttl), now),
        Request::Del(k) => m.remove(k),
        _ => m,
    }
}

/// A new string that holds `s`.
fn owned(s: &str) -> (r: String)
    ensures
        r@ == s@,
{
    <String as StringExecFns>::from_str(s)
}

impl Command {
    /// Reads one request from a line of text.
    pub fn parse(input: &str) -> (r: Command)
        ensures
            r@ == parse_line(input@),
    {
        let w = split_words(input);
        let ghost ws = words(input@);
        assert(views(w@).len() == w@.len());
        assert(forall|i: int| 0 <= i < w@.len() ==> ws[i] == (#[trigger] w@[i])@);
        let n = w.len();
        if n == 1 && same_text(w[0].as_str(), "PING") {
            Command::Ping
        } else if n == 2 && same_text(w[0].as_str(), "GET") {
            Command::Get { key: w[1].clone() }
        } else if n == 3 && same_text(w[0].as_str(), "SET") {
            Command::SetKey { key: w[1].clone(), value: w[2].clone(), ttl: None }
        } else if n == 5 && same_text(w[0].as_str(), "SET") && same_text(w[3].as_str(), "EX") {
            let ttl = parse_u64(w[4].as_str());
            Command::SetKey { key: w[1].clone(), value: w[2].clone(), ttl }
        } else if n == 2 && same_text(w[0].as_str(), "DEL") {
            Command::Del { key: w[1].clone() }
        } else if n == 2 && same_text(w[0].as_str(), "EXISTS") {
            Command::Exists { key: w[1].clone() }
        } else {
            Command::Unknown
        }
    }

    /// Runs the request against `store` at time `now`, and returns the reply.
    pub fn execute_at(&self, store: &mut Store, now: u64) -> (r: String)
        requires
            old(store).wf(),
        ensures
            final(store).wf(),
            final(store)@ == effect(self@, old(store)@, now as int),
            r@ == reply(self@, old(store)@, now as int),
            final(store).time() == old(store).time(),
    {
        match self {
            Command::Ping => owned("+PING\r\n"),
            Command::Get { key } => match store.get_at(key.as_str(), now) {
                Some(value) => {
                    let len = value.as_str().len();
                    assert(len as nat == byte_len(value@));
                    let mut out = owned("$");
                    push_decimal(&mut out, len as u64);
                    out.append("\r\n");
                    out.append(value.as_str());
                    out.append("\r\n");
                    assert(out@ =~= bulk_reply(value@));
                    out
                },
                None => owned("$-1\r\n"),
            },
            Command::SetKey { key, value, ttl } => {
                store.set_at(key.clone(), value.clone(), to_millis(*ttl), now);
                owned("+OK\r\n")
            },
            Command::Del { key } => {
                if store.del_at(key.as_str(), now) {
                    owned(":1\r\n")
                } else {
                    owned(":0\r\n")
                }
            },
            Command::Exists { key } => {
                if store.exists_at(key.as_str(), now) {
                    owned(":1\r\n")
                } else {
                    owned(":0\r\n")
                }
            },
            Command::Unknown => owned("-ERR unknown command\r\n"),
        }
    }

    /// Runs the request against `store` at the time its clock gives, never
    /// earlier than the store's latest, and returns the reply.
    pub fn execute(&self, store: &mut Store) -> (r: String)
        requires
            old(store).wf(),
        ensures
            final(store).wf(),
            exists|t: int|
                old(store).time() <= t && final(store).time() == t && final(store)@ == #[trigger] effect(
                    self@,
                    old(store)@,
                    t,
                ) && r@ == reply(self@, old(store)@, t),
    {
        let now = store.tick();
        self.execute_at(store, now)
    }
}

} // verus!
