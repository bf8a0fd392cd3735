//! The web server's logic: login sessions and credentials, the bearer
//! check, conversation history (save, find, delete), and the shaping of the
//! chat payload (project conventions, retrieved manual passages, compaction).

use vstd::prelude::*;
use crate::claw::BuiltinClaw;
use crate::executors::JsonArgs;
use crate::model::{content_text, Content, Message, ModelConfig, Role};
use crate::text::{
    cat, chars_of, concat, decimal, decimal_seq, flat, has_prefix, hex, hex_seq, owned, push_str, str_eq,
    str_starts_with, string_from_range, take_chars, trim, trim_seq,
};
use crate::tools::ToolOutcome;

verus! {

/// The login name.
pub const USERNAME: &'static str = "renault";

/// The login password.
pub const PASSWORD: &'static str = "renault123";

/// How long a session stays valid, in seconds (24 hours).
pub const SESSION_TTL_SECS: u64 = 86400;

/// A login request: the credentials the browser sent.
#[derive(Debug, Clone)]
pub struct LoginRequest {
    pub username: String,
    pub password: String,
}

/// Whether a login request carries the configured credentials.
pub fn check_credentials(req: &LoginRequest) -> (b: bool)
    ensures
        b == (req.username@ == "renault"@ && req.password@ == "renault123"@),
{
    str_eq(req.username.as_str(), USERNAME) && str_eq(req.password.as_str(), PASSWORD)
}

/// The token of an `Authorization` header: what follows `Bearer `.
pub open spec fn bearer_of(header: Option<Seq<char>>) -> Option<Seq<char>> {
    match header {
        Some(h) => if has_prefix(h, "Bearer "@) {
            Some(h.subrange(7, h.len() as int))
        } else {
            None
        },
        None => None,
    }
}

/// Extracts the bearer token from an `Authorization` header value.
pub fn bearer_token(header: Option<&str>) -> (r: Option<String>)
    ensures
        r matches Some(t) ==> bearer_of(match header {
            Some(h) => Some(h@),
            None => None,
        }) == Some(t@),
        r is None ==> bearer_of(match header {
            Some(h) => Some(h@),
            None => None,
        }) is None,
{
    match header {
        None => None,
        Some(h) => {
            proof {
                reveal_strlit("Bearer ");
            }
            if str_starts_with(h, "Bearer ") {
                let v = chars_of(h);
                Some(string_from_range(&v, 7, v.len()))
            } else {
                None
            }
        },
    }
}

/// A session token from the clock, a counter and the process id: the
/// nanoseconds and the counter in hexadecimal, then the process id.
pub fn format_token(nanos: u128, counter: u64, pid: u32) -> (r: String)
    ensures
        r@ == hex_seq(nanos as nat) + hex_seq(counter as nat) + decimal_seq(pid as nat),
{
    let a = hex(nanos);
    let b = hex(counter as u128);
    let c = decimal(pid as u64);
    let r = cat(&vec![a.as_str(), b.as_str(), c.as_str()]);
    proof {
        reveal_with_fuel(flat, 4);
    }
    r
}

/// A session created at `created` is still alive at `now`: less than the
/// time-to-live has passed (no time passes when the clock reads earlier).
pub open spec fn alive(created: u64, now: u64) -> bool {
    (if now >= created { now - created } else { 0 }) < SESSION_TTL_SECS
}

/// When the session with this token was created, if there is one.
pub open spec fn created_at(entries: Seq<(String, u64)>, token: Seq<char>) -> Option<u64> {
    if exists|i: int| 0 <= i < entries.len() && (#[trigger] entries[i]).0@ == token {
        Some(entries[choose|i: int| 0 <= i < entries.len() && (#[trigger] entries[i]).0@ == token].1)
    } else {
        None
    }
}

/// No two entries share a token.
pub open spec fn distinct_tokens(entries: Seq<(String, u64)>) -> bool {
    forall|i: int, j: int| 0 <= i < entries.len() && 0 <= j < entries.len() && i != j ==> (#[trigger] entries[i]).0@ != (#[trigger] entries[j]).0@
}

/// With distinct tokens, an entry's token maps to that entry's time.
proof fn lemma_created_at_entry(entries: Seq<(String, u64)>, i: int)
    requires
        distinct_tokens(entries),
        0 <= i < entries.len(),
    ensures
        created_at(entries, entries[i].0@) == Some(entries[i].1),
{
    let t = entries[i].0@;
    assert(exists|j: int| 0 <= j < entries.len() && (#[trigger] entries[j]).0@ == t);
    let c = choose|j: int| 0 <= j < entries.len() && (#[trigger] entries[j]).0@ == t;
    assert(c == i);
}

/// The session store: each token with the time it was created.
pub struct Sessions {
    entries: Vec<(String, u64)>,
}

impl Sessions {
    /// When the session with this token was created, if there is one.
    pub closed spec fn created(&self, token: Seq<char>) -> Option<u64> {
        created_at(self.entries@, token)
    }

    /// No two entries share a token.
    #[verifier::type_invariant]
    spec fn distinct(&self) -> bool {
        distinct_tokens(self.entries@)
    }

    /// An empty store.
    pub fn new() -> (s: Sessions)
        ensures
            forall|t: Seq<char>| s.created(t) is None,
    {
        Sessions { entries: Vec::new() }
    }

    /// The index of the entry with this token.
    fn index_of(&self, token: &str) -> (r: Option<usize>)
        ensures
            r matches Some(i) ==> i < self.entries@.len() && self.entries@[i as int].0@ == token@,
            r is None ==> forall|i: int| 0 <= i < self.entries@.len() ==> (#[trigger] self.entries@[i]).0@ != token@,
    {
        let mut k: usize = 0;
        while k < self.entries.len()
            invariant
                0 <= k <= self.entries@.len(),
                forall|i: int| 0 <= i < k ==> (#[trigger] self.entries@[i]).0@ != token@,
            decreases self.entries@.len() - k,
        {
            if str_eq(self.entries[k].0.as_str(), token) {
                return Some(k);
            }
            k += 1;
        }
        None
    }

    /// Records a new session created at `now` (replacing one with the same
    /// token).
    pub fn insert(&mut self, token: String, now: u64)
        ensures
            final(self).created(token@) == Some(now),
            forall|t: Seq<char>| t != token@ ==> final(self).created(t) == old(self).created(t),
    {
        proof {
            use_type_invariant(&*self);
        }
        let ghost e0 = self.entries@;
        match self.index_of(token.as_str()) {
            Some(i) => {
                let ghost tv = token@;
                let mut entries: Vec<(String, u64)> = Vec::new();
                std::mem::swap(&mut entries, &mut self.entries);
                entries.set(i, (token, now));
                proof {
                    let e1 = entries@;
                    assert forall|x: int, y: int| 0 <= x < e1.len() && 0 <= y < e1.len() && x != y implies (#[trigger] e1[x]).0@ != (#[trigger] e1[y]).0@ by {
                        if x == i {
                            assert(e0[y].0@ != e0[x].0@);
                        } else if y == i {
                            assert(e0[y].0@ != e0[x].0@);
                        } else {
                            assert(e1[x] == e0[x] && e1[y] == e0[y]);
                        }
                    }
                    lemma_created_at_entry(e1, i as int);
                    assert forall|t: Seq<char>| t != tv implies created_at(e1, t) == created_at(e0, t) by {
                        if exists|x: int| 0 <= x < e0.len() && (#[trigger] e0[x]).0@ == t {
                            let x = choose|x: int| 0 <= x < e0.len() && (#[trigger] e0[x]).0@ == t;
                            assert(x != i);
                            assert(e1[x] == e0[x]);
                            lemma_created_at_entry(e0, x);
                            lemma_created_at_entry(e1, x);
                        } else {
                            assert forall|x: int| 0 <= x < e1.len() implies (#[trigger] e1[x]).0@ != t by {
                                if x != i {
                                    assert(e1[x] == e0[x]);
                                }
                            }
                        }
                    }
                }
                self.entries = entries;
            },
            None => {
                let ghost tv = token@;
                let mut entries: Vec<(String, u64)> = Vec::new();
                std::mem::swap(&mut entries, &mut self.entries);
                entries.push((token, now));
                proof {
                    let e1 = entries@;
                    assert forall|x: int, y: int| 0 <= x < e1.len() && 0 <= y < e1.len() && x != y implies (#[trigger] e1[x]).0@ != (#[trigger] e1[y]).0@ by {
                        if x < e0.len() && y < e0.len() {
                            assert(e1[x] == e0[x] && e1[y] == e0[y]);
                        } else if x < e0.len() {
                            assert(e1[x] == e0[x]);
                        } else {
                            assert(e1[y] == e0[y]);
                        }
                    }
                    lemma_created_at_entry(e1, e0.len() as int);
                    assert forall|t: Seq<char>| t != tv implies created_at(e1, t) == created_at(e0, t) by {
                        if exists|x: int| 0 <= x < e0.len() && (#[trigger] e0[x]).0@ == t {
                            let x = choose|x: int| 0 <= x < e0.len() && (#[trigger] e0[x]).0@ == t;
                            assert(e1[x] == e0[x]);
                            lemma_created_at_entry(e0, x);
                            lemma_created_at_entry(e1, x);
                        } else {
                            assert forall|x: int| 0 <= x < e1.len() implies (#[trigger] e1[x]).0@ != t by {
                                if x < e0.len() {
                                    assert(e1[x] == e0[x]);
                                }
                            }
                        }
                    }
                }
                self.entries = entries;
            },
        }
    }

    /// Whether a token names a live session; expired sessions are dropped.
    pub fn valid(&mut self, token: &str, now: u64) -> (b: bool)
        ensures
            b == (old(self).created(token@) matches Some(c) && alive(c, now)),
            forall|t: Seq<char>|
                final(self).created(t) == (match old(self).created(t) {
                    Some(c) => if alive(c, now) {
                        Some(c)
                    } else {
                        None
                    },
                    None => None,
                }),
    {
        proof {
            use_type_invariant(&*self);
        }
        let ghost e0 = self.entries@;
        let mut kept: Vec<(String, u64)> = Vec::new();
        let ghost mut from: Seq<int> = Seq::empty();
        let mut k: usize = 0;
        while k < self.entries.len()
            invariant
                0 <= k <= e0.len(),
                self.entries@ == e0,
                distinct_tokens(e0),
                kept@.len() == from.len(),
                forall|x: int| 0 <= x < from.len() ==> 0 <= #[trigger] from[x] < k && kept@[x].0@ == e0[from[x]].0@ && kept@[x].1 == e0[from[x]].1 && alive(e0[from[x]].1, now),
                forall|x: int, y: int| 0 <= x < y < from.len() ==> #[trigger] from[x] < #[trigger] from[y],
                forall|m: int| 0 <= m < k && alive(e0[m].1, now) ==> exists|x: int| 0 <= x < from.len() && #[trigger] from[x] == m,
            decreases e0.len() - k,
        {
            let created = self.entries[k].1;
            let elapsed = if now >= created {
                now - created
            } else {
                0
            };
            if elapsed < SESSION_TTL_SECS {
                kept.push((owned(self.entries[k].0.as_str()), created));
                proof {
                    let old_from = from;
                    from = from.push(k as int);
                    assert forall|m: int| 0 <= m < k + 1 && alive(e0[m].1, now) implies exists|x: int| 0 <= x < from.len() && #[trigger] from[x] == m by {
                        if m == k {
                            assert(from[from.len() - 1] == m);
                        } else {
                            let x = choose|x: int| 0 <= x < old_from.len() && #[trigger] old_from[x] == m;
                            assert(from[x] == old_from[x]);
                        }
                    }
                }
            }
            k += 1;
        }
        let ghost e1 = kept@;
        proof {
            assert forall|x: int, y: int| 0 <= x < e1.len() && 0 <= y < e1.len() && x != y implies (#[trigger] e1[x]).0@ != (#[trigger] e1[y]).0@ by {
                assert(from[x] != from[y]) by {
                    if x < y {
                        assert(from[x] < from[y]);
                    } else {
                        assert(from[y] < from[x]);
                    }
                }
            }
            assert forall|t: Seq<char>| created_at(e1, t) == (match created_at(e0, t) {
                Some(c) => if alive(c, now) { Some(c) } else { None },
                None => None,
            }) by {
                if exists|m: int| 0 <= m < e0.len() && (#[trigger] e0[m]).0@ == t {
                    let m = choose|m: int| 0 <= m < e0.len() && (#[trigger] e0[m]).0@ == t;
                    lemma_created_at_entry(e0, m);
                    if alive(e0[m].1, now) {
                        let x = choose|x: int| 0 <= x < from.len() && #[trigger] from[x] == m;
                        lemma_created_at_entry(e1, x);
                    } else {
                        assert forall|x: int| 0 <= x < e1.len() implies (#[trigger] e1[x]).0@ != t by {
                            if e1[x].0@ == t {
                                assert(from[x] == m);
                            }
                        }
                    }
                } else {
                    assert forall|x: int| 0 <= x < e1.len() implies (#[trigger] e1[x]).0@ != t by {
                        assert(e0[from[x]].0@ == e1[x].0@);
                    }
                }
            }
        }
        self.entries = kept;
        match self.index_of(token) {
            Some(i) => {
                proof {
                    lemma_created_at_entry(e1, i as int);
                }
                true
            },
            None => false,
        }
    }
}

/// A session is valid right after it was recorded, until the time-to-live
/// has passed; then it is not.
pub proof fn lemma_session_lifetime(created: u64, now: u64)
    requires
        created <= now,
    ensures
        alive(created, now) <==> now - created < SESSION_TTL_SECS,
{
}

// ---------------------------------------------------------------------------
// Conversation history
// ---------------------------------------------------------------------------

/// One saved conversation.
#[derive(Debug, Clone)]
pub struct Session {
    pub id: String,
    pub title: String,
    pub messages: Vec<Message>,
    pub updated: u64,
}

/// How many sessions are kept.
pub const HISTORY_CAP: usize = 50;

/// The index of the first session with this id.
pub open spec fn session_index(sessions: Seq<Session>, id: Seq<char>) -> Option<int>
    decreases sessions.len(),
{
    if sessions.len() == 0 {
        None
    } else {
        match session_index(sessions.drop_last(), id) {
            Some(i) => Some(i),
            None => if sessions.last().id@ == id {
                Some(sessions.len() - 1)
            } else {
                None
            },
        }
    }
}

/// The sessions after a save: the session replaces the first one with its
/// id in place, or goes first when new; then only the first 50 are kept.
pub open spec fn upserted(sessions: Seq<Session>, s: Session) -> Seq<Session> {
    let all = match session_index(sessions, s.id@) {
        Some(i) => sessions.update(i, s),
        None => seq![s] + sessions,
    };
    if all.len() > HISTORY_CAP {
        all.take(HISTORY_CAP as int)
    } else {
        all
    }
}

fn index_of(sessions: &Vec<Session>, id: &str) -> (r: Option<usize>)
    ensures
        r matches Some(i) ==> session_index(sessions@, id@) == Some(i as int) && i < sessions@.len(),
        r is None ==> session_index(sessions@, id@) is None,
{
    let mut k: usize = 0;
    while k < sessions.len()
        invariant
            0 <= k <= sessions@.len(),
            session_index(sessions@.take(k as int), id@) is None,
        decreases sessions@.len() - k,
    {
        assert(sessions@.take(k + 1).drop_last() =~= sessions@.take(k as int));
        if str_eq(sessions[k].id.as_str(), id) {
            proof {
                lemma_index_prefix(sessions@, (k + 1) as int, id@);
            }
            return Some(k);
        }
        k += 1;
    }
    assert(sessions@.take(k as int) =~= sessions@);
    None
}

/// A session index found in a prefix is the index in the whole list.
proof fn lemma_index_prefix(s: Seq<Session>, k: int, id: Seq<char>)
    requires
        0 < k <= s.len(),
        session_index(s.take(k), id) is Some,
    ensures
        session_index(s, id) == session_index(s.take(k), id),
    decreases s.len() - k,
{
    if k < s.len() {
        assert(s.take(k + 1).drop_last() =~= s.take(k));
        lemma_index_prefix(s, k + 1, id);
    } else {
        assert(s.take(k) =~= s);
    }
}

/// Saves a session: updates it in place when its id is known, else puts it
/// first; keeps the latest 50.
pub fn upsert_session(sessions: Vec<Session>, session: Session) -> (r: Vec<Session>)
    ensures
        r@ == upserted(sessions@, session),
{
    let mut out = sessions;
    match index_of(&out, session.id.as_str()) {
        Some(i) => {
            out.set(i, session);
        },
        None => {
            out.insert(0, session);
        },
    }
    if out.len() > HISTORY_CAP {
        out.truncate(HISTORY_CAP);
    }
    out
}

/// The first session with this id.
pub fn find_session<'a>(sessions: &'a Vec<Session>, id: &str) -> (r: Option<&'a Session>)
    ensures
        r matches Some(s) ==> session_index(sessions@, id@) matches Some(i) && sessions@[i] == *s,
        r is None ==> session_index(sessions@, id@) is None,
{
    match index_of(sessions, id) {
        Some(i) => Some(&sessions[i]),
        None => None,
    }
}

/// The sessions whose id differs from `id`, in order.
pub open spec fn without_id(sessions: Seq<Session>, id: Seq<char>) -> Seq<Session>
    decreases sessions.len(),
{
    if sessions.len() == 0 {
        Seq::empty()
    } else {
        let prev = without_id(sessions.drop_last(), id);
        if sessions.last().id@ == id {
            prev
        } else {
            prev.push(sessions.last())
        }
    }
}

/// Deletes every session with this id; none when there was none.
pub fn delete_session(sessions: Vec<Session>, id: &str) -> (r: Option<Vec<Session>>)
    ensures
        r matches Some(v) ==> v@ == without_id(sessions@, id@) && v@.len() < sessions@.len(),
        r is None ==> without_id(sessions@, id@) == sessions@,
{
    let ghost orig = sessions@;
    let n = sessions.len();
    let mut src = sessions;
    let mut out: Vec<Session> = Vec::new();
    let mut k: usize = 0;
    assert(orig.subrange(0, orig.len() as int) =~= orig);
    while src.len() > 0
        invariant
            n == orig.len(),
            k + src@.len() == orig.len(),
            src@ == orig.subrange(k as int, orig.len() as int),
            out@ == without_id(orig.take(k as int), id@),
            out@.len() <= k,
            out@.len() == k ==> out@ == orig.take(k as int),
        decreases src@.len(),
    {
        let s = src.remove(0);
        assert(orig.take(k + 1).drop_last() =~= orig.take(k as int));
        assert(orig.take(k + 1).last() == s);
        if !str_eq(s.id.as_str(), id) {
            out.push(s);
        }
        k += 1;
        assert(orig.subrange(k as int, orig.len() as int) =~= src@);
    }
    assert(orig.take(k as int) =~= orig);
    if out.len() == n {
        return None;
    }
    Some(out)
}

/// Cutting a list after a found position keeps it found there.
proof fn lemma_index_take(u: Seq<Session>, k: int, id: Seq<char>)
    requires
        session_index(u, id) matches Some(i) && i < k,
        k <= u.len(),
    ensures
        session_index(u.take(k), id) == session_index(u, id),
{
    lemma_index_bounds(u, id);
    let t = u.take(k);
    lemma_index_bounds(t, id);
    let i = session_index(u, id)->0;
    assert(t[i] == u[i]);
    match session_index(t, id) {
        Some(j) => {
            assert(t[j] == u[j]);
            if j < i {
                assert(u[j].id@ != id);
            }
            if j > i {
                assert(t[i].id@ == id);
            }
        },
        None => {
            assert(t[i].id@ == id);
        },
    }
}

/// A saved session is found again by its id, unless it was already known
/// at a position past the 50 kept (which only a list longer than any save
/// leaves can hold).
pub proof fn lemma_saved_session_is_found(sessions: Seq<Session>, s: Session)
    requires
        session_index(sessions, s.id@) matches Some(i) ==> i < HISTORY_CAP,
    ensures
        session_index(upserted(sessions, s), s.id@) matches Some(i) && upserted(sessions, s)[i] == s,
{
    let all = match session_index(sessions, s.id@) {
        Some(i) => sessions.update(i, s),
        None => seq![s] + sessions,
    };
    match session_index(sessions, s.id@) {
        Some(i) => {
            lemma_index_bounds(sessions, s.id@);
            lemma_index_update(sessions, i, s);
        },
        None => {
            lemma_index_first(all, s.id@);
        },
    }
    lemma_index_bounds(all, s.id@);
    if all.len() > HISTORY_CAP {
        lemma_index_take(all, HISTORY_CAP as int, s.id@);
        let i = session_index(all, s.id@)->0;
        assert(all.take(HISTORY_CAP as int)[i] == all[i]);
    }
}

proof fn lemma_index_bounds(s: Seq<Session>, id: Seq<char>)
    ensures
        session_index(s, id) matches Some(i) ==> 0 <= i < s.len() && s[i].id@ == id && forall|j: int|
            0 <= j < i ==> (#[trigger] s[j]).id@ != id,
        session_index(s, id) is None ==> forall|j: int| 0 <= j < s.len() ==> (#[trigger] s[j]).id@ != id,
    decreases s.len(),
{
    if s.len() > 0 {
        lemma_index_bounds(s.drop_last(), id);
        assert forall|j: int| 0 <= j < s.len() - 1 implies s.drop_last()[j] == s[j] by {}
    }
}

proof fn lemma_index_update(s: Seq<Session>, i: int, x: Session)
    requires
        session_index(s, x.id@) == Some(i),
    ensures
        session_index(s.update(i, x), x.id@) == Some(i),
{
    lemma_index_bounds(s, x.id@);
    let u = s.update(i, x);
    lemma_index_bounds(u, x.id@);
    match session_index(u, x.id@) {
        Some(j) => {
            if j < i {
                assert(u[j] == s[j]);
            }
            if j > i {
                assert(u[i].id@ == x.id@);
            }
        },
        None => {
            assert(u[i].id@ == x.id@);
        },
    }
}

proof fn lemma_index_first(u: Seq<Session>, id: Seq<char>)
    requires
        u.len() > 0,
        u[0].id@ == id,
    ensures
        session_index(u, id) == Some(0int),
{
    lemma_index_bounds(u, id);
}

/// A deleted session is not found any more.
pub proof fn lemma_deleted_session_is_gone(sessions: Seq<Session>, id: Seq<char>)
    ensures
        session_index(without_id(sessions, id), id) is None,
    decreases sessions.len(),
{
    if sessions.len() > 0 {
        lemma_deleted_session_is_gone(sessions.drop_last(), id);
        let w0 = without_id(sessions.drop_last(), id);
        if sessions.last().id@ != id {
            assert(w0.push(sessions.last()).drop_last() =~= w0);
        }
    }
}

// ---------------------------------------------------------------------------
// Shaping the chat payload
// ---------------------------------------------------------------------------

/// The text the web layer reads from a message: its text, or the first
/// part's text that has one, or nothing.
pub open spec fn message_text_of(c: Option<Content>) -> Seq<char> {
    match c {
        Some(Content::Text(s)) => s@,
        Some(Content::Parts(ps)) => first_part_text(ps@),
        _ => Seq::empty(),
    }
}

/// The text of the first part that has one.
pub open spec fn first_part_text(ps: Seq<crate::model::ContentPart>) -> Seq<char>
    decreases ps.len(),
{
    if ps.len() == 0 {
        Seq::empty()
    } else {
        match ps[0].text {
            Some(t) => t@,
            None => first_part_text(ps.drop_first()),
        }
    }
}

/// The plain text of a message for the web layer.
pub fn message_text(m: &Message) -> (r: String)
    ensures
        r@ == message_text_of(m.content),
{
    match &m.content {
        Some(Content::Text(s)) => owned(s.as_str()),
        Some(Content::Parts(parts)) => {
            let mut k: usize = 0;
            assert(parts@.subrange(0, parts@.len() as int) =~= parts@);
            while k < parts.len()
                invariant
                    0 <= k <= parts@.len(),
                    message_text_of(m.content) == first_part_text(parts@),
                    first_part_text(parts@) == first_part_text(parts@.subrange(k as int, parts@.len() as int)),
                decreases parts@.len() - k,
            {
                assert(parts@.subrange(k as int, parts@.len() as int).drop_first() =~= parts@.subrange(
                    k + 1,
                    parts@.len() as int,
                ));
                assert(parts@.subrange(k as int, parts@.len() as int)[0] == parts@[k as int]);
                if let Some(t) = &parts[k].text {
                    return owned(t.as_str());
                }
                k += 1;
            }
            assert(parts@.subrange(k as int, parts@.len() as int) =~= Seq::<crate::model::ContentPart>::empty());
            String::new()
        },
        _ => String::new(),
    }
}

/// Older assistant answers are capped at this many characters.
pub const ASSISTANT_TEXT_CAP: usize = 400;

/// Newest text-only messages kept verbatim in a compacted payload.
pub const AUTO_RAG_KEEP: usize = 8;

/// Compaction, message by message: the first system message is set aside;
/// tool results and tool-calling assistant turns are dropped; everything
/// else is kept in order.
pub open spec fn compact_fold(ms: Seq<Message>) -> (Option<Message>, Seq<Message>)
    decreases ms.len(),
{
    if ms.len() == 0 {
        (None, Seq::empty())
    } else {
        let (sys, rest) = compact_fold(ms.drop_last());
        let m = ms.last();
        match m.role {
            Role::System => if sys is None {
                (Some(m), rest)
            } else {
                (sys, rest.push(m))
            },
            Role::Tool => (sys, rest),
            Role::Assistant => if m.tool_calls is Some {
                (sys, rest)
            } else {
                (sys, rest.push(m))
            },
            Role::User => (sys, rest.push(m)),
        }
    }
}

/// A kept message as it appears in the compacted payload: long assistant
/// answers are cut.
pub open spec fn compacted_as(kept: Message, out: Message) -> bool {
    if kept.role == Role::Assistant && message_text_of(kept.content).len() > ASSISTANT_TEXT_CAP {
        &&& out.role == kept.role
        &&& out.tool_calls == kept.tool_calls
        &&& out.tool_call_id == kept.tool_call_id
        &&& content_text(out.content) == Some(
            message_text_of(kept.content).take(ASSISTANT_TEXT_CAP as int) + seq!['…'],
        )
    } else {
        out == kept
    }
}

/// Compacts the model payload: the first system message, then the last 8
/// of the kept messages (long assistant answers cut to 400 characters).
pub fn compact_history(messages: Vec<Message>) -> (r: Vec<Message>)
    ensures
        ({
            let (sys, rest) = compact_fold(messages@);
            let start = if rest.len() > AUTO_RAG_KEEP { rest.len() - AUTO_RAG_KEEP } else { 0 };
            let tail = rest.subrange(start as int, rest.len() as int);
            let off: int = if sys is Some { 1 } else { 0 };
            &&& r@.len() == off + tail.len()
            &&& (sys matches Some(s) ==> r@[0] == s)
            &&& forall|k: int| 0 <= k < tail.len() ==> compacted_as(tail[k], #[trigger] r@[off + k])
        }),
{
    let ghost orig = messages@;
    let n = messages.len();
    let mut src = messages;
    let mut sys: Option<Message> = None;
    let mut rest: Vec<Message> = Vec::new();
    let mut k: usize = 0;
    let ghost mut kept: Seq<Message> = Seq::empty();
    assert(orig.subrange(0, orig.len() as int) =~= orig);
    while src.len() > 0
        invariant
            n == orig.len(),
            k + src@.len() == orig.len(),
            src@ == orig.subrange(k as int, orig.len() as int),
            compact_fold(orig.take(k as int)) == (sys, kept),
            rest@.len() == kept.len(),
            forall|j: int| 0 <= j < kept.len() ==> compacted_as(kept[j], #[trigger] rest@[j]),
        decreases src@.len(),
    {
        let m = src.remove(0);
        assert(orig.take(k + 1).drop_last() =~= orig.take(k as int));
        assert(orig.take(k + 1).last() == m);
        match m.role {
            Role::System => {
                if sys.is_none() {
                    sys = Some(m);
                } else {
                    let ghost rb = rest@;
                    proof {
                        kept = kept.push(m);
                    }
                    rest.push(m);
                    assert forall|j: int| 0 <= j < kept.len() implies compacted_as(kept[j], #[trigger] rest@[j]) by {
                        if j < rb.len() {
                            assert(rest@[j] == rb[j]);
                        }
                    }
                }
            },
            Role::Tool => {},
            Role::Assistant => {
                if m.tool_calls.is_none() {
                    let text = message_text(&m);
                    let ghost rb = rest@;
                    proof {
                        kept = kept.push(m);
                    }
                    let ghost mg = m;
                    if crate::text::char_count(text.as_str()) > ASSISTANT_TEXT_CAP {
                        let head = take_chars(text.as_str(), ASSISTANT_TEXT_CAP);
                        let mut cut = head;
                        crate::text::push_char(&mut cut, '…');
                        let ghost cv = cut@;
                        let mut m2 = m;
                        m2.content = Some(Content::Text(cut));
                        assert(content_text(m2.content) == Some(cv));
                        assert(cv == message_text_of(mg.content).take(ASSISTANT_TEXT_CAP as int) + seq!['…']);
                        assert(compacted_as(mg, m2));
                        rest.push(m2);
                    } else {
                        assert(compacted_as(mg, m));
                        rest.push(m);
                    }
                    assert forall|j: int| 0 <= j < kept.len() implies compacted_as(kept[j], #[trigger] rest@[j]) by {
                        if j < rb.len() {
                            assert(rest@[j] == rb[j]);
                        }
                    }
                }
            },
            Role::User => {
                let ghost rb = rest@;
                proof {
                    kept = kept.push(m);
                }
                rest.push(m);
                assert forall|j: int| 0 <= j < kept.len() implies compacted_as(kept[j], #[trigger] rest@[j]) by {
                    if j < rb.len() {
                        assert(rest@[j] == rb[j]);
                    }
                }
            },
        }
        k += 1;
        assert(orig.subrange(k as int, orig.len() as int) =~= src@);
    }
    assert(orig.take(k as int) =~= orig);
    let start = if rest.len() > AUTO_RAG_KEEP {
        rest.len() - AUTO_RAG_KEEP
    } else {
        0
    };
    let ghost rest_before = rest@;
    let tail = rest.split_off(start);
    let mut out: Vec<Message> = Vec::new();
    let has_sys = sys.is_some();
    if let Some(s) = sys {
        out.push(s);
    }
    let ghost off: int = if has_sys { 1 } else { 0 };
    let ghost out0 = out@;
    let mut tail = tail;
    out.append(&mut tail);
    assert forall|j: int| 0 <= j < kept.len() - start implies compacted_as(
        kept.subrange(start as int, kept.len() as int)[j],
        #[trigger] out@[off + j],
    ) by {
        assert(out@[off + j] == rest_before[start + j]);
    }
    out
}

/// The text inserted before the newest question with the passages the
/// manual search returned.
pub open spec fn grounding_text(summary: Seq<char>) -> Seq<char> {
    "【本轮手册检索结果——已由系统代为查询,无需再调 skill_run】\n"@ + summary
        + "\n以上原文若已覆盖问题,直接作答即可;若未覆盖,可用不同关键词再检索一次;检索不到的内容明确说手册中没有,不要凭记忆作答。"@
}

/// The index of the newest user message.
pub open spec fn last_user(messages: Seq<Message>) -> Option<int>
    decreases messages.len(),
{
    if messages.len() == 0 {
        None
    } else if messages.last().role == Role::User {
        Some(messages.len() - 1)
    } else {
        last_user(messages.drop_last())
    }
}

/// The question a manual search is run for: the text of the newest user
/// message, unless there is none or it is blank.
pub open spec fn rag_question_of(messages: Seq<Message>) -> Option<Seq<char>> {
    match last_user(messages) {
        Some(k) => if trim_seq(message_text_of(messages[k].content)).len() > 0 {
            Some(message_text_of(messages[k].content))
        } else {
            None
        },
        None => None,
    }
}

/// The newest user question, unless it is blank.
pub fn rag_question(messages: &Vec<Message>) -> (r: Option<String>)
    ensures
        match r {
            Some(q) => rag_question_of(messages@) == Some(q@),
            None => rag_question_of(messages@) is None,
        },
{
    let mut k = messages.len();
    assert(messages@.take(k as int) =~= messages@);
    while k > 0
        invariant
            k <= messages@.len(),
            last_user(messages@) == last_user(messages@.take(k as int)),
        decreases k,
    {
        assert(messages@.take(k as int).last() == messages@[k - 1]);
        assert(messages@.take(k as int).drop_last() =~= messages@.take(k - 1));
        if messages[k - 1].role == Role::User {
            let q = message_text(&messages[k - 1]);
            let t = trim(q.as_str());
            if t.as_str().is_empty() {
                return None;
            }
            return Some(q);
        }
        k -= 1;
    }
    None
}

/// The arguments of the manual search: skill `manual-rag` with the question.
pub fn rag_args(question: &str) -> (r: JsonArgs)
    ensures
        crate::executors::arg_str(r.fields@, "id"@) == Some("manual-rag"@),
        crate::executors::arg_str(r.fields@, "args"@) == Some(question@),
        r.fields@.len() == 2,
        r.fields@[0].0@ == "id"@ && r.fields@[1].0@ == "args"@,
{
    let mut fields: Vec<(String, Option<String>)> = Vec::new();
    fields.push((owned("id"), Some(owned("manual-rag"))));
    fields.push((owned("args"), Some(owned(question))));
    proof {
        reveal_strlit("id");
        reveal_strlit("args");
        assert("id"@ != "args"@) by {
            assert("id"@.len() != "args"@.len());
        }
        assert(fields@.drop_first()[0] == fields@[1]);
        reveal_with_fuel(crate::executors::arg_str, 3);
    }
    JsonArgs { fields }
}

/// Inserts the passages of a successful, non-blank search right before the
/// last message.
pub fn insert_grounding(messages: &mut Vec<Message>, outcome: &ToolOutcome)
    ensures
        !outcome.ok || trim_seq(outcome.summary@).len() == 0 ==> final(messages)@ == old(messages)@,
        outcome.ok && trim_seq(outcome.summary@).len() > 0 ==> ({
            let g = final(messages)@;
            let o = old(messages)@;
            let at = if o.len() == 0 { 0 } else { o.len() - 1 };
            &&& g.len() == o.len() + 1
            &&& g.take(at) == o.take(at)
            &&& o.len() > 0 ==> g.last() == o.last()
            &&& g[at].role == Role::User
            &&& content_text(g[at].content) == Some(grounding_text(outcome.summary@))
            &&& g[at].tool_calls is None
            &&& g[at].tool_call_id is None
        }),
{
    let t = trim(outcome.summary.as_str());
    if !outcome.ok || t.as_str().is_empty() {
        return;
    }
    let text = cat(
        &vec![
            "【本轮手册检索结果——已由系统代为查询,无需再调 skill_run】\n",
            outcome.summary.as_str(),
            "\n以上原文若已覆盖问题,直接作答即可;若未覆盖,可用不同关键词再检索一次;检索不到的内容明确说手册中没有,不要凭记忆作答。",
        ],
    );
    proof {
        reveal_with_fuel(flat, 4);
    }
    let grounding = Message { role: Role::User, content: Some(Content::Text(text)), tool_calls: None, tool_call_id: None };
    let user = messages.pop();
    messages.push(grounding);
    if let Some(u) = user {
        messages.push(u);
    }
    proof {
        let o = old(messages)@;
        if o.len() > 0 {
            assert(messages@.take(o.len() - 1) =~= o.take(o.len() - 1));
        }
    }
}

/// The project conventions appended to the system prompt.
pub open spec fn agents_snippet(content: Seq<char>) -> Seq<char> {
    "\n\n--- 项目 AGENTS.md 约定 ---\n"@ + content + "\n--- AGENTS.md 结束 ---"@
}

/// The index of the first system message.
pub open spec fn first_system(ms: Seq<Message>) -> Option<int>
    decreases ms.len(),
{
    if ms.len() == 0 {
        None
    } else {
        match first_system(ms.drop_last()) {
            Some(i) => Some(i),
            None => if ms.last().role == Role::System {
                Some(ms.len() - 1)
            } else {
                None
            },
        }
    }
}

/// `r` is `orig` with the project conventions `c` added: to the first
/// system message's text (replacing non-text content with the trimmed
/// snippet), or as a new first system message when there is none.
pub open spec fn injected(orig: Seq<Message>, c: Seq<char>, r: Seq<Message>) -> bool {
    match first_system(orig) {
        None => r.len() == orig.len() + 1 && r.drop_first() == orig && r[0].role == Role::System
            && content_text(r[0].content) == Some(trim_seq(agents_snippet(c))),
        Some(i) => r.len() == orig.len() && (forall|j: int| 0 <= j < r.len() && j != i ==> #[trigger] r[j] == orig[j])
            && r[i].role == Role::System && r[i].tool_calls == orig[i].tool_calls && r[i].tool_call_id
            == orig[i].tool_call_id && content_text(r[i].content) == Some(
            match content_text(orig[i].content) {
                Some(s) => s + agents_snippet(c),
                None => trim_seq(agents_snippet(c)),
            },
        ),
    }
}

/// Adds the project's AGENTS.md (when there is one) to the first system
/// message: appended to its text, or replacing non-text content with the
/// trimmed snippet; without a system message, a new one goes first.
pub fn inject_agents_md(messages: Vec<Message>, agents_md: Option<String>) -> (r: Vec<Message>)
    ensures
        agents_md is None ==> r@ == messages@,
        agents_md is Some ==> injected(messages@, agents_md->0@, r@),
{
    let content = match agents_md {
        None => return messages,
        Some(c) => c,
    };
    let snippet = cat(&vec!["\n\n--- 项目 AGENTS.md 约定 ---\n", content.as_str(), "\n--- AGENTS.md 结束 ---"]);
    proof {
        reveal_with_fuel(flat, 4);
    }
    let ghost orig = messages@;
    let mut ms = messages;
    let mut k: usize = 0;
    let mut found = false;
    while k < ms.len() && !found
        invariant
            0 <= k <= ms@.len(),
            ms@ == orig,
            orig == messages@,
            agents_md is Some,
            content@ == agents_md->0@,
            snippet@ == agents_snippet(content@),
            !found ==> first_system(ms@.take(k as int)) is None,
            found ==> k < ms@.len() && first_system(orig) == Some(k as int) && orig[k as int].role == Role::System,
        decreases ms@.len() - k + if found { 0int } else { 1int },
    {
        assert(ms@.take(k + 1).drop_last() =~= ms@.take(k as int));
        if ms[k].role == Role::System {
            proof {
                assert(ms@.take(k + 1).last() == ms@[k as int]);
                assert(first_system(ms@.take(k + 1)) == Some(k as int));
                lemma_first_system_prefix(ms@, (k + 1) as int);
            }
            found = true;
        } else {
            k += 1;
        }
    }
    if found {
        let mut m = ms.remove(k);
        assert(m == orig[k as int]);
        let new_text = match &m.content {
            Some(Content::Text(s)) => concat(s.as_str(), snippet.as_str()),
            _ => trim(snippet.as_str()),
        };
        assert(new_text@ == match content_text(orig[k as int].content) {
            Some(s) => s + agents_snippet(content@),
            None => trim_seq(agents_snippet(content@)),
        });
        m.content = Some(Content::Text(new_text));
        let ghost mv = m;
        ms.insert(k, m);
        assert(ms@ =~= orig.update(k as int, mv));
        assert(ms@.len() == orig.len());
        assert(forall|j: int| 0 <= j < ms@.len() && j != k ==> #[trigger] ms@[j] == orig[j]);
        assert(ms@[k as int].role == Role::System);
        assert(ms@[k as int].tool_calls == orig[k as int].tool_calls);
        assert(ms@[k as int].tool_call_id == orig[k as int].tool_call_id);
        assert(content_text(ms@[k as int].content) == Some(new_text@));
        assert(injected(orig, content@, ms@));
        return ms;
    }
    assert(ms@.take(k as int) =~= ms@);
    let text = trim(snippet.as_str());
    ms.insert(0, Message::system(text.as_str()));
    assert(ms@.drop_first() =~= orig);
    ms
}

/// The first system message found in a prefix is the first overall.
proof fn lemma_first_system_prefix(s: Seq<Message>, k: int)
    requires
        0 < k <= s.len(),
        first_system(s.take(k)) is Some,
    ensures
        first_system(s) == first_system(s.take(k)),
    decreases s.len() - k,
{
    if k < s.len() {
        assert(s.take(k + 1).drop_last() =~= s.take(k));
        lemma_first_system_prefix(s, k + 1);
    } else {
        assert(s.take(k) =~= s);
    }
}

/// Overrides a model configuration with a server-side endpoint: its base
/// URL and API key, each when given.
pub fn apply_endpoint(cfg: &mut ModelConfig, base_url: Option<String>, api_key: Option<String>)
    ensures
        final(cfg).base_url@ == (match base_url {
            Some(u) => u@,
            None => old(cfg).base_url@,
        }),
        final(cfg).api_key@ == (match api_key {
            Some(k) => k@,
            None => old(cfg).api_key@,
        }),
        final(cfg).model == old(cfg).model,
        final(cfg).native == old(cfg).native,
        final(cfg).no_think == old(cfg).no_think,
        final(cfg).num_ctx == old(cfg).num_ctx,
{
    if let Some(u) = base_url {
        cfg.base_url = u;
    }
    if let Some(k) = api_key {
        cfg.api_key = k;
    }
}

} // verus!
