//! Sessions of the local web front end: a login with the password issues a
//! session cookie, and a websocket is let through when its session cookie
//! names a session that the cache of recent sessions still holds.

use vstd::prelude::*;
use lru::LruCache;
use rand::RngCore;
use rand::SeedableRng;
use crate::text::{chars_of, hex_upper, parse_unsigned, parse_unsigned_spec, push_hex_upper};

verus! {

/// The LRU cache of the `lru` crate.
#[verifier::external_type_specification]
#[verifier::external_body]
#[verifier::reject_recursive_types(K)]
#[verifier::reject_recursive_types(V)]
#[verifier::reject_recursive_types(S)]
pub struct ExLruCache<K, V, S>(LruCache<K, V, S>);

/// The hasher that an LRU cache uses by default.
#[verifier::external_type_specification]
#[verifier::external_body]
pub struct ExDefaultHasher(lru::DefaultHasher);

/// The entries of a cache, most recently used first.
pub uninterp spec fn lru_entries(c: LruCache<u64, u64>) -> Seq<(u64, u64)>;

/// The capacity that a cache was made with.
pub uninterp spec fn lru_capacity(c: LruCache<u64, u64>) -> nat;

/// The position of the entry with key `k`, or -1.
pub open spec fn key_index(s: Seq<(u64, u64)>, k: u64) -> int
    decreases s.len(),
{
    if s.len() == 0 {
        -1
    } else if s.last().0 == k {
        s.len() - 1
    } else {
        key_index(s.drop_last(), k)
    }
}

/// Whether the entries hold key `k`.
pub open spec fn has_key(s: Seq<(u64, u64)>, k: u64) -> bool {
    exists|i: int| 0 <= i < s.len() && s[i].0 == k
}

/// Entries as a cache keeps them: distinct keys, at most `cap` of them.
pub open spec fn entries_wf(s: Seq<(u64, u64)>, cap: nat) -> bool {
    &&& cap > 0
    &&& s.len() <= cap
    &&& forall|i: int, j: int| 0 <= i < j < s.len() ==> s[i].0 != s[j].0
}

/// `LruCache::push`: the new entry goes first; an entry with the same key is
/// replaced and returned; else, in a full cache, the least recently used
/// entry is dropped and returned.
pub open spec fn push_spec(s: Seq<(u64, u64)>, cap: nat, k: u64, v: u64) -> (Seq<(u64, u64)>, Option<
    (u64, u64),
>) {
    let i = key_index(s, k);
    if i >= 0 {
        (seq![(k, v)] + s.remove(i), Some((k, s[i].1)))
    } else if s.len() >= cap && s.len() > 0 {
        (seq![(k, v)] + s.drop_last(), Some(s.last()))
    } else {
        (seq![(k, v)] + s, None)
    }
}

/// `LruCache::get`: the value of the entry with key `k`, which becomes the
/// most recently used.
pub open spec fn get_spec(s: Seq<(u64, u64)>, k: u64) -> (Seq<(u64, u64)>, Option<u64>) {
    let i = key_index(s, k);
    if i >= 0 {
        (seq![s[i]] + s.remove(i), Some(s[i].1))
    } else {
        (s, None)
    }
}

/// Makes a cache with room for `cap` entries.
///
/// Trusted: calls `LruCache::new`, whose source makes an empty cache that
/// holds at most `cap` entries.
#[verifier::external_body]
fn lru_new(cap: usize) -> (res: LruCache<u64, u64>)
    requires
        cap > 0,
    ensures
        lru_entries(res) == Seq::<(u64, u64)>::empty(),
        lru_capacity(res) == cap,
{
    LruCache::new(std::num::NonZeroUsize::new(cap).unwrap())
}

/// Puts an entry in front of the cache.
///
/// Trusted: calls `LruCache::push`. Its source updates and moves to the front
/// an entry with the same key, returning the key with the old value; else,
/// when the cache is full, it takes out the last (least recently used) entry
/// and returns it; the new entry is attached at the front.
#[verifier::external_body]
fn lru_push(c: &mut LruCache<u64, u64>, k: u64, v: u64) -> (res: Option<(u64, u64)>)
    requires
        entries_wf(lru_entries(*old(c)), lru_capacity(*old(c))),
    ensures
        lru_capacity(*final(c)) == lru_capacity(*old(c)),
        (lru_entries(*final(c)), res) == push_spec(
            lru_entries(*old(c)),
            lru_capacity(*old(c)),
            k,
            v,
        ),
{
    c.push(k, v)
}

/// Looks a key up, making its entry the most recently used.
///
/// Trusted: calls `LruCache::get`. Its source returns the value of the entry
/// with the key and moves that entry to the front; without such an entry it
/// returns `None` and leaves the cache as it is.
#[verifier::external_body]
fn lru_get(c: &mut LruCache<u64, u64>, k: u64) -> (res: Option<u64>)
    requires
        entries_wf(lru_entries(*old(c)), lru_capacity(*old(c))),
    ensures
        lru_capacity(*final(c)) == lru_capacity(*old(c)),
        (lru_entries(*final(c)), res) == get_spec(lru_entries(*old(c)), k),
{
    c.get(&k).copied()
}

/// What `StdRng::seed_from_u64(seed).next_u64()` gives.
pub uninterp spec fn seeded_u64(seed: u64) -> u64;

/// The first number drawn from a generator seeded with `seed`.
///
/// Trusted: calls `StdRng::seed_from_u64` and then `RngCore::next_u64` of
/// the `rand` crate. Its source expands the seed with a fixed PCG32 stream
/// into a ChaCha12 key, so the number depends on the seed alone; which number
/// it is is left to the name `seeded_u64`.
#[verifier::external_body]
fn draw_session_id(seed: u64) -> (res: u64)
    ensures
        res == seeded_u64(seed),
{
    rand::rngs::StdRng::seed_from_u64(seed).next_u64()
}

proof fn lemma_key_index(s: Seq<(u64, u64)>, k: u64)
    ensures
        -1 <= key_index(s, k) < s.len(),
        key_index(s, k) >= 0 ==> s[key_index(s, k)].0 == k,
        key_index(s, k) < 0 <==> !has_key(s, k),
    decreases s.len(),
{
    if s.len() > 0 {
        lemma_key_index(s.drop_last(), k);
        if key_index(s, k) < 0 {
            assert forall|i: int| 0 <= i < s.len() implies s[i].0 != k by {
                assert(s[i] == s.drop_last()[i] || i == s.len() - 1);
            }
        } else if s.last().0 != k {
            assert(s.drop_last()[key_index(s, k)] == s[key_index(s, k)]);
        }
    }
}

proof fn lemma_push_wf(s: Seq<(u64, u64)>, cap: nat, k: u64, v: u64)
    requires
        entries_wf(s, cap),
    ensures
        entries_wf(push_spec(s, cap, k, v).0, cap),
        push_spec(s, cap, k, v).0[0] == (k, v),
{
    lemma_key_index(s, k);
    let i = key_index(s, k);
    let t = push_spec(s, cap, k, v).0;
    if i >= 0 {
        let r = s.remove(i);
        assert(t == seq![(k, v)] + r);
        assert forall|a: int, b: int| 0 <= a < b < t.len() implies t[a].0 != t[b].0 by {
            if a == 0 {
                assert(t[b] == r[b - 1]);
                if b - 1 < i {
                    assert(r[b - 1] == s[b - 1]);
                } else {
                    assert(r[b - 1] == s[b]);
                }
            } else {
                assert(t[a] == r[a - 1] && t[b] == r[b - 1]);
                let sa = if a - 1 < i { a - 1 } else { a };
                let sb = if b - 1 < i { b - 1 } else { b };
                assert(r[a - 1] == s[sa] && r[b - 1] == s[sb]);
            }
        }
    } else if s.len() >= cap && s.len() > 0 {
        let r = s.drop_last();
        assert forall|a: int, b: int| 0 <= a < b < t.len() implies t[a].0 != t[b].0 by {
            if a == 0 {
                assert(t[b] == s[b - 1]);
            } else {
                assert(t[a] == s[a - 1] && t[b] == s[b - 1]);
            }
        }
    } else {
        assert forall|a: int, b: int| 0 <= a < b < t.len() implies t[a].0 != t[b].0 by {
            if a == 0 {
                assert(t[b] == s[b - 1]);
            } else {
                assert(t[a] == s[a - 1] && t[b] == s[b - 1]);
            }
        }
    }
}

proof fn lemma_get_wf(s: Seq<(u64, u64)>, cap: nat, k: u64)
    requires
        entries_wf(s, cap),
    ensures
        entries_wf(get_spec(s, k).0, cap),
{
    lemma_key_index(s, k);
    let i = key_index(s, k);
    let t = get_spec(s, k).0;
    if i >= 0 {
        let r = s.remove(i);
        assert forall|a: int, b: int| 0 <= a < b < t.len() implies t[a].0 != t[b].0 by {
            if a == 0 {
                assert(t[b] == r[b - 1]);
                if b - 1 < i {
                    assert(r[b - 1] == s[b - 1]);
                } else {
                    assert(r[b - 1] == s[b]);
                }
            } else {
                assert(t[a] == r[a - 1] && t[b] == r[b - 1]);
                let sa = if a - 1 < i { a - 1 } else { a };
                let sb = if b - 1 < i { b - 1 } else { b };
                assert(r[a - 1] == s[sa] && r[b - 1] == s[sb]);
            }
        }
    }
}

/// The sessions that the front end has issued and still remembers.
pub struct AuthDb {
    cache: LruCache<u64, u64>,
}

impl AuthDb {
    /// The remembered sessions (id, time of login), most recently used first.
    pub closed spec fn entries(&self) -> Seq<(u64, u64)> {
        lru_entries(self.cache)
    }

    /// How many sessions are remembered at most.
    pub closed spec fn capacity(&self) -> nat {
        lru_capacity(self.cache)
    }

    /// Distinct session ids, no more of them than the capacity.
    pub open spec fn wf(&self) -> bool {
        entries_wf(self.entries(), self.capacity())
    }

    /// No session, room for `capacity` of them.
    pub fn new(capacity: usize) -> (res: Self)
        requires
            capacity > 0,
        ensures
            res.wf(),
            res.entries() == Seq::<(u64, u64)>::empty(),
            res.capacity() == capacity,
    {
        AuthDb { cache: lru_new(capacity) }
    }

    /// Remembers a session as the most recently used one; returns the entry
    /// that it replaced or that made room for it, if any.
    pub fn push(&mut self, session_id: u64, stamp: u64) -> (res: Option<(u64, u64)>)
        requires
            old(self).wf(),
        ensures
            final(self).wf(),
            final(self).capacity() == old(self).capacity(),
            (final(self).entries(), res) == push_spec(
                old(self).entries(),
                old(self).capacity(),
                session_id,
                stamp,
            ),
    {
        proof {
            lemma_push_wf(self.entries(), self.capacity(), session_id, stamp);
        }
        lru_push(&mut self.cache, session_id, stamp)
    }

    /// Looks a session up, making it the most recently used one.
    pub fn get(&mut self, session_id: u64) -> (res: Option<u64>)
        requires
            old(self).wf(),
        ensures
            final(self).wf(),
            final(self).capacity() == old(self).capacity(),
            (final(self).entries(), res) == get_spec(old(self).entries(), session_id),
    {
        proof {
            lemma_get_wf(self.entries(), self.capacity(), session_id);
        }
        lru_get(&mut self.cache, session_id)
    }
}

/// The password of the front end, as bytes: `edwgiz`.
pub open spec fn web_password() -> Seq<u8> {
    seq![101u8, 100u8, 119u8, 103u8, 105u8, 122u8]
}

/// The `Set-Cookie` value for a session:
/// `session_id=<id in upper-case hex>; Path=/; Max-Age=2147483647`.
pub open spec fn cookie_spec(session_id: u64) -> Seq<char> {
    "session_id="@ + hex_upper(session_id as nat) + "; Path=/; Max-Age=2147483647"@
}

/// Remembers a new session, logged in at `now`, and returns its
/// `Set-Cookie` value.
pub fn issue_session(session_id: u64, now: u64, db: &mut AuthDb) -> (res: String)
    requires
        old(db).wf(),
    ensures
        final(db).wf(),
        final(db).capacity() == old(db).capacity(),
        final(db).entries() == push_spec(old(db).entries(), old(db).capacity(), session_id, now).0,
        res@ == cookie_spec(session_id),
{
    db.push(session_id, now);
    let mut cookie = String::from_str("session_id=");
    push_hex_upper(&mut cookie, session_id);
    cookie.append("; Path=/; Max-Age=2147483647");
    cookie
}

fn is_web_password(body: &[u8]) -> (res: bool)
    ensures
        res == (body@ == web_password()),
{
    let ok = body.len() == 6 && body[0] == 101 && body[1] == 100 && body[2] == 119 && body[3]
        == 103 && body[4] == 105 && body[5] == 122;
    proof {
        if ok {
            assert(body@ =~= web_password());
        } else if body@ == web_password() {
            assert(body@[0] == 101 && body@[5] == 122);
        }
    }
    ok
}

/// A login: with the password as body, a session whose id is drawn from a
/// generator seeded with `now` is remembered and its `Set-Cookie` value is
/// returned; with any other body nothing changes and `None` is returned.
pub fn login(body: &[u8], now: u64, db: &mut AuthDb) -> (res: Option<String>)
    requires
        old(db).wf(),
    ensures
        final(db).wf(),
        final(db).capacity() == old(db).capacity(),
        body@ == web_password() ==> (res matches Some(c) && c@ == cookie_spec(seeded_u64(now))),
        body@ == web_password() ==> final(db).entries() == push_spec(
            old(db).entries(),
            old(db).capacity(),
            seeded_u64(now),
            now,
        ).0,
        body@ != web_password() ==> res is None && final(db).entries() == old(db).entries(),
{
    if is_web_password(body) {
        let session_id = draw_session_id(now);
        Some(issue_session(session_id, now, db))
    } else {
        None
    }
}

/// The session id that a session cookie value names: upper- or lower-case
/// hex, as `u64::from_str_radix(_, 16)` reads it.
pub open spec fn cookie_session_id(value: Seq<char>) -> Option<u64> {
    match parse_unsigned_spec(value, 16, 0xffff_ffff_ffff_ffff) {
        Some(v) => Some(v as u64),
        None => None,
    }
}

/// The session that a websocket request names, if any.
pub open spec fn requested_session(session_id: Option<String>) -> Option<u64> {
    match session_id {
        Some(s) => cookie_session_id(s@),
        None => None,
    }
}

/// Whether a websocket request may be upgraded: its `session_id` cookie must
/// name a remembered session, which then becomes the most recently used one.
pub fn authorize(session_id: Option<String>, db: &mut AuthDb) -> (res: bool)
    requires
        old(db).wf(),
    ensures
        final(db).wf(),
        final(db).capacity() == old(db).capacity(),
        res == (requested_session(session_id) is Some && has_key(
            old(db).entries(),
            requested_session(session_id).unwrap(),
        )),
        requested_session(session_id) matches Some(k) ==> final(db).entries() == get_spec(
            old(db).entries(),
            k,
        ).0,
        requested_session(session_id) is None ==> final(db).entries() == old(db).entries(),
{
    match session_id {
        None => false,
        Some(s) => {
            let cs = chars_of(s.as_str());
            assert(cs@.subrange(0, cs@.len() as int) == cs@);
            match parse_unsigned(&cs, 0, cs.len(), 16, 0xffff_ffff_ffff_ffff) {
                None => false,
                Some(k) => {
                    proof {
                        lemma_key_index(db.entries(), k);
                    }
                    db.get(k).is_some()
                },
            }
        },
    }
}

/// A session that a login issues lets a websocket through: the value of the
/// cookie that the login sets names the session, and the session is among
/// those remembered right after the login.
pub proof fn lemma_issued_session_authorizes(
    entries: Seq<(u64, u64)>,
    cap: nat,
    session_id: u64,
    now: u64,
)
    requires
        entries_wf(entries, cap),
    ensures
        cookie_session_id(hex_upper(session_id as nat)) == Some(session_id),
        has_key(push_spec(entries, cap, session_id, now).0, session_id),
{
    crate::text::lemma_hex_upper_reads_back(session_id as nat);
    lemma_push_wf(entries, cap, session_id, now);
    assert(push_spec(entries, cap, session_id, now).0[0].0 == session_id);
}

} // verus!
