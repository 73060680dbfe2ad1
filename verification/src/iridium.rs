//! The Iridium server: the session cookie that its login answer sets, and
//! the retry rule of a call to it.

use vstd::prelude::*;
use crate::text::{chars_of, string_of};

verus! {

/// The text that opens the session cookie.
pub open spec fn session_key() -> Seq<char> {
    "ir-session-id="@
}

/// A match of `ir-session-id=[^;]+` starts at `i`.
pub open spec fn cookie_match_at(s: Seq<char>, i: int) -> bool {
    &&& 0 <= i
    &&& i + 15 <= s.len()
    &&& s.subrange(i, i + 14) == session_key()
    &&& s[i + 14] != ';'
}

/// The leftmost start at or after `i` of a match of `ir-session-id=[^;]+`.
pub open spec fn first_cookie_match(s: Seq<char>, i: int) -> Option<int>
    decreases s.len() - i,
{
    if i < 0 || i >= s.len() {
        None
    } else if cookie_match_at(s, i) {
        Some(i)
    } else {
        first_cookie_match(s, i + 1)
    }
}

/// Where the run of characters other than `;` that starts at `j` ends.
pub open spec fn run_end(s: Seq<char>, j: int) -> int
    decreases s.len() - j,
{
    if 0 <= j < s.len() && s[j] != ';' {
        run_end(s, j + 1)
    } else {
        j
    }
}

/// The session cookie in a `Set-Cookie` header: the leftmost match of
/// `(ir-session-id=[^;]+)`, the value running up to the next `;` or the end.
pub open spec fn session_cookie_spec(s: Seq<char>) -> Option<Seq<char>> {
    match first_cookie_match(s, 0) {
        Some(i) => Some(s.subrange(i, run_end(s, i + 14))),
        None => None,
    }
}

proof fn lemma_run_end(s: Seq<char>, j: int)
    requires
        0 <= j <= s.len(),
    ensures
        j <= run_end(s, j) <= s.len(),
        forall|m: int| j <= m < run_end(s, j) ==> s[m] != ';',
        run_end(s, j) == s.len() || s[run_end(s, j)] == ';',
    decreases s.len() - j,
{
    if j < s.len() && s[j] != ';' {
        lemma_run_end(s, j + 1);
    }
}

proof fn lemma_first_cookie_match(s: Seq<char>, i: int)
    ensures
        first_cookie_match(s, i) matches Some(k) ==> cookie_match_at(s, k),
    decreases s.len() - i,
{
    if 0 <= i < s.len() && !cookie_match_at(s, i) {
        lemma_first_cookie_match(s, i + 1);
    }
}

/// The session cookie that is picked is `ir-session-id=` followed by at
/// least one character, and holds no `;`.
pub proof fn lemma_session_cookie_shape(s: Seq<char>)
    ensures
        session_cookie_spec(s) matches Some(c) ==> c.len() > 14 && c.take(14) == session_key()
            && !c.contains(';'),
{
    reveal_strlit("ir-session-id=");
    lemma_first_cookie_match(s, 0);
    if let Some(i) = first_cookie_match(s, 0) {
        lemma_run_end(s, i + 14);
        lemma_run_end(s, i + 15);
        assert(run_end(s, i + 14) == run_end(s, i + 15));
        let c = s.subrange(i, run_end(s, i + 14));
        assert(run_end(s, i + 14) > i + 14);
        assert(c.take(14) =~= s.subrange(i, i + 14));
        assert forall|m: int| 0 <= m < c.len() implies c[m] != ';' by {
            if m < 14 {
                assert(c[m] == session_key()[m]);
            } else {
                assert(c[m] == s[i + m]);
            }
        }
    }
}

proof fn lemma_run_end_at(s: Seq<char>, j: int, e: int)
    requires
        0 <= j <= e <= s.len(),
        forall|m: int| j <= m < e ==> s[m] != ';',
        e == s.len() || s[e] == ';',
    ensures
        run_end(s, j) == e,
    decreases e - j,
{
    if j < e {
        lemma_run_end_at(s, j + 1, e);
    }
}

/// The whole value is picked: for a header that opens with
/// `ir-session-id=<value>`, where the value is not empty and holds no `;`,
/// and goes on with `;` or ends, the cookie picked is
/// `ir-session-id=<value>`, however long the value.
pub proof fn lemma_session_cookie_whole_value(value: Seq<char>, rest: Seq<char>)
    requires
        value.len() > 0,
        !value.contains(';'),
        rest.len() == 0 || rest[0] == ';',
    ensures
        session_cookie_spec("ir-session-id="@ + value + rest) == Some("ir-session-id="@ + value),
{
    reveal_strlit("ir-session-id=");
    let s = "ir-session-id="@ + value + rest;
    assert(s.subrange(0, 14) =~= session_key());
    assert(s[14] == value[0]);
    assert(cookie_match_at(s, 0));
    let e: int = 14 + value.len() as int;
    assert forall|m: int| 14 <= m < e implies s[m] != ';' by {
        assert(s[m] == value[m - 14]);
    }
    if rest.len() > 0 {
        assert(s[e] == rest[0]);
    }
    lemma_run_end_at(s, 14, e);
    assert(s.subrange(0, e) =~= "ir-session-id="@ + value);
}

proof fn lemma_first_cookie_match_leftmost(s: Seq<char>, i: int)
    requires
        0 <= i,
    ensures
        first_cookie_match(s, i) matches Some(k) ==> i <= k && forall|j: int|
            i <= j < k ==> !#[trigger] cookie_match_at(s, j),
        first_cookie_match(s, i) is None ==> forall|j: int|
            i <= j < s.len() ==> !#[trigger] cookie_match_at(s, j),
    decreases s.len() - i,
{
    if i < s.len() && !cookie_match_at(s, i) {
        lemma_first_cookie_match_leftmost(s, i + 1);
    }
}

/// The picked cookie is the leftmost match, and it runs to the next `;` or
/// to the end of the header: it stands in the header at a place `k` where
/// the key is followed by a character other than `;`, there is no such
/// place before `k`, and what follows the cookie is `;` or nothing. When
/// no cookie is picked, there is no such place at all.
pub proof fn lemma_session_cookie_leftmost_run(s: Seq<char>)
    ensures
        session_cookie_spec(s) matches Some(c) ==> {
            let k = first_cookie_match(s, 0).unwrap();
            &&& cookie_match_at(s, k)
            &&& forall|j: int| 0 <= j < k ==> !#[trigger] cookie_match_at(s, j)
            &&& k + c.len() <= s.len()
            &&& s.subrange(k, k + c.len()) == c
            &&& (k + c.len() == s.len() || s[k + c.len()] == ';')
        },
        session_cookie_spec(s) is None ==> forall|j: int|
            0 <= j < s.len() ==> !#[trigger] cookie_match_at(s, j),
{
    lemma_first_cookie_match(s, 0);
    lemma_first_cookie_match_leftmost(s, 0);
    if let Some(i) = first_cookie_match(s, 0) {
        lemma_run_end(s, i + 14);
        let e = run_end(s, i + 14);
        let c = s.subrange(i, e);
        assert(e == s.len() || s[e] == ';');
        assert(s.subrange(i, i + c.len()) == c);
    }
}

fn key_at(cs: &Vec<char>, key: &Vec<char>, i: usize) -> (res: bool)
    requires
        key@ == session_key(),
    ensures
        res == cookie_match_at(cs@, i as int),
{
    proof {
        reveal_strlit("ir-session-id=");
    }
    if i > cs.len() || cs.len() - i < 15 {
        return false;
    }
    let mut k: usize = 0;
    while k < 14
        invariant
            k <= 14,
            i + 15 <= cs.len(),
            key@ == session_key(),
            key@.len() == 14,
            forall|m: int| 0 <= m < k ==> cs@[i + m] == key@[m],
        decreases 14 - k,
    {
        if cs[i + k] != key[k] {
            assert(cs@.subrange(i as int, i + 14)[k as int] != session_key()[k as int]);
            return false;
        }
        k = k + 1;
    }
    assert(cs@.subrange(i as int, i + 14) =~= session_key());
    cs[i + 14] != ';'
}

/// Picks the session cookie `ir-session-id=<value>` out of a `Set-Cookie`
/// header: the leftmost place where the key is followed by at least one
/// character other than `;`, up to the next `;` or the end.
pub fn session_cookie(set_cookie: &str) -> (res: Option<String>)
    ensures
        session_cookie_spec(set_cookie@) matches Some(c) ==> res matches Some(r) && r@ == c,
        session_cookie_spec(set_cookie@) is None ==> res is None,
{
    let cs = chars_of(set_cookie);
    let key = chars_of("ir-session-id=");
    let mut i: usize = 0;
    while i < cs.len()
        invariant
            i <= cs.len(),
            key@ == session_key(),
            cs@ == set_cookie@,
            first_cookie_match(cs@, 0) == first_cookie_match(cs@, i as int),
        decreases cs.len() - i,
    {
        if key_at(&cs, &key, i) {
            let mut j = i + 14;
            while j < cs.len() && cs[j] != ';'
                invariant
                    i + 14 <= j <= cs.len(),
                    cs@ == set_cookie@,
                    first_cookie_match(cs@, 0) == Some(i as int),
                    run_end(cs@, i + 14) == run_end(cs@, j as int),
                decreases cs.len() - j,
            {
                j = j + 1;
            }
            return Some(string_of(&cs, i, j));
        }
        i = i + 1;
    }
    None
}

/// What a call to the Iridium server does next.
#[derive(Debug, PartialEq, Eq, Structural, Clone, Copy)]
pub enum RemoteAction {
    /// Send the request (again).
    Send,
    /// Log in again, then report whether that worked.
    Relogin,
    /// The server answered 200: the call succeeded.
    Accept,
    /// The call failed.
    Fail,
}

/// What a call to the Iridium server meets after sending a request.
#[derive(Debug, PartialEq, Eq, Structural, Clone, Copy)]
pub enum RemoteEvent {
    /// The status of the answer, `None` when no answer came.
    Response(Option<u16>),
    /// Whether a new login worked.
    Relogin(bool),
}

/// Using up an attempt: one request less, and another send while any is
/// left.
pub open spec fn consume_spec(left: nat) -> (nat, RemoteAction) {
    let l: nat = if left > 0 {
        (left - 1) as nat
    } else {
        0
    };
    (l, if l > 0 {
        RemoteAction::Send
    } else {
        RemoteAction::Fail
    })
}

/// One step of a call, from the requests still allowed: 200 succeeds, 406
/// asks for a new login, any other status uses up the attempt, no answer
/// fails; a failed login fails, a successful one uses up the attempt.
pub open spec fn remote_step(left: nat, event: RemoteEvent) -> (nat, RemoteAction) {
    match event {
        RemoteEvent::Response(None) => (left, RemoteAction::Fail),
        RemoteEvent::Response(Some(code)) => if code == 200 {
            (left, RemoteAction::Accept)
        } else if code == 406 {
            (left, RemoteAction::Relogin)
        } else {
            consume_spec(left)
        },
        RemoteEvent::Relogin(false) => (left, RemoteAction::Fail),
        RemoteEvent::Relogin(true) => consume_spec(left),
    }
}

/// How many more requests a call sends when it meets `events` in turn.
pub open spec fn requests_resent(left: nat, events: Seq<RemoteEvent>) -> nat
    decreases events.len(),
{
    if events.len() == 0 {
        0
    } else {
        let (l, a) = remote_step(left, events[0]);
        (if a == RemoteAction::Send {
            1nat
        } else {
            0nat
        }) + requests_resent(l, events.drop_first())
    }
}

proof fn lemma_requests_resent_bound(left: nat, events: Seq<RemoteEvent>)
    ensures
        requests_resent(left, events) <= (if left > 0 {
            (left - 1) as nat
        } else {
            0
        }),
    decreases events.len(),
{
    if events.len() > 0 {
        let (l, a) = remote_step(left, events[0]);
        lemma_requests_resent_bound(l, events.drop_first());
    }
}

/// A call to the Iridium server sends at most two requests, whatever
/// answers and logins it meets: the first one, and at most one more.
pub proof fn lemma_call_sends_at_most_two(events: Seq<RemoteEvent>)
    ensures
        1 + requests_resent(2, events) <= 2,
{
    lemma_requests_resent_bound(2, events);
}

/// The attempts of one call to the Iridium server: at most two requests,
/// a new login after a 406 answer, and no further try after a failed
/// connection or a failed login.
pub struct RemoteAttempts {
    left: u32,
}

impl RemoteAttempts {
    /// The requests that this call may still send, the current one included.
    pub closed spec fn left(&self) -> nat {
        self.left as nat
    }

    /// A new call, which may send two requests.
    pub fn new() -> (res: Self)
        ensures
            res.left() == 2,
    {
        RemoteAttempts { left: 2 }
    }

    /// The first step of the call: send the request.
    pub fn begin(&self) -> (res: RemoteAction)
        ensures
            res == (if self.left() > 0 {
                RemoteAction::Send
            } else {
                RemoteAction::Fail
            }),
    {
        if self.left > 0 {
            RemoteAction::Send
        } else {
            RemoteAction::Fail
        }
    }

    /// The step after an answer: `status` is `None` when no answer came.
    pub fn on_response(&mut self, status: Option<u16>) -> (res: RemoteAction)
        ensures
            (final(self).left(), res) == remote_step(old(self).left(), RemoteEvent::Response(status)),
    {
        match status {
            None => RemoteAction::Fail,
            Some(code) => {
                if code == 200 {
                    RemoteAction::Accept
                } else if code == 406 {
                    RemoteAction::Relogin
                } else {
                    self.consume()
                }
            },
        }
    }

    /// The step after a new login.
    pub fn on_relogin(&mut self, logged_in: bool) -> (res: RemoteAction)
        ensures
            (final(self).left(), res) == remote_step(old(self).left(), RemoteEvent::Relogin(logged_in)),
    {
        if logged_in {
            self.consume()
        } else {
            RemoteAction::Fail
        }
    }

    fn consume(&mut self) -> (res: RemoteAction)
        ensures
            (final(self).left(), res) == consume_spec(old(self).left()),
    {
        if self.left > 0 {
            self.left = self.left - 1;
        }
        if self.left > 0 {
            RemoteAction::Send
        } else {
            RemoteAction::Fail
        }
    }
}

} // verus!
