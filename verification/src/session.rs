//! Sessions of the sequence-code authentication, request headers, and the
//! sequence-code checks shared with the front end.

use vstd::prelude::*;
use crate::keyed::{find_key, insert, lookup, unique_keys, lemma_lookup_remove};
use crate::perm::{Identity, IdentityView};
use crate::text::{starts_with, str_starts_with, substring};
use crate::json::{json_u64_items, u64_items};
use crate::clock::{is_uuid_v4_text, new_uuid};

verus! {

/// The value of request header `name` (`headers` holds lowercase names).
pub open spec fn header(headers: Seq<(String, String)>, name: Seq<char>) -> Option<Seq<char>> {
    match lookup(headers, name) {
        Some(v) => Some(v@),
        None => None,
    }
}

/// The session token a request carries for the sequence-code plugin: its
/// non-empty `x-session-token` header.
pub open spec fn session_token(headers: Seq<(String, String)>) -> Option<Seq<char>> {
    match header(headers, "x-session-token"@) {
        Some(t) => if t.len() > 0 { Some(t) } else { None },
        None => None,
    }
}

/// The token a request carries for the database plugin: the part after
/// `Bearer ` of its `authorization` header, or else its `x-session-token`
/// header; none when that is empty.
pub open spec fn bearer_or_session_token(headers: Seq<(String, String)>) -> Option<Seq<char>> {
    let from_auth = match header(headers, "authorization"@) {
        Some(a) => if starts_with(a, "Bearer "@) { Some(a.skip(7)) } else { None },
        None => None,
    };
    let token = match from_auth {
        Some(t) => t,
        None => match header(headers, "x-session-token"@) {
            Some(t) => t,
            None => Seq::empty(),
        },
    };
    if token.len() > 0 { Some(token) } else { None }
}

/// The value of request header `name`.
pub fn header_value(headers: &Vec<(String, String)>, name: &str) -> (r: Option<String>)
    ensures
        match r {
            Some(v) => header(headers@, name@) == Some(v@),
            None => header(headers@, name@) is None,
        },
{
    match find_key(headers, name) {
        Some(i) => Some(headers[i].1.clone()),
        None => None,
    }
}

/// The non-empty `x-session-token` header of a request.
pub fn extract_session_token(headers: &Vec<(String, String)>) -> (r: Option<String>)
    ensures
        match r {
            Some(t) => session_token(headers@) == Some(t@),
            None => session_token(headers@) is None,
        },
{
    match header_value(headers, "x-session-token") {
        Some(t) => if t.unicode_len() > 0 { Some(t) } else { None },
        None => None,
    }
}

/// The bearer token of the `authorization` header, or else the
/// `x-session-token` header, when non-empty.
pub fn extract_bearer_or_session_token(headers: &Vec<(String, String)>) -> (r: Option<String>)
    ensures
        match r {
            Some(t) => bearer_or_session_token(headers@) == Some(t@),
            None => bearer_or_session_token(headers@) is None,
        },
{
    let mut from_auth: Option<String> = None;
    if let Some(a) = header_value(headers, "authorization") {
        if str_starts_with(a.as_str(), "Bearer ") {
            proof {
                reveal_strlit("Bearer ");
            }
            let n = a.unicode_len();
            from_auth = Some(substring(a.as_str(), 7, n));
        }
    }
    let token = match from_auth {
        Some(t) => t,
        None => match header_value(headers, "x-session-token") {
            Some(t) => t,
            None => String::new(),
        },
    };
    if token.unicode_len() > 0 {
        Some(token)
    } else {
        None
    }
}

/// The sessions of the sequence-code plugin: tokens and the identity each
/// one stands for.
pub struct SessionStore {
    sessions: Vec<(String, Identity)>,
}

impl SessionStore {
    /// No token appears twice.
    #[verifier::type_invariant]
    spec fn tokens_unique(&self) -> bool {
        unique_keys(self.sessions@)
    }

    /// The identity of session `token`.
    pub closed spec fn session(&self, token: Seq<char>) -> Option<IdentityView> {
        match lookup(self.sessions@, token) {
            Some(i) => Some(i@),
            None => None,
        }
    }

    /// A store without sessions.
    pub fn new() -> (r: SessionStore)
        ensures
            forall|t: Seq<char>| r.session(t) is None,
    {
        SessionStore { sessions: Vec::new() }
    }

    /// Records a session for `identity` under `token`.
    pub fn insert_session(&mut self, token: String, identity: Identity)
        ensures
            final(self).session(token@) == Some(identity@),
            forall|t: Seq<char>| t != token@ ==> #[trigger] final(self).session(t) == old(self).session(t),
    {
        proof {
            use_type_invariant(&*self);
        }
        let mut sessions: Vec<(String, Identity)> = Vec::new();
        std::mem::swap(&mut sessions, &mut self.sessions);
        insert(&mut sessions, token, identity);
        self.sessions = sessions;
    }

    /// Opens a session for `identity` under a fresh random token and returns
    /// the token.
    pub fn create_session(&mut self, identity: &Identity) -> (token: String)
        ensures
            is_uuid_v4_text(token@),
            final(self).session(token@) == Some(identity@),
            forall|t: Seq<char>| t != token@ ==> #[trigger] final(self).session(t) == old(self).session(t),
    {
        let token = new_uuid();
        self.insert_session(token.clone(), identity.clone());
        token
    }

    /// Closes session `token`, if it is open.
    pub fn destroy_session(&mut self, token: &str)
        ensures
            final(self).session(token@) is None,
            forall|t: Seq<char>| t != token@ ==> #[trigger] final(self).session(t) == old(self).session(t),
    {
        proof {
            use_type_invariant(&*self);
        }
        match find_key(&self.sessions, token) {
            Some(i) => {
                let mut sessions: Vec<(String, Identity)> = Vec::new();
                std::mem::swap(&mut sessions, &mut self.sessions);
                proof {
                    lemma_lookup_remove(sessions@, i as int);
                }
                sessions.remove(i);
                self.sessions = sessions;
            },
            None => {},
        }
    }

    /// The identity of session `token`, if it is open.
    pub fn check_session(&self, token: &str) -> (r: Option<Identity>)
        ensures
            match r {
                Some(i) => self.session(token@) == Some(i@),
                None => self.session(token@) is None,
            },
    {
        match find_key(&self.sessions, token) {
            Some(i) => Some(self.sessions[i].1.clone()),
            None => None,
        }
    }

    /// The identity of the session that a request's `x-session-token`
    /// header names; none when the header is missing or empty.
    pub fn authenticate(&self, headers: &Vec<(String, String)>) -> (r: Option<Identity>)
        ensures
            match r {
                Some(i) => session_token(headers@) is Some && self.session(session_token(headers@).unwrap()) == Some(i@),
                None => session_token(headers@) is None || self.session(session_token(headers@).unwrap()) is None,
            },
    {
        match extract_session_token(headers) {
            Some(t) => self.check_session(t.as_str()),
            None => None,
        }
    }
}

// ---------------------------------------------------------------------------
// Sequence codes
// ---------------------------------------------------------------------------

/// The elements of `items` that are numbers, in order, as `usize`.
pub open spec fn present_values(items: Seq<Option<u64>>) -> Seq<usize>
    decreases items.len(),
{
    if items.len() == 0 {
        Seq::empty()
    } else {
        let rest = present_values(items.drop_last());
        match items.last() {
            Some(x) => rest.push(x as usize),
            None => rest,
        }
    }
}

/// The admin sequence configured in `sequence.json` (given as its text,
/// when it could be read): the non-negative integers of its `sequence`
/// array, or nothing.
pub open spec fn configured_sequence(text: Option<Seq<char>>) -> Seq<usize> {
    match text {
        Some(t) => match json_u64_items(t, "sequence"@) {
            Some(items) => present_values(items),
            None => Seq::empty(),
        },
        None => Seq::empty(),
    }
}

/// The numbers among `items`, in order.
pub fn present_u64s(items: &Vec<Option<u64>>) -> (r: Vec<usize>)
    ensures
        r@ == present_values(items@),
{
    let n = items.len();
    let mut out: Vec<usize> = Vec::new();
    let mut i: usize = 0;
    while i < n
        invariant
            n == items@.len(),
            i <= n,
            out@ == present_values(items@.take(i as int)),
        decreases n - i,
    {
        proof {
            assert(items@.take(i + 1).drop_last() =~= items@.take(i as int));
        }
        match items[i] {
            Some(x) => out.push(x as usize),
            None => {},
        }
        i = i + 1;
    }
    assert(items@.take(n as int) =~= items@);
    out
}

/// The admin sequence read from the text of `sequence.json`.
pub fn load_sequence(text: Option<&str>) -> (r: Vec<usize>)
    ensures
        r@ == configured_sequence(match text { Some(t) => Some(t@), None => None }),
{
    match text {
        Some(t) => match u64_items(t, "sequence") {
            Some(items) => present_u64s(&items),
            None => Vec::new(),
        },
        None => Vec::new(),
    }
}

/// The input ends with the whole expected sequence, which is not empty.
pub open spec fn sequence_matches(input: Seq<usize>, expected: Seq<usize>) -> bool {
    &&& expected.len() > 0
    &&& input.len() >= expected.len()
    &&& input.skip(input.len() - expected.len()) == expected
}

/// The input can still become the expected sequence: it is a prefix of it
/// (everything is, when nothing is expected).
pub open spec fn sequence_prefix_ok(input: Seq<usize>, expected: Seq<usize>) -> bool {
    expected.len() == 0 || (input.len() <= expected.len() && expected.take(input.len() as int) == input)
}

/// Whether the clicks in `input` end with the expected sequence.
pub fn check_sequence(input: Vec<usize>, expected: Vec<usize>) -> (r: bool)
    ensures
        r == sequence_matches(input@, expected@),
{
    if expected.len() == 0 || input.len() < expected.len() {
        return false;
    }
    let total = input.len();
    let offset = total - expected.len();
    let m = expected.len();
    let mut j: usize = 0;
    while j < m
        invariant
            m == expected@.len(),
            total == input@.len(),
            offset + m == total,
            j <= m,
            forall|k: int| 0 <= k < j ==> input@[offset + k] == expected@[k],
        decreases m - j,
    {
        if input[offset + j] != expected[j] {
            assert(input@.skip(offset as int)[j as int] != expected@[j as int]);
            return false;
        }
        j = j + 1;
    }
    assert(input@.skip(offset as int) =~= expected@);
    true
}

/// Whether the clicks in `input` so far can still become the expected
/// sequence.
pub fn check_sequence_prefix(input: Vec<usize>, expected: Vec<usize>) -> (r: bool)
    ensures
        r == sequence_prefix_ok(input@, expected@),
{
    if expected.len() == 0 {
        return true;
    }
    if input.len() > expected.len() {
        return false;
    }
    let m = input.len();
    let mut j: usize = 0;
    while j < m
        invariant
            m == input@.len(),
            m <= expected@.len(),
            j <= m,
            forall|k: int| 0 <= k < j ==> input@[k] == expected@[k],
        decreases m - j,
    {
        if input[j] != expected[j] {
            assert(expected@.take(m as int)[j as int] != input@[j as int]);
            return false;
        }
        j = j + 1;
    }
    assert(expected@.take(m as int) =~= input@);
    true
}

/// Only the last clicks count: a match needs the input to end with every
/// element of the expected sequence in place, so in particular the last
/// click must be the last expected element.
pub proof fn lemma_match_is_at_the_end(input: Seq<usize>, expected: Seq<usize>)
    ensures
        sequence_matches(input, expected) ==> {
            &&& expected.len() > 0
            &&& input.len() >= expected.len()
            &&& input.last() == expected.last()
            &&& forall|k: int| 0 <= k < expected.len()
                ==> #[trigger] input[input.len() - expected.len() + k] == expected[k]
        },
        expected.len() > 0 && input.len() > 0 && input.last() != expected.last() ==> !sequence_matches(input, expected),
{
    if sequence_matches(input, expected) {
        let off = input.len() - expected.len();
        assert forall|k: int| 0 <= k < expected.len() implies #[trigger] input[input.len() - expected.len() + k] == expected[k] by {
            assert(input.skip(off)[k] == input[off + k]);
        }
        assert(input.skip(off)[expected.len() - 1] == input[input.len() - 1]);
    }
    if expected.len() > 0 && input.len() > 0 && input.last() != expected.last() && input.len() >= expected.len() {
        let off = input.len() - expected.len();
        assert(input.skip(off)[expected.len() - 1] == input.last());
    }
}

/// Clicks before the last `expected.len()` ones do not matter: adding more
/// clicks in front keeps a match a match and a miss a miss.
pub proof fn lemma_earlier_clicks_ignored(before: Seq<usize>, input: Seq<usize>, expected: Seq<usize>)
    requires
        input.len() >= expected.len(),
    ensures
        sequence_matches(before + input, expected) == sequence_matches(input, expected),
{
    let whole = before + input;
    assert(whole.skip(whole.len() - expected.len()) =~= input.skip(input.len() - expected.len()));
}

/// Entering exactly the expected sequence, after any clicks, matches it.
pub proof fn lemma_sequence_entered(before: Seq<usize>, expected: Seq<usize>)
    requires
        expected.len() > 0,
    ensures
        sequence_matches(before + expected, expected),
{
    assert((before + expected).skip(before.len() as int) =~= expected);
}

/// Every prefix of the expected sequence can still become it.
pub proof fn lemma_prefix_accepted(expected: Seq<usize>, k: int)
    requires
        0 <= k <= expected.len(),
    ensures
        sequence_prefix_ok(expected.take(k), expected),
{
    assert(expected.take(k).len() == k);
    assert(expected.take(k) =~= expected.take(k));
}

/// An input as long as a non-empty expected sequence matches it exactly when
/// it is accepted as a prefix.
pub proof fn lemma_full_prefix_matches(input: Seq<usize>, expected: Seq<usize>)
    requires
        expected.len() > 0,
        input.len() == expected.len(),
    ensures
        sequence_matches(input, expected) == sequence_prefix_ok(input, expected),
{
    assert(input.skip(0) =~= input);
    assert(expected.take(expected.len() as int) =~= expected);
}

} // verus!
