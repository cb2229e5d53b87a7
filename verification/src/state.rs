//! The inference sessions running per chat: one cancellation handle per
//! chat, a new session cancelling the one it replaces.

use vstd::prelude::*;
use crate::text::{chars_of, equals_str};

verus! {

/// The value kept under `key` among the entries `es` (the last one, should
/// several share the key).
pub open spec fn value_for<T>(es: Seq<(String, T)>, key: Seq<char>) -> Option<T>
    decreases es.len(),
{
    if es.len() == 0 {
        None
    } else if es.last().0@ == key {
        Some(es.last().1)
    } else {
        value_for(es.drop_last(), key)
    }
}

/// No key has two entries among `es`.
pub open spec fn one_per_key<T>(es: Seq<(String, T)>) -> bool {
    forall|i: int, j: int| 0 <= i < j < es.len() ==> (#[trigger] es[i]).0@ != (#[trigger] es[j]).0@
}

/// With one entry per key, the key of `es[k]` holds `es[k]`'s value, and a
/// key none of them has holds nothing.
pub proof fn lemma_value_for<T>(es: Seq<(String, T)>, key: Seq<char>)
    requires
        one_per_key(es),
    ensures
        forall|k: int| 0 <= k < es.len() && (#[trigger] es[k]).0@ == key ==> value_for(es, key) == Some(es[k].1),
        (forall|k: int| 0 <= k < es.len() ==> (#[trigger] es[k]).0@ != key) ==> value_for(es, key) is None,
    decreases es.len(),
{
    if es.len() > 0 {
        let d = es.drop_last();
        assert forall|i: int, j: int| 0 <= i < j < d.len() implies (#[trigger] d[i]).0@ != (#[trigger] d[j]).0@ by {
            assert(d[i] == es[i] && d[j] == es[j]);
        }
        lemma_value_for(d, key);
        assert forall|k: int| 0 <= k < es.len() && (#[trigger] es[k]).0@ == key implies value_for(es, key) == Some(es[k].1) by {
            if k < es.len() - 1 {
                assert(d[k] == es[k]);
                assert(es[k].0@ != es[es.len() - 1].0@);
            }
        }
        if forall|k: int| 0 <= k < es.len() ==> (#[trigger] es[k]).0@ != key {
            assert forall|k: int| 0 <= k < d.len() implies (#[trigger] d[k]).0@ != key by {
                assert(d[k] == es[k]);
            }
        }
    }
}

/// Removing the entry at `i` leaves one per key, drops that key's value and
/// keeps the others.
pub proof fn lemma_value_remove<T>(es: Seq<(String, T)>, i: int, key: Seq<char>)
    requires
        one_per_key(es),
        0 <= i < es.len(),
    ensures
        one_per_key(es.remove(i)),
        value_for(es.remove(i), key) == (if key == es[i].0@ { None } else { value_for(es, key) }),
{
    let r = es.remove(i);
    assert forall|a: int, b: int| 0 <= a < b < r.len() implies (#[trigger] r[a]).0@ != (#[trigger] r[b]).0@ by {
        let a0 = if a < i { a } else { a + 1 };
        let b0 = if b < i { b } else { b + 1 };
        assert(r[a] == es[a0] && r[b] == es[b0]);
    }
    lemma_value_for(es, key);
    lemma_value_for(r, key);
    if exists|k: int| 0 <= k < r.len() && (#[trigger] r[k]).0@ == key {
        let k = choose|k: int| 0 <= k < r.len() && (#[trigger] r[k]).0@ == key;
        let k0 = if k < i { k } else { k + 1 };
        assert(r[k] == es[k0]);
        assert(es[i].0@ != es[k0].0@);
    } else {
        if key != es[i].0@ {
            assert forall|k: int| 0 <= k < es.len() implies (#[trigger] es[k]).0@ != key by {
                if k < i {
                    assert(r[k] == es[k]);
                } else if k > i {
                    assert(r[k - 1] == es[k]);
                }
            }
        }
    }
}

/// The sessions running, by chat, each with the handle that cancels it.
pub struct ActiveSessions<T> {
    sessions: Vec<(String, T)>,
}

impl<T> ActiveSessions<T> {
    /// No chat has two sessions.
    pub closed spec fn wf(&self) -> bool {
        one_per_key(self.sessions@)
    }

    /// The handle of the session running in `chat_id`.
    pub closed spec fn session(&self, chat_id: Seq<char>) -> Option<T> {
        value_for(self.sessions@, chat_id)
    }

    /// How many chats have a session running.
    pub closed spec fn size(&self) -> nat {
        self.sessions@.len()
    }

    /// No sessions.
    pub fn new() -> (r: Self)
        ensures
            r.wf(),
            forall|chat_id: Seq<char>| r.session(chat_id) is None,
            r.size() == 0,
    {
        ActiveSessions { sessions: Vec::new() }
    }

    fn position(&self, chat_id: &Vec<char>) -> (r: Option<usize>)
        ensures
            match r {
                Some(k) => k < self.sessions@.len() && self.sessions@[k as int].0@ == chat_id@,
                None => forall|k: int| 0 <= k < self.sessions@.len() ==> (#[trigger] self.sessions@[k]).0@ != chat_id@,
            },
    {
        let mut i: usize = 0;
        while i < self.sessions.len()
            invariant
                i <= self.sessions@.len(),
                forall|k: int| 0 <= k < i ==> (#[trigger] self.sessions@[k]).0@ != chat_id@,
            decreases self.sessions@.len() - i,
        {
            if equals_str(chat_id, self.sessions[i].0.as_str()) {
                return Some(i);
            }
            i = i + 1;
        }
        None
    }

    /// Starts a session in `chat_id` with cancellation handle `token`. The
    /// session it replaces, if any, is handed back to be cancelled.
    pub fn register(&mut self, chat_id: &str, token: T) -> (prev: Option<T>)
        requires
            old(self).wf(),
        ensures
            final(self).wf(),
            prev == old(self).session(chat_id@),
            final(self).session(chat_id@) == Some(token),
            forall|other: Seq<char>| other != chat_id@ ==> final(self).session(other) == old(self).session(other),
            final(self).size() == old(self).size() + (if prev is None { 1int } else { 0int }),
    {
        let key = chars_of(chat_id);
        let ghost before = self.sessions@;
        proof {
            lemma_value_for(before, chat_id@);
        }
        let prev = match self.position(&key) {
            Some(i) => {
                let (_, t) = self.sessions.remove(i);
                proof {
                    lemma_value_remove(before, i as int, chat_id@);
                    assert forall|other: Seq<char>| other != chat_id@ implies value_for(self.sessions@, other) == value_for(before, other) by {
                        lemma_value_remove(before, i as int, other);
                    }
                }
                Some(t)
            },
            None => None,
        };
        let ghost mid = self.sessions@;
        self.sessions.push((String::from_str(chat_id), token));
        proof {
            let after = self.sessions@;
            assert(after.drop_last() =~= mid);
            lemma_value_for(mid, chat_id@);
            assert forall|a: int, b: int| 0 <= a < b < after.len() implies (#[trigger] after[a]).0@ != (#[trigger] after[b]).0@ by {
                if b < mid.len() {
                    assert(after[a] == mid[a] && after[b] == mid[b]);
                } else {
                    assert(after[a] == mid[a]);
                }
            }
        }
        prev
    }

    /// The handle of the session running in `chat_id`, to cancel it; `None`
    /// when no session runs there.
    pub fn cancel(&self, chat_id: &str) -> (r: Option<&T>)
        requires
            self.wf(),
        ensures
            match r {
                Some(t) => self.session(chat_id@) == Some(*t),
                None => self.session(chat_id@) is None,
            },
    {
        let key = chars_of(chat_id);
        proof {
            lemma_value_for(self.sessions@, chat_id@);
        }
        match self.position(&key) {
            Some(i) => Some(&self.sessions[i].1),
            None => None,
        }
    }

    /// Forgets the session of `chat_id`.
    pub fn remove(&mut self, chat_id: &str)
        requires
            old(self).wf(),
        ensures
            final(self).wf(),
            final(self).session(chat_id@) is None,
            forall|other: Seq<char>| other != chat_id@ ==> final(self).session(other) == old(self).session(other),
            final(self).size() == old(self).size() - (if old(self).session(chat_id@) is None { 0int } else { 1int }),
    {
        let key = chars_of(chat_id);
        let ghost before = self.sessions@;
        proof {
            lemma_value_for(before, chat_id@);
        }
        match self.position(&key) {
            Some(i) => {
                let _ = self.sessions.remove(i);
                proof {
                    lemma_value_remove(before, i as int, chat_id@);
                    assert forall|other: Seq<char>| other != chat_id@ implies value_for(self.sessions@, other) == value_for(before, other) by {
                        lemma_value_remove(before, i as int, other);
                    }
                }
            },
            None => {},
        }
    }

    /// How many chats have a session running.
    pub fn count(&self) -> (r: usize)
        ensures
            r == self.size(),
    {
        self.sessions.len()
    }
}

} // verus!
