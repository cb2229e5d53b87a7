//! Contact metadata: a map from keys to values that a patch updates, a
//! missing value (JSON `null`) in the patch removing the key.

use vstd::prelude::*;
use crate::state::{lemma_value_for, lemma_value_remove, one_per_key, value_for};
use crate::text::{chars_of, equals_str};

verus! {

/// The value `key` holds once `patch` is applied over `target`: the last
/// patch entry for `key` decides (a missing value removes the key), else
/// the target's value stays.
pub open spec fn patched<V>(target: Seq<(String, V)>, patch: Seq<(String, Option<V>)>, key: Seq<char>) -> Option<V> {
    match value_for(patch, key) {
        Some(Some(v)) => Some(v),
        Some(None) => None,
        None => value_for(target, key),
    }
}

fn position_of<V>(es: &Vec<(String, V)>, key: &Vec<char>) -> (r: Option<usize>)
    ensures
        match r {
            Some(k) => k < es@.len() && es@[k as int].0@ == key@,
            None => forall|k: int| 0 <= k < es@.len() ==> (#[trigger] es@[k]).0@ != key@,
        },
{
    let mut i: usize = 0;
    while i < es.len()
        invariant
            i <= es@.len(),
            forall|k: int| 0 <= k < i ==> (#[trigger] es@[k]).0@ != key@,
        decreases es@.len() - i,
    {
        if equals_str(key, es[i].0.as_str()) {
            return Some(i);
        }
        i = i + 1;
    }
    None
}

/// Removes the entry of `key`, if there is one.
fn unset<V>(es: &mut Vec<(String, V)>, key: &str)
    requires
        one_per_key(old(es)@),
    ensures
        one_per_key(final(es)@),
        value_for(final(es)@, key@) is None,
        forall|other: Seq<char>| other != key@ ==> value_for(final(es)@, other) == value_for(old(es)@, other),
{
    let kv = chars_of(key);
    let ghost before = es@;
    proof {
        lemma_value_for(before, key@);
    }
    if let Some(i) = position_of(es, &kv) {
        let _ = es.remove(i);
        proof {
            lemma_value_remove(before, i as int, key@);
            assert forall|other: Seq<char>| other != key@ implies value_for(es@, other) == value_for(before, other) by {
                lemma_value_remove(before, i as int, other);
            }
        }
    }
}

/// Sets `key` to `value`, replacing the value it had.
fn set<V>(es: &mut Vec<(String, V)>, key: String, value: V)
    requires
        one_per_key(old(es)@),
    ensures
        one_per_key(final(es)@),
        value_for(final(es)@, key@) == Some(value),
        forall|other: Seq<char>| other != key@ ==> value_for(final(es)@, other) == value_for(old(es)@, other),
{
    unset(es, key.as_str());
    let ghost mid = es@;
    es.push((key, value));
    proof {
        let after = es@;
        assert(after.drop_last() =~= mid);
        lemma_value_for(mid, key@);
        assert forall|a: int, b: int| 0 <= a < b < after.len() implies (#[trigger] after[a]).0@ != (#[trigger] after[b]).0@ by {
            if b < mid.len() {
                assert(after[a] == mid[a] && after[b] == mid[b]);
            } else {
                assert(after[a] == mid[a]);
            }
        }
    }
}

/// Applies a metadata patch to `target`, entry by entry: a present value
/// sets its key, a missing one (JSON `null`) removes it; keys the patch
/// does not mention keep their values.
pub fn apply_metadata_patch<V>(target: &mut Vec<(String, V)>, patch: Vec<(String, Option<V>)>)
    requires
        one_per_key(old(target)@),
    ensures
        one_per_key(final(target)@),
        forall|key: Seq<char>| #[trigger] value_for(final(target)@, key) == patched(old(target)@, patch@, key),
{
    let ghost orig = target@;
    let ghost all = patch@;
    let mut rest = patch;
    let total = rest.len();
    let mut j: usize = 0;
    while rest.len() > 0
        invariant
            j + rest@.len() == all.len(),
            all.len() == total,
            rest@ == all.subrange(j as int, all.len() as int),
            one_per_key(target@),
            forall|key: Seq<char>| #[trigger] value_for(target@, key) == patched(orig, all.subrange(0, j as int), key),
        decreases rest@.len(),
    {
        let ghost before = rest@;
        let (k, v) = rest.remove(0);
        proof {
            assert(before[0] == all[j as int]);
            assert(rest@ =~= all.subrange(j + 1, all.len() as int));
            let taken = all.subrange(0, j + 1);
            assert(taken.drop_last() =~= all.subrange(0, j as int));
            assert(taken.last() == all[j as int]);
        }
        match v {
            Some(x) => set(target, k, x),
            None => unset(target, k.as_str()),
        }
        j = j + 1;
    }
    proof {
        assert(all.subrange(0, j as int) =~= all);
    }
}

} // verus!
