//! Looking up the entries of a mapping, and the equality of values: two
//! values are equal if their contents are, whatever the order in which the
//! entries of their mappings were written.

use crate::proto::{entries_view, lemma_values_view, values_view, Value, ValueView};
use crate::text::same_text;
use vstd::prelude::*;
use vstd::std_specs::cmp::PartialEqSpecImpl;

verus! {

/// The keys of a map of entries are the keys of the entries.
pub proof fn lemma_entries_keys(entries: Seq<(String, Value)>, key: Seq<char>)
    ensures
        entries_view(entries).contains_key(key) <==> exists|i: int|
            0 <= i < entries.len() && (#[trigger] entries[i]).0@ == key,
    decreases entries.len(),
{
    if entries.len() > 0 {
        let head = entries.drop_last();
        lemma_entries_keys(head, key);
        if entries_view(entries).contains_key(key) {
            if entries.last().0@ == key {
                assert(entries[entries.len() - 1].0@ == key);
            } else {
                let i = choose|i: int| 0 <= i < head.len() && (#[trigger] head[i]).0@ == key;
                assert(entries[i].0@ == key);
            }
        }
        if exists|i: int| 0 <= i < entries.len() && (#[trigger] entries[i]).0@ == key {
            let i = choose|i: int| 0 <= i < entries.len() && (#[trigger] entries[i]).0@ == key;
            if i < head.len() {
                assert(head[i].0@ == key);
            }
        }
    }
}

/// The value of a key in a map of entries is that of the last entry with
/// the key.
pub proof fn lemma_entries_value(entries: Seq<(String, Value)>, at: int)
    requires
        0 <= at < entries.len(),
        forall|k: int| at < k < entries.len() ==> (#[trigger] entries[k]).0@ != entries[at].0@,
    ensures
        entries_view(entries).contains_key(entries[at].0@),
        entries_view(entries)[entries[at].0@] == entries[at].1@,
    decreases entries.len(),
{
    if at < entries.len() - 1 {
        let head = entries.drop_last();
        assert(entries[entries.len() - 1].0@ != entries[at].0@);
        assert forall|k: int| at < k < head.len() implies (#[trigger] head[k]).0@
            != head[at].0@ by {
            assert(head[k] == entries[k]);
        }
        lemma_entries_value(head, at);
    }
}

/// Finds the entry that counts for `key`: the last one with that key.
pub fn position(entries: &Vec<(String, Value)>, key: &str) -> (found: Option<usize>)
    ensures
        match found {
            Some(at) => at < entries.len() && entries[at as int].0@ == key@ && (forall|k: int|
                at < k < entries.len() ==> (#[trigger] entries[k]).0@ != key@) && entries_view(
                entries@,
            ).contains_key(key@) && entries_view(entries@)[key@] == entries[at as int].1@,
            None => !entries_view(entries@).contains_key(key@),
        },
{
    let mut at = entries.len();
    while at > 0
        invariant
            at <= entries.len(),
            forall|k: int| at <= k < entries.len() ==> (#[trigger] entries[k]).0@ != key@,
        decreases at,
    {
        at -= 1;
        if same_text(entries[at].0.as_str(), key) {
            proof {
                lemma_entries_value(entries@, at as int);
            }
            return Some(at);
        }
    }
    proof {
        lemma_entries_keys(entries@, key@);
    }
    None
}

impl Value {
    /// The value of `key`, if this is a mapping that has the key.
    pub fn get(&self, key: &str) -> (found: Option<&Value>)
        ensures
            match found {
                Some(value) => self@ matches ValueView::Mapping(map) && map.contains_key(key@)
                    && map[key@] == value@,
                None => self@ matches ValueView::Mapping(map) ==> !map.contains_key(key@),
            },
    {
        match self {
            Value::Mapping(entries) => match position(entries, key) {
                Some(at) => Some(&entries[at].1),
                None => None,
            },
            _ => None,
        }
    }
}

/// Tests whether two values have the same contents.
#[verifier::rlimit(40)]
pub fn same_value(a: &Value, b: &Value) -> (same: bool)
    ensures
        same == (a@ == b@),
    decreases a,
{
    match (a, b) {
        (Value::Number(x), Value::Number(y)) => x.same(y),
        (Value::Boolean(x), Value::Boolean(y)) => *x == *y,
        (Value::String(x), Value::String(y)) => same_text(x.as_str(), y.as_str()),
        (Value::Constant(x), Value::Constant(y)) => same_text(x.as_str(), y.as_str()),
        (Value::Array(x), Value::Array(y)) => {
            proof {
                lemma_values_view(x@);
                lemma_values_view(y@);
            }
            if x.len() != y.len() {
                return false;
            }
            let mut i: usize = 0;
            while i < x.len()
                invariant
                    i <= x.len(),
                    x.len() == y.len(),
                    *a == Value::Array(*x),
                    *b == Value::Array(*y),
                    values_view(x@).len() == x.len(),
                    values_view(y@).len() == y.len(),
                    forall|k: int| 0 <= k < x.len() ==> (#[trigger] values_view(x@)[k]) == x[k]@,
                    forall|k: int| 0 <= k < y.len() ==> (#[trigger] values_view(y@)[k]) == y[k]@,
                    forall|k: int| 0 <= k < i ==> (#[trigger] x[k])@ == y[k]@,
                decreases x.len() - i,
            {
                proof {
                    assert(a->Array_0 == *x);
                    assert(decreases_to!(*a => a->Array_0));
                    assert(decreases_to!(*x => x[i as int]));
                }
                if !same_value(&x[i], &y[i]) {
                    assert(values_view(x@)[i as int] != values_view(y@)[i as int]);
                    return false;
                }
                i += 1;
            }
            assert(values_view(x@) =~= values_view(y@));
            true
        },
        (Value::Mapping(x), Value::Mapping(y)) => {
            let ghost left = entries_view(x@);
            let ghost right = entries_view(y@);
            let mut i: usize = 0;
            while i < x.len()
                invariant
                    i <= x.len(),
                    *a == Value::Mapping(*x),
                    *b == Value::Mapping(*y),
                    left == entries_view(x@),
                    right == entries_view(y@),
                    forall|k: int|
                        0 <= k < i ==> left.contains_key((#[trigger] x[k]).0@)
                            && right.contains_key(x[k].0@) && right[x[k].0@] == left[x[k].0@],
                decreases x.len() - i,
            {
                let key = x[i].0.as_str();
                proof {
                    lemma_entries_keys(x@, key@);
                }
                match (position(x, key), position(y, key)) {
                    (Some(at), Some(other)) => {
                        proof {
                            assert(a->Mapping_0 == *x);
                            assert(decreases_to!(*a => a->Mapping_0));
                            assert(decreases_to!(*x => x[at as int]));
                            assert(decreases_to!(x[at as int] => x[at as int].1));
                        }
                        if !same_value(&x[at].1, &y[other].1) {
                            assert(left[key@] != right[key@]);
                            return false;
                        }
                    },
                    _ => {
                        assert(left.contains_key(key@) && !right.contains_key(key@));
                        return false;
                    },
                }
                i += 1;
            }
            let mut j: usize = 0;
            while j < y.len()
                invariant
                    j <= y.len(),
                    *a == Value::Mapping(*x),
                    *b == Value::Mapping(*y),
                    left == entries_view(x@),
                    right == entries_view(y@),
                    forall|k: int|
                        0 <= k < x.len() ==> left.contains_key((#[trigger] x[k]).0@)
                            && right.contains_key(x[k].0@) && right[x[k].0@] == left[x[k].0@],
                    forall|k: int| 0 <= k < j ==> left.contains_key((#[trigger] y[k]).0@),
                decreases y.len() - j,
            {
                let key = y[j].0.as_str();
                if position(x, key).is_none() {
                    proof {
                        lemma_entries_keys(y@, key@);
                        assert(right.contains_key(key@) && !left.contains_key(key@));
                    }
                    return false;
                }
                j += 1;
            }
            proof {
                assert forall|key: Seq<char>| #[trigger]
                    left.dom().contains(key) implies right.dom().contains(key) && left[key]
                    == right[key] by {
                    lemma_entries_keys(x@, key);
                    let k = choose|k: int| 0 <= k < x.len() && (#[trigger] x[k]).0@ == key;
                    assert(right.contains_key(x[k].0@));
                }
                assert forall|key: Seq<char>| #[trigger]
                    right.dom().contains(key) implies left.dom().contains(key) by {
                    lemma_entries_keys(y@, key);
                    let k = choose|k: int| 0 <= k < y.len() && (#[trigger] y[k]).0@ == key;
                    assert(left.contains_key(y[k].0@));
                }
                assert(left.dom() =~= right.dom());
                assert(left =~= right);
            }
            true
        },
        _ => false,
    }
}

impl PartialEq for Value {
    fn eq(&self, other: &Self) -> (equal: bool) {
        same_value(self, other)
    }
}

impl PartialEqSpecImpl for Value {
    open spec fn obeys_eq_spec() -> bool {
        true
    }

    open spec fn eq_spec(&self, other: &Self) -> bool {
        self@ == other@
    }
}

} // verus!
