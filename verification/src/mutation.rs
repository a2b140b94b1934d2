//! Changing a list or a map through one of its handles.
//!
//! A list or a map is shared between its handles until one of them is changed. The
//! handle that is changed then gets an allocation of its own, unless it was the only
//! one, and the other handles keep what they had.

use vstd::prelude::*;
use std::rc::Rc;
use crate::fault::ValueError;
use crate::text::same_text;
use crate::value::{keyed, lemma_keys_differ, Value};

verus! {

/// The place of the first entry with the key, or the number of entries where no
/// entry has it.
pub open spec fn key_position<F>(entries: Seq<(String, Value<F>)>, key: Seq<char>) -> int
    decreases entries.len(),
{
    if entries.len() == 0 || entries[0].0@ == key {
        0
    } else {
        1 + key_position(entries.drop_first(), key)
    }
}

/// `key_position` gives the first entry with the key.
pub proof fn lemma_key_position<F>(entries: Seq<(String, Value<F>)>, key: Seq<char>, at: int)
    requires
        0 <= at <= entries.len(),
        forall|k: int| 0 <= k < at ==> (#[trigger] entries[k]).0@ != key,
        at < entries.len() ==> entries[at].0@ == key,
    ensures
        key_position(entries, key) == at,
    decreases at,
{
    if at > 0 {
        let rest = entries.drop_first();
        assert forall|k: int| 0 <= k < at - 1 implies (#[trigger] rest[k]).0@ != key by {
            assert(rest[k] == entries[k + 1]);
        }
        lemma_key_position(rest, key, at - 1);
    }
}

/// The items of a list as the only handle of their allocation.
fn owned_items<F>(items: Rc<Vec<Value<F>>>) -> (out: Vec<Value<F>>)
    ensures
        out@ == items@,
{
    match Rc::try_unwrap(items) {
        Ok(owned) => owned,
        Err(shared) => {
            let mut copy: Vec<Value<F>> = Vec::new();
            let mut i: usize = 0;
            while i < shared.len()
                invariant
                    i <= shared.len(),
                    copy@ == shared@.take(i as int),
                decreases shared.len() - i,
            {
                copy.push(shared[i].duplicate());
                i += 1;
                assert(copy@ =~= shared@.take(i as int));
            }
            assert(copy@ =~= shared@);
            copy
        },
    }
}

/// The entries of a map as the only handle of their allocation.
fn owned_entries<F>(entries: Rc<Vec<(String, Value<F>)>>) -> (out: Vec<
    (String, Value<F>),
>)
    ensures
        out@ == entries@,
{
    match Rc::try_unwrap(entries) {
        Ok(owned) => owned,
        Err(shared) => {
            let mut copy: Vec<(String, Value<F>)> = Vec::new();
            let mut i: usize = 0;
            while i < shared.len()
                invariant
                    i <= shared.len(),
                    copy@ == shared@.take(i as int),
                decreases shared.len() - i,
            {
                copy.push((shared[i].0.clone(), shared[i].1.duplicate()));
                i += 1;
                assert(copy@ =~= shared@.take(i as int));
            }
            assert(copy@ =~= shared@);
            copy
        },
    }
}

/// Puts `item` in the place `index` of the list behind `target`. Nothing changes
/// where `target` is no list or the list has no such place.
pub fn set_item<F>(target: &mut Value<F>, index: usize, item: Value<F>) -> (out:
    Result<(), ValueError>)
    ensures
        match *old(target) {
            Value::List(items) if index < items@.len() => {
                &&& out is Ok
                &&& *final(target) matches Value::List(changed)
                &&& changed@ == items@.update(index as int, item)
            },
            _ => out == Err::<(), ValueError>(ValueError::NoSuchItem) && *final(target) == *old(
                target,
            ),
        },
        keyed(*old(target)) && keyed(item) ==> keyed(*final(target)),
{
    let mut taken = Value::Empty;
    std::mem::swap(target, &mut taken);
    match taken {
        Value::List(items) => {
            if index < items.len() {
                let mut owned = owned_items(items);
                owned.set(index, item);
                *target = Value::List(Rc::new(owned));
                proof {
                    if keyed(*old(target)) && keyed(item) {
                        assert forall|k: int| 0 <= k < owned@.len() implies keyed(
                            #[trigger] owned@[k],
                        ) by {
                            if k != index {
                                assert(owned@[k] == items@[k]);
                                assert(keyed(items@[k]));
                            }
                        }
                    }
                }
                Ok(())
            } else {
                *target = Value::List(items);
                Err(ValueError::NoSuchItem)
            }
        },
        other => {
            *target = other;
            Err(ValueError::NoSuchItem)
        },
    }
}

/// Puts `value` under `key` in the map behind `target`: in the place of the value
/// that the key had, or in a new entry at the end. Nothing changes where `target` is
/// no map.
pub fn insert_entry<F>(target: &mut Value<F>, key: &str, value: Value<F>) -> (out:
    Result<(), ValueError>)
    ensures
        match *old(target) {
            Value::Mapping(entries) => {
                let at = key_position(entries@, key@);
                &&& out is Ok
                &&& *final(target) matches Value::Mapping(changed)
                &&& changed@.len() == (if at < entries@.len() {
                    entries@.len()
                } else {
                    entries@.len() + 1
                })
                &&& forall|k: int| 0 <= k < entries@.len() && k != at ==> changed@[k] == entries@[k]
                &&& changed@[at].0@ == key@
                &&& changed@[at].1 == value
            },
            _ => out == Err::<(), ValueError>(ValueError::NotAMap) && *final(target) == *old(target),
        },
        keyed(*old(target)) && keyed(value) ==> keyed(*final(target)),
{
    let mut taken = Value::Empty;
    std::mem::swap(target, &mut taken);
    match taken {
        Value::Mapping(entries) => {
            let mut owned = owned_entries(entries);
            let mut at: usize = 0;
            while at < owned.len() && !same_text(owned[at].0.as_str(), key)
                invariant
                    at <= owned.len(),
                    forall|k: int| 0 <= k < at ==> (#[trigger] owned@[k]).0@ != key@,
                decreases owned.len() - at,
            {
                at += 1;
            }
            proof {
                lemma_key_position(owned@, key@, at as int);
            }
            let ghost before = owned@;
            if at < owned.len() {
                owned.set(at, (key.to_owned(), value));
            } else {
                owned.push((key.to_owned(), value));
            }
            *target = Value::Mapping(Rc::new(owned));
            proof {
                if keyed(*old(target)) && keyed(value) {
                    let after = owned@;
                    assert forall|k: int| 0 <= k < after.len() implies keyed(
                        (#[trigger] after[k]).1,
                    ) by {
                        if k != at {
                            assert(after[k] == before[k]);
                            assert(keyed(before[k].1));
                        }
                    }
                    assert forall|i: int, j: int| 0 <= i < j < after.len() implies (
                    #[trigger] after[i]).0@ != (#[trigger] after[j]).0@ by {
                        if i != at && j != at {
                            lemma_keys_differ(*old(target), i, j);
                        } else if i == at {
                            assert(before[at as int].0@ == key@);
                            lemma_keys_differ(*old(target), i, j);
                        } else {
                            assert(before[i].0@ != key@);
                        }
                    }
                }
            }
            Ok(())
        },
        other => {
            *target = other;
            Err(ValueError::NotAMap)
        },
    }
}

} // verus!
