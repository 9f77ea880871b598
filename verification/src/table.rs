//! The hash tables of the `fxhash` crate, as the renderer uses them.
//!
//! `FxHashMap` and `FxHashSet` are std's `HashMap` and `HashSet` with the Fx
//! hasher plugged in. Nothing in this file is proved: each function below
//! calls one method of those tables, and its contract restates what std
//! documents for that method, over the map or set that the table stands for.
//! Keys are always `u64`, whose `Eq` and `Hash` agree with equality of values,
//! and `FxHasher` starts every hash from the same state, so two equal keys
//! always land on the same entry.

use fxhash::FxHashMap;
use fxhash::FxHashSet;
use fxhash::FxHasher;
use std::hash::BuildHasherDefault;
use time_calc::Samples;
use vstd::prelude::*;

verus! {

/// The hasher of the `fxhash` crate. Its state is never looked at.
#[verifier::external_type_specification]
#[verifier::external_body]
pub struct ExFxHasher(FxHasher);

/// std's `BuildHasherDefault`, which makes a fresh `H` for every key hashed.
#[verifier::external_type_specification]
#[verifier::external_body]
#[verifier::reject_recursive_types(H)]
pub struct ExBuildHasherDefault<H>(BuildHasherDefault<H>);

/// `time_calc::Samples`: a count of samples or frames, a plain `i64` in a
/// wrapper with one public field.
#[verifier::external_type_specification]
pub struct ExSamples(Samples);

/// `HashMap::insert`: afterwards the map holds `v` at `k` and is otherwise as
/// before; the value that `k` had, if any, is handed back.
#[verifier::external_body]
pub(crate) fn map_insert<V>(m: &mut FxHashMap<u64, V>, k: u64, v: V) -> (displaced: Option<V>)
    ensures
        final(m)@ == old(m)@.insert(k, v),
        displaced == (if old(m)@.contains_key(k) {
            Some(old(m)@[k])
        } else {
            None
        }),
{
    m.insert(k, v)
}

/// `HashMap::remove`: afterwards the map has no entry at `k` and is otherwise
/// as before; the value that `k` had, if any, is handed back.
#[verifier::external_body]
pub(crate) fn map_remove<V>(m: &mut FxHashMap<u64, V>, k: u64) -> (removed: Option<V>)
    ensures
        final(m)@ == old(m)@.remove(k),
        removed == (if old(m)@.contains_key(k) {
            Some(old(m)@[k])
        } else {
            None
        }),
{
    m.remove(&k)
}

/// `HashMap::get`: a reference to the value at `k`, if there is one.
#[verifier::external_body]
pub(crate) fn map_get<'a, V>(m: &'a FxHashMap<u64, V>, k: u64) -> (found: Option<&'a V>)
    ensures
        found == (if m@.contains_key(k) {
            Some(&m@[k])
        } else {
            None
        }),
{
    m.get(&k)
}

/// `HashMap::len`: the number of entries.
#[verifier::external_body]
pub(crate) fn map_len<V>(m: &FxHashMap<u64, V>) -> (n: usize)
    ensures
        n == m@.len(),
{
    m.len()
}

/// `HashMap::keys`, collected: every key once, in the order the table walks
/// them, of which nothing is claimed.
#[verifier::external_body]
pub(crate) fn map_keys<V>(m: &FxHashMap<u64, V>) -> (keys: Vec<u64>)
    ensures
        keys@.no_duplicates(),
        keys@.to_set() == m@.dom(),
{
    m.keys().copied().collect()
}

/// `HashSet::contains`: whether `k` is a member.
#[verifier::external_body]
pub(crate) fn set_contains(s: &FxHashSet<u64>, k: u64) -> (present: bool)
    ensures
        present == s@.contains(k),
{
    s.contains(&k)
}

/// `HashSet::insert`: afterwards `k` is a member; the result tells whether it
/// was new.
#[verifier::external_body]
pub(crate) fn set_insert(s: &mut FxHashSet<u64>, k: u64) -> (added: bool)
    ensures
        final(s)@ == old(s)@.insert(k),
        added == !old(s)@.contains(k),
{
    s.insert(k)
}

/// `HashSet::remove`: afterwards `k` is no member; the result tells whether it
/// was one.
#[verifier::external_body]
pub(crate) fn set_remove(s: &mut FxHashSet<u64>, k: u64) -> (removed: bool)
    ensures
        final(s)@ == old(s)@.remove(k),
        removed == old(s)@.contains(k),
{
    s.remove(&k)
}

/// `HashSet::iter`, collected: every member once, in the order the table
/// walks them, of which nothing is claimed.
#[verifier::external_body]
pub(crate) fn set_members(s: &FxHashSet<u64>) -> (members: Vec<u64>)
    ensures
        members@.no_duplicates(),
        members@.to_set() == s@,
{
    s.iter().copied().collect()
}

} // verus!
