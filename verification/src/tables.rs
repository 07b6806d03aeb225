//! Keyed storage tables.
//!
//! Each table is a vector of key/value pairs viewed as a map from the key's
//! mathematical value to the value's deep view. Entries are appended; a later
//! entry for a key shadows any earlier one, so a lookup scans from the end.

use crate::account::AccountId;
use vstd::prelude::*;

verus! {

/// The map described by a pair sequence with string keys: a later pair for
/// the same key shadows an earlier one.
pub open spec fn str_entries_map<V: DeepView>(entries: Seq<(String, V)>) -> Map<
    Seq<char>,
    <V as DeepView>::V,
>
    decreases entries.len(),
{
    if entries.len() == 0 {
        Map::empty()
    } else {
        str_entries_map(entries.drop_last()).insert(
            entries.last().0@,
            entries.last().1.deep_view(),
        )
    }
}

/// The map described by a pair sequence with account keys.
pub open spec fn acct_entries_map<V: DeepView>(entries: Seq<(AccountId, V)>) -> Map<
    AccountId,
    <V as DeepView>::V,
>
    decreases entries.len(),
{
    if entries.len() == 0 {
        Map::empty()
    } else {
        acct_entries_map(entries.drop_last()).insert(
            entries.last().0,
            entries.last().1.deep_view(),
        )
    }
}

proof fn lemma_str_entries_map_found<V: DeepView>(entries: Seq<(String, V)>, i: int)
    requires
        0 <= i < entries.len(),
        forall|j: int| i < j < entries.len() ==> (#[trigger] entries[j]).0@ != entries[i].0@,
    ensures
        str_entries_map(entries).contains_key(entries[i].0@),
        str_entries_map(entries)[entries[i].0@] == entries[i].1.deep_view(),
    decreases entries.len(),
{
    if i < entries.len() - 1 {
        assert(entries.drop_last()[i] == entries[i]);
        assert(forall|j: int|
            i < j < entries.drop_last().len() ==> (#[trigger] entries.drop_last()[j]).0@
                != entries.drop_last()[i].0@);
        lemma_str_entries_map_found(entries.drop_last(), i);
    }
}

proof fn lemma_str_entries_map_absent<V: DeepView>(entries: Seq<(String, V)>, k: Seq<char>)
    requires
        forall|j: int| 0 <= j < entries.len() ==> (#[trigger] entries[j]).0@ != k,
    ensures
        !str_entries_map(entries).contains_key(k),
    decreases entries.len(),
{
    if entries.len() > 0 {
        assert(forall|j: int|
            0 <= j < entries.drop_last().len() ==> (#[trigger] entries.drop_last()[j]).0@ != k);
        lemma_str_entries_map_absent(entries.drop_last(), k);
    }
}

proof fn lemma_acct_entries_map_found<V: DeepView>(entries: Seq<(AccountId, V)>, i: int)
    requires
        0 <= i < entries.len(),
        forall|j: int| i < j < entries.len() ==> (#[trigger] entries[j]).0 != entries[i].0,
    ensures
        acct_entries_map(entries).contains_key(entries[i].0),
        acct_entries_map(entries)[entries[i].0] == entries[i].1.deep_view(),
    decreases entries.len(),
{
    if i < entries.len() - 1 {
        assert(entries.drop_last()[i] == entries[i]);
        assert(forall|j: int|
            i < j < entries.drop_last().len() ==> (#[trigger] entries.drop_last()[j]).0
                != entries.drop_last()[i].0);
        lemma_acct_entries_map_found(entries.drop_last(), i);
    }
}

proof fn lemma_acct_entries_map_absent<V: DeepView>(entries: Seq<(AccountId, V)>, k: AccountId)
    requires
        forall|j: int| 0 <= j < entries.len() ==> (#[trigger] entries[j]).0 != k,
    ensures
        !acct_entries_map(entries).contains_key(k),
    decreases entries.len(),
{
    if entries.len() > 0 {
        assert(forall|j: int|
            0 <= j < entries.drop_last().len() ==> (#[trigger] entries.drop_last()[j]).0 != k);
        lemma_acct_entries_map_absent(entries.drop_last(), k);
    }
}

/// A table keyed by mail id.
pub struct StrTable<V> {
    entries: Vec<(String, V)>,
}

impl<V: DeepView> StrTable<V> {
    /// The map this table holds.
    pub closed spec fn table_map(self) -> Map<Seq<char>, <V as DeepView>::V> {
        str_entries_map(self.entries@)
    }

    pub fn new() -> (r: StrTable<V>)
        ensures
            r.table_map() == Map::<Seq<char>, <V as DeepView>::V>::empty(),
    {
        StrTable { entries: Vec::new() }
    }

    /// Looks the key up, returning the value of the latest entry for it.
    pub fn get<'a>(&'a self, k: &String) -> (r: Option<&'a V>)
        ensures
            match r {
                Some(v) => self.table_map().contains_key(k@) && v.deep_view()
                    == self.table_map()[k@],
                None => !self.table_map().contains_key(k@),
            },
    {
        let mut i = self.entries.len();
        while i > 0
            invariant
                i <= self.entries@.len(),
                forall|j: int|
                    i <= j < self.entries@.len() ==> (#[trigger] self.entries@[j]).0@ != k@,
            decreases i,
        {
            i = i - 1;
            let e = &self.entries[i];
            if e.0 == *k {
                proof {
                    lemma_str_entries_map_found(self.entries@, i as int);
                }
                return Some(&e.1);
            }
        }
        proof {
            lemma_str_entries_map_absent(self.entries@, k@);
        }
        None
    }

    /// Binds the key to the value, shadowing any earlier entry.
    pub fn set(&mut self, k: String, v: V)
        ensures
            final(self).table_map() == old(self).table_map().insert(k@, v.deep_view()),
    {
        let ghost old_entries = self.entries@;
        self.entries.push((k, v));
        proof {
            assert(self.entries@.drop_last() =~= old_entries);
        }
    }
}

/// A table keyed by account.
pub struct AcctTable<V> {
    entries: Vec<(AccountId, V)>,
}

impl<V: DeepView> AcctTable<V> {
    /// The map this table holds.
    pub closed spec fn table_map(self) -> Map<AccountId, <V as DeepView>::V> {
        acct_entries_map(self.entries@)
    }

    pub fn new() -> (r: AcctTable<V>)
        ensures
            r.table_map() == Map::<AccountId, <V as DeepView>::V>::empty(),
    {
        AcctTable { entries: Vec::new() }
    }

    /// Looks the key up, returning the value of the latest entry for it.
    pub fn get<'a>(&'a self, k: AccountId) -> (r: Option<&'a V>)
        ensures
            match r {
                Some(v) => self.table_map().contains_key(k) && v.deep_view() == self.table_map()[k],
                None => !self.table_map().contains_key(k),
            },
    {
        let mut i = self.entries.len();
        while i > 0
            invariant
                i <= self.entries@.len(),
                forall|j: int| i <= j < self.entries@.len() ==> (#[trigger] self.entries@[j]).0 != k,
            decreases i,
        {
            i = i - 1;
            let e = &self.entries[i];
            if e.0 == k {
                proof {
                    lemma_acct_entries_map_found(self.entries@, i as int);
                }
                return Some(&e.1);
            }
        }
        proof {
            lemma_acct_entries_map_absent(self.entries@, k);
        }
        None
    }

    /// Binds the key to the value, shadowing any earlier entry.
    pub fn set(&mut self, k: AccountId, v: V)
        ensures
            final(self).table_map() == old(self).table_map().insert(k, v.deep_view()),
    {
        let ghost old_entries = self.entries@;
        self.entries.push((k, v));
        proof {
            assert(self.entries@.drop_last() =~= old_entries);
        }
    }
}

} // verus!
