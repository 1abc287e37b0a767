//! The per-file import map: alias entries plus the reserved
//! `__glob__`, `__export__` and `__export_glob__` key families.
//!
//! The map is an association list; its mathematical value is the map
//! built by inserting entries first to last, so a later entry for a key
//! shadows an earlier one.

use vstd::prelude::*;
use crate::strutil::str_eq;

verus! {

/// Mathematical value of an entry.
pub struct ImportEntryV {
    pub key: Seq<char>,
    pub value: Seq<char>,
}

#[derive(Debug, Clone, PartialEq, Eq)]
pub struct ImportEntry {
    pub key: String,
    pub value: String,
}

impl View for ImportEntry {
    type V = ImportEntryV;

    open spec fn view(&self) -> ImportEntryV {
        ImportEntryV { key: self.key@, value: self.value@ }
    }
}

impl DeepView for ImportEntry {
    type V = ImportEntryV;

    open spec fn deep_view(&self) -> ImportEntryV {
        self@
    }
}

/// The map an entry list denotes.
pub open spec fn map_of(es: Seq<ImportEntryV>) -> Map<Seq<char>, Seq<char>>
    decreases es.len(),
{
    if es.len() == 0 {
        Map::empty()
    } else {
        map_of(es.drop_last()).insert(es.last().key, es.last().value)
    }
}

#[derive(Debug, Clone, PartialEq, Eq)]
pub struct ImportMap {
    pub entries: Vec<ImportEntry>,
}

impl View for ImportMap {
    type V = Map<Seq<char>, Seq<char>>;

    open spec fn view(&self) -> Map<Seq<char>, Seq<char>> {
        map_of(self.entries.deep_view())
    }
}

/// The key at the last position holding `k`, if any, gives the map's
/// value at `k`.
pub proof fn lemma_map_of_at(es: Seq<ImportEntryV>, k: Seq<char>, i: int)
    requires
        0 <= i < es.len(),
        es[i].key == k,
        forall|j: int| i < j < es.len() ==> (#[trigger] es[j]).key != k,
    ensures
        map_of(es).contains_key(k),
        map_of(es)[k] == es[i].value,
    decreases es.len(),
{
    if i == es.len() - 1 {
    } else {
        assert(es.last().key != k);
        lemma_map_of_at(es.drop_last(), k, i);
    }
}

/// A key held by no entry is absent from the map.
pub proof fn lemma_map_of_absent(es: Seq<ImportEntryV>, k: Seq<char>)
    requires
        forall|j: int| 0 <= j < es.len() ==> (#[trigger] es[j]).key != k,
    ensures
        !map_of(es).contains_key(k),
    decreases es.len(),
{
    if es.len() > 0 {
        lemma_map_of_absent(es.drop_last(), k);
    }
}

impl ImportMap {
    /// The empty map.
    pub fn new() -> (r: ImportMap)
        ensures
            r@ == Map::<Seq<char>, Seq<char>>::empty(),
            r.entries@.len() == 0,
    {
        let r = ImportMap { entries: Vec::new() };
        assert(r.entries.deep_view() =~= Seq::<ImportEntryV>::empty());
        r
    }

    /// Bind `key` to `value`, shadowing any earlier binding.
    pub fn insert(&mut self, key: String, value: String)
        ensures
            final(self)@ == old(self)@.insert(key@, value@),
            final(self).entries@ == old(self).entries@.push(
                ImportEntry { key, value },
            ),
            final(self).entries.deep_view() == old(self).entries.deep_view().push(
                ImportEntryV { key: key@, value: value@ },
            ),
    {
        let ghost k = key@;
        let ghost v = value@;
        let ghost e0 = self.entries.deep_view();
        self.entries.push(ImportEntry { key, value });
        proof {
            assert(self.entries.deep_view() =~~= e0.push(ImportEntryV { key: k, value: v }));
            assert(self.entries.deep_view().drop_last() =~~= e0);
        }
    }

    /// The value bound to `key`, if any.
    #[verifier::loop_isolation(false)]
    pub fn lookup(&self, key: &str) -> (r: Option<String>)
        ensures
            match r {
                Some(v) => self@.contains_key(key@) && self@[key@] == v@,
                None => !self@.contains_key(key@),
            },
    {
        let n = self.entries.len();
        let mut i: usize = n;
        while i > 0
            invariant
                i <= n,
                n == self.entries@.len(),
                forall|j: int|
                    i <= j < n ==> (#[trigger] self.entries.deep_view()[j]).key != key@,
            decreases i,
        {
            i = i - 1;
            let e = &self.entries[i];
            if str_eq(e.key.as_str(), key) {
                proof {
                    lemma_map_of_at(self.entries.deep_view(), key@, i as int);
                }
                return Some(e.value.clone());
            }
            assert(self.entries.deep_view()[i as int].key != key@);
        }
        proof {
            lemma_map_of_absent(self.entries.deep_view(), key@);
        }
        None
    }

    /// Whether `key` is bound.
    pub fn contains_key(&self, key: &str) -> (r: bool)
        ensures
            r == self@.contains_key(key@),
    {
        self.lookup(key).is_some()
    }

    /// An exact copy.
    #[verifier::loop_isolation(false)]
    pub fn dup(&self) -> (r: ImportMap)
        ensures
            r@ == self@,
            r.entries@.len() == self.entries@.len(),
            r.entries.deep_view() == self.entries.deep_view(),
    {
        let mut es: Vec<ImportEntry> = Vec::new();
        let mut i: usize = 0;
        while i < self.entries.len()
            invariant
                i <= self.entries@.len(),
                es.deep_view() == self.entries.deep_view().subrange(0, i as int),
            decreases self.entries.len() - i,
        {
            let e = &self.entries[i];
            es.push(ImportEntry { key: e.key.clone(), value: e.value.clone() });
            assert(es.deep_view() =~~= self.entries.deep_view().subrange(0, i as int + 1));
            i = i + 1;
        }
        assert(es.deep_view() =~~= self.entries.deep_view());
        ImportMap { entries: es }
    }
}

} // verus!
