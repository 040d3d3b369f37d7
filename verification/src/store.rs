//! The symbol store: a repository of instrument records keyed by symbol
//! name, kept sorted by key so listing is in ascending order.
//!
//! `put` overwrites unconditionally; callers that must not overwrite check
//! existence first, as the acquirers do.
use vstd::prelude::*;

use crate::error::IngestError;
use crate::record::SymbolData;
use crate::text::lemma_lex_irrefl;
use crate::text::lex_lt;
use crate::text::str_eq;
use crate::text::str_lt;
use crate::text::to_upper;
use crate::text::upper_seq;

verus! {

/// Some record in `rs` has this key.
pub open spec fn spec_contains_symbol(rs: Seq<SymbolData>, key: Seq<char>) -> bool {
    exists|i: int| 0 <= i < rs.len() && rs[i].symbol@ == key
}

/// The index of the record with this key.
pub open spec fn spec_symbol_index(rs: Seq<SymbolData>, key: Seq<char>) -> int {
    choose|i: int| 0 <= i < rs.len() && rs[i].symbol@ == key
}

/// The record with this key.
pub open spec fn spec_lookup(rs: Seq<SymbolData>, key: Seq<char>) -> SymbolData {
    rs[spec_symbol_index(rs, key)]
}

/// Keys are strictly ascending, so each key occurs at most once.
pub open spec fn store_sorted(rs: Seq<SymbolData>) -> bool {
    forall|i: int, j: int| 0 <= i < j < rs.len() ==> lex_lt(rs[i].symbol@, rs[j].symbol@)
}

/// In a sorted store a key determines its index.
pub proof fn lemma_store_key_unique(rs: Seq<SymbolData>, i: int, j: int)
    requires
        store_sorted(rs),
        0 <= i < rs.len(),
        0 <= j < rs.len(),
        rs[i].symbol@ == rs[j].symbol@,
    ensures
        i == j,
{
    if i < j {
        lemma_lex_irrefl(rs[i].symbol@);
    }
    if j < i {
        lemma_lex_irrefl(rs[i].symbol@);
    }
}

/// The persisted set of instrument records.
pub struct SymbolStore {
    pub records: Vec<SymbolData>,
}

impl SymbolStore {
    /// The store's invariant: records strictly sorted by symbol.
    pub open spec fn wf(self) -> bool {
        store_sorted(self.records@)
    }

    /// A record with this key is persisted.
    pub open spec fn contains_key(self, key: Seq<char>) -> bool {
        spec_contains_symbol(self.records@, key)
    }

    /// The persisted record with this key.
    pub open spec fn lookup(self, key: Seq<char>) -> SymbolData {
        spec_lookup(self.records@, key)
    }

    pub fn new() -> (r: SymbolStore)
        ensures
            r.wf(),
            r.records@.len() == 0,
    {
        SymbolStore { records: Vec::new() }
    }

    fn position_of(&self, key: &str) -> (r: Option<usize>)
        ensures
            match r {
                Some(j) => j < self.records@.len() && self.records@[j as int].symbol@ == key@,
                None => !self.contains_key(key@),
            },
    {
        let n = self.records.len();
        let mut j: usize = 0;
        while j < n
            invariant
                n == self.records@.len(),
                0 <= j <= n,
                forall|k: int| 0 <= k < j ==> self.records@[k].symbol@ != key@,
            decreases n - j,
        {
            if str_eq(self.records[j].symbol.as_str(), key) {
                return Some(j);
            }
            j = j + 1;
        }
        None
    }

    /// Whether a record under this symbol is persisted.
    pub fn has_symbol(&self, symbol: &str) -> (r: bool)
        ensures
            r == self.contains_key(symbol@),
    {
        match self.position_of(symbol) {
            Some(_) => true,
            None => false,
        }
    }

    /// The record under this symbol, or `NotFound` exactly when none is
    /// persisted.
    pub fn get(&self, symbol: &str) -> (r: Result<&SymbolData, IngestError>)
        requires
            self.wf(),
        ensures
            match r {
                Ok(d) => self.contains_key(symbol@) && *d == self.lookup(symbol@),
                Err(e) => !self.contains_key(symbol@) && (e matches IngestError::NotFound {
                    symbol: s,
                } && s@ == symbol@),
            },
    {
        match self.position_of(symbol) {
            Some(j) => {
                proof {
                    let i = spec_symbol_index(self.records@, symbol@);
                    assert(0 <= i < self.records@.len() && self.records@[i].symbol@ == symbol@);
                    lemma_store_key_unique(self.records@, i, j as int);
                }
                Ok(&self.records[j])
            },
            None => Err(IngestError::NotFound { symbol: symbol.to_owned() }),
        }
    }

    /// All persisted records, sorted by symbol name ascending; empty when
    /// nothing is persisted yet.
    pub fn list(&self) -> (r: &Vec<SymbolData>)
        requires
            self.wf(),
        ensures
            r@ == self.records@,
            store_sorted(r@),
    {
        &self.records
    }

    /// Persists the record under its upper-cased symbol, overwriting any
    /// record already there; every other key is untouched.
    pub fn put(&mut self, record: SymbolData)
        requires
            old(self).wf(),
        ensures
            final(self).wf(),
            final(self).contains_key(upper_seq(record.symbol@)),
            ({
                let d = final(self).lookup(upper_seq(record.symbol@));
                d.symbol@ == upper_seq(record.symbol@) && d.timeframes == record.timeframes
                    && d.total_candles == record.total_candles && d.uploaded_at
                    == record.uploaded_at
            }),
            forall|k: Seq<char>|
                k != upper_seq(record.symbol@) ==> #[trigger] final(self).contains_key(k)
                    == old(self).contains_key(k),
            forall|k: Seq<char>|
                k != upper_seq(record.symbol@) && old(self).contains_key(k)
                    ==> #[trigger] final(self).lookup(k) == old(self).lookup(k),
    {
        let key = to_upper(record.symbol.as_str());
        let SymbolData { symbol: _, timeframes, total_candles, uploaded_at } = record;
        let stored = SymbolData { symbol: key, timeframes, total_candles, uploaded_at };
        let ghost kv = upper_seq(record.symbol@);
        let ghost rs0 = self.records@;
        let n = self.records.len();
        let mut j: usize = 0;
        while j < n && str_lt(self.records[j].symbol.as_str(), stored.symbol.as_str())
            invariant
                n == self.records@.len(),
                0 <= j <= n,
                self.records@ == rs0,
                stored.symbol@ == kv,
                forall|k: int| 0 <= k < j ==> lex_lt(self.records@[k].symbol@, kv),
            decreases n - j,
        {
            j = j + 1;
        }
        let replace = j < n && str_eq(self.records[j].symbol.as_str(), stored.symbol.as_str());
        if replace {
            self.records.remove(j);
            self.records.insert(j, stored);
            proof {
                assert(self.records@ =~= rs0.update(j as int, stored));
                lemma_put_update(rs0, j as int, stored, kv);
            }
        } else {
            proof {
                if j < n {
                    crate::text::lemma_lex_connected(rs0[j as int].symbol@, kv);
                }
            }
            self.records.insert(j, stored);
            proof {
                assert(self.records@ =~= rs0.insert(j as int, stored));
                lemma_put_insert(rs0, j as int, stored, kv);
            }
        }
    }

    /// Removes the record under this symbol; `NotFound` exactly when none
    /// is persisted; every other key is untouched.
    pub fn delete(&mut self, symbol: &str) -> (r: Result<(), IngestError>)
        requires
            old(self).wf(),
        ensures
            final(self).wf(),
            match r {
                Ok(_) => old(self).contains_key(symbol@) && !final(self).contains_key(symbol@),
                Err(e) => !old(self).contains_key(symbol@) && *final(self) == *old(self) && (
                e matches IngestError::NotFound { symbol: s } && s@ == symbol@),
            },
            forall|k: Seq<char>|
                k != symbol@ ==> #[trigger] final(self).contains_key(k) == old(
                    self,
                ).contains_key(k),
            forall|k: Seq<char>|
                k != symbol@ && old(self).contains_key(k) ==> #[trigger] final(self).lookup(k)
                    == old(self).lookup(k),
    {
        let ghost rs0 = self.records@;
        match self.position_of(symbol) {
            Some(j) => {
                self.records.remove(j);
                proof {
                    lemma_delete_at(rs0, j as int, symbol@);
                }
                Ok(())
            },
            None => Err(IngestError::NotFound { symbol: symbol.to_owned() }),
        }
    }

    /// Moves the record under `old_name` to the upper-cased `new_name`,
    /// rewriting its symbol field; fails with `NotFound` when the source is
    /// absent and with `AlreadyExists` when the target is taken, and then
    /// changes nothing.
    pub fn rename(&mut self, old_name: &str, new_name: &str) -> (r: Result<(), IngestError>)
        requires
            old(self).wf(),
        ensures
            final(self).wf(),
            match r {
                Ok(_) => old(self).contains_key(old_name@) && !old(self).contains_key(
                    upper_seq(new_name@),
                ) && final(self).contains_key(upper_seq(new_name@)) && ({
                    let d0 = old(self).lookup(old_name@);
                    let d1 = final(self).lookup(upper_seq(new_name@));
                    d1.symbol@ == upper_seq(new_name@) && d1.timeframes == d0.timeframes
                        && d1.total_candles == d0.total_candles && d1.uploaded_at
                        == d0.uploaded_at
                }) && (old_name@ != upper_seq(new_name@) ==> !final(self).contains_key(
                    old_name@,
                )) && (forall|k: Seq<char>|
                    k != old_name@ && k != upper_seq(new_name@)
                        ==> #[trigger] final(self).contains_key(k) == old(self).contains_key(
                        k,
                    )) && (forall|k: Seq<char>|
                    k != old_name@ && k != upper_seq(new_name@) && old(self).contains_key(k)
                        ==> #[trigger] final(self).lookup(k) == old(self).lookup(k)),
                Err(e) => *final(self) == *old(self) && match e {
                    IngestError::NotFound { symbol: s } => !old(self).contains_key(old_name@)
                        && s@ == old_name@,
                    IngestError::AlreadyExists { symbol: s } => old(self).contains_key(old_name@)
                        && old(self).contains_key(upper_seq(new_name@)) && s@ == upper_seq(
                        new_name@,
                    ),
                    _ => false,
                },
            },
    {
        let j = match self.position_of(old_name) {
            Some(j) => j,
            None => {
                return Err(IngestError::NotFound { symbol: old_name.to_owned() });
            },
        };
        let new_key = to_upper(new_name);
        if self.has_symbol(new_key.as_str()) {
            return Err(IngestError::AlreadyExists { symbol: new_key });
        }
        let ghost rs0 = self.records@;
        let removed = self.records.remove(j);
        proof {
            lemma_delete_at(rs0, j as int, old_name@);
        }
        let SymbolData { symbol: _, timeframes, total_candles, uploaded_at } = removed;
        let renamed = SymbolData { symbol: new_key, timeframes, total_candles, uploaded_at };
        proof {
            crate::timeframe::lemma_canonicalize_idempotent(new_name@);
            assert(upper_seq(renamed.symbol@) == renamed.symbol@);
        }
        self.put(renamed);
        Ok(())
    }
}

proof fn lemma_put_update(rs: Seq<SymbolData>, j: int, stored: SymbolData, kv: Seq<char>)
    requires
        store_sorted(rs),
        0 <= j < rs.len(),
        rs[j].symbol@ == kv,
        stored.symbol@ == kv,
    ensures
        store_sorted(rs.update(j, stored)),
        spec_contains_symbol(rs.update(j, stored), kv),
        spec_lookup(rs.update(j, stored), kv) == stored,
        forall|k: Seq<char>|
            k != kv ==> #[trigger] spec_contains_symbol(rs.update(j, stored), k)
                == spec_contains_symbol(rs, k),
        forall|k: Seq<char>|
            k != kv && spec_contains_symbol(rs, k) ==> #[trigger] spec_lookup(
                rs.update(j, stored),
                k,
            ) == spec_lookup(rs, k),
{
    let rs1 = rs.update(j, stored);
    assert(store_sorted(rs1));
    assert(rs1[j].symbol@ == kv);
    assert(spec_contains_symbol(rs1, kv));
    lemma_store_key_unique(rs1, spec_symbol_index(rs1, kv), j);
    assert forall|k: Seq<char>| k != kv implies #[trigger] spec_contains_symbol(rs1, k)
        == spec_contains_symbol(rs, k) by {
        if spec_contains_symbol(rs1, k) {
            let i = spec_symbol_index(rs1, k);
            assert(0 <= i < rs1.len() && rs1[i].symbol@ == k);
            assert(i != j);
            assert(rs[i].symbol@ == k);
        }
        if spec_contains_symbol(rs, k) {
            let i = spec_symbol_index(rs, k);
            assert(0 <= i < rs.len() && rs[i].symbol@ == k);
            assert(i != j);
            assert(rs1[i].symbol@ == k);
        }
    }
    assert forall|k: Seq<char>| k != kv && spec_contains_symbol(rs, k) implies #[trigger] spec_lookup(
        rs1,
        k,
    ) == spec_lookup(rs, k) by {
        let i0 = spec_symbol_index(rs, k);
        assert(0 <= i0 < rs.len() && rs[i0].symbol@ == k);
        assert(i0 != j);
        assert(rs1[i0].symbol@ == k);
        let i1 = spec_symbol_index(rs1, k);
        assert(0 <= i1 < rs1.len() && rs1[i1].symbol@ == k);
        lemma_store_key_unique(rs1, i0, i1);
        assert(i1 != j);
    }
}

proof fn lemma_put_insert(rs: Seq<SymbolData>, j: int, stored: SymbolData, kv: Seq<char>)
    requires
        store_sorted(rs),
        0 <= j <= rs.len(),
        stored.symbol@ == kv,
        forall|k: int| 0 <= k < j ==> lex_lt(rs[k].symbol@, kv),
        j < rs.len() ==> lex_lt(kv, rs[j].symbol@),
    ensures
        store_sorted(rs.insert(j, stored)),
        spec_contains_symbol(rs.insert(j, stored), kv),
        spec_lookup(rs.insert(j, stored), kv) == stored,
        forall|k: Seq<char>|
            k != kv ==> #[trigger] spec_contains_symbol(rs.insert(j, stored), k)
                == spec_contains_symbol(rs, k),
        forall|k: Seq<char>|
            k != kv && spec_contains_symbol(rs, k) ==> #[trigger] spec_lookup(
                rs.insert(j, stored),
                k,
            ) == spec_lookup(rs, k),
{
    let rs1 = rs.insert(j, stored);
    assert(rs1.len() == rs.len() + 1);
    assert(rs1[j] == stored);
    assert(forall|k: int| 0 <= k < j ==> rs1[k] == rs[k]);
    assert(forall|k: int| j < k < rs1.len() ==> rs1[k] == rs[k - 1]);
    assert forall|a: int, b: int| 0 <= a < b < rs1.len() implies lex_lt(
        rs1[a].symbol@,
        rs1[b].symbol@,
    ) by {
        if a == j {
            assert(j < rs.len() ==> lex_lt(kv, rs[j].symbol@));
            if b > j {
                assert(rs1[b] == rs[b - 1]);
                if b - 1 > j {
                    crate::text::lemma_lex_trans(kv, rs[j].symbol@, rs[b - 1].symbol@);
                }
            }
        } else if b == j {
            assert(rs1[a] == rs[a]);
        } else if a < j && b > j {
            assert(rs1[a] == rs[a]);
            assert(rs1[b] == rs[b - 1]);
            if b - 1 == j {
                assert(lex_lt(rs[a].symbol@, kv));
                assert(lex_lt(kv, rs[j].symbol@));
                crate::text::lemma_lex_trans(rs[a].symbol@, kv, rs[j].symbol@);
            }
        }
    }
    assert(spec_contains_symbol(rs1, kv));
    lemma_store_key_unique(rs1, spec_symbol_index(rs1, kv), j);
    assert forall|k: Seq<char>| k != kv implies #[trigger] spec_contains_symbol(rs1, k)
        == spec_contains_symbol(rs, k) by {
        if spec_contains_symbol(rs1, k) {
            let i = spec_symbol_index(rs1, k);
            assert(0 <= i < rs1.len() && rs1[i].symbol@ == k);
            assert(i != j);
            if i < j {
                assert(rs[i].symbol@ == k);
            } else {
                assert(rs[i - 1].symbol@ == k);
            }
        }
        if spec_contains_symbol(rs, k) {
            let i = spec_symbol_index(rs, k);
            assert(0 <= i < rs.len() && rs[i].symbol@ == k);
            if i < j {
                assert(rs1[i].symbol@ == k);
            } else {
                assert(rs1[i + 1].symbol@ == k);
            }
        }
    }
    assert forall|k: Seq<char>| k != kv && spec_contains_symbol(rs, k) implies #[trigger] spec_lookup(
        rs1,
        k,
    ) == spec_lookup(rs, k) by {
        let i0 = spec_symbol_index(rs, k);
        assert(0 <= i0 < rs.len() && rs[i0].symbol@ == k);
        let w = if i0 < j {
            i0
        } else {
            i0 + 1
        };
        assert(rs1[w].symbol@ == k);
        assert(rs1[w] == rs[i0]);
        let i1 = spec_symbol_index(rs1, k);
        assert(0 <= i1 < rs1.len() && rs1[i1].symbol@ == k);
        lemma_store_key_unique(rs1, w, i1);
    }
}

proof fn lemma_delete_at(rs: Seq<SymbolData>, j: int, key: Seq<char>)
    requires
        store_sorted(rs),
        0 <= j < rs.len(),
        rs[j].symbol@ == key,
    ensures
        store_sorted(rs.remove(j)),
        !spec_contains_symbol(rs.remove(j), key),
        spec_contains_symbol(rs, key),
        spec_lookup(rs, key) == rs[j],
        forall|k: Seq<char>|
            k != key ==> #[trigger] spec_contains_symbol(rs.remove(j), k) == spec_contains_symbol(
                rs,
                k,
            ),
        forall|k: Seq<char>|
            k != key && spec_contains_symbol(rs, k) ==> #[trigger] spec_lookup(rs.remove(j), k)
                == spec_lookup(rs, k),
{
    let rs1 = rs.remove(j);
    assert(rs1.len() == rs.len() - 1);
    assert(forall|k: int| 0 <= k < j ==> rs1[k] == rs[k]);
    assert(forall|k: int| j <= k < rs1.len() ==> rs1[k] == rs[k + 1]);
    assert(spec_contains_symbol(rs, key));
    lemma_store_key_unique(rs, spec_symbol_index(rs, key), j);
    assert(store_sorted(rs1));
    if spec_contains_symbol(rs1, key) {
        let i = spec_symbol_index(rs1, key);
        assert(0 <= i < rs1.len() && rs1[i].symbol@ == key);
        if i < j {
            lemma_store_key_unique(rs, i, j);
        } else {
            lemma_store_key_unique(rs, i + 1, j);
        }
    }
    assert forall|k: Seq<char>| k != key implies #[trigger] spec_contains_symbol(rs1, k)
        == spec_contains_symbol(rs, k) by {
        if spec_contains_symbol(rs1, k) {
            let i = spec_symbol_index(rs1, k);
            assert(0 <= i < rs1.len() && rs1[i].symbol@ == k);
            if i < j {
                assert(rs[i].symbol@ == k);
            } else {
                assert(rs[i + 1].symbol@ == k);
            }
        }
        if spec_contains_symbol(rs, k) {
            let i = spec_symbol_index(rs, k);
            assert(0 <= i < rs.len() && rs[i].symbol@ == k);
            assert(i != j);
            if i < j {
                assert(rs1[i].symbol@ == k);
            } else {
                assert(rs1[i - 1].symbol@ == k);
            }
        }
    }
    assert forall|k: Seq<char>| k != key && spec_contains_symbol(rs, k) implies #[trigger] spec_lookup(
        rs1,
        k,
    ) == spec_lookup(rs, k) by {
        let i0 = spec_symbol_index(rs, k);
        assert(0 <= i0 < rs.len() && rs[i0].symbol@ == k);
        assert(i0 != j);
        let w = if i0 < j {
            i0
        } else {
            i0 - 1
        };
        assert(rs1[w].symbol@ == k);
        assert(rs1[w] == rs[i0]);
        let i1 = spec_symbol_index(rs1, k);
        assert(0 <= i1 < rs1.len() && rs1[i1].symbol@ == k);
        lemma_store_key_unique(rs1, w, i1);
    }
}

/// Fails with `AlreadyExists` exactly when the symbol is already persisted;
/// acquirers call this before any network or assembly work.
pub fn check_symbol_exists(store: &SymbolStore, symbol: &str) -> (r: Result<(), IngestError>)
    ensures
        match r {
            Ok(_) => !store.contains_key(symbol@),
            Err(e) => store.contains_key(symbol@) && (e matches IngestError::AlreadyExists {
                symbol: s,
            } && s@ == symbol@),
        },
{
    if store.has_symbol(symbol) {
        Err(IngestError::AlreadyExists { symbol: symbol.to_owned() })
    } else {
        Ok(())
    }
}

} // verus!
