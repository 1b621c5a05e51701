//! Models of the three tables the pipeline writes: detected blocks, scan
//! cursors, and lazily registered endpoints.
//!
//! Each table keeps the write semantics the pipeline relies on — a block row
//! is inserted-or-ignored (at most one logical row per directed pair), a
//! cursor row is replaced in place under its key, and an endpoint is assigned
//! a small id once and keeps it. The binary mirrors every mutation here with
//! one atomic database statement.

use vstd::prelude::*;

verus! {

/// A directed block record: `source` blocks `target`, observed or performed
/// at the Unix second `retrieved_at`.
#[derive(Clone, Copy, Debug, PartialEq, Eq, Structural)]
pub struct BlockRow {
    pub source: i64,
    pub target: i64,
    pub retrieved_at: i64,
}

/// The set of directed block records, keyed by (source, target).
#[derive(Clone, Debug)]
pub struct BlockTable {
    rows: Vec<BlockRow>,
}

impl BlockTable {
    /// The rows in insertion order.
    pub closed spec fn rows(self) -> Seq<BlockRow> {
        self.rows@
    }

    /// The directed pairs on record.
    pub open spec fn pairs(self) -> Set<(i64, i64)> {
        Set::new(|p: (i64, i64)| exists|k: int| 0 <= k < self.rows().len()
            && (#[trigger] self.rows()[k]).source == p.0 && self.rows()[k].target == p.1)
    }

    /// At most one row per directed pair.
    pub open spec fn wf(self) -> bool {
        forall|j: int, k: int| 0 <= j < k < self.rows().len()
            ==> ((#[trigger] self.rows()[j]).source, self.rows()[j].target)
                != ((#[trigger] self.rows()[k]).source, self.rows()[k].target)
    }

    pub fn new() -> (t: BlockTable)
        ensures
            t.wf(),
            t.rows() == Seq::<BlockRow>::empty(),
            t.pairs() =~= Set::<(i64, i64)>::empty(),
    {
        BlockTable { rows: Vec::new() }
    }

    /// How many rows are on record.
    pub fn len(&self) -> (n: usize)
        ensures
            n == self.rows().len(),
    {
        self.rows.len()
    }

    /// Whether `source` is on record as blocking `target`.
    pub fn contains(&self, source: i64, target: i64) -> (r: bool)
        ensures
            r == self.pairs().contains((source, target)),
    {
        let mut k: usize = 0;
        while k < self.rows.len()
            invariant
                0 <= k <= self.rows().len(),
                forall|j: int| 0 <= j < k ==> !((#[trigger] self.rows()[j]).source == source
                    && self.rows()[j].target == target),
            decreases self.rows().len() - k,
        {
            if self.rows[k].source == source && self.rows[k].target == target {
                return true;
            }
            k = k + 1;
        }
        false
    }

    /// Records that `source` blocks `target`, observed at `retrieved_at`; a
    /// pair already on record is left exactly as it was.
    pub fn insert_or_ignore(&mut self, source: i64, target: i64, retrieved_at: i64)
        requires
            old(self).wf(),
        ensures
            final(self).wf(),
            final(self).pairs() =~= old(self).pairs().insert((source, target)),
            old(self).pairs().contains((source, target)) ==> final(self).rows()
                == old(self).rows(),
            !old(self).pairs().contains((source, target)) ==> final(self).rows()
                == old(self).rows().push(BlockRow { source, target, retrieved_at }),
    {
        if !self.contains(source, target) {
            self.rows.push(BlockRow { source, target, retrieved_at });
            proof {
                let r_old = old(self).rows();
                let r_new = self.rows();
                assert forall|j: int, l: int| 0 <= j < l < r_new.len() implies ((
                #[trigger] r_new[j]).source, r_new[j].target) != ((#[trigger] r_new[l]).source,
                r_new[l].target) by {
                    if l == r_old.len() {
                        assert(r_new[j] == r_old[j]);
                        if r_old[j].source == source && r_old[j].target == target {
                            assert(old(self).pairs().contains((source, target)));
                        }
                    } else {
                        assert(r_new[j] == r_old[j]);
                        assert(r_new[l] == r_old[l]);
                    }
                }
                assert forall|p: (i64, i64)| self.pairs().contains(p) implies old(
                    self,
                ).pairs().insert((source, target)).contains(p) by {
                    let k = choose|k: int| 0 <= k < r_new.len() && (#[trigger] r_new[k]).source
                        == p.0 && r_new[k].target == p.1;
                    if k < r_old.len() {
                        assert(r_old[k] == r_new[k]);
                    }
                }
                assert(self.pairs().contains((source, target))) by {
                    assert(r_new[r_old.len() as int].source == source);
                }
                assert forall|p: (i64, i64)| old(self).pairs().contains(p) implies self.pairs().contains(
                    p,
                ) by {
                    let k = choose|k: int| 0 <= k < r_old.len() && (#[trigger] r_old[k]).source
                        == p.0 && r_old[k].target == p.1;
                    assert(r_new[k] == r_old[k]);
                }
            }
        } else {
            proof {
                assert(self.pairs() =~= old(self).pairs().insert((source, target)));
            }
        }
    }
}

/// The key of a scan cursor: the endpoint being paginated, the user whose
/// credentials drive the scan, and the user whose list is scanned.
#[derive(Clone, Copy, Debug, PartialEq, Eq, Structural)]
pub struct CursorKey {
    pub endpoint: i32,
    pub authenticated_user: i64,
    pub user: i64,
}

/// One persisted cursor row.
#[derive(Clone, Copy, Debug, PartialEq, Eq, Structural)]
pub struct CursorRow {
    pub key: CursorKey,
    pub cursor: i64,
}

/// The persisted pagination cursors, one row per key, replaced in place.
#[derive(Clone, Debug)]
pub struct CursorTable {
    rows: Vec<CursorRow>,
}

impl CursorTable {
    pub closed spec fn rows(self) -> Seq<CursorRow> {
        self.rows@
    }

    /// The stored cursor of each key.
    pub open spec fn as_map(self) -> Map<CursorKey, i64> {
        Map::new(
            |key: CursorKey| exists|k: int| 0 <= k < self.rows().len()
                && (#[trigger] self.rows()[k]).key == key,
            |key: CursorKey| self.rows()[choose|k: int| 0 <= k < self.rows().len()
                && (#[trigger] self.rows()[k]).key == key].cursor,
        )
    }

    /// At most one row per key.
    pub open spec fn wf(self) -> bool {
        forall|j: int, k: int| 0 <= j < k < self.rows().len()
            ==> (#[trigger] self.rows()[j]).key != (#[trigger] self.rows()[k]).key
    }

    pub fn new() -> (t: CursorTable)
        ensures
            t.wf(),
            t.as_map() =~= Map::<CursorKey, i64>::empty(),
    {
        CursorTable { rows: Vec::new() }
    }

    /// The cursor stored under `key`, if a scan has persisted one.
    pub fn get(&self, key: CursorKey) -> (r: Option<i64>)
        requires
            self.wf(),
        ensures
            r is Some <==> self.as_map().dom().contains(key),
            r is Some ==> r.unwrap() == self.as_map()[key],
    {
        let mut k: usize = 0;
        while k < self.rows.len()
            invariant
                self.wf(),
                0 <= k <= self.rows().len(),
                forall|j: int| 0 <= j < k ==> (#[trigger] self.rows()[j]).key != key,
            decreases self.rows().len() - k,
        {
            if self.rows[k].key == key {
                proof {
                    lemma_unique_row_lookup(self.rows(), key);
                    assert(self.rows()[k as int].key == key);
                }
                return Some(self.rows[k].cursor);
            }
            k = k + 1;
        }
        None
    }

    /// Stores `cursor` under `key`, replacing whatever the key held.
    pub fn replace(&mut self, key: CursorKey, cursor: i64)
        requires
            old(self).wf(),
        ensures
            final(self).wf(),
            final(self).as_map() =~= old(self).as_map().insert(key, cursor),
    {
        let mut k: usize = 0;
        while k < self.rows.len()
            invariant
                old(self).wf(),
                0 <= k <= self.rows().len(),
                self.rows() == old(self).rows(),
                forall|j: int| 0 <= j < k ==> (#[trigger] self.rows()[j]).key != key,
            decreases self.rows().len() - k,
        {
            if self.rows[k].key == key {
                let ghost kk = k as int;
                self.rows[k] = CursorRow { key, cursor };
                proof {
                    let r_new = self.rows();
                    let r_old = old(self).rows();
                    assert forall|j: int, l: int| 0 <= j < l < r_new.len() implies (
                    #[trigger] r_new[j]).key != (#[trigger] r_new[l]).key by {
                        assert(r_old[j].key == r_new[j].key);
                        assert(r_old[l].key == r_new[l].key);
                    }
                    assert forall|q: CursorKey| #[trigger] map_entry_matches(
                        self.as_map(),
                        old(self).as_map().insert(key, cursor),
                        q,
                    ) by {
                        lemma_unique_row_lookup(r_new, q);
                        lemma_unique_row_lookup(r_old, q);
                        assert(r_new[kk].key == key);
                        if q != key && self.as_map().dom().contains(q) {
                            let j = choose|j: int| 0 <= j < r_new.len() && (#[trigger] r_new[j]).key
                                == q;
                            assert(r_old[j] == r_new[j]);
                        }
                        if q != key && old(self).as_map().dom().contains(q) {
                            let j = choose|j: int| 0 <= j < r_old.len() && (#[trigger] r_old[j]).key
                                == q;
                            assert(r_new[j] == r_old[j]);
                        }
                    }
                    lemma_map_ext(self.as_map(), old(self).as_map().insert(key, cursor));
                }
                return ;
            }
            k = k + 1;
        }
        self.rows.push(CursorRow { key, cursor });
        proof {
            let r_new = self.rows();
            let r_old = old(self).rows();
            assert forall|j: int, l: int| 0 <= j < l < r_new.len() implies (
            #[trigger] r_new[j]).key != (#[trigger] r_new[l]).key by {
                if l < r_old.len() {
                    assert(r_old[j].key == r_new[j].key);
                    assert(r_old[l].key == r_new[l].key);
                } else {
                    assert(r_old[j].key == r_new[j].key);
                }
            }
            assert(r_new[r_old.len() as int].key == key);
            assert forall|q: CursorKey| #[trigger] map_entry_matches(
                self.as_map(),
                old(self).as_map().insert(key, cursor),
                q,
            ) by {
                lemma_unique_row_lookup(r_new, q);
                lemma_unique_row_lookup(r_old, q);
                if q != key && self.as_map().dom().contains(q) {
                    let j = choose|j: int| 0 <= j < r_new.len() && (#[trigger] r_new[j]).key == q;
                    assert(r_old[j] == r_new[j]);
                }
                if q != key && old(self).as_map().dom().contains(q) {
                    let j = choose|j: int| 0 <= j < r_old.len() && (#[trigger] r_old[j]).key == q;
                    assert(r_new[j] == r_old[j]);
                }
            }
            lemma_map_ext(self.as_map(), old(self).as_map().insert(key, cursor));
        }
    }
}

/// Whether `a` and `b` agree at the key `q`.
spec fn map_entry_matches(a: Map<CursorKey, i64>, b: Map<CursorKey, i64>, q: CursorKey) -> bool {
    a.dom().contains(q) == b.dom().contains(q) && (a.dom().contains(q) ==> a[q] == b[q])
}

/// Two cursor maps that agree at every key are equal.
proof fn lemma_map_ext(a: Map<CursorKey, i64>, b: Map<CursorKey, i64>)
    requires
        forall|q: CursorKey| #[trigger] map_entry_matches(a, b, q),
    ensures
        a =~= b,
{
    assert forall|q: CursorKey| a.dom().contains(q) implies b.dom().contains(q) by {
        assert(map_entry_matches(a, b, q));
    }
    assert forall|q: CursorKey| b.dom().contains(q) implies a.dom().contains(q) by {
        assert(map_entry_matches(a, b, q));
    }
    assert(a.dom() =~= b.dom());
    assert forall|q: CursorKey| a.dom().contains(q) implies a[q] == b[q] by {
        assert(map_entry_matches(a, b, q));
    }
}

/// In a run of rows with pairwise distinct keys, any row whose key is `q`
/// settles the lookup of `q`.
proof fn lemma_unique_row_lookup(rows: Seq<CursorRow>, q: CursorKey)
    requires
        forall|j: int, k: int| 0 <= j < k < rows.len() ==> (#[trigger] rows[j]).key != (
        #[trigger] rows[k]).key,
    ensures
        forall|j: int, k: int| 0 <= j < rows.len() && 0 <= k < rows.len() && (
        #[trigger] rows[j]).key == q && (#[trigger] rows[k]).key == q ==> j == k,
{
}

/// The registered endpoints: each distinct address is assigned the next small
/// id the first time it is seen, and keeps it.
#[derive(Clone, Debug)]
pub struct EndpointTable {
    uris: Vec<String>,
}

impl EndpointTable {
    /// The registered endpoint addresses, in order of registration; the id of
    /// the endpoint at position `k` is `k + 1`.
    pub closed spec fn uris(self) -> Seq<Seq<char>> {
        self.uris@.map_values(|s: String| s@)
    }

    /// Each endpoint registered once.
    pub open spec fn wf(self) -> bool {
        forall|j: int, k: int| 0 <= j < k < self.uris().len() ==> #[trigger] self.uris()[j]
            != #[trigger] self.uris()[k]
    }

    pub fn new() -> (t: EndpointTable)
        ensures
            t.wf(),
            t.uris() == Seq::<Seq<char>>::empty(),
    {
        let t = EndpointTable { uris: Vec::new() };
        proof {
            assert(t.uris() =~= Seq::<Seq<char>>::empty());
        }
        t
    }

    /// The id under which `uri` is registered, registering it first if it is
    /// new: the id of the row at position `k` is `k + 1`.
    pub fn ensure(&mut self, uri: &String) -> (id: i32)
        requires
            old(self).wf(),
            old(self).uris().len() < i32::MAX,
        ensures
            final(self).wf(),
            old(self).uris().contains(uri@) ==> final(self).uris() == old(self).uris(),
            !old(self).uris().contains(uri@) ==> final(self).uris() == old(self).uris().push(
                uri@,
            ),
            0 <= id - 1 < final(self).uris().len(),
            final(self).uris()[id - 1] == uri@,
    {
        let mut k: usize = 0;
        while k < self.uris.len()
            invariant
                old(self).wf(),
                0 <= k <= self.uris().len(),
                self.uris().len() < i32::MAX,
                self.uris() == old(self).uris(),
                forall|j: int| 0 <= j < k ==> #[trigger] self.uris()[j] != uri@,
            decreases self.uris().len() - k,
        {
            if self.uris[k] == *uri {
                proof {
                    assert(self.uris()[k as int] == uri@);
                }
                return (k + 1) as i32;
            }
            k = k + 1;
        }
        let ghost n = self.uris().len() as int;
        self.uris.push(uri.clone());
        proof {
            assert(self.uris() =~= old(self).uris().push(uri@));
            assert forall|j: int, l: int| 0 <= j < l < self.uris().len() implies
                #[trigger] self.uris()[j] != #[trigger] self.uris()[l] by {
                if l == n {
                    assert(self.uris()[l] == uri@);
                    assert(old(self).uris()[j] != uri@);
                }
            }
            assert(self.uris()[n] == uri@);
        }
        (k + 1) as i32
    }
}

} // verus!
