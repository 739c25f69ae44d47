//! The in-memory vector cache: a disposable copy of the persisted embeddings,
//! keyed by passage id, with a validity flag.
use vstd::prelude::*;

use crate::codec::{bytes_to_vec, stored_vector, well_formed, CodecError};

verus! {

/// What a cache holds: whether it is valid, and its (passage id, vector)
/// entries.
pub struct CacheModel {
    pub valid: bool,
    pub entries: Seq<(i64, Seq<u32>)>,
}

/// An empty cache that must be rebuilt before use.
pub open spec fn invalid_cache() -> CacheModel {
    CacheModel { valid: false, entries: seq![] }
}

/// Each persisted row (passage id, stored bytes) decoded.
pub open spec fn decode_rows(rows: Seq<(i64, Seq<u8>)>) -> Seq<(i64, Seq<u32>)> {
    rows.map_values(|row: (i64, Seq<u8>)| (row.0, stored_vector(row.1)))
}

/// Every persisted row holds a whole number of components.
pub open spec fn rows_well_formed(rows: Seq<(i64, Seq<u8>)>) -> bool {
    forall|i: int| 0 <= i < rows.len() ==> well_formed(#[trigger] rows[i].1)
}

/// The cache rebuilt from the persisted rows.
pub open spec fn rebuilt_cache(rows: Seq<(i64, Seq<u8>)>) -> CacheModel {
    CacheModel { valid: true, entries: decode_rows(rows) }
}

/// The cache after it has been made valid against the persisted rows: a
/// valid cache is kept as it is, any other is rebuilt.
pub open spec fn ensured_cache(c: CacheModel, rows: Seq<(i64, Seq<u8>)>) -> CacheModel {
    if c.valid {
        c
    } else {
        rebuilt_cache(rows)
    }
}

/// Whether some pair in the list has id `id`.
pub open spec fn has_id<T>(pairs: Seq<(i64, T)>, id: i64) -> bool {
    exists|i: int| 0 <= i < pairs.len() && (#[trigger] pairs[i]).0 == id
}

/// The in-memory copy of the persisted embeddings.
pub struct VectorCache {
    entries: Vec<(i64, Vec<u32>)>,
    valid: bool,
}

impl View for VectorCache {
    type V = CacheModel;

    closed spec fn view(&self) -> CacheModel {
        CacheModel { valid: self.valid, entries: self.entries.deep_view() }
    }
}

impl VectorCache {
    /// An empty cache, not yet valid.
    pub fn new() -> (r: VectorCache)
        ensures
            r@ == invalid_cache(),
    {
        let r = VectorCache { entries: Vec::new(), valid: false };
        assert(r@.entries =~= seq![]);
        r
    }

    /// Drops every entry and marks the cache for rebuilding.
    pub fn invalidate(&mut self)
        ensures
            final(self)@ == invalid_cache(),
    {
        self.valid = false;
        self.entries = Vec::new();
        assert(self@.entries =~= seq![]);
    }

    /// Whether the cache may be read without rebuilding.
    pub fn is_valid(&self) -> (r: bool)
        ensures
            r == self@.valid,
    {
        self.valid
    }

    /// The cached (passage id, vector) entries.
    pub fn entries(&self) -> (r: &Vec<(i64, Vec<u32>)>)
        ensures
            r.deep_view() == self@.entries,
    {
        &self.entries
    }

    /// Replaces the entries with the persisted rows, decoded, and marks the
    /// cache valid. A row whose bytes are malformed fails the whole rebuild
    /// and leaves the cache empty and invalid.
    pub fn rebuild(&mut self, rows: &Vec<(i64, Vec<u8>)>) -> (r: Result<(), CodecError>)
        ensures
            r is Ok <==> rows_well_formed(rows.deep_view()),
            r is Ok ==> final(self)@ == rebuilt_cache(rows.deep_view()),
            r is Err ==> final(self)@ == invalid_cache() && r == Err::<(), CodecError>(
                CodecError::MalformedVectorBytes,
            ),
    {
        let ghost dv = rows.deep_view();
        let mut entries: Vec<(i64, Vec<u32>)> = Vec::new();
        let mut i: usize = 0;
        while i < rows.len()
            invariant
                i <= rows.len(),
                dv == rows.deep_view(),
                entries.deep_view() =~= decode_rows(dv.take(i as int)),
                rows_well_formed(dv.take(i as int)),
            decreases rows.len() - i,
        {
            let id = rows[i].0;
            assert(rows[i as int].1.deep_view() =~= rows[i as int].1@);
            assert(dv[i as int] == (id, rows[i as int].1.deep_view()));
            match bytes_to_vec(&rows[i].1) {
                Ok(v) => {
                    let ghost before = entries.deep_view();
                    assert(v.deep_view() =~= v@);
                    entries.push((id, v));
                    assert(dv.take(i + 1) =~= dv.take(i as int).push(dv[i as int]));
                    assert(entries.deep_view() =~= before.push((id, v@)));
                    i = i + 1;
                },
                Err(e) => {
                    assert(!well_formed(dv[i as int].1));
                    self.invalidate();
                    return Err(e);
                },
            }
        }
        assert(dv.take(rows.len() as int) =~= dv);
        self.entries = entries;
        self.valid = true;
        Ok(())
    }

    /// Makes the cache valid against the persisted rows: a valid cache is
    /// left as it is; any other is rebuilt (see `rebuild`).
    pub fn ensure_valid(&mut self, rows: &Vec<(i64, Vec<u8>)>) -> (r: Result<(), CodecError>)
        ensures
            old(self)@.valid ==> r is Ok && final(self)@ == old(self)@,
            !old(self)@.valid ==> (r is Ok <==> rows_well_formed(rows.deep_view())),
            r is Ok ==> final(self)@ == ensured_cache(old(self)@, rows.deep_view()),
            r is Err ==> final(self)@ == invalid_cache(),
    {
        if self.valid {
            Ok(())
        } else {
            self.rebuild(rows)
        }
    }
}

/// After an invalidation, making the cache valid rebuilds it, and it then holds
/// exactly the persisted embeddings: one entry per persisted row, in order,
/// so no passage that is gone keeps an entry and every current one has one.
pub proof fn lemma_invalidate_then_ensure(rows: Seq<(i64, Seq<u8>)>)
    requires
        rows_well_formed(rows),
    ensures
        ensured_cache(invalid_cache(), rows).valid,
        ensured_cache(invalid_cache(), rows).entries.len() == rows.len(),
        forall|i: int|
            0 <= i < rows.len() ==> (#[trigger] ensured_cache(invalid_cache(), rows).entries[i])
                == (rows[i].0, stored_vector(rows[i].1)),
        forall|id: i64|
            has_id(ensured_cache(invalid_cache(), rows).entries, id) <==> #[trigger] has_id(
                rows,
                id,
            ),
{
    let e = ensured_cache(invalid_cache(), rows).entries;
    assert forall|id: i64| has_id(e, id) <==> #[trigger] has_id(rows, id) by {
        if has_id(e, id) {
            let i = choose|i: int| 0 <= i < e.len() && (#[trigger] e[i]).0 == id;
            assert(rows[i].0 == id);
        }
        if has_id(rows, id) {
            let i = choose|i: int| 0 <= i < rows.len() && (#[trigger] rows[i]).0 == id;
            assert(e[i].0 == id);
        }
    }
}

} // verus!
