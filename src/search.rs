//! The search engine's rules: ranking cached vectors by score, the keyword
//! fallback, and the per-query state machine that chooses between them.
use vstd::prelude::*;

use crate::cache::{ensured_cache, CacheModel};
use crate::rank::{as_ints, is_top_selection, select_top};
use crate::status::ModelStatus;
use crate::text::{chars_of, copy_range, string_of, trim, trim_bounds};

verus! {

/// Semantic search keeps at most this many passages.
pub const SEMANTIC_LIMIT: usize = 20;

/// Keyword search keeps at most this many passages.
pub const KEYWORD_LIMIT: usize = 30;

/// A persisted passage with the document it belongs to.
#[derive(Debug, Clone)]
pub struct PassageRecord {
    pub content: String,
    pub file_name: String,
    pub file_path: String,
    pub chunk_index: i64,
}

/// One search result. The score is held as the bit pattern of its
/// single-precision value (`f32::to_bits`); keyword results score 0.
#[derive(Debug, Clone)]
pub struct SearchHit {
    pub content: String,
    pub file_name: String,
    pub file_path: String,
    pub chunk_index: i64,
    pub score_bits: u32,
    pub is_semantic: bool,
}

/// The result for a passage with a given score and origin.
pub open spec fn hit_of(rec: PassageRecord, score_bits: u32, is_semantic: bool) -> SearchHit {
    SearchHit {
        content: rec.content,
        file_name: rec.file_name,
        file_path: rec.file_path,
        chunk_index: rec.chunk_index,
        score_bits,
        is_semantic,
    }
}

/// An unsigned key that orders IEEE-754 single-precision bit patterns as
/// their values are ordered (negative values below positive ones, larger
/// magnitudes further out).
pub open spec fn score_key(bits: u32) -> u32 {
    if bits & 0x8000_0000 != 0 {
        !bits
    } else {
        bits | 0x8000_0000
    }
}

/// The ranking key of a score (see `score_key`).
pub fn score_key_of(bits: u32) -> (r: u32)
    ensures
        r == score_key(bits),
{
    if bits & 0x8000_0000 != 0 {
        !bits
    } else {
        bits | 0x8000_0000
    }
}

/// The keys by which scored candidates are ranked, highest score first.
pub open spec fn semantic_keys(scored: Seq<(i64, u32)>) -> Seq<u64> {
    Seq::new(scored.len(), |i: int| score_key(scored[i].1) as u64)
}

/// Every position may be chosen.
pub open spec fn all_eligible(n: int) -> Seq<bool> {
    Seq::new(n as nat, |i: int| true)
}

/// The best `SEMANTIC_LIMIT` of the (passage id, score bits) candidates, best
/// score first; equal scores keep their order.
pub fn top_candidates(scored: &Vec<(i64, u32)>) -> (r: Vec<(i64, u32)>)
    ensures
        exists|pos: Seq<int>|
            is_top_selection(
                semantic_keys(scored@),
                all_eligible(scored.len() as int),
                SEMANTIC_LIMIT as int,
                pos,
            ) && r@.len() == pos.len() && forall|i: int|
                0 <= i < pos.len() ==> #[trigger] r@[i] == scored@[pos[i]],
{
    let mut keys: Vec<u64> = Vec::new();
    let mut eligible: Vec<bool> = Vec::new();
    for i in 0..scored.len()
        invariant
            keys.len() == i && eligible.len() == i,
            forall|j: int| 0 <= j < i ==> #[trigger] keys@[j] == semantic_keys(scored@)[j],
            forall|j: int| 0 <= j < i ==> #[trigger] eligible@[j],
    {
        keys.push(score_key_of(scored[i].1) as u64);
        eligible.push(true);
    }
    assert(keys@ =~= semantic_keys(scored@));
    assert(eligible@ =~= all_eligible(scored.len() as int));
    let pos = select_top(&keys, &eligible, SEMANTIC_LIMIT);
    let mut r: Vec<(i64, u32)> = Vec::new();
    for i in 0..pos.len()
        invariant
            is_top_selection(keys@, eligible@, SEMANTIC_LIMIT as int, as_ints(pos@)),
            keys.len() == scored.len(),
            r.len() == i,
            forall|j: int| 0 <= j < i ==> #[trigger] r@[j] == scored@[pos@[j] as int],
    {
        assert(as_ints(pos@)[i as int] == pos@[i as int] as int);
        r.push(scored[pos[i]]);
    }
    assert forall|i: int| 0 <= i < as_ints(pos@).len() implies #[trigger] r@[i]
        == scored@[as_ints(pos@)[i]] by {
        assert(as_ints(pos@)[i] == pos@[i] as int);
    }
    r
}

/// With no embedding stored (an empty corpus), a cache made valid after an
/// invalidation holds no entries, and ranking them selects no candidate, so
/// semantic search finds nothing and the keyword fallback follows.
pub proof fn lemma_empty_corpus_ranks_nothing(c: CacheModel, pos: Seq<int>)
    requires
        !c.valid,
        is_top_selection(
            semantic_keys(Seq::<(i64, u32)>::empty()),
            all_eligible(0),
            SEMANTIC_LIMIT as int,
            pos,
        ),
    ensures
        ensured_cache(c, Seq::<(i64, Seq<u8>)>::empty()).valid,
        ensured_cache(c, Seq::<(i64, Seq<u8>)>::empty()).entries.len() == 0,
        pos.len() == 0,
{
    if pos.len() > 0 {
        assert(0 <= pos[0] < semantic_keys(Seq::<(i64, u32)>::empty()).len());
    }
}

/// The semantic results for the ranked candidates, where `found[i]` is the
/// passage of candidate `i`, or `None` where it is no longer stored.
pub open spec fn semantic_results(top: Seq<(i64, u32)>, found: Seq<Option<PassageRecord>>) -> Seq<
    SearchHit,
>
    decreases top.len(),
{
    if top.len() == 0 || found.len() == 0 {
        seq![]
    } else {
        let rest = semantic_results(top.drop_last(), found.drop_last());
        match found.last() {
            Some(rec) => rest.push(hit_of(rec, top.last().1, true)),
            None => rest,
        }
    }
}

/// Builds the semantic results of the ranked candidates, skipping those
/// whose passage is gone.
pub fn semantic_hits(top: &Vec<(i64, u32)>, found: &Vec<Option<PassageRecord>>) -> (r: Vec<
    SearchHit,
>)
    requires
        top.len() == found.len(),
    ensures
        r@ == semantic_results(top@, found@),
{
    let mut r: Vec<SearchHit> = Vec::new();
    for i in 0..top.len()
        invariant
            top.len() == found.len(),
            r@ == semantic_results(top@.take(i as int), found@.take(i as int)),
    {
        assert(top@.take(i + 1).drop_last() =~= top@.take(i as int));
        assert(found@.take(i + 1).drop_last() =~= found@.take(i as int));
        match &found[i] {
            Some(rec) => {
                r.push(
                    SearchHit {
                        content: rec.content.clone(),
                        file_name: rec.file_name.clone(),
                        file_path: rec.file_path.clone(),
                        chunk_index: rec.chunk_index,
                        score_bits: top[i].1,
                        is_semantic: true,
                    },
                );
            },
            None => {},
        }
    }
    assert(top@.take(top.len() as int) =~= top@);
    assert(found@.take(found.len() as int) =~= found@);
    r
}

/// `q` occurs in `t` as a contiguous run of characters (case-sensitive).
pub open spec fn contains(t: Seq<char>, q: Seq<char>) -> bool {
    exists|i: int| 0 <= i && i + q.len() <= t.len() && #[trigger] t.subrange(i, i + q.len()) == q
}

/// Whether `q` occurs in `t`.
pub fn contains_chars(t: &Vec<char>, q: &Vec<char>) -> (r: bool)
    ensures
        r == contains(t@, q@),
{
    if q.len() > t.len() {
        return false;
    }
    let m = q.len();
    if m == 0 {
        assert(t@.subrange(0, 0int + q@.len()) =~= q@);
        return true;
    }
    let last = t.len() - m;
    let mut i: usize = 0;
    while i <= last
        invariant
            m == q.len(),
            m > 0,
            last + m == t.len(),
            forall|p: int| 0 <= p < i ==> #[trigger] t@.subrange(p, p + m) != q@,
        decreases last + 1 - i,
    {
        let mut j: usize = 0;
        let mut same = true;
        while same && j < m
            invariant
                i <= last,
                m == q.len(),
                last + m == t.len(),
                j <= m,
                forall|jj: int| 0 <= jj < j ==> t@[i + jj] == q@[jj],
                !same ==> t@.subrange(i as int, i + m) != q@,
            decreases m - j + if same {
                1int
            } else {
                0int
            },
        {
            if t[i + j] != q[j] {
                assert(t@.subrange(i as int, i + m)[j as int] == t@[i + j]);
                same = false;
            } else {
                j = j + 1;
            }
        }
        if same {
            assert(t@.subrange(i as int, i + q@.len()) =~= q@);
            return true;
        }
        i = i + 1;
    }
    assert forall|p: int| 0 <= p && p + q@.len() <= t@.len() implies #[trigger] t@.subrange(
        p,
        p + q@.len(),
    ) != q@ by {
        assert(p < i);
    }
    false
}

/// Keyword ranking keys: shorter passages first.
pub open spec fn keyword_keys(rows: Seq<PassageRecord>) -> Seq<u64> {
    Seq::new(rows.len(), |i: int| (u64::MAX - rows[i].content@.len()) as u64)
}

/// Which passages hold the query.
pub open spec fn keyword_matches(rows: Seq<PassageRecord>, query: Seq<char>) -> Seq<bool> {
    Seq::new(rows.len(), |i: int| contains(rows[i].content@, query))
}

/// The keyword fallback: the passages whose text holds `query` (case
/// sensitive), shortest first, equal lengths in stored order, at most
/// `KEYWORD_LIMIT` of them, each with score 0 and marked as not semantic.
pub fn keyword_hits(rows: &Vec<PassageRecord>, query: &str) -> (r: Vec<SearchHit>)
    ensures
        exists|pos: Seq<int>|
            is_top_selection(
                keyword_keys(rows@),
                keyword_matches(rows@, query@),
                KEYWORD_LIMIT as int,
                pos,
            ) && r@.len() == pos.len() && forall|i: int|
                0 <= i < pos.len() ==> #[trigger] r@[i] == hit_of(rows@[pos[i]], 0, false),
{
    let qs = chars_of(query);
    let mut keys: Vec<u64> = Vec::new();
    let mut eligible: Vec<bool> = Vec::new();
    for i in 0..rows.len()
        invariant
            qs@ == query@,
            keys.len() == i && eligible.len() == i,
            forall|j: int| 0 <= j < i ==> #[trigger] keys@[j] == keyword_keys(rows@)[j],
            forall|j: int|
                0 <= j < i ==> #[trigger] eligible@[j] == keyword_matches(rows@, query@)[j],
    {
        let cs = chars_of(rows[i].content.as_str());
        keys.push(u64::MAX - cs.len() as u64);
        eligible.push(contains_chars(&cs, &qs));
    }
    assert(keys@ =~= keyword_keys(rows@));
    assert(eligible@ =~= keyword_matches(rows@, query@));
    let pos = select_top(&keys, &eligible, KEYWORD_LIMIT);
    let mut r: Vec<SearchHit> = Vec::new();
    for i in 0..pos.len()
        invariant
            is_top_selection(keys@, eligible@, KEYWORD_LIMIT as int, as_ints(pos@)),
            keys.len() == rows.len(),
            r.len() == i,
            forall|j: int|
                0 <= j < i ==> #[trigger] r@[j] == hit_of(rows@[pos@[j] as int], 0, false),
    {
        assert(as_ints(pos@)[i as int] == pos@[i as int] as int);
        let rec = &rows[pos[i]];
        r.push(
            SearchHit {
                content: rec.content.clone(),
                file_name: rec.file_name.clone(),
                file_path: rec.file_path.clone(),
                chunk_index: rec.chunk_index,
                score_bits: 0,
                is_semantic: false,
            },
        );
    }
    assert forall|i: int| 0 <= i < as_ints(pos@).len() implies #[trigger] r@[i] == hit_of(
        rows@[as_ints(pos@)[i]],
        0,
        false,
    ) by {
        assert(as_ints(pos@)[i] == pos@[i] as int);
    }
    r
}

/// `query` with leading and trailing whitespace removed.
pub fn normalized_query(query: &str) -> (r: String)
    ensures
        r@ == trim(query@),
{
    let cs = chars_of(query);
    let (a, b) = trim_bounds(&cs, 0, cs.len());
    assert(cs@.subrange(0, cs.len() as int) =~= query@);
    string_of(&copy_range(&cs, a, b))
}

/// Where a query stands: encoding the query, ranking cached vectors, the
/// keyword fallback, or done.
#[derive(Debug, Clone, Copy, PartialEq, Eq, Structural)]
pub enum SearchStep {
    EncodeQuery,
    RankSemantic,
    Keyword,
    Done,
}

/// What a query in progress holds.
pub struct SearchRunModel {
    pub query: Seq<char>,
    pub step: SearchStep,
    pub results: Seq<SearchHit>,
}

/// The first step for a trimmed query: an empty one is answered at once with
/// nothing; otherwise semantic search is tried when the model is ready, and
/// the keyword fallback is used when it is not.
pub open spec fn first_step(query: Seq<char>, status: ModelStatus) -> SearchStep {
    if query.len() == 0 {
        SearchStep::Done
    } else if status is Ready {
        SearchStep::EncodeQuery
    } else {
        SearchStep::Keyword
    }
}

/// One query through the search engine. The caller performs the step that
/// `step()` names (encode the query, rank the cache, run the keyword
/// search) and reports its outcome; the run decides what comes next.
pub struct SearchRun {
    query: String,
    step: SearchStep,
    results: Vec<SearchHit>,
}

impl View for SearchRun {
    type V = SearchRunModel;

    closed spec fn view(&self) -> SearchRunModel {
        SearchRunModel { query: self.query@, step: self.step, results: self.results@ }
    }
}

impl SearchRun {
    /// Starts a query; storage and the model are not touched.
    pub fn start(query: &str, status: &ModelStatus) -> (r: SearchRun)
        ensures
            r@.query == trim(query@),
            r@.step == first_step(trim(query@), *status),
            r@.results == Seq::<SearchHit>::empty(),
    {
        let q = normalized_query(query);
        let step = if q.as_str().unicode_len() == 0 {
            SearchStep::Done
        } else if status.is_ready() {
            SearchStep::EncodeQuery
        } else {
            SearchStep::Keyword
        };
        SearchRun { query: q, step, results: Vec::new() }
    }

    /// The trimmed query.
    pub fn query(&self) -> (r: &str)
        ensures
            r@ == self@.query,
    {
        self.query.as_str()
    }

    /// The step to perform next.
    pub fn step(&self) -> (r: SearchStep)
        ensures
            r == self@.step,
    {
        self.step
    }

    /// The query was encoded (`ok`) or encoding failed, which falls back to
    /// keyword search.
    pub fn on_encoded(&mut self, ok: bool)
        requires
            old(self)@.step == SearchStep::EncodeQuery,
        ensures
            final(self)@ == (SearchRunModel {
                step: if ok {
                    SearchStep::RankSemantic
                } else {
                    SearchStep::Keyword
                },
                ..old(self)@
            }),
    {
        self.step = if ok {
            SearchStep::RankSemantic
        } else {
            SearchStep::Keyword
        };
    }

    /// Semantic ranking produced `hits`; none at all falls back to keyword
    /// search rather than answering with nothing.
    pub fn on_ranked(&mut self, hits: Vec<SearchHit>)
        requires
            old(self)@.step == SearchStep::RankSemantic,
        ensures
            hits@.len() == 0 ==> final(self)@ == (SearchRunModel {
                step: SearchStep::Keyword,
                ..old(self)@
            }),
            hits@.len() > 0 ==> final(self)@ == (SearchRunModel {
                step: SearchStep::Done,
                results: hits@,
                ..old(self)@
            }),
    {
        if hits.len() == 0 {
            self.step = SearchStep::Keyword;
        } else {
            self.step = SearchStep::Done;
            self.results = hits;
        }
    }

    /// The keyword search produced `hits`, which are the answer.
    pub fn on_keyword(&mut self, hits: Vec<SearchHit>)
        requires
            old(self)@.step == SearchStep::Keyword,
        ensures
            final(self)@ == (SearchRunModel {
                step: SearchStep::Done,
                results: hits@,
                ..old(self)@
            }),
    {
        self.step = SearchStep::Done;
        self.results = hits;
    }

    /// The results gathered so far (the answer once the step is `Done`).
    pub fn into_results(self) -> (r: Vec<SearchHit>)
        ensures
            r@ == self@.results,
    {
        self.results
    }
}

} // verus!
