//! The rules of importing a folder: which files are read, the indexed
//! passages each document is stored with, the counters reported at the end,
//! and what the store holds afterwards.
use vstd::prelude::*;

use crate::segment::{segment, segment_text};

verus! {

/// The extension of an importable file: "txt" in any case.
pub open spec fn is_text_extension(ext: Seq<char>) -> bool {
    ext.len() == 3 && (ext[0] == 't' || ext[0] == 'T') && (ext[1] == 'x' || ext[1] == 'X') && (
    ext[2] == 't' || ext[2] == 'T')
}

/// Whether a file with extension `ext` is imported.
pub fn has_text_extension(ext: &str) -> (r: bool)
    ensures
        r == is_text_extension(ext@),
{
    if ext.unicode_len() != 3 {
        return false;
    }
    let a = ext.get_char(0);
    let b = ext.get_char(1);
    let c = ext.get_char(2);
    (a == 't' || a == 'T') && (b == 'x' || b == 'X') && (c == 't' || c == 'T')
}

/// The passages a document is stored with: its segments, each with its
/// zero-based index.
pub fn plan_document(text: &str) -> (r: Vec<(usize, String)>)
    ensures
        r.len() == segment(text@).len(),
        forall|i: int|
            0 <= i < r.len() ==> (#[trigger] r[i]).0 == i && r[i].1@ == segment(text@)[i],
{
    let passages = segment_text(text);
    let mut r: Vec<(usize, String)> = Vec::new();
    let mut i: usize = 0;
    while i < passages.len()
        invariant
            i <= passages.len(),
            passages.deep_view() == segment(text@),
            r.len() == i,
            forall|j: int|
                0 <= j < i ==> (#[trigger] r[j]).0 == j && r[j].1@ == segment(text@)[j],
        decreases passages.len() - i,
    {
        r.push((i, passages[i].clone()));
        i = i + 1;
    }
    r
}

/// The counters an import reports.
#[derive(Debug, Clone, Copy, PartialEq, Eq, Structural)]
pub struct ImportResult {
    pub files_imported: usize,
    pub chunks_created: usize,
    pub skipped: usize,
    pub embeddings_generated: usize,
}

impl ImportResult {
    /// All counters at zero.
    pub fn new() -> (r: ImportResult)
        ensures
            r == (ImportResult {
                files_imported: 0,
                chunks_created: 0,
                skipped: 0,
                embeddings_generated: 0,
            }),
    {
        ImportResult { files_imported: 0, chunks_created: 0, skipped: 0, embeddings_generated: 0 }
    }

    /// A file could not be read as text.
    pub fn record_skipped(&mut self)
        ensures
            *final(self) == (ImportResult {
                skipped: old(self).skipped.saturating_add(1),
                ..*old(self)
            }),
    {
        self.skipped = self.skipped.saturating_add(1);
    }

    /// A passage was stored.
    pub fn record_passage(&mut self)
        ensures
            *final(self) == (ImportResult {
                chunks_created: old(self).chunks_created.saturating_add(1),
                ..*old(self)
            }),
    {
        self.chunks_created = self.chunks_created.saturating_add(1);
    }

    /// An embedding was stored.
    pub fn record_embedding(&mut self)
        ensures
            *final(self) == (ImportResult {
                embeddings_generated: old(self).embeddings_generated.saturating_add(1),
                ..*old(self)
            }),
    {
        self.embeddings_generated = self.embeddings_generated.saturating_add(1);
    }

    /// A file was imported in full.
    pub fn record_file(&mut self)
        ensures
            *final(self) == (ImportResult {
                files_imported: old(self).files_imported.saturating_add(1),
                ..*old(self)
            }),
    {
        self.files_imported = self.files_imported.saturating_add(1);
    }
}

/// Where an import stands; each phase but the last names the action the
/// caller performs next.
#[derive(Debug, Clone, Copy, PartialEq, Eq, Structural)]
pub enum ImportPhase {
    ReadFile,
    ResetDocument,
    StorePassage,
    EncodePassage,
    StoreEmbedding,
    CommitDocument,
    InvalidateCache,
    Finished,
}

/// What an import in progress holds: the number of files, whether the model
/// was ready when it started, the current file, the passages of that file
/// and the next one to store, the phase, and the counters so far.
pub struct ImportModel {
    pub n_files: nat,
    pub model_ready: bool,
    pub file: nat,
    pub passages: Seq<Seq<char>>,
    pub next: nat,
    pub phase: ImportPhase,
    pub counts: ImportResult,
}

/// What the caller reports after performing an action.
pub enum ImportEvent {
    /// The current file's text, or `None` when it could not be read.
    FileRead(Option<Seq<char>>),
    /// The store write (reset, passage, embedding, commit) or the cache
    /// invalidation was done.
    Stored,
    /// The current passage was encoded (`true`) or encoding failed.
    Encoded(bool),
    /// A store write failed: the import stops.
    Failed,
}

/// The action to perform next.
#[derive(Debug, Clone)]
pub enum ImportAction {
    /// Read file `i` as text.
    ReadFile(usize),
    /// Find or create the document of file `i`, then remove its passages and
    /// their embeddings.
    ResetDocument(usize),
    /// Store the passage with this index and text in the current document.
    StorePassage(usize, String),
    /// Encode this passage text (the one just stored).
    EncodePassage(String),
    /// Store the embedding just computed for the passage just stored.
    StoreEmbedding,
    /// Finish the current document's writes.
    CommitDocument,
    /// Invalidate the vector cache: all writes are done.
    InvalidateCache,
    /// The import is over, with these counters.
    Done(ImportResult),
}

/// The first phase for the file at `file` of `n_files`.
pub open spec fn file_phase(file: nat, n_files: nat) -> ImportPhase {
    if file < n_files {
        ImportPhase::ReadFile
    } else {
        ImportPhase::InvalidateCache
    }
}

/// An import of `n_files` files that has done nothing yet.
pub open spec fn initial_import(n_files: nat, model_ready: bool) -> ImportModel {
    ImportModel {
        n_files,
        model_ready,
        file: 0,
        passages: seq![],
        next: 0,
        phase: file_phase(0, n_files),
        counts: ImportResult {
            files_imported: 0,
            chunks_created: 0,
            skipped: 0,
            embeddings_generated: 0,
        },
    }
}

/// Moving on to the next file.
pub open spec fn after_file(m: ImportModel, counts: ImportResult) -> ImportModel {
    ImportModel {
        file: m.file + 1,
        passages: seq![],
        next: 0,
        phase: file_phase(m.file + 1, m.n_files),
        counts,
        ..m
    }
}

/// Moving on to the next passage of the current file, or to its commit.
pub open spec fn after_passage(m: ImportModel, counts: ImportResult) -> ImportModel {
    ImportModel {
        next: m.next + 1,
        phase: if m.next + 1 < m.passages.len() {
            ImportPhase::StorePassage
        } else {
            ImportPhase::CommitDocument
        },
        counts,
        ..m
    }
}

/// Whether `ev` answers the action of phase `m.phase`.
pub open spec fn expects(m: ImportModel, ev: ImportEvent) -> bool {
    if ev is Failed {
        m.phase != ImportPhase::InvalidateCache && m.phase != ImportPhase::Finished
    } else {
        match m.phase {
        ImportPhase::ReadFile => ev is FileRead,
        ImportPhase::EncodePassage => ev is Encoded,
            ImportPhase::Finished => false,
            _ => ev is Stored,
        }
    }
}

/// The import after event `ev`:
/// - an unreadable file is counted as skipped and nothing is written for it;
/// - a readable one has its document reset, then its passages (those of
///   `segment`, in order) stored one by one, each counted;
/// - when the model was ready, each passage is encoded right after it is
///   stored, and a successful encoding is stored and counted;
/// - the document is committed and counted, and the next file follows;
/// - after the last file the cache is invalidated, once, and the import ends;
/// - a failed store write skips the remaining files and goes straight to the
///   cache invalidation, since earlier documents may already be written.
pub open spec fn next_import(m: ImportModel, ev: ImportEvent) -> ImportModel {
    let c = m.counts;
    if ev is Failed && m.phase != ImportPhase::InvalidateCache && m.phase != ImportPhase::Finished {
        ImportModel {
            file: m.n_files,
            passages: seq![],
            next: 0,
            phase: ImportPhase::InvalidateCache,
            ..m
        }
    } else {
        match m.phase {
            ImportPhase::ReadFile => match ev {
                ImportEvent::FileRead(Some(t)) => ImportModel {
                    passages: segment(t),
                    next: 0,
                    phase: ImportPhase::ResetDocument,
                    ..m
                },
                _ => after_file(m, ImportResult { skipped: c.skipped.saturating_add(1), ..c }),
            },
            ImportPhase::ResetDocument => ImportModel {
                phase: if m.passages.len() > 0 {
                    ImportPhase::StorePassage
                } else {
                    ImportPhase::CommitDocument
                },
                ..m
            },
            ImportPhase::StorePassage => {
                let c2 = ImportResult { chunks_created: c.chunks_created.saturating_add(1), ..c };
                if m.model_ready {
                    ImportModel { phase: ImportPhase::EncodePassage, counts: c2, ..m }
                } else {
                    after_passage(m, c2)
                }
            },
            ImportPhase::EncodePassage => match ev {
                ImportEvent::Encoded(true) => ImportModel { phase: ImportPhase::StoreEmbedding, ..m },
                _ => after_passage(m, c),
            },
            ImportPhase::StoreEmbedding => after_passage(
                m,
                ImportResult { embeddings_generated: c.embeddings_generated.saturating_add(1), ..c },
            ),
            ImportPhase::CommitDocument => after_file(
                m,
                ImportResult { files_imported: c.files_imported.saturating_add(1), ..c },
            ),
            ImportPhase::InvalidateCache => ImportModel { phase: ImportPhase::Finished, ..m },
            ImportPhase::Finished => m,
        }
    }
}

/// `a` is the action of phase `m.phase`.
pub open spec fn action_matches(a: ImportAction, m: ImportModel) -> bool {
    match m.phase {
        ImportPhase::ReadFile => a matches ImportAction::ReadFile(i) && i == m.file,
        ImportPhase::ResetDocument => a matches ImportAction::ResetDocument(i) && i == m.file,
        ImportPhase::StorePassage => a matches ImportAction::StorePassage(i, t) && i == m.next
            && t@ == m.passages[m.next as int],
        ImportPhase::EncodePassage => a matches ImportAction::EncodePassage(t) && t@
            == m.passages[m.next as int],
        ImportPhase::StoreEmbedding => a is StoreEmbedding,
        ImportPhase::CommitDocument => a is CommitDocument,
        ImportPhase::InvalidateCache => a is InvalidateCache,
        ImportPhase::Finished => a matches ImportAction::Done(r) && r == m.counts,
    }
}

/// The view of an optional text.
pub open spec fn text_view(text: Option<String>) -> Option<Seq<char>> {
    match text {
        Some(t) => Some(t@),
        None => None,
    }
}

/// One import of a folder's files. The caller performs `action()` (reads,
/// store writes, encoding, cache invalidation) and reports what happened;
/// the run decides what comes next and keeps the counters.
pub struct ImportRun {
    n_files: usize,
    model_ready: bool,
    file: usize,
    passages: Vec<(usize, String)>,
    next: usize,
    phase: ImportPhase,
    counts: ImportResult,
}

impl View for ImportRun {
    type V = ImportModel;

    closed spec fn view(&self) -> ImportModel {
        ImportModel {
            n_files: self.n_files as nat,
            model_ready: self.model_ready,
            file: self.file as nat,
            passages: Seq::new(self.passages.len() as nat, |i: int| self.passages[i].1@),
            next: self.next as nat,
            phase: self.phase,
            counts: self.counts,
        }
    }
}

impl ImportRun {
    /// The run's internal consistency.
    pub closed spec fn wf(&self) -> bool {
        &&& self.file <= self.n_files
        &&& self.next <= self.passages.len()
        &&& forall|i: int| 0 <= i < self.passages.len() ==> (#[trigger] self.passages[i]).0 == i
        &&& match self.phase {
            ImportPhase::InvalidateCache | ImportPhase::Finished => self.file == self.n_files,
            ImportPhase::StorePassage | ImportPhase::EncodePassage
            | ImportPhase::StoreEmbedding => self.file < self.n_files && self.next
                < self.passages.len(),
            ImportPhase::ResetDocument => self.file < self.n_files && self.next == 0,
            _ => self.file < self.n_files,
        }
    }

    /// Starts an import of `n_files` files.
    pub fn start(n_files: usize, model_ready: bool) -> (r: ImportRun)
        ensures
            r.wf(),
            r@ == initial_import(n_files as nat, model_ready),
    {
        let r = ImportRun {
            n_files,
            model_ready,
            file: 0,
            passages: Vec::new(),
            next: 0,
            phase: if 0 < n_files {
                ImportPhase::ReadFile
            } else {
                ImportPhase::InvalidateCache
            },
            counts: ImportResult::new(),
        };
        assert(r@.passages =~= seq![]);
        r
    }

    /// The phase.
    pub fn phase(&self) -> (r: ImportPhase)
        ensures
            r == self@.phase,
    {
        self.phase
    }

    /// The counters so far.
    pub fn counts(&self) -> (r: ImportResult)
        ensures
            r == self@.counts,
    {
        self.counts
    }

    /// The action to perform next.
    pub fn action(&self) -> (r: ImportAction)
        requires
            self.wf(),
        ensures
            action_matches(r, self@),
    {
        match self.phase {
            ImportPhase::ReadFile => ImportAction::ReadFile(self.file),
            ImportPhase::ResetDocument => ImportAction::ResetDocument(self.file),
            ImportPhase::StorePassage => ImportAction::StorePassage(
                self.passages[self.next].0,
                self.passages[self.next].1.clone(),
            ),
            ImportPhase::EncodePassage => ImportAction::EncodePassage(
                self.passages[self.next].1.clone(),
            ),
            ImportPhase::StoreEmbedding => ImportAction::StoreEmbedding,
            ImportPhase::CommitDocument => ImportAction::CommitDocument,
            ImportPhase::InvalidateCache => ImportAction::InvalidateCache,
            ImportPhase::Finished => ImportAction::Done(self.counts),
        }
    }

    fn next_file(&mut self)
        requires
            old(self).wf(),
            old(self).file < old(self).n_files,
        ensures
            final(self).wf(),
            final(self)@ == after_file(old(self)@, old(self)@.counts),
    {
        self.file = self.file + 1;
        self.passages = Vec::new();
        self.next = 0;
        self.phase = if self.file < self.n_files {
            ImportPhase::ReadFile
        } else {
            ImportPhase::InvalidateCache
        };
        assert(self@.passages =~= seq![]);
    }

    fn next_passage(&mut self)
        requires
            old(self).wf(),
            old(self).file < old(self).n_files,
            old(self).next < old(self).passages.len(),
        ensures
            final(self).wf(),
            final(self)@ == after_passage(old(self)@, old(self)@.counts),
    {
        self.next = self.next + 1;
        self.phase = if self.next < self.passages.len() {
            ImportPhase::StorePassage
        } else {
            ImportPhase::CommitDocument
        };
    }

    /// The current file was read (`Some(text)`) or could not be (`None`).
    pub fn on_file_read(&mut self, text: Option<String>)
        requires
            old(self).wf(),
            old(self)@.phase == ImportPhase::ReadFile,
        ensures
            final(self).wf(),
            final(self)@ == next_import(old(self)@, ImportEvent::FileRead(text_view(text))),
    {
        match text {
            Some(t) => {
                let planned = plan_document(t.as_str());
                self.passages = planned;
                self.next = 0;
                self.phase = ImportPhase::ResetDocument;
                assert(self@.passages =~= segment(t@));
            },
            None => {
                self.record_skipped_file();
            },
        }
    }

    fn record_skipped_file(&mut self)
        requires
            old(self).wf(),
            old(self)@.phase == ImportPhase::ReadFile,
        ensures
            final(self).wf(),
            final(self)@ == next_import(old(self)@, ImportEvent::FileRead(None)),
    {
        self.counts.record_skipped();
        self.next_file();
    }

    /// The store write or cache invalidation that `action()` named was done.
    pub fn on_stored(&mut self)
        requires
            old(self).wf(),
            expects(old(self)@, ImportEvent::Stored),
        ensures
            final(self).wf(),
            final(self)@ == next_import(old(self)@, ImportEvent::Stored),
    {
        match self.phase {
            ImportPhase::ResetDocument => {
                self.phase = if self.passages.len() > 0 {
                    ImportPhase::StorePassage
                } else {
                    ImportPhase::CommitDocument
                };
            },
            ImportPhase::StorePassage => {
                self.counts.record_passage();
                if self.model_ready {
                    self.phase = ImportPhase::EncodePassage;
                } else {
                    self.next_passage();
                }
            },
            ImportPhase::StoreEmbedding => {
                self.counts.record_embedding();
                self.next_passage();
            },
            ImportPhase::CommitDocument => {
                self.counts.record_file();
                self.next_file();
            },
            _ => {
                self.phase = ImportPhase::Finished;
            },
        }
    }

    /// A store write failed; the run moves on to invalidating the cache.
    pub fn on_failed(&mut self)
        requires
            old(self).wf(),
            expects(old(self)@, ImportEvent::Failed),
        ensures
            final(self).wf(),
            final(self)@ == next_import(old(self)@, ImportEvent::Failed),
    {
        self.file = self.n_files;
        self.passages = Vec::new();
        self.next = 0;
        self.phase = ImportPhase::InvalidateCache;
        assert(self@.passages =~= seq![]);
    }

    /// The current passage was encoded (`ok`) or encoding failed.
    pub fn on_encoded(&mut self, ok: bool)
        requires
            old(self).wf(),
            old(self)@.phase == ImportPhase::EncodePassage,
        ensures
            final(self).wf(),
            final(self)@ == next_import(old(self)@, ImportEvent::Encoded(ok)),
    {
        if ok {
            self.phase = ImportPhase::StoreEmbedding;
        } else {
            self.next_passage();
        }
    }
}

/// The import after the events `evs`, in order.
pub open spec fn run_events(m: ImportModel, evs: Seq<ImportEvent>) -> ImportModel
    decreases evs.len(),
{
    if evs.len() == 0 {
        m
    } else {
        run_events(next_import(m, evs[0]), evs.drop_first())
    }
}

/// The events of storing passages whose encodings succeed as `enc` says
/// (each passage: stored; when the model is ready, encoded, and its
/// embedding stored when that succeeded).
pub open spec fn passage_events(ready: bool, enc: Seq<bool>) -> Seq<ImportEvent>
    decreases enc.len(),
{
    if enc.len() == 0 {
        seq![]
    } else {
        let one = if !ready {
            seq![ImportEvent::Stored]
        } else if enc[0] {
            seq![ImportEvent::Stored, ImportEvent::Encoded(true), ImportEvent::Stored]
        } else {
            seq![ImportEvent::Stored, ImportEvent::Encoded(false)]
        };
        one + passage_events(ready, enc.drop_first())
    }
}

/// How many of `enc` are successes.
pub open spec fn count_true(enc: Seq<bool>) -> nat
    decreases enc.len(),
{
    if enc.len() == 0 {
        0
    } else {
        (if enc[0] {
            1nat
        } else {
            0nat
        }) + count_true(enc.drop_first())
    }
}

/// A file of a folder: its text (`None` when it cannot be read) and, for each
/// of its passages, whether encoding it succeeds.
pub type FileInput = (Option<Seq<char>>, Seq<bool>);

/// Each readable file has one encoding outcome per passage.
pub open spec fn files_valid(files: Seq<FileInput>) -> bool {
    forall|i: int|
        0 <= i < files.len() ==> match (#[trigger] files[i]).0 {
            Some(t) => files[i].1.len() == segment(t).len(),
            None => true,
        }
}

/// The events of importing one file, all writes succeeding.
pub open spec fn file_events(f: FileInput, ready: bool) -> Seq<ImportEvent> {
    match f.0 {
        None => seq![ImportEvent::FileRead(None)],
        Some(t) => seq![ImportEvent::FileRead(Some(t)), ImportEvent::Stored] + passage_events(
            ready,
            f.1,
        ) + seq![ImportEvent::Stored],
    }
}

/// The events of importing files, all writes succeeding, then invalidating
/// the cache.
pub open spec fn folder_events(files: Seq<FileInput>, ready: bool) -> Seq<ImportEvent>
    decreases files.len(),
{
    if files.len() == 0 {
        seq![ImportEvent::Stored]
    } else {
        file_events(files[0], ready) + folder_events(files.drop_first(), ready)
    }
}

/// What an import of `files` counts: files imported, passages created,
/// files skipped, embeddings stored.
pub open spec fn expected_counts(files: Seq<FileInput>, ready: bool) -> (nat, nat, nat, nat)
    decreases files.len(),
{
    if files.len() == 0 {
        (0, 0, 0, 0)
    } else {
        let r = expected_counts(files.drop_first(), ready);
        match files[0].0 {
            None => (r.0, r.1, r.2 + 1, r.3),
            Some(t) => (
                r.0 + 1,
                r.1 + segment(t).len(),
                r.2,
                r.3 + if ready {
                    count_true(files[0].1)
                } else {
                    0
                },
            ),
        }
    }
}

proof fn lemma_run_append(m: ImportModel, a: Seq<ImportEvent>, b: Seq<ImportEvent>)
    ensures
        run_events(m, a + b) == run_events(run_events(m, a), b),
    decreases a.len(),
{
    if a.len() == 0 {
        assert(a + b =~= b);
    } else {
        assert((a + b).drop_first() =~= a.drop_first() + b);
        lemma_run_append(next_import(m, a[0]), a.drop_first(), b);
    }
}

proof fn lemma_run_one(m: ImportModel, e: ImportEvent)
    ensures
        run_events(m, seq![e]) == next_import(m, e),
{
    let r = seq![e];
    assert(r[0] == e);
    assert(r.drop_first() =~= Seq::<ImportEvent>::empty());
    assert(run_events(m, r) == run_events(next_import(m, e), r.drop_first()));
    assert(run_events(next_import(m, e), Seq::<ImportEvent>::empty()) == next_import(m, e));
}

proof fn lemma_run_cons(m: ImportModel, e: ImportEvent, rest: Seq<ImportEvent>)
    ensures
        run_events(m, seq![e] + rest) == run_events(next_import(m, e), rest),
{
    let r = seq![e] + rest;
    assert(r[0] == e);
    assert(r.drop_first() =~= rest);
    assert(run_events(m, r) == run_events(next_import(m, e), r.drop_first()));
}

proof fn lemma_passages(m: ImportModel, enc: Seq<bool>)
    requires
        m.phase == ImportPhase::StorePassage,
        m.next < m.passages.len(),
        enc.len() == m.passages.len() - m.next,
        m.counts.chunks_created + enc.len() <= usize::MAX,
        m.counts.embeddings_generated + enc.len() <= usize::MAX,
    ensures
        ({
            let e = run_events(m, passage_events(m.model_ready, enc));
            &&& e.phase == ImportPhase::CommitDocument
            &&& e.n_files == m.n_files && e.model_ready == m.model_ready && e.file == m.file
            &&& e.counts.files_imported == m.counts.files_imported
            &&& e.counts.skipped == m.counts.skipped
            &&& e.counts.chunks_created == m.counts.chunks_created + enc.len()
            &&& e.counts.embeddings_generated == m.counts.embeddings_generated + if m.model_ready {
                count_true(enc)
            } else {
                0
            }
        }),
    decreases enc.len(),
{
    let ready = m.model_ready;
    let rest = enc.drop_first();
    let one = if !ready {
        seq![ImportEvent::Stored]
    } else if enc[0] {
        seq![ImportEvent::Stored, ImportEvent::Encoded(true), ImportEvent::Stored]
    } else {
        seq![ImportEvent::Stored, ImportEvent::Encoded(false)]
    };
    assert(passage_events(ready, enc) == one + passage_events(ready, rest));
    lemma_run_append(m, one, passage_events(ready, rest));
    let m1 = run_events(m, one);
    let m_s = next_import(m, ImportEvent::Stored);
    if !ready {
        lemma_run_one(m, ImportEvent::Stored);
    } else if enc[0] {
        let m_e = next_import(m_s, ImportEvent::Encoded(true));
        assert(one =~= seq![ImportEvent::Stored] + (seq![ImportEvent::Encoded(true)] + seq![
            ImportEvent::Stored,
        ]));
        lemma_run_cons(m, ImportEvent::Stored, seq![ImportEvent::Encoded(true)] + seq![
            ImportEvent::Stored,
        ]);
        lemma_run_cons(m_s, ImportEvent::Encoded(true), seq![ImportEvent::Stored]);
        lemma_run_one(m_e, ImportEvent::Stored);
        assert(m1 == next_import(m_e, ImportEvent::Stored));
    } else {
        assert(one =~= seq![ImportEvent::Stored] + seq![ImportEvent::Encoded(false)]);
        lemma_run_cons(m, ImportEvent::Stored, seq![ImportEvent::Encoded(false)]);
        lemma_run_one(m_s, ImportEvent::Encoded(false));
        assert(m1 == next_import(m_s, ImportEvent::Encoded(false)));
    }
    assert(m1.next == m.next + 1);
    assert(m1.counts.chunks_created == m.counts.chunks_created + 1);
    assert(m1.counts.embeddings_generated == m.counts.embeddings_generated + if ready && enc[0] {
        1int
    } else {
        0int
    });
    assert(m1.n_files == m.n_files && m1.model_ready == ready && m1.file == m.file);
    assert(m1.passages == m.passages);
    assert(count_true(enc) == (if enc[0] {
        1nat
    } else {
        0nat
    }) + count_true(rest));
    if rest.len() > 0 {
        lemma_passages(m1, rest);
    } else {
        assert(passage_events(ready, rest) =~= Seq::<ImportEvent>::empty());
    }
}

proof fn lemma_folder(m: ImportModel, files: Seq<FileInput>)
    requires
        m.file + files.len() == m.n_files,
        m.phase == file_phase(m.file, m.n_files),
        files_valid(files),
        m.counts.files_imported + expected_counts(files, m.model_ready).0 <= usize::MAX,
        m.counts.chunks_created + expected_counts(files, m.model_ready).1 <= usize::MAX,
        m.counts.skipped + expected_counts(files, m.model_ready).2 <= usize::MAX,
        m.counts.embeddings_generated + expected_counts(files, m.model_ready).1 <= usize::MAX,
    ensures
        ({
            let e = run_events(m, folder_events(files, m.model_ready));
            let x = expected_counts(files, m.model_ready);
            &&& e.phase == ImportPhase::Finished
            &&& e.counts.files_imported == m.counts.files_imported + x.0
            &&& e.counts.chunks_created == m.counts.chunks_created + x.1
            &&& e.counts.skipped == m.counts.skipped + x.2
            &&& e.counts.embeddings_generated == m.counts.embeddings_generated + x.3
        }),
    decreases files.len(),
{
    let ready = m.model_ready;
    if files.len() == 0 {
        lemma_run_one(m, ImportEvent::Stored);
    } else {
        let f = files[0];
        let rest = files.drop_first();
        assert(files_valid(rest)) by {
            assert forall|i: int| 0 <= i < rest.len() implies match (#[trigger] rest[i]).0 {
                Some(t) => rest[i].1.len() == segment(t).len(),
                None => true,
            } by {
                assert(rest[i] == files[i + 1]);
            }
        }
        assert(folder_events(files, ready) == file_events(f, ready) + folder_events(rest, ready));
        lemma_run_append(m, file_events(f, ready), folder_events(rest, ready));
        let m1 = run_events(m, file_events(f, ready));
        let xr = expected_counts(rest, ready);
        assert(count_true(f.1) <= f.1.len()) by {
            lemma_count_true_bound(f.1);
        }
        match f.0 {
            None => {
                lemma_run_one(m, ImportEvent::FileRead(None));
            },
            Some(t) => {
                let head = seq![ImportEvent::FileRead(Some(t)), ImportEvent::Stored];
                let mid = passage_events(ready, f.1);
                let tail = seq![ImportEvent::Stored];
                lemma_run_append(m, head + mid, tail);
                lemma_run_append(m, head, mid);
                let m2 = run_events(m, head);
                let ma = next_import(m, ImportEvent::FileRead(Some(t)));
                assert(head =~= seq![ImportEvent::FileRead(Some(t))] + seq![ImportEvent::Stored]);
                lemma_run_cons(m, ImportEvent::FileRead(Some(t)), seq![ImportEvent::Stored]);
                lemma_run_one(ma, ImportEvent::Stored);
                assert(m2 == next_import(ma, ImportEvent::Stored));
                let m3 = run_events(m2, mid);
                if segment(t).len() > 0 {
                    lemma_passages(m2, f.1);
                } else {
                    assert(f.1.len() == 0);
                    assert(mid =~= Seq::<ImportEvent>::empty());
                }
                lemma_run_one(m3, ImportEvent::Stored);
            },
        }
        lemma_folder(m1, rest);
    }
}

proof fn lemma_count_true_bound(enc: Seq<bool>)
    ensures
        count_true(enc) <= enc.len(),
    decreases enc.len(),
{
    if enc.len() > 0 {
        lemma_count_true_bound(enc.drop_first());
    }
}

/// A complete import of a folder's files, every write succeeding, ends with
/// the cache invalidated and counts that depend on the files alone: the files
/// read, their passages (those of `segment`), the files that could not be
/// read, and, when the model was ready, the passages whose encoding
/// succeeded. So importing the same unchanged folder twice, with the same
/// encoding outcomes, reports the same counts both times.
pub proof fn lemma_import_counts(n_files: nat, ready: bool, files: Seq<FileInput>)
    requires
        files.len() == n_files,
        files_valid(files),
        expected_counts(files, ready).0 <= usize::MAX,
        expected_counts(files, ready).1 <= usize::MAX,
        expected_counts(files, ready).2 <= usize::MAX,
    ensures
        ({
            let e = run_events(initial_import(n_files, ready), folder_events(files, ready));
            let x = expected_counts(files, ready);
            &&& e.phase == ImportPhase::Finished
            &&& e.counts.files_imported == x.0
            &&& e.counts.chunks_created == x.1
            &&& e.counts.skipped == x.2
            &&& e.counts.embeddings_generated == x.3
        }),
{
    lemma_folder(initial_import(n_files, ready), files);
}

/// The documents of a store: path to the passages stored for it, in order.
/// Keyed by path, so a path has at most one document.
pub type StoreModel = Map<Seq<char>, Seq<Seq<char>>>;

/// Importing one file, as the actions of an `ImportRun` do it: a readable
/// file's document (found by path, or new) is reset and then given exactly
/// the file's passages, those of `segment`; an unreadable one changes
/// nothing.
pub open spec fn import_file(store: StoreModel, path: Seq<char>, text: Option<Seq<char>>) -> StoreModel {
    match text {
        Some(t) => store.insert(path, segment(t)),
        None => store,
    }
}

/// Importing a folder's files, in order: each is (path, text or `None` when
/// it cannot be read).
pub open spec fn import_folder(store: StoreModel, files: Seq<(Seq<char>, Option<Seq<char>>)>) -> StoreModel
    decreases files.len(),
{
    if files.len() == 0 {
        store
    } else {
        import_folder(import_file(store, files[0].0, files[0].1), files.drop_first())
    }
}

proof fn lemma_import_as_union(store: StoreModel, files: Seq<(Seq<char>, Option<Seq<char>>)>)
    ensures
        import_folder(store, files) == store.union_prefer_right(
            import_folder(Map::empty(), files),
        ),
    decreases files.len(),
{
    if files.len() == 0 {
        assert(store.union_prefer_right(Map::empty()) =~= store);
    } else {
        let rest = files.drop_first();
        let s1 = import_file(store, files[0].0, files[0].1);
        let e1 = import_file(Map::empty(), files[0].0, files[0].1);
        lemma_import_as_union(s1, rest);
        lemma_import_as_union(e1, rest);
        let w = import_folder(Map::empty(), rest);
        assert(s1.union_prefer_right(w) =~= store.union_prefer_right(e1.union_prefer_right(w)));
    }
}

/// Importing the same folder again, with its files unchanged, leaves the
/// store as the first import left it: the same documents (a path never has
/// two), each with the same passages (see `lemma_import_counts` for the
/// counts).
pub proof fn lemma_reimport_idempotent(
    store: StoreModel,
    files: Seq<(Seq<char>, Option<Seq<char>>)>,
)
    ensures
        import_folder(import_folder(store, files), files) == import_folder(store, files),
{
    let w = import_folder(Map::empty(), files);
    lemma_import_as_union(store, files);
    lemma_import_as_union(import_folder(store, files), files);
    assert(store.union_prefer_right(w).union_prefer_right(w) =~= store.union_prefer_right(w));
}

} // verus!
