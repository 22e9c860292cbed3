//! Conflict-resolving flows against the external document store.
//!
//! The store is reached over the network, so this module holds no I/O.
//! Each operation is a small state machine: the caller constructs a flow,
//! then alternates between performing the I/O a directive asks for and
//! handing the outcome back to the flow.  Every transition is specified by
//! a pure function over the flow's model, so properties of whole runs (how
//! many reads and writes a resolution performs, and what they contain) are
//! proved here once and hold for any driver.
//!
//! Retrying version conflicts forever would loop silently under heavy
//! contention, so each flow takes an explicit attempt budget and aborts
//! with [`HackClientError::ResolutionExhausted`] when it runs out; a
//! driver can watch [`GetFlow::attempts_left`] and warn once retries
//! accumulate.

use vstd::prelude::*;

use crate::error::{HackClientError, WriteStatus};
use crate::mergeable::{fold_merged, views_of, Mergeable};
use crate::resolution::{
    resolve_documents, resolve_for_save, spec_resolution, spec_save_resolution, ResolvedBatch,
};

verus! {

// ------------------------------------------------------------------
// Audit records
// ------------------------------------------------------------------

/// One append-only audit entry, created before the batch write that
/// performs a resolution.
pub struct AuditRecord<T> {
    /// Name of the collection the resolution happened in.
    pub db_name: String,
    /// When the resolution was computed.
    pub timestamp: u64,
    /// The documents about to be written: every tombstoned loser, then the
    /// winner.
    pub raw_docs: Vec<T>,
    /// The pre-merge snapshot of every revision that went into the merge.
    pub conflicting_docs: Vec<T>,
}

/// Model of an audit entry.
#[verifier::ext_equal]
pub ghost struct AuditModel<MV> {
    pub db_name: Seq<char>,
    pub timestamp: u64,
    pub raw_docs: Seq<MV>,
    pub conflicting_docs: Seq<MV>,
}

impl<T: View> View for AuditRecord<T> {
    type V = AuditModel<T::V>;

    open spec fn view(&self) -> AuditModel<T::V> {
        AuditModel {
            db_name: self.db_name@,
            timestamp: self.timestamp,
            raw_docs: views_of(self.raw_docs@),
            conflicting_docs: views_of(self.conflicting_docs@),
        }
    }
}

/// The model of an optional document.
pub open spec fn opt_view<T: View>(o: Option<T>) -> Option<T::V> {
    match o {
        Option::None => Option::None,
        Option::Some(t) => Option::Some(t@),
    }
}

// ------------------------------------------------------------------
// Reading a batch-write response
// ------------------------------------------------------------------

/// What a batch-write response amounts to, scanning in order: the first
/// status that is neither clean nor a benign not-found decides.  A version
/// conflict asks for a retry; any other failure is fatal.  A not-found on a
/// tombstone write means another resolver already removed that sibling and
/// is ignored.
pub ghost enum BatchVerdict {
    Clean,
    Retry,
    Fatal(String),
}

/// The verdict of a batch-write response, scanned left to right.
pub open spec fn batch_verdict(rs: Seq<WriteStatus>) -> BatchVerdict
    decreases rs.len(),
{
    if rs.len() == 0 {
        BatchVerdict::Clean
    } else {
        match rs[0] {
            WriteStatus::Other(det) => BatchVerdict::Fatal(det),
            WriteStatus::VersionConflict => BatchVerdict::Retry,
            _ => batch_verdict(rs.skip(1)),
        }
    }
}

/// Exec counterpart of [`BatchVerdict`].
pub enum BatchOutcome {
    Clean,
    Retry,
    Fatal(String),
}

/// Scan a batch-write response and compute its verdict.
pub fn scan_results(results: &Vec<WriteStatus>) -> (v: BatchOutcome)
    ensures
        (v is Clean) == (batch_verdict(results@) is Clean),
        (v is Retry) == (batch_verdict(results@) is Retry),
        v is Fatal ==> batch_verdict(results@) == BatchVerdict::Fatal(v->Fatal_0),
{
    proof {
        assert(results@.skip(0) =~= results@);
    }
    let mut i: usize = 0;
    while i < results.len()
        invariant
            0 <= i <= results@.len(),
            batch_verdict(results@) == batch_verdict(results@.skip(i as int)),
        decreases results@.len() - i,
    {
        let ghost rest = results@.skip(i as int);
        proof {
            assert(rest[0] == results@[i as int]);
            assert(rest.skip(1) =~= results@.skip(i as int + 1));
        }
        match &results[i] {
            WriteStatus::Other(det) => {
                return BatchOutcome::Fatal(det.clone());
            },
            WriteStatus::VersionConflict => {
                return BatchOutcome::Retry;
            },
            _ => {},
        }
        i += 1;
    }
    proof {
        assert(results@.skip(results@.len() as int) =~= Seq::<WriteStatus>::empty());
    }
    BatchOutcome::Clean
}

// ------------------------------------------------------------------
// Read-and-resolve flow
// ------------------------------------------------------------------

enum GetState<T> {
    Fresh,
    AwaitRead,
    AwaitWrite { winner: T },
    Done,
}

/// Model of a get flow's position.
pub ghost enum GetStateModel<MV> {
    Fresh,
    AwaitRead,
    AwaitWrite { winner: MV },
    Done,
}

/// Model of a get flow.
#[verifier::ext_equal]
pub ghost struct GetFlowModel<MV> {
    pub db_name: Seq<char>,
    pub id: Seq<char>,
    pub attempts_left: u64,
    pub state: GetStateModel<MV>,
}

/// What the driver of a get flow must do next.
pub enum GetDirective<T: Mergeable> {
    /// Read the document, asking the store to include conflicts.
    Read { id: String },
    /// Append the audit record to the conflict log, then write
    /// `audit.raw_docs` to the collection in one batch.
    WriteResolution { audit: AuditRecord<T> },
    /// The operation is complete.
    Finish { result: Option<T> },
    /// A fatal error; surface it to the caller.
    Abort { error: HackClientError },
}

/// Model of a get directive.
pub ghost enum GetDirectiveModel<MV> {
    Read { id: Seq<char> },
    WriteResolution { audit: AuditModel<MV> },
    Finish { result: Option<MV> },
    Abort { error: HackClientError },
}

impl<T: Mergeable> View for GetDirective<T> {
    type V = GetDirectiveModel<T::V>;

    open spec fn view(&self) -> GetDirectiveModel<T::V> {
        match self {
            GetDirective::Read { id } => GetDirectiveModel::Read { id: id@ },
            GetDirective::WriteResolution { audit } => GetDirectiveModel::WriteResolution {
                audit: audit@,
            },
            GetDirective::Finish { result } => GetDirectiveModel::Finish {
                result: opt_view(*result),
            },
            GetDirective::Abort { error } => GetDirectiveModel::Abort { error: *error },
        }
    }
}

/// Read one document and make its sibling conflicts invisible: merge them
/// into the primary revision, tombstone the losers, write everything back
/// in one audited batch, and retry from a fresh read if a concurrent
/// writer races the batch.
pub struct GetFlow<T: Mergeable> {
    db_name: String,
    id: String,
    attempts_left: u64,
    state: GetState<T>,
}

impl<T: Mergeable> View for GetFlow<T> {
    type V = GetFlowModel<T::V>;

    closed spec fn view(&self) -> GetFlowModel<T::V> {
        GetFlowModel {
            db_name: self.db_name@,
            id: self.id@,
            attempts_left: self.attempts_left,
            state: match &self.state {
                GetState::Fresh => GetStateModel::Fresh,
                GetState::AwaitRead => GetStateModel::AwaitRead,
                GetState::AwaitWrite { winner } => GetStateModel::AwaitWrite { winner: winner@ },
                GetState::Done => GetStateModel::Done,
            },
        }
    }
}

/// Transition of a get flow when it starts: ask for the first read.
pub open spec fn get_start_spec<MV>(pre: GetFlowModel<MV>) -> (GetFlowModel<MV>, GetDirectiveModel<
    MV,
>) {
    (
        GetFlowModel { state: GetStateModel::AwaitRead, ..pre },
        GetDirectiveModel::Read { id: pre.id },
    )
}

/// Transition of a get flow on the outcome of a read.  A missing document
/// finishes with nothing; a document without siblings finishes with the
/// document as-is; otherwise the flow computes the resolution and asks for
/// the audited batch write.
pub open spec fn get_on_read_spec<T: Mergeable>(
    pre: GetFlowModel<T::V>,
    doc: Option<T::V>,
    now: u64,
) -> (GetFlowModel<T::V>, GetDirectiveModel<T::V>) {
    match doc {
        Option::None => (
            GetFlowModel { state: GetStateModel::Done, ..pre },
            GetDirectiveModel::Finish { result: Option::None },
        ),
        Option::Some(d) => {
            let sibs = T::m_conflicts(d);
            if sibs.len() == 0 {
                (
                    GetFlowModel { state: GetStateModel::Done, ..pre },
                    GetDirectiveModel::Finish { result: Option::Some(T::m_drained(d)) },
                )
            } else {
                let res = spec_resolution::<T>(T::m_drained(d), sibs);
                (
                    GetFlowModel { state: GetStateModel::AwaitWrite { winner: res.winner }, ..pre },
                    GetDirectiveModel::WriteResolution {
                        audit: AuditModel {
                            db_name: pre.db_name,
                            timestamp: now,
                            raw_docs: res.raw_docs,
                            conflicting_docs: res.conflicting_docs,
                        },
                    },
                )
            }
        },
    }
}

/// Transition of a get flow on a batch-write response: clean finishes with
/// the merged winner; a version conflict re-reads while the attempt budget
/// lasts; anything else is fatal.
pub open spec fn get_on_write_spec<T: Mergeable>(
    pre: GetFlowModel<T::V>,
    rs: Seq<WriteStatus>,
) -> (GetFlowModel<T::V>, GetDirectiveModel<T::V>) {
    let winner = pre.state->AwaitWrite_winner;
    match batch_verdict(rs) {
        BatchVerdict::Fatal(det) => (
            GetFlowModel { state: GetStateModel::Done, ..pre },
            GetDirectiveModel::Abort { error: HackClientError::InternalDBError(det) },
        ),
        BatchVerdict::Retry => {
            if pre.attempts_left == 0 {
                (
                    GetFlowModel { state: GetStateModel::Done, ..pre },
                    GetDirectiveModel::Abort { error: HackClientError::ResolutionExhausted },
                )
            } else {
                (
                    GetFlowModel {
                        state: GetStateModel::AwaitRead,
                        attempts_left: (pre.attempts_left - 1) as u64,
                        ..pre
                    },
                    GetDirectiveModel::Read { id: pre.id },
                )
            }
        },
        BatchVerdict::Clean => (
            GetFlowModel { state: GetStateModel::Done, ..pre },
            GetDirectiveModel::Finish { result: Option::Some(winner) },
        ),
    }
}

impl<T: Mergeable> GetFlow<T> {
    /// A flow that will read `id` from the named collection and resolve
    /// what it finds, re-reading at most `max_attempts` times when racing
    /// writers force a retry.
    pub fn new(db_name: String, id: String, max_attempts: u64) -> (r: Self)
        ensures
            r@ == (GetFlowModel::<T::V> {
                db_name: db_name@,
                id: id@,
                attempts_left: max_attempts,
                state: GetStateModel::Fresh,
            }),
    {
        GetFlow { db_name, id, attempts_left: max_attempts, state: GetState::Fresh }
    }

    /// How many more retries the flow will absorb before giving up;
    /// drivers may log a diagnostic when this drops low.
    pub fn attempts_left(&self) -> (r: u64)
        ensures
            r == self@.attempts_left,
    {
        self.attempts_left
    }

    /// Begin: the driver must read the document, with conflicts included.
    pub fn start(&mut self) -> (d: GetDirective<T>)
        requires
            old(self)@.state is Fresh,
        ensures
            final(self)@ == get_start_spec::<T::V>(old(self)@).0,
            d@ == get_start_spec::<T::V>(old(self)@).1,
    {
        self.state = GetState::AwaitRead;
        GetDirective::Read { id: self.id.clone() }
    }

    /// Hand the flow what the read returned.
    pub fn on_read(&mut self, doc: Option<T>, now: u64) -> (d: GetDirective<T>)
        requires
            old(self)@.state is AwaitRead,
        ensures
            final(self)@ == get_on_read_spec::<T>(old(self)@, opt_view(doc), now).0,
            d@ == get_on_read_spec::<T>(old(self)@, opt_view(doc), now).1,
    {
        match doc {
            Option::None => {
                self.state = GetState::Done;
                GetDirective::Finish { result: Option::None }
            },
            Option::Some(mut d) => {
                let ghost d0 = d@;
                proof {
                    T::lemma_view_conflicts_shallow(d);
                    T::lemma_drained_meta(d0);
                }
                let sibs = d.take_conflicts();
                proof {
                    assert forall|i: int| 0 <= i < sibs@.len() implies T::m_conflicts(
                        #[trigger] sibs@[i]@,
                    ).len() == 0 by {
                        assert(views_of(sibs@)[i] == sibs@[i]@);
                        assert(views_of(sibs@)[i] == T::m_conflicts(d0)[i]);
                    }
                }
                if sibs.len() == 0 {
                    self.state = GetState::Done;
                    GetDirective::Finish { result: Option::Some(d) }
                } else {
                    let ResolvedBatch { winner, raw_docs, conflicting_docs } = resolve_documents(
                        d,
                        &sibs,
                    );
                    let audit = AuditRecord {
                        db_name: self.db_name.clone(),
                        timestamp: now,
                        raw_docs,
                        conflicting_docs,
                    };
                    self.state = GetState::AwaitWrite { winner };
                    proof {
                        assert(self@ =~= get_on_read_spec::<T>(old(self)@, opt_view(doc), now).0);
                        assert(audit@ =~= get_on_read_spec::<T>(
                            old(self)@,
                            opt_view(doc),
                            now,
                        ).1->WriteResolution_audit);
                    }
                    GetDirective::WriteResolution { audit }
                }
            },
        }
    }

    /// Hand the flow the store's per-document statuses for the batch write.
    pub fn on_write_results(&mut self, results: &Vec<WriteStatus>) -> (d: GetDirective<T>)
        requires
            old(self)@.state is AwaitWrite,
        ensures
            final(self)@ == get_on_write_spec::<T>(old(self)@, results@).0,
            d@ == get_on_write_spec::<T>(old(self)@, results@).1,
    {
        let outcome = scan_results(results);
        match outcome {
            BatchOutcome::Fatal(det) => {
                self.state = GetState::Done;
                GetDirective::Abort { error: HackClientError::InternalDBError(det) }
            },
            BatchOutcome::Retry => {
                if self.attempts_left == 0 {
                    self.state = GetState::Done;
                    GetDirective::Abort { error: HackClientError::ResolutionExhausted }
                } else {
                    self.attempts_left = self.attempts_left - 1;
                    self.state = GetState::AwaitRead;
                    GetDirective::Read { id: self.id.clone() }
                }
            },
            BatchOutcome::Clean => {
                let mut tmp = GetState::Done;
                core::mem::swap(&mut tmp, &mut self.state);
                match tmp {
                    GetState::AwaitWrite { winner } => GetDirective::Finish {
                        result: Option::Some(winner),
                    },
                    _ => {
                        proof {
                            assert(false);
                        }
                        GetDirective::Finish { result: Option::None }
                    },
                }
            },
        }
    }
}

// ------------------------------------------------------------------
// Save-and-resolve flow
// ------------------------------------------------------------------

enum SaveState<T> {
    Fresh { doc: T },
    AwaitWriteOne { doc: T },
    AwaitRead { base: T },
    AwaitBatch { winner: T },
    Done,
}

/// Model of a save flow's position.
pub ghost enum SaveStateModel<MV> {
    Fresh { doc: MV },
    AwaitWriteOne { doc: MV },
    AwaitRead { base: MV },
    AwaitBatch { winner: MV },
    Done,
}

/// Model of a save flow.
#[verifier::ext_equal]
pub ghost struct SaveFlowModel<MV> {
    pub db_name: Seq<char>,
    pub id: Seq<char>,
    pub attempts_left: u64,
    pub state: SaveStateModel<MV>,
}

/// What the driver of a save flow must do next.
pub enum SaveDirective<T: Mergeable> {
    /// Write the single document; report the status.
    WriteOne { doc: T },
    /// Read the current stored revision, asking for conflicts.
    Read { id: String },
    /// Append the audit record to the conflict log, then write
    /// `audit.raw_docs` to the collection in one batch.
    WriteResolution { audit: AuditRecord<T> },
    /// The save is complete.
    Finish,
    /// A fatal error; surface it to the caller.
    Abort { error: HackClientError },
}

/// Model of a save directive.
pub ghost enum SaveDirectiveModel<MV> {
    WriteOne { doc: MV },
    Read { id: Seq<char> },
    WriteResolution { audit: AuditModel<MV> },
    Finish,
    Abort { error: HackClientError },
}

impl<T: Mergeable> View for SaveDirective<T> {
    type V = SaveDirectiveModel<T::V>;

    open spec fn view(&self) -> SaveDirectiveModel<T::V> {
        match self {
            SaveDirective::WriteOne { doc } => SaveDirectiveModel::WriteOne { doc: doc@ },
            SaveDirective::Read { id } => SaveDirectiveModel::Read { id: id@ },
            SaveDirective::WriteResolution { audit } => SaveDirectiveModel::WriteResolution {
                audit: audit@,
            },
            SaveDirective::Finish => SaveDirectiveModel::Finish,
            SaveDirective::Abort { error } => SaveDirectiveModel::Abort { error: *error },
        }
    }
}

/// Save one document: attempt a direct write, and on a version conflict
/// re-read the stored revision, merge the caller's contribution with it and
/// with every sibling, adopt the stored revision token, and write the
/// audited batch — using the just-merged entity as the new base if writers
/// keep racing.
pub struct SaveFlow<T: Mergeable> {
    db_name: String,
    id: String,
    attempts_left: u64,
    state: SaveState<T>,
}

impl<T: Mergeable> View for SaveFlow<T> {
    type V = SaveFlowModel<T::V>;

    closed spec fn view(&self) -> SaveFlowModel<T::V> {
        SaveFlowModel {
            db_name: self.db_name@,
            id: self.id@,
            attempts_left: self.attempts_left,
            state: match &self.state {
                SaveState::Fresh { doc } => SaveStateModel::Fresh { doc: doc@ },
                SaveState::AwaitWriteOne { doc } => SaveStateModel::AwaitWriteOne { doc: doc@ },
                SaveState::AwaitRead { base } => SaveStateModel::AwaitRead { base: base@ },
                SaveState::AwaitBatch { winner } => SaveStateModel::AwaitBatch { winner: winner@ },
                SaveState::Done => SaveStateModel::Done,
            },
        }
    }
}

/// The documents a save flow holds never carry conflict lists: the caller
/// saves a fresh entity, and every later base is a drained merge result.
pub open spec fn save_wf<T: Mergeable>(m: SaveFlowModel<T::V>) -> bool {
    match m.state {
        SaveStateModel::Fresh { doc } => T::m_conflicts(doc).len() == 0,
        SaveStateModel::AwaitWriteOne { doc } => T::m_conflicts(doc).len() == 0,
        SaveStateModel::AwaitRead { base } => T::m_conflicts(base).len() == 0,
        SaveStateModel::AwaitBatch { winner } => T::m_conflicts(winner).len() == 0,
        SaveStateModel::Done => true,
    }
}

/// Transition of a save flow when it starts: write the caller's document.
pub open spec fn save_start_spec<MV>(pre: SaveFlowModel<MV>) -> (
    SaveFlowModel<MV>,
    SaveDirectiveModel<MV>,
) {
    let doc = pre.state->Fresh_doc;
    (
        SaveFlowModel { state: SaveStateModel::AwaitWriteOne { doc }, ..pre },
        SaveDirectiveModel::WriteOne { doc },
    )
}

/// Transition of a save flow on the status of the direct write: applied
/// finishes; a version conflict enters the resolution loop while the
/// attempt budget lasts; anything else is fatal.
pub open spec fn save_on_write_spec<MV>(pre: SaveFlowModel<MV>, status: WriteStatus) -> (
    SaveFlowModel<MV>,
    SaveDirectiveModel<MV>,
) {
    let doc = pre.state->AwaitWriteOne_doc;
    match status {
        WriteStatus::Applied => (
            SaveFlowModel { state: SaveStateModel::Done, ..pre },
            SaveDirectiveModel::Finish,
        ),
        WriteStatus::VersionConflict => {
            if pre.attempts_left == 0 {
                (
                    SaveFlowModel { state: SaveStateModel::Done, ..pre },
                    SaveDirectiveModel::Abort { error: HackClientError::ResolutionExhausted },
                )
            } else {
                (
                    SaveFlowModel {
                        state: SaveStateModel::AwaitRead { base: doc },
                        attempts_left: (pre.attempts_left - 1) as u64,
                        ..pre
                    },
                    SaveDirectiveModel::Read { id: pre.id },
                )
            }
        },
        WriteStatus::NotFound(det) => (
            SaveFlowModel { state: SaveStateModel::Done, ..pre },
            SaveDirectiveModel::Abort { error: HackClientError::InternalDBError(det) },
        ),
        WriteStatus::Other(det) => (
            SaveFlowModel { state: SaveStateModel::Done, ..pre },
            SaveDirectiveModel::Abort { error: HackClientError::InternalDBError(det) },
        ),
    }
}

/// Transition of a save flow on the outcome of a re-read.  A vanished
/// document means another resolver already settled it: the save finishes.
/// Otherwise the caller's base absorbs the stored revision and every
/// sibling, adopts the stored revision token, and the flow asks for the
/// audited batch write.
pub open spec fn save_on_read_spec<T: Mergeable>(
    pre: SaveFlowModel<T::V>,
    doc: Option<T::V>,
    now: u64,
) -> (SaveFlowModel<T::V>, SaveDirectiveModel<T::V>) {
    let base = pre.state->AwaitRead_base;
    match doc {
        Option::None => (
            SaveFlowModel { state: SaveStateModel::Done, ..pre },
            SaveDirectiveModel::Finish,
        ),
        Option::Some(s) => {
            let res = spec_save_resolution::<T>(base, T::m_drained(s), T::m_conflicts(s));
            (
                SaveFlowModel { state: SaveStateModel::AwaitBatch { winner: res.winner }, ..pre },
                SaveDirectiveModel::WriteResolution {
                    audit: AuditModel {
                        db_name: pre.db_name,
                        timestamp: now,
                        raw_docs: res.raw_docs,
                        conflicting_docs: res.conflicting_docs,
                    },
                },
            )
        },
    }
}

/// Transition of a save flow on a batch-write response: clean finishes; a
/// version conflict loops back to a re-read with the just-merged winner as
/// the new base; anything else is fatal.
pub open spec fn save_on_batch_spec<MV>(pre: SaveFlowModel<MV>, rs: Seq<WriteStatus>) -> (
    SaveFlowModel<MV>,
    SaveDirectiveModel<MV>,
) {
    let winner = pre.state->AwaitBatch_winner;
    match batch_verdict(rs) {
        BatchVerdict::Fatal(det) => (
            SaveFlowModel { state: SaveStateModel::Done, ..pre },
            SaveDirectiveModel::Abort { error: HackClientError::InternalDBError(det) },
        ),
        BatchVerdict::Retry => {
            if pre.attempts_left == 0 {
                (
                    SaveFlowModel { state: SaveStateModel::Done, ..pre },
                    SaveDirectiveModel::Abort { error: HackClientError::ResolutionExhausted },
                )
            } else {
                (
                    SaveFlowModel {
                        state: SaveStateModel::AwaitRead { base: winner },
                        attempts_left: (pre.attempts_left - 1) as u64,
                        ..pre
                    },
                    SaveDirectiveModel::Read { id: pre.id },
                )
            }
        },
        BatchVerdict::Clean => (
            SaveFlowModel { state: SaveStateModel::Done, ..pre },
            SaveDirectiveModel::Finish,
        ),
    }
}

impl<T: Mergeable> SaveFlow<T> {
    /// A flow that writes `doc` to the named collection, resolving version
    /// conflicts by merge-and-retry at most `max_attempts` times.
    pub fn new(db_name: String, doc: T, max_attempts: u64) -> (r: Self)
        requires
            T::m_conflicts(doc@).len() == 0,
        ensures
            r@ == (SaveFlowModel::<T::V> {
                db_name: db_name@,
                id: T::m_id(doc@),
                attempts_left: max_attempts,
                state: SaveStateModel::Fresh { doc: doc@ },
            }),
            save_wf::<T>(r@),
    {
        let id = doc.get_id();
        SaveFlow { db_name, id, attempts_left: max_attempts, state: SaveState::Fresh { doc } }
    }

    /// How many more retries the flow will absorb before giving up;
    /// drivers may log a diagnostic when this drops low.
    pub fn attempts_left(&self) -> (r: u64)
        ensures
            r == self@.attempts_left,
    {
        self.attempts_left
    }

    /// Begin: the driver must write the document once, directly.
    pub fn start(&mut self) -> (d: SaveDirective<T>)
        requires
            old(self)@.state is Fresh,
            save_wf::<T>(old(self)@),
        ensures
            final(self)@ == save_start_spec::<T::V>(old(self)@).0,
            d@ == save_start_spec::<T::V>(old(self)@).1,
            save_wf::<T>(final(self)@),
    {
        let mut tmp = SaveState::Done;
        core::mem::swap(&mut tmp, &mut self.state);
        match tmp {
            SaveState::Fresh { doc } => {
                let dup = doc.duplicate();
                self.state = SaveState::AwaitWriteOne { doc };
                SaveDirective::WriteOne { doc: dup }
            },
            _ => {
                proof {
                    assert(false);
                }
                SaveDirective::Finish
            },
        }
    }

    /// Hand the flow the status of the direct write.
    pub fn on_write_result(&mut self, status: WriteStatus) -> (d: SaveDirective<T>)
        requires
            old(self)@.state is AwaitWriteOne,
            save_wf::<T>(old(self)@),
        ensures
            final(self)@ == save_on_write_spec::<T::V>(old(self)@, status).0,
            d@ == save_on_write_spec::<T::V>(old(self)@, status).1,
            save_wf::<T>(final(self)@),
    {
        match status {
            WriteStatus::Applied => {
                self.state = SaveState::Done;
                SaveDirective::Finish
            },
            WriteStatus::VersionConflict => {
                if self.attempts_left == 0 {
                    self.state = SaveState::Done;
                    SaveDirective::Abort { error: HackClientError::ResolutionExhausted }
                } else {
                    self.attempts_left = self.attempts_left - 1;
                    let mut tmp = SaveState::Done;
                    core::mem::swap(&mut tmp, &mut self.state);
                    match tmp {
                        SaveState::AwaitWriteOne { doc } => {
                            self.state = SaveState::AwaitRead { base: doc };
                        },
                        _ => {
                            proof {
                                assert(false);
                            }
                        },
                    }
                    SaveDirective::Read { id: self.id.clone() }
                }
            },
            WriteStatus::NotFound(det) => {
                self.state = SaveState::Done;
                SaveDirective::Abort { error: HackClientError::InternalDBError(det) }
            },
            WriteStatus::Other(det) => {
                self.state = SaveState::Done;
                SaveDirective::Abort { error: HackClientError::InternalDBError(det) }
            },
        }
    }

    /// Hand the flow what the re-read returned.
    pub fn on_read(&mut self, doc: Option<T>, now: u64) -> (d: SaveDirective<T>)
        requires
            old(self)@.state is AwaitRead,
            save_wf::<T>(old(self)@),
        ensures
            final(self)@ == save_on_read_spec::<T>(old(self)@, opt_view(doc), now).0,
            d@ == save_on_read_spec::<T>(old(self)@, opt_view(doc), now).1,
            save_wf::<T>(final(self)@),
    {
        match doc {
            Option::None => {
                self.state = SaveState::Done;
                SaveDirective::Finish
            },
            Option::Some(mut s) => {
                let ghost s0 = s@;
                proof {
                    T::lemma_view_conflicts_shallow(s);
                    T::lemma_drained_meta(s0);
                }
                let sibs = s.take_conflicts();
                proof {
                    assert forall|i: int| 0 <= i < sibs@.len() implies T::m_conflicts(
                        #[trigger] sibs@[i]@,
                    ).len() == 0 by {
                        assert(views_of(sibs@)[i] == sibs@[i]@);
                        assert(views_of(sibs@)[i] == T::m_conflicts(s0)[i]);
                    }
                }
                let mut tmp = SaveState::Done;
                core::mem::swap(&mut tmp, &mut self.state);
                let base = match tmp {
                    SaveState::AwaitRead { base } => base,
                    _ => {
                        proof {
                            assert(false);
                        }
                        s.duplicate()
                    },
                };
                let ResolvedBatch { winner, raw_docs, conflicting_docs } = resolve_for_save(
                    base,
                    &s,
                    &sibs,
                );
                let audit = AuditRecord {
                    db_name: self.db_name.clone(),
                    timestamp: now,
                    raw_docs,
                    conflicting_docs,
                };
                proof {
                    T::lemma_with_rev_meta(
                        fold_merged::<T>(
                            T::m_merged(old(self)@.state->AwaitRead_base, T::m_drained(s0)),
                            T::m_conflicts(s0),
                        ),
                        T::m_rev(T::m_drained(s0)),
                    );
                    crate::mergeable::lemma_fold_merged_meta::<T>(
                        T::m_merged(old(self)@.state->AwaitRead_base, T::m_drained(s0)),
                        T::m_conflicts(s0),
                    );
                    T::lemma_merged_meta(old(self)@.state->AwaitRead_base, T::m_drained(s0));
                }
                self.state = SaveState::AwaitBatch { winner };
                proof {
                    assert(self@ =~= save_on_read_spec::<T>(old(self)@, opt_view(doc), now).0);
                    assert(audit@ =~= save_on_read_spec::<T>(
                        old(self)@,
                        opt_view(doc),
                        now,
                    ).1->WriteResolution_audit);
                }
                SaveDirective::WriteResolution { audit }
            },
        }
    }

    /// Hand the flow the store's per-document statuses for the batch write.
    pub fn on_batch_results(&mut self, results: &Vec<WriteStatus>) -> (d: SaveDirective<T>)
        requires
            old(self)@.state is AwaitBatch,
            save_wf::<T>(old(self)@),
        ensures
            final(self)@ == save_on_batch_spec::<T::V>(old(self)@, results@).0,
            d@ == save_on_batch_spec::<T::V>(old(self)@, results@).1,
            save_wf::<T>(final(self)@),
    {
        let outcome = scan_results(results);
        match outcome {
            BatchOutcome::Fatal(det) => {
                self.state = SaveState::Done;
                SaveDirective::Abort { error: HackClientError::InternalDBError(det) }
            },
            BatchOutcome::Retry => {
                if self.attempts_left == 0 {
                    self.state = SaveState::Done;
                    SaveDirective::Abort { error: HackClientError::ResolutionExhausted }
                } else {
                    self.attempts_left = self.attempts_left - 1;
                    let mut tmp = SaveState::Done;
                    core::mem::swap(&mut tmp, &mut self.state);
                    match tmp {
                        SaveState::AwaitBatch { winner } => {
                            self.state = SaveState::AwaitRead { base: winner };
                        },
                        _ => {
                            proof {
                                assert(false);
                            }
                        },
                    }
                    SaveDirective::Read { id: self.id.clone() }
                }
            },
            BatchOutcome::Clean => {
                self.state = SaveState::Done;
                SaveDirective::Finish
            },
        }
    }
}

// ------------------------------------------------------------------
// Bulk reads
// ------------------------------------------------------------------

/// How a bulk read splits: documents without siblings pass through
/// unchanged, in order; for the others, the ids that still need their own
/// resolution cycle, in order.
pub open spec fn spec_split<T: Mergeable>(rows: Seq<T::V>) -> (Seq<T::V>, Seq<Seq<char>>)
    decreases rows.len(),
{
    if rows.len() == 0 {
        (Seq::empty(), Seq::empty())
    } else {
        let prev = spec_split::<T>(rows.drop_last());
        let last = rows.last();
        if T::m_conflicts(last).len() == 0 {
            (prev.0.push(last), prev.1)
        } else {
            (prev.0, prev.1.push(T::m_id(last)))
        }
    }
}

/// Split the rows of a bulk read: a document with no siblings is already
/// resolved and passes through unchanged; for each document with siblings,
/// return its id so the caller runs a [`GetFlow`] for it — one id's
/// resolution never blocks or retries another's.
pub fn split_resolved<T: Mergeable>(rows: Vec<T>) -> (r: (Vec<T>, Vec<String>))
    ensures
        views_of(r.0@) == spec_split::<T>(views_of(rows@)).0,
        crate::strutil::str_views(r.1@) == spec_split::<T>(views_of(rows@)).1,
{
    let ghost all = views_of(rows@);
    let mut rest = rows;
    let mut resolved: Vec<T> = Vec::new();
    let mut pending: Vec<String> = Vec::new();
    proof {
        assert(all.take(0) =~= Seq::<T::V>::empty());
        assert(views_of(rest@) =~= all.skip(0));
    }
    while rest.len() > 0
        invariant
            views_of(rest@) == all.skip(all.len() - rest@.len()),
            rest@.len() <= all.len(),
            (views_of(resolved@), crate::strutil::str_views(pending@)) == spec_split::<T>(
                all.take(all.len() - rest@.len()),
            ),
        decreases rest@.len(),
    {
        let ghost done = all.len() - rest@.len();
        let ghost pre_resolved = views_of(resolved@);
        let ghost pre_pending = crate::strutil::str_views(pending@);
        let mut row = rest.remove(0);
        proof {
            assert(views_of(rest@).len() == rest@.len());
            assert(row@ == all.skip(done)[0]);
            assert(all.skip(done)[0] == all[done]);
            assert forall|k: int| 0 <= k < rest@.len() implies views_of(rest@)[k] == all.skip(
                done + 1,
            )[k] by {
                assert(rest@[k]@ == all.skip(done)[k + 1]);
            }
            assert(views_of(rest@) =~= all.skip(done + 1));
            T::lemma_view_conflicts_shallow(row);
            T::lemma_drained_meta(row@);
        }
        let ghost row0 = row@;
        let sibs = row.take_conflicts();
        proof {
            assert(all.take(done + 1).drop_last() =~= all.take(done));
            assert(all.take(done + 1).last() == all[done]);
        }
        if sibs.len() == 0 {
            proof {
                T::lemma_drained_identity(row0);
            }
            resolved.push(row);
            proof {
                assert(views_of(resolved@) =~= pre_resolved.push(all[done]));
            }
        } else {
            let id = row.get_id();
            pending.push(id);
            proof {
                assert(crate::strutil::str_views(pending@) =~= pre_pending.push(
                    T::m_id(all[done]),
                ));
            }
        }
    }
    proof {
        assert(all.take(all.len() as int) =~= all);
    }
    (resolved, pending)
}

// ------------------------------------------------------------------
// Laws of whole runs
// ------------------------------------------------------------------

/// A save that never encounters a version conflict performs exactly one
/// write and no reads: starting the flow directs the single write of the
/// caller's document, and an applied status finishes the flow at once, so
/// the run's directives are that one write and nothing else.
pub proof fn lemma_save_without_conflict_writes_once<T: Mergeable>(f0: SaveFlowModel<T::V>)
    requires
        f0.state is Fresh,
    ensures
        save_start_spec::<T::V>(f0).1 == (SaveDirectiveModel::WriteOne {
            doc: f0.state->Fresh_doc,
        }),
        save_on_write_spec::<T::V>(save_start_spec::<T::V>(f0).0, WriteStatus::Applied).0.state
            is Done,
        save_on_write_spec::<T::V>(save_start_spec::<T::V>(f0).0, WriteStatus::Applied).1
            is Finish,
{
}

/// A save that encounters exactly one version conflict performs exactly one
/// re-read, merges with the stored revision and its siblings, writes once
/// more, and finishes successfully when that second write is clean.
pub proof fn lemma_save_one_conflict_then_clean<T: Mergeable>(
    f0: SaveFlowModel<T::V>,
    stored: T::V,
    now: u64,
    rs: Seq<WriteStatus>,
)
    requires
        f0.state is Fresh,
        f0.attempts_left > 0,
        batch_verdict(rs) is Clean,
    ensures
        ({
            let doc = f0.state->Fresh_doc;
            let (f1, d1) = save_start_spec::<T::V>(f0);
            let (f2, d2) = save_on_write_spec::<T::V>(f1, WriteStatus::VersionConflict);
            let (f3, d3) = save_on_read_spec::<T>(f2, Option::Some(stored), now);
            let (f4, d4) = save_on_batch_spec::<T::V>(f3, rs);
            &&& d1 == SaveDirectiveModel::<T::V>::WriteOne { doc }
            &&& d2 == SaveDirectiveModel::<T::V>::Read { id: f0.id }
            &&& f2.state == SaveStateModel::AwaitRead { base: doc }
            &&& d3 is WriteResolution
            &&& f3.state == (SaveStateModel::AwaitBatch {
                winner: spec_save_resolution::<T>(
                    doc,
                    T::m_drained(stored),
                    T::m_conflicts(stored),
                ).winner,
            })
            &&& d4 is Finish
            &&& f4.state is Done
        }),
{
}

/// A get on a document with zero siblings returns it unchanged, finishing
/// on the read itself: no write is ever directed.
pub proof fn lemma_get_without_siblings_returns_unchanged<T: Mergeable>(
    f: GetFlowModel<T::V>,
    d: T::V,
    now: u64,
)
    requires
        f.state is AwaitRead,
        T::m_conflicts(d).len() == 0,
    ensures
        get_on_read_spec::<T>(f, Option::Some(d), now).0.state is Done,
        get_on_read_spec::<T>(f, Option::Some(d), now).1 == (GetDirectiveModel::<T::V>::Finish {
            result: Option::Some(d),
        }),
{
    T::lemma_drained_identity(d);
}

/// A get on a document with N siblings directs one batch that writes the N
/// tombstones followed by the one merged winner, together with exactly one
/// audit record; a clean response finishes with that winner.
pub proof fn lemma_get_resolution_batch_shape<T: Mergeable>(
    f: GetFlowModel<T::V>,
    d: T::V,
    now: u64,
    rs: Seq<WriteStatus>,
)
    requires
        f.state is AwaitRead,
        T::m_conflicts(d).len() > 0,
        batch_verdict(rs) is Clean,
    ensures
        ({
            let n = T::m_conflicts(d).len();
            let winner = fold_merged::<T>(T::m_drained(d), T::m_conflicts(d));
            let (f1, d1) = get_on_read_spec::<T>(f, Option::Some(d), now);
            let (f2, d2) = get_on_write_spec::<T>(f1, rs);
            &&& d1 is WriteResolution
            &&& d1->WriteResolution_audit.raw_docs.len() == n + 1
            &&& forall|i: int|
                0 <= i < n ==> d1->WriteResolution_audit.raw_docs[i] == T::m_tombstoned(
                    #[trigger] T::m_conflicts(d)[i],
                )
            &&& d1->WriteResolution_audit.raw_docs[n as int] == winner
            &&& d1->WriteResolution_audit.timestamp == now
            &&& f1.state == GetStateModel::<T::V>::AwaitWrite { winner }
            &&& d2 == (GetDirectiveModel::<T::V>::Finish { result: Option::Some(winner) })
            &&& f2.state is Done
        }),
{
    let n = T::m_conflicts(d).len();
    let tombs = T::m_conflicts(d).map_values(|s: T::V| T::m_tombstoned(s));
    assert(forall|i: int| 0 <= i < n ==> tombs[i] == T::m_tombstoned(#[trigger] T::m_conflicts(d)[i]));
    assert(forall|i: int|
        0 <= i < n ==> tombs.push(fold_merged::<T>(T::m_drained(d), T::m_conflicts(d)))[i]
            == tombs[i]);
}

} // verus!
