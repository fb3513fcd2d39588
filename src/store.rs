use vstd::prelude::*;

use crate::session::{text_eq, Client, ClientView, SessionView, UploadSession, UploadStatus};

verus! {

/// The mathematical content of the session store: every upload session ever
/// created, in order of creation, and the clients currently connected.
pub struct StoreView {
    pub sessions: Seq<SessionView>,
    pub clients: Seq<ClientView>,
}

/// A session that was just created for `(filename, client)` at time `now`.
pub open spec fn fresh_session(id: int, filename: Seq<char>, client: Seq<char>, now: int) -> SessionView {
    SessionView {
        id,
        filename,
        client,
        size: 0,
        status: UploadStatus::Init,
        started_at: now,
        updated_at: now,
        completed_at: None,
        announced: false,
    }
}

impl StoreView {
    /// Identities are the positions plus one; at most one open session per
    /// `(filename, client)`; client identities are unique.
    pub open spec fn wf(self) -> bool {
        &&& self.sessions.len() <= i64::MAX
        &&& forall|i: int|
            #![trigger self.sessions[i]]
            0 <= i < self.sessions.len() ==> self.sessions[i].id == i + 1 && self.sessions[i].wf()
        &&& forall|i: int, j: int|
            0 <= i < self.sessions.len() && 0 <= j < self.sessions.len() && i != j
                && (#[trigger] self.sessions[i]).is_open() && (#[trigger] self.sessions[j]).is_open()
                ==> !(self.sessions[i].filename == self.sessions[j].filename
                && self.sessions[i].client == self.sessions[j].client)
        &&& forall|i: int, j: int|
            0 <= i < self.clients.len() && 0 <= j < self.clients.len() && i != j
                ==> (#[trigger] self.clients[i]).identity != (#[trigger] self.clients[j]).identity
    }

    /// Some session is open for `(filename, client)`.
    pub open spec fn has_open(self, filename: Seq<char>, client: Seq<char>) -> bool {
        exists|i: int| 0 <= i < self.sessions.len() && (#[trigger] self.sessions[i]).is_open_for(filename, client)
    }

    /// Position of the open session for `(filename, client)`; meaningful when
    /// `has_open` holds.
    pub open spec fn open_index(self, filename: Seq<char>, client: Seq<char>) -> int {
        choose|i: int| 0 <= i < self.sessions.len() && (#[trigger] self.sessions[i]).is_open_for(filename, client)
    }

    /// Bytes already accepted for `(filename, client)`: the size of its open
    /// session, or zero when there is none.
    pub open spec fn probe(self, filename: Seq<char>, client: Seq<char>) -> nat {
        if self.has_open(filename, client) {
            self.sessions[self.open_index(filename, client)].size
        } else {
            0
        }
    }

    /// This store with its sessions replaced.
    pub open spec fn with_sessions(self, sessions: Seq<SessionView>) -> StoreView {
        StoreView { sessions, clients: self.clients }
    }

    /// The session a chunk for `(filename, client)` continues, with the store
    /// after the lookup: the open one unchanged, or a new one; `None` when a
    /// new one is needed and no identity is left.
    pub open spec fn resolve(self, filename: Seq<char>, client: Seq<char>, now: int) -> Option<(StoreView, int)> {
        if self.has_open(filename, client) {
            Some((self, self.open_index(filename, client) + 1))
        } else if self.sessions.len() < i64::MAX {
            let id = self.sessions.len() + 1int;
            Some((self.with_sessions(self.sessions.push(fresh_session(id, filename, client, now))), id))
        } else {
            None
        }
    }
}

/// Why a chunk, or a step of its ingestion, was refused. No refusal changes
/// the store.
#[derive(Clone, Copy, Debug, PartialEq, Eq, Structural)]
pub enum UploadError {
    /// `chunk_index` is not below `total_chunks`.
    IndexOutOfRange,
    /// The estimate `chunk length * total_chunks` exceeds the size limit.
    TooLarge { estimated: u128, limit: u64 },
    /// The session's byte count would no longer fit its counter.
    SizeOverflow,
    /// A new session is needed and every identity is taken.
    StoreFull,
    /// No session has this identity.
    UnknownSession,
    /// The session is complete and can no longer change.
    AlreadyComplete,
}

/// What this process reports the first time it accepts a chunk of a session.
#[derive(Clone, Copy, Debug, PartialEq, Eq, Structural)]
pub enum Announcement {
    Started,
    Resumed { from_size: u64 },
}

/// What the caller must do with a validated chunk: append it to the
/// session's staging artifact, record it, and finalize when `finalize`.
#[derive(Clone, Copy, Debug, PartialEq, Eq, Structural)]
pub struct ChunkPlan {
    pub id: i64,
    pub announcement: Option<Announcement>,
    pub finalize: bool,
}

impl StoreView {
    /// The refusal a chunk meets before the store is touched, if any.
    pub open spec fn chunk_refusal(
        self,
        filename: Seq<char>,
        client: Seq<char>,
        len: nat,
        index: nat,
        total: nat,
        max_size: nat,
    ) -> Option<UploadError> {
        if index >= total {
            Some(UploadError::IndexOutOfRange)
        } else if len * total > max_size {
            Some(UploadError::TooLarge { estimated: (len * total) as u128, limit: max_size as u64 })
        } else if self.probe(filename, client) + len > u64::MAX {
            Some(UploadError::SizeOverflow)
        } else {
            None
        }
    }

    /// This store with session position `i` replaced.
    pub open spec fn with_session(self, i: int, s: SessionView) -> StoreView {
        self.with_sessions(self.sessions.update(i, s))
    }

    /// Validation, resolution, and the once-per-session announcement.
    pub open spec fn begin_chunk(
        self,
        filename: Seq<char>,
        client: Seq<char>,
        len: nat,
        index: nat,
        total: nat,
        max_size: nat,
        now: int,
    ) -> Result<(StoreView, ChunkPlan), UploadError> {
        match self.chunk_refusal(filename, client, len, index, total, max_size) {
            Some(e) => Err(e),
            None => match self.resolve(filename, client, now) {
                None => Err(UploadError::StoreFull),
                Some((s1, id)) => {
                    let s = s1.sessions[id - 1];
                    let announcement = if s.announced {
                        None
                    } else if self.has_open(filename, client) && s.size > 0 {
                        Some(Announcement::Resumed { from_size: s.size as u64 })
                    } else {
                        Some(Announcement::Started)
                    };
                    Ok(
                        (
                            s1.with_session(id - 1, SessionView { announced: true, ..s }),
                            ChunkPlan { id: id as i64, announcement, finalize: index + 1 == total },
                        ),
                    )
                },
            },
        }
    }

    /// Records `len` accepted bytes on session `id` at `now`.
    pub open spec fn record_chunk(self, id: int, len: nat, now: int) -> Result<StoreView, UploadError> {
        if !(1 <= id <= self.sessions.len()) {
            Err(UploadError::UnknownSession)
        } else {
            let s = self.sessions[id - 1];
            if s.status == UploadStatus::Complete {
                Err(UploadError::AlreadyComplete)
            } else if len == 0 {
                Ok(self)
            } else if s.size + len > u64::MAX {
                Err(UploadError::SizeOverflow)
            } else {
                Ok(
                    self.with_session(
                        id - 1,
                        SessionView {
                            size: s.size + len,
                            status: UploadStatus::Uploading,
                            updated_at: now,
                            ..s
                        },
                    ),
                )
            }
        }
    }

    /// Marks session `id` complete at `now`.
    pub open spec fn complete_session(self, id: int, now: int) -> Result<StoreView, UploadError> {
        if !(1 <= id <= self.sessions.len()) {
            Err(UploadError::UnknownSession)
        } else {
            let s = self.sessions[id - 1];
            if s.status == UploadStatus::Complete {
                Err(UploadError::AlreadyComplete)
            } else {
                Ok(
                    self.with_session(
                        id - 1,
                        SessionView {
                            status: UploadStatus::Complete,
                            updated_at: now,
                            completed_at: Some(now),
                            ..s
                        },
                    ),
                )
            }
        }
    }

    /// The whole effect of one accepted chunk on the store: begin, record,
    /// and complete when it is the last one.
    pub open spec fn accept_chunk(
        self,
        filename: Seq<char>,
        client: Seq<char>,
        len: nat,
        index: nat,
        total: nat,
        max_size: nat,
        now: int,
    ) -> Result<(StoreView, ChunkPlan), UploadError> {
        match self.begin_chunk(filename, client, len, index, total, max_size, now) {
            Err(e) => Err(e),
            Ok((s1, plan)) => match s1.record_chunk(plan.id as int, len, now) {
                Err(e) => Err(e),
                Ok(s2) => if plan.finalize {
                    match s2.complete_session(plan.id as int, now) {
                        Err(e) => Err(e),
                        Ok(s3) => Ok((s3, plan)),
                    }
                } else {
                    Ok((s2, plan))
                },
            },
        }
    }
}

/// Replacing an open session by an open one with the same key, or by a
/// complete one, keeps the store well formed.
pub proof fn lemma_update_wf(st: StoreView, i: int, s: SessionView)
    requires
        st.wf(),
        0 <= i < st.sessions.len(),
        s.id == st.sessions[i].id,
        s.wf(),
        s.is_open() ==> st.sessions[i].is_open() && s.filename == st.sessions[i].filename
            && s.client == st.sessions[i].client,
    ensures
        st.with_session(i, s).wf(),
{
    let s2 = st.with_session(i, s);
    assert forall|a: int, b: int|
        0 <= a < s2.sessions.len() && 0 <= b < s2.sessions.len() && a != b
            && (#[trigger] s2.sessions[a]).is_open() && (#[trigger] s2.sessions[b]).is_open()
            implies !(s2.sessions[a].filename == s2.sessions[b].filename
            && s2.sessions[a].client == s2.sessions[b].client) by {
        assert(st.sessions[a].is_open() && st.sessions[b].is_open());
    }
}

/// After a successful `begin_chunk`, recording and completing cannot fail:
/// the session is open and the byte count was checked to fit.
pub proof fn lemma_begin_then_record(
    st: StoreView,
    filename: Seq<char>,
    client: Seq<char>,
    len: nat,
    index: nat,
    total: nat,
    max_size: nat,
    now: int,
)
    requires
        st.wf(),
    ensures
        st.begin_chunk(filename, client, len, index, total, max_size, now) matches Ok((s1, plan)) ==> {
            &&& 1 <= plan.id <= s1.sessions.len()
            &&& s1.sessions[plan.id - 1].is_open_for(filename, client)
            &&& s1.sessions[plan.id - 1].size == st.probe(filename, client)
            &&& s1.record_chunk(plan.id as int, len, now) is Ok
            &&& s1.record_chunk(plan.id as int, len, now)->Ok_0.complete_session(plan.id as int, now) is Ok
        },
{
    lemma_resolve_wf(st, filename, client, now);
    if let Some((s1, id)) = st.resolve(filename, client, now) {
        if st.has_open(filename, client) {
            let i = st.open_index(filename, client);
            assert(st.sessions[i].is_open_for(filename, client));
        }
    }
}

/// Under `wf`, an open session for a key is the one `open_index` names.
pub proof fn lemma_open_index_unique(st: StoreView, filename: Seq<char>, client: Seq<char>, i: int)
    requires
        st.wf(),
        0 <= i < st.sessions.len(),
        st.sessions[i].is_open_for(filename, client),
    ensures
        st.has_open(filename, client),
        st.open_index(filename, client) == i,
{
    assert(st.has_open(filename, client));
    let j = st.open_index(filename, client);
    if j != i {
        assert(st.sessions[j].is_open() && st.sessions[i].is_open());
    }
}

/// `resolve` keeps the store well formed and hands out an identity whose
/// session is open for the key.
pub proof fn lemma_resolve_wf(st: StoreView, filename: Seq<char>, client: Seq<char>, now: int)
    requires
        st.wf(),
    ensures
        st.resolve(filename, client, now) matches Some((s2, id)) ==> {
            &&& s2.wf()
            &&& 1 <= id <= s2.sessions.len()
            &&& s2.sessions[id - 1].is_open_for(filename, client)
            &&& s2.clients == st.clients
            &&& s2.sessions.len() >= st.sessions.len()
            &&& forall|k: int| 0 <= k < st.sessions.len() ==> s2.sessions[k] == st.sessions[k]
        },
{
    if st.has_open(filename, client) {
        let i = st.open_index(filename, client);
        assert(st.sessions[i].is_open_for(filename, client));
    } else if st.sessions.len() < i64::MAX {
        let id = st.sessions.len() + 1int;
        let s2 = st.with_sessions(st.sessions.push(fresh_session(id, filename, client, now)));
        assert forall|i: int, j: int|
            0 <= i < s2.sessions.len() && 0 <= j < s2.sessions.len() && i != j
                && (#[trigger] s2.sessions[i]).is_open() && (#[trigger] s2.sessions[j]).is_open()
                implies !(s2.sessions[i].filename == s2.sessions[j].filename
                && s2.sessions[i].client == s2.sessions[j].client) by {
            if i == st.sessions.len() {
                assert(st.sessions[j].is_open());
                if st.sessions[j].filename == filename && st.sessions[j].client == client {
                    assert(st.sessions[j].is_open_for(filename, client));
                }
            } else if j == st.sessions.len() {
                assert(st.sessions[i].is_open());
                if st.sessions[i].filename == filename && st.sessions[i].client == client {
                    assert(st.sessions[i].is_open_for(filename, client));
                }
            } else {
                assert(st.sessions[i] == s2.sessions[i] && st.sessions[j] == s2.sessions[j]);
            }
        }
    }
}

/// The session store: upload sessions, never deleted, and connected clients.
pub struct SessionStore {
    pub(crate) sessions: Vec<UploadSession>,
    pub(crate) clients: Vec<Client>,
}

impl View for SessionStore {
    type V = StoreView;

    open(crate) spec fn view(&self) -> StoreView {
        StoreView {
            sessions: self.sessions@.map_values(|s: UploadSession| s@),
            clients: self.clients@.map_values(|c: Client| c@),
        }
    }
}

impl SessionStore {
    /// The store's invariant, on its view.
    pub open spec fn wf(&self) -> bool {
        self@.wf()
    }

    /// An empty store.
    pub fn new() -> (r: SessionStore)
        ensures
            r.wf(),
            r@.sessions.len() == 0,
            r@.clients.len() == 0,
    {
        let r = SessionStore { sessions: Vec::new(), clients: Vec::new() };
        assert(r@.sessions =~= Seq::<SessionView>::empty());
        assert(r@.clients =~= Seq::<ClientView>::empty());
        r
    }

    /// Position of the open session for `(filename, client)`, if any.
    pub fn find_open(&self, filename: &str, client: &str) -> (r: Option<usize>)
        requires
            self.wf(),
        ensures
            r matches Some(i) ==> i < self@.sessions.len() && self@.open_index(filename@, client@) == i
                && self@.has_open(filename@, client@),
            r is None ==> !self@.has_open(filename@, client@),
    {
        let n = self.sessions.len();
        let mut i: usize = 0;
        while i < n
            invariant
                n == self.sessions@.len(),
                0 <= i <= n,
                self.wf(),
                forall|k: int| 0 <= k < i ==> !(#[trigger] self@.sessions[k]).is_open_for(filename@, client@),
            decreases n - i,
        {
            let s = &self.sessions[i];
            if s.status != UploadStatus::Complete && text_eq(s.filename.as_str(), filename) && text_eq(
                s.client_ip.as_str(),
                client,
            ) {
                proof {
                    assert(self@.sessions[i as int] == s@);
                    lemma_open_index_unique(self@, filename@, client@, i as int);
                }
                return Some(i);
            }
            proof {
                assert(self@.sessions[i as int] == s@);
            }
            i = i + 1;
        }
        None
    }

    /// Bytes already accepted for `(filename, client)`: the size of its open
    /// session, or zero when there is none. Lets a client compute where to
    /// resume without sending data.
    pub fn probe(&self, filename: &str, client: &str) -> (r: u64)
        requires
            self.wf(),
        ensures
            r == self@.probe(filename@, client@),
    {
        match self.find_open(filename, client) {
            Some(i) => self.sessions[i].size,
            None => 0,
        }
    }

    /// Steps 1, 2 and 6 of a chunk's ingestion: validates the chunk (index in
    /// range, `chunk_len * total_chunks` within `max_file_size`, the session's
    /// byte count still fitting), resolves its session, and marks the session
    /// announced. On a refusal nothing changes.
    pub fn begin_chunk(
        &mut self,
        filename: &str,
        client: &str,
        chunk_len: u64,
        chunk_index: u32,
        total_chunks: u32,
        max_file_size: u64,
        now: i64,
    ) -> (r: Result<ChunkPlan, UploadError>)
        requires
            old(self).wf(),
        ensures
            final(self).wf(),
            r matches Ok(plan) ==> old(self)@.begin_chunk(
                filename@,
                client@,
                chunk_len as nat,
                chunk_index as nat,
                total_chunks as nat,
                max_file_size as nat,
                now as int,
            ) == Ok::<(StoreView, ChunkPlan), UploadError>((final(self)@, plan)),
            r matches Err(e) ==> old(self)@.begin_chunk(
                filename@,
                client@,
                chunk_len as nat,
                chunk_index as nat,
                total_chunks as nat,
                max_file_size as nat,
                now as int,
            ) == Err::<(StoreView, ChunkPlan), UploadError>(e) && final(self)@ == old(self)@,
    {
        if chunk_index >= total_chunks {
            return Err(UploadError::IndexOutOfRange);
        }
        assert(chunk_len as u128 * total_chunks as u128 <= u64::MAX as u128 * u32::MAX as u128)
            by (nonlinear_arith);
        let estimated: u128 = chunk_len as u128 * total_chunks as u128;
        if estimated > max_file_size as u128 {
            return Err(UploadError::TooLarge { estimated, limit: max_file_size });
        }
        let found = self.find_open(filename, client);
        let existing: u64 = match found {
            Some(i) => self.sessions[i].size,
            None => 0,
        };
        if existing as u128 + chunk_len as u128 > u64::MAX as u128 {
            return Err(UploadError::SizeOverflow);
        }
        let ghost v0 = self@;
        let id = match self.resolve(filename, client, now) {
            None => {
                return Err(UploadError::StoreFull);
            },
            Some(id) => id,
        };
        proof {
            lemma_resolve_wf(v0, filename@, client@, now as int);
        }
        let ghost v1 = self@;
        assert(v0.resolve(filename@, client@, now as int) == Some((v1, id as int)));
        assert(1 <= id <= self.sessions.len());
        let idx = (id - 1) as usize;
        let size = self.sessions[idx].size;
        assert(v1.sessions[idx as int] == self.sessions@[idx as int]@);
        let announcement = if self.sessions[idx].announced {
            None
        } else if found.is_some() && size > 0 {
            Some(Announcement::Resumed { from_size: size })
        } else {
            Some(Announcement::Started)
        };
        self.sessions[idx].announced = true;
        proof {
            let s = v1.sessions[idx as int];
            assert(self@.sessions =~= v1.sessions.update(idx as int, SessionView { announced: true, ..s }));
            lemma_update_wf(v1, idx as int, SessionView { announced: true, ..s });
        }
        Ok(ChunkPlan { id, announcement, finalize: chunk_index + 1 == total_chunks })
    }

    /// Step 4: records `chunk_len` bytes appended to session `id` at `now`.
    /// The session moves to `Uploading`; an empty chunk changes nothing.
    pub fn record_chunk(&mut self, id: i64, chunk_len: u64, now: i64) -> (r: Result<(), UploadError>)
        requires
            old(self).wf(),
        ensures
            final(self).wf(),
            r is Ok ==> old(self)@.record_chunk(id as int, chunk_len as nat, now as int) == Ok::<
                StoreView,
                UploadError,
            >(final(self)@),
            r matches Err(e) ==> old(self)@.record_chunk(id as int, chunk_len as nat, now as int) == Err::<
                StoreView,
                UploadError,
            >(e) && final(self)@ == old(self)@,
    {
        if id < 1 || id as u64 > self.sessions.len() as u64 {
            return Err(UploadError::UnknownSession);
        }
        let idx = (id - 1) as usize;
        assert(self@.sessions[idx as int] == self.sessions@[idx as int]@);
        if self.sessions[idx].status == UploadStatus::Complete {
            return Err(UploadError::AlreadyComplete);
        }
        if chunk_len == 0 {
            return Ok(());
        }
        let size = self.sessions[idx].size;
        if size as u128 + chunk_len as u128 > u64::MAX as u128 {
            return Err(UploadError::SizeOverflow);
        }
        let ghost v0 = self@;
        self.sessions[idx].size = size + chunk_len;
        self.sessions[idx].status = UploadStatus::Uploading;
        self.sessions[idx].updated_at = now;
        proof {
            let s = v0.sessions[idx as int];
            let s2 = SessionView { size: s.size + chunk_len as nat, status: UploadStatus::Uploading, updated_at: now as int, ..s };
            assert(self@.sessions =~= v0.sessions.update(idx as int, s2));
            lemma_update_wf(v0, idx as int, s2);
        }
        Ok(())
    }

    /// Step 5: marks session `id` complete at `now`, once the staging
    /// artifact is in its final place. A complete session is refused.
    pub fn complete_session(&mut self, id: i64, now: i64) -> (r: Result<(), UploadError>)
        requires
            old(self).wf(),
        ensures
            final(self).wf(),
            r is Ok ==> old(self)@.complete_session(id as int, now as int) == Ok::<StoreView, UploadError>(
                final(self)@,
            ),
            r matches Err(e) ==> old(self)@.complete_session(id as int, now as int) == Err::<
                StoreView,
                UploadError,
            >(e) && final(self)@ == old(self)@,
    {
        if id < 1 || id as u64 > self.sessions.len() as u64 {
            return Err(UploadError::UnknownSession);
        }
        let idx = (id - 1) as usize;
        assert(self@.sessions[idx as int] == self.sessions@[idx as int]@);
        if self.sessions[idx].status == UploadStatus::Complete {
            return Err(UploadError::AlreadyComplete);
        }
        let ghost v0 = self@;
        self.sessions[idx].status = UploadStatus::Complete;
        self.sessions[idx].updated_at = now;
        self.sessions[idx].completed_at = Some(now);
        proof {
            let s = v0.sessions[idx as int];
            let s2 = SessionView {
                status: UploadStatus::Complete,
                updated_at: now as int,
                completed_at: Some(now as int),
                ..s
            };
            assert(self@.sessions =~= v0.sessions.update(idx as int, s2));
            lemma_update_wf(v0, idx as int, s2);
        }
        Ok(())
    }

    /// The store side of one whole chunk, for a caller whose staging writes
    /// succeed: begin, record, and complete on the last chunk. Returns the
    /// plan that `begin_chunk` made.
    pub fn accept_chunk(
        &mut self,
        filename: &str,
        client: &str,
        chunk_len: u64,
        chunk_index: u32,
        total_chunks: u32,
        max_file_size: u64,
        now: i64,
    ) -> (r: Result<ChunkPlan, UploadError>)
        requires
            old(self).wf(),
        ensures
            final(self).wf(),
            r matches Ok(plan) ==> old(self)@.accept_chunk(
                filename@,
                client@,
                chunk_len as nat,
                chunk_index as nat,
                total_chunks as nat,
                max_file_size as nat,
                now as int,
            ) == Ok::<(StoreView, ChunkPlan), UploadError>((final(self)@, plan)),
            r matches Err(e) ==> old(self)@.accept_chunk(
                filename@,
                client@,
                chunk_len as nat,
                chunk_index as nat,
                total_chunks as nat,
                max_file_size as nat,
                now as int,
            ) == Err::<(StoreView, ChunkPlan), UploadError>(e) && final(self)@ == old(self)@,
    {
        let ghost v0 = self@;
        let plan = match self.begin_chunk(filename, client, chunk_len, chunk_index, total_chunks, max_file_size, now) {
            Ok(plan) => plan,
            Err(e) => {
                return Err(e);
            },
        };
        proof {
            lemma_begin_then_record(v0, filename@, client@, chunk_len as nat, chunk_index as nat, total_chunks as nat, max_file_size as nat, now as int);
        }
        match self.record_chunk(plan.id, chunk_len, now) {
            Ok(()) => {},
            Err(e) => {
                return Err(e);
            },
        }
        if plan.finalize {
            match self.complete_session(plan.id, now) {
                Ok(()) => {},
                Err(e) => {
                    return Err(e);
                },
            }
        }
        Ok(plan)
    }

    /// Returns the identity of the open session for `(filename, client)`
    /// unchanged, or creates a session in `Init` with size zero started at
    /// `now`. `None` when a session is needed and every identity is taken.
    pub fn resolve(&mut self, filename: &str, client: &str, now: i64) -> (r: Option<i64>)
        requires
            old(self).wf(),
        ensures
            final(self).wf(),
            r matches Some(id) ==> old(self)@.resolve(filename@, client@, now as int) == Some((final(self)@, id as int)),
            r is None ==> old(self)@.resolve(filename@, client@, now as int) is None && final(self)@ == old(self)@,
    {
        proof {
            lemma_resolve_wf(self@, filename@, client@, now as int);
        }
        match self.find_open(filename, client) {
            Some(i) => {
                proof {
                    assert(self@.sessions[i as int].id == i + 1);
                }
                Some(self.sessions[i].id)
            },
            None => {
                let n = self.sessions.len();
                if n as u64 >= i64::MAX as u64 {
                    return None;
                }
                let id = (n as u64 + 1) as i64;
                let s = UploadSession {
                    id,
                    filename: filename.to_string(),
                    client_ip: client.to_string(),
                    size: 0,
                    status: UploadStatus::Init,
                    started_at: now,
                    updated_at: now,
                    completed_at: None,
                    announced: false,
                };
                let ghost old_view = self@;
                self.sessions.push(s);
                proof {
                    assert(self@.sessions =~= old_view.sessions.push(
                        fresh_session(id as int, filename@, client@, now as int),
                    ));
                    assert(self@.clients == old_view.clients);
                }
                Some(id)
            },
        }
    }
}

} // verus!
