//! Properties that relate several operations of the session store.

use vstd::prelude::*;

use crate::liveness::reaped;
use crate::session::{SessionView, UploadStatus};
use crate::store::{lemma_begin_then_record, lemma_open_index_unique, lemma_resolve_wf, StoreView};

verus! {

/// Resolving the same `(filename, client)` twice before completion returns
/// the same session identity both times, and the two calls together create
/// at most one session (exactly one when none was open).
pub proof fn law_idempotent_resolve(
    st: StoreView,
    filename: Seq<char>,
    client: Seq<char>,
    first_at: int,
    second_at: int,
)
    requires
        st.wf(),
        st.resolve(filename, client, first_at) is Some,
    ensures
        ({
            let (s1, id) = st.resolve(filename, client, first_at)->0;
            &&& s1.resolve(filename, client, second_at) == Some((s1, id))
            &&& s1.sessions.len() == st.sessions.len() + if st.has_open(filename, client) {
                0int
            } else {
                1int
            }
        }),
{
    lemma_resolve_wf(st, filename, client, first_at);
    let (s1, id) = st.resolve(filename, client, first_at)->0;
    lemma_open_index_unique(s1, filename, client, id - 1);
}

/// An accepted chunk adds exactly its length to the session it lands on:
/// the size before is what `probe` reported (zero for a new session), so the
/// size never decreases.
pub proof fn law_size_grows_by_chunk(
    st: StoreView,
    filename: Seq<char>,
    client: Seq<char>,
    len: nat,
    index: nat,
    total: nat,
    max_size: nat,
    now: int,
)
    requires
        st.wf(),
        st.accept_chunk(filename, client, len, index, total, max_size, now) is Ok,
    ensures
        ({
            let (s2, plan) = st.accept_chunk(filename, client, len, index, total, max_size, now)->Ok_0;
            &&& 1 <= plan.id <= s2.sessions.len()
            &&& s2.sessions[plan.id - 1].size == st.probe(filename, client) + len
            &&& st.has_open(filename, client) ==> plan.id - 1 == st.open_index(filename, client)
                && s2.sessions[plan.id - 1].size == st.sessions[plan.id - 1].size + len
            &&& !st.has_open(filename, client) ==> plan.id == st.sessions.len() + 1
                && s2.sessions[plan.id - 1].size == len
        }),
{
    lemma_begin_then_record(st, filename, client, len, index, total, max_size, now);
    lemma_resolve_wf(st, filename, client, now);
    if st.has_open(filename, client) {
        let i = st.open_index(filename, client);
        assert(st.sessions[i].is_open_for(filename, client));
    }
}

/// `completed_at` is set by the one accepted chunk with
/// `index + 1 == total`: the session was not complete before, it is complete
/// afterwards exactly when the chunk is the last one, with
/// `completed_at == now`, and no other session changes.
pub proof fn law_single_completion(
    st: StoreView,
    filename: Seq<char>,
    client: Seq<char>,
    len: nat,
    index: nat,
    total: nat,
    max_size: nat,
    now: int,
)
    requires
        st.wf(),
        st.accept_chunk(filename, client, len, index, total, max_size, now) is Ok,
    ensures
        ({
            let (s2, plan) = st.accept_chunk(filename, client, len, index, total, max_size, now)->Ok_0;
            &&& 1 <= plan.id <= s2.sessions.len()
            &&& plan.id <= st.sessions.len() ==> st.sessions[plan.id - 1].completed_at is None
            &&& (s2.sessions[plan.id - 1].completed_at is Some) == (index + 1 == total)
            &&& index + 1 == total ==> s2.sessions[plan.id - 1].completed_at == Some(now)
                && s2.sessions[plan.id - 1].status == UploadStatus::Complete
            &&& forall|k: int|
                0 <= k < st.sessions.len() && k != plan.id - 1 ==> #[trigger] s2.sessions[k] == st.sessions[k]
        }),
{
    lemma_begin_then_record(st, filename, client, len, index, total, max_size, now);
    lemma_resolve_wf(st, filename, client, now);
}

/// A complete session is history: heartbeats and reaper sweeps leave it
/// exactly as it is, and recording or completing on it is refused.
pub proof fn law_complete_is_final(
    st: StoreView,
    i: int,
    client: Seq<char>,
    user_agent: Option<Seq<char>>,
    ids: Seq<i64>,
    len: nat,
    now: int,
    upload_timeout_secs: int,
    client_timeout_secs: int,
)
    requires
        st.wf(),
        0 <= i < st.sessions.len(),
        st.sessions[i].status == UploadStatus::Complete,
    ensures
        st.heartbeat(client, user_agent, ids, now).sessions[i] == st.sessions[i],
        st.reap(now, upload_timeout_secs, client_timeout_secs).sessions[i] == st.sessions[i],
        st.record_chunk(i + 1, len, now) is Err,
        st.complete_session(i + 1, now) is Err,
{
    assert(st.sessions[i].id == i + 1);
}

/// Between chunks nothing lowers a byte count: heartbeats and reaper sweeps
/// leave every session's size as it is, and an accepted chunk, for any key,
/// lowers no existing session's size.
pub proof fn law_size_never_decreases(
    st: StoreView,
    k: int,
    client: Seq<char>,
    user_agent: Option<Seq<char>>,
    ids: Seq<i64>,
    filename: Seq<char>,
    len: nat,
    index: nat,
    total: nat,
    max_size: nat,
    now: int,
    upload_timeout_secs: int,
    client_timeout_secs: int,
)
    requires
        st.wf(),
        0 <= k < st.sessions.len(),
    ensures
        st.heartbeat(client, user_agent, ids, now).sessions[k].size == st.sessions[k].size,
        st.reap(now, upload_timeout_secs, client_timeout_secs).sessions[k].size == st.sessions[k].size,
        st.accept_chunk(filename, client, len, index, total, max_size, now) matches Ok((s2, _)) ==> s2.sessions[k].size
            >= st.sessions[k].size,
{
    if st.accept_chunk(filename, client, len, index, total, max_size, now) is Ok {
        law_single_completion(st, filename, client, len, index, total, max_size, now);
        law_size_grows_by_chunk(st, filename, client, len, index, total, max_size, now);
    }
}

/// Resolving a key leaves every existing session as it is; a session of
/// another client, even with the same filename, is never the answer.
pub proof fn law_resolve_isolation(
    st: StoreView,
    filename: Seq<char>,
    client: Seq<char>,
    now: int,
    other: int,
)
    requires
        st.wf(),
        st.resolve(filename, client, now) is Some,
        0 <= other < st.sessions.len(),
        st.sessions[other].client != client,
    ensures
        ({
            let (s1, id) = st.resolve(filename, client, now)->0;
            &&& id != other + 1
            &&& s1.sessions[other] == st.sessions[other]
            &&& s1.sessions[id - 1].is_open_for(filename, client)
        }),
{
    lemma_resolve_wf(st, filename, client, now);
}

/// Recording a chunk on a session adds exactly its length to that session's
/// size and changes no other session.
pub proof fn law_record_adds_length(st: StoreView, id: int, len: nat, now: int)
    requires
        st.wf(),
        st.record_chunk(id, len, now) is Ok,
    ensures
        ({
            let s2 = st.record_chunk(id, len, now)->Ok_0;
            &&& s2.sessions[id - 1].size == st.sessions[id - 1].size + len
            &&& s2.sessions[id - 1].size >= st.sessions[id - 1].size
            &&& s2.sessions.len() == st.sessions.len()
            &&& forall|k: int| 0 <= k < st.sessions.len() && k != id - 1 ==> #[trigger] s2.sessions[k] == st.sessions[k]
        }),
{
}

/// Two sessions with the same filename and different client identities are
/// independent: accepting a chunk, the last one included, for one client
/// leaves every session of another client exactly as it was.
pub proof fn law_dedup_isolation(
    st: StoreView,
    filename: Seq<char>,
    client: Seq<char>,
    len: nat,
    index: nat,
    total: nat,
    max_size: nat,
    now: int,
    other: int,
)
    requires
        st.wf(),
        st.accept_chunk(filename, client, len, index, total, max_size, now) is Ok,
        0 <= other < st.sessions.len(),
        st.sessions[other].client != client,
    ensures
        st.accept_chunk(filename, client, len, index, total, max_size, now)->Ok_0.0.sessions[other]
            == st.sessions[other],
{
    lemma_begin_then_record(st, filename, client, len, index, total, max_size, now);
    lemma_resolve_wf(st, filename, client, now);
}

/// An uploading session whose `updated_at` lies exactly `timeout` seconds
/// before the sweep is kept; one millisecond earlier, it is disconnected.
pub proof fn law_reap_threshold(
    st: StoreView,
    i: int,
    now: int,
    upload_timeout_secs: int,
    client_timeout_secs: int,
)
    requires
        0 <= i < st.sessions.len(),
        st.sessions[i].status == UploadStatus::Uploading,
    ensures
        st.sessions[i].updated_at == now - upload_timeout_secs * 1000 ==> st.reap(
            now,
            upload_timeout_secs,
            client_timeout_secs,
        ).sessions[i] == st.sessions[i],
        st.sessions[i].updated_at == now - upload_timeout_secs * 1000 - 1 ==> st.reap(
            now,
            upload_timeout_secs,
            client_timeout_secs,
        ).sessions[i].status == UploadStatus::Disconnected,
{
    assert(st.reap(now, upload_timeout_secs, client_timeout_secs).sessions[i] == reaped(
        st.sessions[i],
        now,
        upload_timeout_secs,
    ));
}

/// A disconnected session that receives a further, non-final, non-empty
/// chunk from the same identity is uploading again, with its identity kept
/// and the chunk added to the bytes it had.
pub proof fn law_resume_after_disconnect(
    st: StoreView,
    i: int,
    len: nat,
    index: nat,
    total: nat,
    max_size: nat,
    now: int,
)
    requires
        st.wf(),
        0 <= i < st.sessions.len(),
        st.sessions[i].status == UploadStatus::Disconnected,
        len > 0,
        index + 1 != total,
        st.accept_chunk(st.sessions[i].filename, st.sessions[i].client, len, index, total, max_size, now) is Ok,
    ensures
        ({
            let s = st.sessions[i];
            let (s2, plan) = st.accept_chunk(s.filename, s.client, len, index, total, max_size, now)->Ok_0;
            &&& plan.id == i + 1
            &&& s2.sessions[i].id == s.id
            &&& s2.sessions[i].status == UploadStatus::Uploading
            &&& s2.sessions[i].size == s.size + len
        }),
{
    let s = st.sessions[i];
    assert(s.is_open_for(s.filename, s.client));
    lemma_open_index_unique(st, s.filename, s.client, i);
    law_size_grows_by_chunk(st, s.filename, s.client, len, index, total, max_size, now);
    lemma_begin_then_record(st, s.filename, s.client, len, index, total, max_size, now);
}

} // verus!
