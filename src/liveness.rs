use vstd::prelude::*;

use crate::session::{text_eq, clone_opt_text, opt_text, Client, ClientView, SessionView, UploadStatus};
use crate::store::{SessionStore, StoreView};

verus! {

/// The client row after `identity` was seen at `now` with `user_agent`: a
/// new row, or the old one with `last_seen` refreshed and the user agent
/// replaced only by a present one.
pub open spec fn touched_client(old: Option<ClientView>, identity: Seq<char>, user_agent: Option<Seq<char>>, now: int) -> ClientView {
    match old {
        Some(c) => ClientView {
            user_agent: if user_agent is Some { user_agent } else { c.user_agent },
            last_seen: now,
            ..c
        },
        None => ClientView { identity, user_agent, first_seen: now, last_seen: now },
    }
}

/// A heartbeat from `client` naming `id` refreshes that session: it exists,
/// belongs to `client`, and is uploading.
pub open spec fn acknowledges(sessions: Seq<SessionView>, id: i64, client: Seq<char>) -> bool {
    &&& 1 <= id <= sessions.len()
    &&& sessions[id - 1].client == client
    &&& sessions[id - 1].status == UploadStatus::Uploading
}

/// How many entries of `ids` a heartbeat from `client` acknowledges.
pub open spec fn ack_count(sessions: Seq<SessionView>, ids: Seq<i64>, client: Seq<char>) -> nat
    decreases ids.len(),
{
    if ids.len() == 0 {
        0
    } else {
        ack_count(sessions, ids.drop_last(), client) + if acknowledges(sessions, ids.last(), client) {
            1nat
        } else {
            0nat
        }
    }
}

/// The session after a heartbeat naming `ids` from `client` at `now`.
pub open spec fn refreshed(s: SessionView, ids: Seq<i64>, client: Seq<char>, now: int) -> SessionView {
    if ids.contains(s.id as i64) && s.client == client && s.status == UploadStatus::Uploading {
        SessionView { updated_at: now, ..s }
    } else {
        s
    }
}

/// An uploading session whose last update lies more than `timeout_secs`
/// before `now`.
pub open spec fn upload_is_stale(s: SessionView, now: int, timeout_secs: int) -> bool {
    s.status == UploadStatus::Uploading && now - s.updated_at > timeout_secs * 1000
}

/// A client last seen more than `timeout_secs` before `now`.
pub open spec fn client_is_stale(c: ClientView, now: int, timeout_secs: int) -> bool {
    now - c.last_seen > timeout_secs * 1000
}

/// Whether a sweep at `now` keeps a client row.
pub open spec fn keeps_client(now: int, timeout_secs: int) -> spec_fn(ClientView) -> bool {
    |c: ClientView| !client_is_stale(c, now, timeout_secs)
}

/// The session after a sweep at `now`.
pub open spec fn reaped(s: SessionView, now: int, timeout_secs: int) -> SessionView {
    if upload_is_stale(s, now, timeout_secs) {
        SessionView { status: UploadStatus::Disconnected, updated_at: now, ..s }
    } else {
        s
    }
}

/// Identities of the sessions a sweep at `now` demotes, in order.
pub open spec fn stale_ids(sessions: Seq<SessionView>, now: int, timeout_secs: int) -> Seq<i64>
    decreases sessions.len(),
{
    if sessions.len() == 0 {
        Seq::empty()
    } else {
        let rest = stale_ids(sessions.drop_last(), now, timeout_secs);
        if upload_is_stale(sessions.last(), now, timeout_secs) {
            rest.push(sessions.last().id as i64)
        } else {
            rest
        }
    }
}

impl StoreView {
    /// A client row for `identity` exists.
    pub open spec fn has_client(self, identity: Seq<char>) -> bool {
        exists|j: int| 0 <= j < self.clients.len() && (#[trigger] self.clients[j]).identity == identity
    }

    /// Position of the client row for `identity`; meaningful when
    /// `has_client` holds.
    pub open spec fn client_index(self, identity: Seq<char>) -> int {
        choose|j: int| 0 <= j < self.clients.len() && (#[trigger] self.clients[j]).identity == identity
    }

    /// Creates or refreshes the client row for `identity`.
    pub open spec fn touch_client(self, identity: Seq<char>, user_agent: Option<Seq<char>>, now: int) -> StoreView {
        if self.has_client(identity) {
            let j = self.client_index(identity);
            StoreView {
                clients: self.clients.update(j, touched_client(Some(self.clients[j]), identity, user_agent, now)),
                ..self
            }
        } else {
            StoreView {
                clients: self.clients.push(touched_client(None, identity, user_agent, now)),
                ..self
            }
        }
    }

    /// The store after a heartbeat from `client` naming `ids` at `now`.
    pub open spec fn heartbeat(self, client: Seq<char>, user_agent: Option<Seq<char>>, ids: Seq<i64>, now: int) -> StoreView {
        let t = self.touch_client(client, user_agent, now);
        t.with_sessions(t.sessions.map_values(|s: SessionView| refreshed(s, ids, client, now)))
    }

    /// The store after a sweep at `now`: stale uploads disconnected, stale
    /// clients removed.
    pub open spec fn reap(self, now: int, upload_timeout_secs: int, client_timeout_secs: int) -> StoreView {
        StoreView {
            sessions: self.sessions.map_values(|s: SessionView| reaped(s, now, upload_timeout_secs)),
            clients: self.clients.filter(keeps_client(now, client_timeout_secs)),
        }
    }
}

impl SessionStore {
    /// Position of the client row for `identity`, if any.
    fn find_client(&self, identity: &str) -> (r: Option<usize>)
        requires
            self.wf(),
        ensures
            r matches Some(j) ==> j < self@.clients.len() && self@.has_client(identity@)
                && self@.client_index(identity@) == j,
            r is None ==> !self@.has_client(identity@),
    {
        let n = self.clients.len();
        let mut j: usize = 0;
        while j < n
            invariant
                n == self.clients@.len(),
                0 <= j <= n,
                self.wf(),
                forall|k: int| 0 <= k < j ==> (#[trigger] self@.clients[k]).identity != identity@,
            decreases n - j,
        {
            assert(self@.clients[j as int] == self.clients@[j as int]@);
            if text_eq(self.clients[j].client_ip.as_str(), identity) {
                proof {
                    assert(self@.has_client(identity@));
                    let c = self@.client_index(identity@);
                    if c != j {
                        assert(self@.clients[c].identity != self@.clients[j as int].identity);
                    }
                }
                return Some(j);
            }
            j = j + 1;
        }
        None
    }

    /// A heartbeat from `client`: touches its client row, then refreshes
    /// `updated_at` of each named session that belongs to `client` and is
    /// uploading. Returns how many entries of `upload_ids` were acknowledged.
    pub fn heartbeat(&mut self, client: &str, user_agent: Option<&str>, upload_ids: &Vec<i64>, now: i64) -> (r: u64)
        requires
            old(self).wf(),
        ensures
            final(self).wf(),
            final(self)@ == old(self)@.heartbeat(
                client@,
                match user_agent {
                    Some(u) => Some(u@),
                    None => None,
                },
                upload_ids@,
                now as int,
            ),
            r == ack_count(old(self)@.sessions, upload_ids@, client@),
    {
        self.touch_client(client, user_agent, now);
        let ghost v1 = self@;
        let ids = upload_ids;
        let n = ids.len();
        let mut count: u64 = 0;
        let mut k: usize = 0;
        while k < n
            invariant
                n == ids@.len(),
                0 <= k <= n,
                self@.clients == v1.clients,
                self@.sessions.len() == v1.sessions.len(),
                forall|i: int|
                    0 <= i < v1.sessions.len() ==> #[trigger] self@.sessions[i] == refreshed(
                        v1.sessions[i],
                        ids@.take(k as int),
                        client@,
                        now as int,
                    ),
                v1.wf(),
                count == ack_count(v1.sessions, ids@.take(k as int), client@),
                count <= k,
            decreases n - k,
        {
            let id = ids[k];
            proof {
                assert(ids@.take(k + 1).drop_last() =~= ids@.take(k as int));
                assert(ids@.take(k + 1).last() == id);
            }
            if id >= 1 && id as u64 <= self.sessions.len() as u64 {
                let idx = (id - 1) as usize;
                assert(self@.sessions[idx as int] == self.sessions@[idx as int]@);
                proof {
                    assert(v1.sessions[idx as int].id == id);
                    assert(self@.sessions[idx as int].client == v1.sessions[idx as int].client);
                    assert(self@.sessions[idx as int].status == v1.sessions[idx as int].status);
                }
                if self.sessions[idx].status == UploadStatus::Uploading && text_eq(
                    self.sessions[idx].client_ip.as_str(),
                    client,
                ) {
                    let ghost before = self@;
                    self.sessions[idx].updated_at = now;
                    count = count + 1;
                    proof {
                        assert(self@.sessions =~= before.sessions.update(
                            idx as int,
                            SessionView { updated_at: now as int, ..before.sessions[idx as int] },
                        ));
                    }
                }
            }
            proof {
                assert forall|i: int| 0 <= i < v1.sessions.len() implies #[trigger] self@.sessions[i] == refreshed(
                    v1.sessions[i],
                    ids@.take(k + 1),
                    client@,
                    now as int,
                ) by {
                    assert(v1.sessions[i].id == i + 1);
                    assert(ids@.take(k + 1) =~= ids@.take(k as int).push(id));
                    if ids@.take(k as int).contains(v1.sessions[i].id as i64) {
                        let m = choose|m: int| 0 <= m < k && #[trigger] ids@.take(k as int)[m] == v1.sessions[i].id as i64;
                        assert(ids@.take(k + 1)[m] == v1.sessions[i].id as i64);
                    }
                    if ids@.take(k + 1).contains(v1.sessions[i].id as i64) && id != v1.sessions[i].id as i64 {
                        let m = choose|m: int| 0 <= m < k + 1 && #[trigger] ids@.take(k + 1)[m] == v1.sessions[i].id as i64;
                        assert(ids@.take(k as int)[m] == v1.sessions[i].id as i64);
                    }
                    if id == v1.sessions[i].id as i64 {
                        assert(ids@.take(k + 1)[k as int] == id);
                    }
                }
            }
            k = k + 1;
        }
        proof {
            assert(ids@.take(n as int) =~= ids@);
            assert(self@.sessions =~= v1.sessions.map_values(|s: SessionView| refreshed(s, ids@, client@, now as int)));
            assert(v1.sessions == old(self)@.sessions);
            assert forall|i: int, j: int|
                0 <= i < self@.sessions.len() && 0 <= j < self@.sessions.len() && i != j
                    && (#[trigger] self@.sessions[i]).is_open() && (#[trigger] self@.sessions[j]).is_open()
                    implies !(self@.sessions[i].filename == self@.sessions[j].filename
                    && self@.sessions[i].client == self@.sessions[j].client) by {
                assert(v1.sessions[i].is_open() && v1.sessions[j].is_open());
            }
        }
        count
    }

    /// One sweep of the reaper at `now`: every uploading session last updated
    /// more than `upload_stale_timeout` seconds ago becomes `Disconnected`
    /// (with `updated_at = now`), and every client last seen more than
    /// `client_stale_timeout` seconds ago is removed. The two are independent.
    /// Returns the identities of the demoted sessions, in order.
    pub fn reap(&mut self, now: i64, upload_stale_timeout: i64, client_stale_timeout: i64) -> (r: Vec<i64>)
        requires
            old(self).wf(),
        ensures
            final(self).wf(),
            final(self)@ == old(self)@.reap(now as int, upload_stale_timeout as int, client_stale_timeout as int),
            r@ == stale_ids(old(self)@.sessions, now as int, upload_stale_timeout as int),
    {
        let ghost v0 = self@;
        let ghost ut = upload_stale_timeout as int;
        let ghost ct = client_stale_timeout as int;
        let upload_limit: i128 = upload_stale_timeout as i128 * 1000;
        let client_limit: i128 = client_stale_timeout as i128 * 1000;
        let n = self.sessions.len();
        let mut out: Vec<i64> = Vec::new();
        let mut i: usize = 0;
        while i < n
            invariant
                n == self.sessions@.len(),
                0 <= i <= n,
                v0.wf(),
                upload_limit == ut * 1000,
                self@.clients == v0.clients,
                self@.sessions.len() == v0.sessions.len(),
                forall|j: int| 0 <= j < i ==> #[trigger] self@.sessions[j] == reaped(v0.sessions[j], now as int, ut),
                forall|j: int| i <= j < n ==> #[trigger] self@.sessions[j] == v0.sessions[j],
                out@ == stale_ids(v0.sessions.take(i as int), now as int, ut),
            decreases n - i,
        {
            assert(self@.sessions[i as int] == self.sessions@[i as int]@);
            proof {
                assert(v0.sessions.take(i + 1).drop_last() =~= v0.sessions.take(i as int));
                assert(v0.sessions.take(i + 1).last() == v0.sessions[i as int]);
            }
            if self.sessions[i].status == UploadStatus::Uploading && now as i128 - self.sessions[i].updated_at as i128
                > upload_limit {
                let ghost before = self@;
                self.sessions[i].status = UploadStatus::Disconnected;
                self.sessions[i].updated_at = now;
                out.push(self.sessions[i].id);
                proof {
                    assert(self@.sessions =~= before.sessions.update(
                        i as int,
                        reaped(v0.sessions[i as int], now as int, ut),
                    ));
                    assert(v0.sessions[i as int].id == i + 1);
                }
            }
            i = i + 1;
        }
        proof {
            assert(v0.sessions.take(n as int) =~= v0.sessions);
            assert(self@.sessions =~= v0.reap(now as int, ut, ct).sessions);
        }
        let m = self.clients.len();
        let mut kept: Vec<Client> = Vec::new();
        let mut k: usize = 0;
        while k < m
            invariant
                m == self.clients@.len(),
                self@.clients == v0.clients,
                0 <= k <= m,
                v0.wf(),
                client_limit == ct * 1000,
                kept@.map_values(|c: Client| c@) == v0.clients.take(k as int).filter(keeps_client(now as int, ct)),
                forall|a: int|
                    0 <= a < kept@.len() ==> exists|j: int|
                        0 <= j < k && (#[trigger] kept@[a])@.identity == (#[trigger] v0.clients[j]).identity,
                forall|a: int, b: int|
                    0 <= a < kept@.len() && 0 <= b < kept@.len() && a != b ==> (#[trigger] kept@[a])@.identity
                        != (#[trigger] kept@[b])@.identity,
            decreases m - k,
        {
            assert(self@.clients[k as int] == self.clients@[k as int]@);
            proof {
                assert(v0.clients.take(k + 1).drop_last() =~= v0.clients.take(k as int));
                assert(v0.clients.take(k + 1).last() == v0.clients[k as int]);
            }
            let ghost p = keeps_client(now as int, ct);
            let ghost ck = v0.clients[k as int];
            let stale = now as i128 - self.clients[k].last_seen as i128 > client_limit;
            proof {
                assert(p(ck) == !stale);
                assert(v0.clients.take(k + 1) =~= v0.clients.take(k as int).push(ck));
                v0.clients.take(k as int).lemma_filter_push(ck, p);
                if p(ck) {
                    assert(v0.clients.take(k + 1).filter(p) == v0.clients.take(k as int).filter(p).push(ck));
                } else {
                    assert(v0.clients.take(k + 1).filter(p) == v0.clients.take(k as int).filter(p));
                }
            }
            if !stale {
                let c = self.clients[k].duplicate();
                let ghost before = kept@;
                kept.push(c);
                proof {
                    assert(kept@.map_values(|c: Client| c@) =~= before.map_values(|c: Client| c@).push(c@));
                    assert forall|a: int|
                        0 <= a < kept@.len() implies exists|j: int|
                            0 <= j < k + 1 && (#[trigger] kept@[a])@.identity == (#[trigger] v0.clients[j]).identity by {
                        if a == before.len() {
                            assert(kept@[a]@.identity == v0.clients[k as int].identity);
                        } else {
                            assert(kept@[a] == before[a]);
                        }
                    }
                    assert forall|a: int, b: int|
                        0 <= a < kept@.len() && 0 <= b < kept@.len() && a != b implies (#[trigger] kept@[a])@.identity
                            != (#[trigger] kept@[b])@.identity by {
                        if a == before.len() {
                            assert(kept@[b] == before[b]);
                            let j = choose|j: int| 0 <= j < k && (#[trigger] before[b])@.identity == (#[trigger] v0.clients[j]).identity;
                            assert(v0.clients[j].identity != v0.clients[k as int].identity);
                        } else if b == before.len() {
                            assert(kept@[a] == before[a]);
                            let j = choose|j: int| 0 <= j < k && (#[trigger] before[a])@.identity == (#[trigger] v0.clients[j]).identity;
                            assert(v0.clients[j].identity != v0.clients[k as int].identity);
                        } else {
                            assert(kept@[a] == before[a] && kept@[b] == before[b]);
                        }
                    }
                }
            }
            k = k + 1;
        }
        self.clients = kept;
        proof {
            assert(v0.clients.take(m as int) =~= v0.clients);
            let fin = v0.reap(now as int, ut, ct);
            assert(self@.sessions == fin.sessions);
            assert(self@.clients == fin.clients);
            assert forall|a: int, b: int|
                0 <= a < self@.sessions.len() && 0 <= b < self@.sessions.len() && a != b
                    && (#[trigger] self@.sessions[a]).is_open() && (#[trigger] self@.sessions[b]).is_open()
                    implies !(self@.sessions[a].filename == self@.sessions[b].filename
                    && self@.sessions[a].client == self@.sessions[b].client) by {
                assert(v0.sessions[a].is_open() && v0.sessions[b].is_open());
            }
            assert forall|a: int, b: int|
                0 <= a < self@.clients.len() && 0 <= b < self@.clients.len() && a != b
                    implies (#[trigger] self@.clients[a]).identity != (#[trigger] self@.clients[b]).identity by {
                assert(self@.clients[a] == self.clients@[a]@);
                assert(self@.clients[b] == self.clients@[b]@);
            }
        }
        out
    }

    /// Records that `identity` was seen at `now`: creates its row on first
    /// sight, else refreshes `last_seen` and, when one is given, the user
    /// agent.
    pub fn touch_client(&mut self, identity: &str, user_agent: Option<&str>, now: i64)
        requires
            old(self).wf(),
        ensures
            final(self).wf(),
            final(self)@ == old(self)@.touch_client(
                identity@,
                match user_agent {
                    Some(u) => Some(u@),
                    None => None,
                },
                now as int,
            ),
    {
        let ua: Option<String> = match user_agent {
            Some(u) => Some(u.to_string()),
            None => None,
        };
        let ghost v0 = self@;
        match self.find_client(identity) {
            Some(j) => {
                assert(v0.clients[j as int] == self.clients@[j as int]@);
                let kept = clone_opt_text(&self.clients[j].user_agent);
                let new_ua = match ua {
                    Some(u) => Some(u),
                    None => kept,
                };
                self.clients[j].user_agent = new_ua;
                self.clients[j].last_seen = now;
                proof {
                    let c = touched_client(Some(v0.clients[j as int]), identity@, opt_text(ua), now as int);
                    assert(self@.clients =~= v0.clients.update(j as int, c));
                    assert(self@.sessions == v0.sessions);
                    assert forall|a: int, b: int|
                        0 <= a < self@.clients.len() && 0 <= b < self@.clients.len() && a != b
                            implies (#[trigger] self@.clients[a]).identity != (#[trigger] self@.clients[b]).identity by {
                        assert(v0.clients[a].identity != v0.clients[b].identity);
                    }
                }
            },
            None => {
                let c = Client { client_ip: identity.to_string(), user_agent: ua, first_seen: now, last_seen: now };
                self.clients.push(c);
                proof {
                    let cv = touched_client(None, identity@, opt_text(ua), now as int);
                    assert(self@.clients =~= v0.clients.push(cv));
                    assert(self@.sessions == v0.sessions);
                    assert forall|a: int, b: int|
                        0 <= a < self@.clients.len() && 0 <= b < self@.clients.len() && a != b
                            implies (#[trigger] self@.clients[a]).identity != (#[trigger] self@.clients[b]).identity by {
                        if a == v0.clients.len() {
                            assert(v0.clients[b].identity != identity@);
                        } else if b == v0.clients.len() {
                            assert(v0.clients[a].identity != identity@);
                        } else {
                            assert(v0.clients[a].identity != v0.clients[b].identity);
                        }
                    }
                }
            },
        }
    }
}

} // verus!
