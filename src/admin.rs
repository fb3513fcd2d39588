use vstd::prelude::*;

use crate::order::{is_key_order, key_before, lists, order_by_key};
use crate::session::{opt_time, status_name, Client, ClientView, SessionView, UploadSession, UploadStatus};
use crate::store::{SessionStore, StoreView};
use crate::text::{is_infix, text_contains};

verus! {

/// Rows per page of the admin listing.
pub const PAGE_SIZE: usize = 100;

/// A request for one page of the admin listing: the page number (from one;
/// absent or zero means the first) and an optional filename filter.
pub struct ListQuery {
    pub page: Option<usize>,
    pub q: Option<String>,
}

/// The body of a heartbeat: the sessions the client believes it is
/// uploading.
pub struct HeartbeatRequest {
    pub upload_ids: Vec<i64>,
}

/// One upload session as the admin view shows it.
pub struct UploadData {
    pub id: i64,
    pub filename: String,
    pub size: u64,
    pub status: String,
    pub client_ip: String,
    pub started_at: i64,
    pub updated_at: i64,
    pub completed_at: Option<i64>,
}

impl UploadData {
    /// This row shows session `s` as it is.
    pub open spec fn describes(&self, s: SessionView) -> bool {
        &&& self.id as int == s.id
        &&& self.filename@ == s.filename
        &&& self.size as nat == s.size
        &&& self.status@ == status_name(s.status)
        &&& self.client_ip@ == s.client
        &&& self.started_at as int == s.started_at
        &&& self.updated_at as int == s.updated_at
        &&& opt_time(self.completed_at) == s.completed_at
    }

    /// The row showing session `s`.
    pub fn from_session(s: &UploadSession) -> (r: UploadData)
        ensures
            r.describes(s@),
    {
        UploadData {
            id: s.id,
            filename: s.filename.clone(),
            size: s.size,
            status: s.status.as_str().to_string(),
            client_ip: s.client_ip.clone(),
            started_at: s.started_at,
            updated_at: s.updated_at,
            completed_at: s.completed_at,
        }
    }
}

/// `row` shows a session updated after `watermark`.
pub open spec fn shows_change(st: StoreView, watermark: int, row: UploadData) -> bool {
    exists|i: int|
        0 <= i < st.sessions.len() && st.sessions[i].updated_at > watermark && row.describes(
            #[trigger] st.sessions[i],
        )
}

/// Some row of `rows` shows session `s`.
pub open spec fn shown(rows: Seq<UploadData>, s: SessionView) -> bool {
    exists|k: int| 0 <= k < rows.len() && (#[trigger] rows[k]).describes(s)
}

/// `rows` are the sessions updated after `watermark`, each once, ordered by
/// `updated_at` and then by identity.
pub open spec fn is_change_list(st: StoreView, watermark: int, rows: Seq<UploadData>) -> bool {
    &&& forall|k: int| 0 <= k < rows.len() ==> shows_change(st, watermark, #[trigger] rows[k])
    &&& forall|i: int|
        0 <= i < st.sessions.len() && st.sessions[i].updated_at > watermark ==> shown(
            rows,
            #[trigger] st.sessions[i],
        )
    &&& forall|a: int, b: int|
        0 <= a < b < rows.len() ==> (#[trigger] rows[a]).updated_at < (#[trigger] rows[b]).updated_at || (
        rows[a].updated_at == rows[b].updated_at && rows[a].id < rows[b].id)
}

/// Some session was updated after `watermark`.
pub open spec fn changed_since(st: StoreView, watermark: int) -> bool {
    exists|i: int| 0 <= i < st.sessions.len() && (#[trigger] st.sessions[i]).updated_at > watermark
}

/// What an observer receives on one tick of the change feed.
pub enum FeedEvent {
    /// The full current rows of the sessions changed since the last tick.
    Updates(Vec<UploadData>),
    /// Nothing changed; the connection is alive.
    Heartbeat,
}

/// One observer's position in the change feed: the time of its previous
/// tick.
pub struct FeedCursor {
    pub watermark: i64,
}

impl FeedCursor {
    /// A cursor whose first tick reports what changes after `now`.
    pub fn new(now: i64) -> (r: FeedCursor)
        ensures
            r.watermark == now,
    {
        FeedCursor { watermark: now }
    }

    /// A cursor starting at the present moment; `None` when the clock cannot
    /// be read as a time after the Unix epoch.
    pub fn start() -> (r: Option<FeedCursor>) {
        match crate::utils::now() {
            Some(t) => Some(FeedCursor::new(t)),
            None => None,
        }
    }

    /// One tick at `now`: the sessions updated after the previous tick as one
    /// batch, or a heartbeat when there are none. The watermark moves to
    /// `now` either way, so a burst of writes is delivered once.
    pub fn tick(&mut self, store: &SessionStore, now: i64) -> (r: FeedEvent)
        requires
            store.wf(),
        ensures
            final(self).watermark == now,
            r is Heartbeat <==> !changed_since(store@, old(self).watermark as int),
            r matches FeedEvent::Updates(rows) ==> is_change_list(store@, old(self).watermark as int, rows@),
    {
        let since = self.watermark;
        self.watermark = now;
        let rows = store.changes_since(since);
        if rows.len() == 0 {
            proof {
                if changed_since(store@, since as int) {
                    let i = choose|i: int|
                        0 <= i < store@.sessions.len() && (#[trigger] store@.sessions[i]).updated_at > since;
                    assert(shown(rows@, store@.sessions[i]));
                }
            }
            FeedEvent::Heartbeat
        } else {
            proof {
                assert(shows_change(store@, since as int, rows@[0]));
            }
            FeedEvent::Updates(rows)
        }
    }
}

/// The page number a query asks for.
pub open spec fn page_number(q: ListQuery) -> int {
    match q.page {
        Some(p) => if p >= 1 {
            p as int
        } else {
            1
        },
        None => 1,
    }
}

/// The filename filter of a query; empty when absent.
pub open spec fn filter_text(q: ListQuery) -> Seq<char> {
    match q.q {
        Some(t) => t@,
        None => Seq::empty(),
    }
}

/// The sessions whose filename contains `text`, newest first.
pub open spec fn listing(sessions: Seq<SessionView>, text: Seq<char>) -> Seq<SessionView>
    decreases sessions.len(),
{
    if sessions.len() == 0 {
        Seq::empty()
    } else {
        let rest = listing(sessions.drop_first(), text);
        if is_infix(text, sessions[0].filename) {
            rest.push(sessions[0])
        } else {
            rest
        }
    }
}

/// First position of the requested page within the listing.
pub open spec fn page_start(q: ListQuery, total: int) -> int {
    let off = (page_number(q) - 1) * PAGE_SIZE;
    if off < total {
        off
    } else {
        total
    }
}

/// One past the last position of the requested page.
pub open spec fn page_end(q: ListQuery, total: int) -> int {
    let lo = page_start(q, total);
    if lo + PAGE_SIZE < total {
        lo + PAGE_SIZE
    } else {
        total
    }
}

/// The session a persisted row stands for, when its status reads back.
pub open spec fn session_of_row(row: UploadData, status: UploadStatus) -> SessionView {
    SessionView {
        id: row.id as int,
        filename: row.filename@,
        client: row.client_ip@,
        size: row.size as nat,
        status,
        started_at: row.started_at as int,
        updated_at: row.updated_at as int,
        completed_at: opt_time(row.completed_at),
        announced: false,
    }
}

/// A persisted row can follow the sessions of `st`: it has the next
/// identity, a known status, `completed_at` exactly when complete, and no
/// second open session for its key.
pub open spec fn row_fits(st: StoreView, row: UploadData, status: UploadStatus) -> bool {
    &&& row.id as int == st.sessions.len() + 1
    &&& status_name(status) == row.status@
    &&& (row.completed_at is Some <==> status == UploadStatus::Complete)
    &&& (status != UploadStatus::Complete ==> !st.has_open(row.filename@, row.client_ip@))
}

/// Some status reads back from `text`.
pub open spec fn names_status(text: Seq<char>) -> bool {
    exists|st: UploadStatus| status_name(st) == text
}

/// Some entry of `rows` is the client `c`.
pub open spec fn lists_client(rows: Seq<Client>, c: ClientView) -> bool {
    exists|k: int| 0 <= k < rows.len() && (#[trigger] rows[k])@ == c
}

impl SessionStore {
    /// One page of the admin listing: the sessions whose filename contains
    /// the query's text, newest first, `PAGE_SIZE` per page.
    pub fn list_page(&self, query: &ListQuery) -> (r: Vec<UploadData>)
        requires
            self.wf(),
        ensures
            ({
                let l = listing(self@.sessions, filter_text(*query));
                let lo = page_start(*query, l.len() as int);
                let hi = page_end(*query, l.len() as int);
                &&& r@.len() == hi - lo
                &&& forall|k: int| 0 <= k < r@.len() ==> (#[trigger] r@[k]).describes(l[lo + k])
            }),
    {
        let empty = String::new();
        let text: &str = match &query.q {
            Some(t) => t.as_str(),
            None => empty.as_str(),
        };
        assert(text@ == filter_text(*query));
        let n = self.sessions.len();
        let ghost s = self@.sessions;
        let mut acc: Vec<usize> = Vec::new();
        let mut i: usize = n;
        while i > 0
            invariant
                n == s.len(),
                s == self@.sessions,
                0 <= i <= n,
                acc@.len() == listing(s.subrange(i as int, n as int), text@).len(),
                forall|k: int|
                    0 <= k < acc@.len() ==> #[trigger] acc@[k] < n && s[acc@[k] as int] == listing(
                        s.subrange(i as int, n as int),
                        text@,
                    )[k],
            decreases i,
        {
            let j = i - 1;
            proof {
                assert(s.subrange(j as int, n as int).drop_first() =~= s.subrange(i as int, n as int));
                assert(s.subrange(j as int, n as int)[0] == s[j as int]);
                assert(s[j as int] == self.sessions@[j as int]@);
            }
            if text_contains(self.sessions[j].filename.as_str(), text) {
                acc.push(j);
            }
            i = j;
        }
        proof {
            assert(s.subrange(0, n as int) =~= s);
        }
        let total = acc.len();
        let page: usize = match query.page {
            Some(p) => if p >= 1 {
                p
            } else {
                1
            },
            None => 1,
        };
        let pm: u128 = page as u128 - 1;
        assert(pm * 100 <= 0x1_0000_0000_0000_0000 * 100) by (nonlinear_arith)
            requires
                pm <= 0x1_0000_0000_0000_0000,
        ;
        let off: u128 = pm * PAGE_SIZE as u128;
        let lo: usize = if off < total as u128 {
            off as usize
        } else {
            total
        };
        let hi: usize = if lo as u128 + (PAGE_SIZE as u128) < total as u128 {
            lo + PAGE_SIZE
        } else {
            total
        };
        let mut out: Vec<UploadData> = Vec::new();
        let mut k: usize = lo;
        while k < hi
            invariant
                lo <= k <= hi <= total,
                total == acc@.len(),
                n == s.len(),
                s == self@.sessions,
                forall|x: int|
                    0 <= x < acc@.len() ==> #[trigger] acc@[x] < n && s[acc@[x] as int] == listing(s, text@)[x],
                out@.len() == k - lo,
                forall|x: int| 0 <= x < out@.len() ==> (#[trigger] out@[x]).describes(listing(s, text@)[lo + x]),
            decreases hi - k,
        {
            let idx = acc[k];
            let row = UploadData::from_session(&self.sessions[idx]);
            proof {
                assert(s[idx as int] == self.sessions@[idx as int]@);
            }
            out.push(row);
            k = k + 1;
        }
        out
    }

    /// The connected clients, most recently seen first.
    pub fn connected_clients(&self) -> (r: Vec<Client>)
        requires
            self.wf(),
        ensures
            r@.len() == self@.clients.len(),
            forall|k: int| 0 <= k < r@.len() ==> #[trigger] self@.clients.contains((#[trigger] r@[k])@),
            forall|j: int| 0 <= j < self@.clients.len() ==> #[trigger] lists_client(r@, self@.clients[j]),
            forall|a: int, b: int| 0 <= a < b < r@.len() ==> (#[trigger] r@[a]).last_seen >= (#[trigger] r@[b]).last_seen,
    {
        let n = self.clients.len();
        let mut keys: Vec<i128> = Vec::new();
        let mut i: usize = 0;
        while i < n
            invariant
                n == self.clients@.len(),
                0 <= i <= n,
                keys@.len() == i,
                forall|k: int| 0 <= k < i ==> #[trigger] keys@[k] == -(self.clients@[k].last_seen as int),
            decreases n - i,
        {
            keys.push(-(self.clients[i].last_seen as i128));
            i = i + 1;
        }
        let ord = order_by_key(&keys);
        let mut out: Vec<Client> = Vec::new();
        let mut k: usize = 0;
        while k < n
            invariant
                n == self.clients@.len(),
                n == keys@.len(),
                is_key_order(keys@, ord@),
                forall|x: int| 0 <= x < n ==> #[trigger] keys@[x] == -(self.clients@[x].last_seen as int),
                0 <= k <= n,
                out@.len() == k,
                forall|a: int| 0 <= a < k ==> (#[trigger] out@[a])@ == self.clients@[ord@[a] as int]@,
            decreases n - k,
        {
            let c = self.clients[ord[k]].duplicate();
            out.push(c);
            k = k + 1;
        }
        proof {
            let cs = self@.clients;
            assert forall|a: int| 0 <= a < out@.len() implies #[trigger] cs.contains((#[trigger] out@[a])@) by {
                assert(cs[ord@[a] as int] == out@[a]@);
            }
            assert forall|j: int| 0 <= j < cs.len() implies #[trigger] lists_client(out@, cs[j]) by {
                assert(lists(ord@, j));
                let a = choose|a: int| 0 <= a < ord@.len() && ord@[a] == j;
                assert(out@[a]@ == cs[j]);
            }
            assert forall|a: int, b: int| 0 <= a < b < out@.len() implies (#[trigger] out@[a]).last_seen >= (
            #[trigger] out@[b]).last_seen by {
                assert(key_before(keys@, ord@[a] as int, ord@[b] as int));
            }
        }
        out
    }

    /// The row of session `id`, if there is one.
    pub fn session_row(&self, id: i64) -> (r: Option<UploadData>)
        requires
            self.wf(),
        ensures
            r matches Some(d) ==> 1 <= id <= self@.sessions.len() && d.describes(self@.sessions[id - 1]),
            r is None ==> !(1 <= id <= self@.sessions.len()),
    {
        if id < 1 || id as u64 > self.sessions.len() as u64 {
            return None;
        }
        let idx = (id - 1) as usize;
        assert(self@.sessions[idx as int] == self.sessions@[idx as int]@);
        Some(UploadData::from_session(&self.sessions[idx]))
    }

    /// Appends a session read back from storage, when it fits after those
    /// already restored (see `row_fits`). The store is unchanged otherwise.
    pub fn restore_session(&mut self, row: &UploadData) -> (r: bool)
        requires
            old(self).wf(),
        ensures
            final(self).wf(),
            r <==> names_status(row.status@) && (exists|st: UploadStatus| #[trigger] status_name(st) == row.status@ && row_fits(old(self)@, *row, st)),
            r ==> exists|st: UploadStatus|
                #[trigger] status_name(st) == row.status@ && final(self)@ == old(self)@.with_sessions(
                    old(self)@.sessions.push(session_of_row(*row, st)),
                ),
            !r ==> final(self)@ == old(self)@,
    {
        let status = match UploadStatus::parse(row.status.as_str()) {
            Some(st) => st,
            None => {
                return false;
            },
        };
        proof {
            assert forall|st: UploadStatus| #[trigger] status_name(st) == row.status@ implies st == status by {
                match st {
                    UploadStatus::Init => {},
                    UploadStatus::Uploading => {},
                    UploadStatus::Complete => {},
                    UploadStatus::Disconnected => {},
                }
                match status {
                    UploadStatus::Init => {},
                    UploadStatus::Uploading => {},
                    UploadStatus::Complete => {},
                    UploadStatus::Disconnected => {},
                }
            }
        }
        let n = self.sessions.len();
        if n as u64 >= i64::MAX as u64 || row.id != (n as u64 + 1) as i64 {
            return false;
        }
        let complete = status == UploadStatus::Complete;
        if row.completed_at.is_some() != complete {
            return false;
        }
        if !complete {
            if self.find_open(row.filename.as_str(), row.client_ip.as_str()).is_some() {
                return false;
            }
        }
        let s = UploadSession {
            id: row.id,
            filename: row.filename.clone(),
            client_ip: row.client_ip.clone(),
            size: row.size,
            status,
            started_at: row.started_at,
            updated_at: row.updated_at,
            completed_at: row.completed_at,
            announced: false,
        };
        let ghost v0 = self@;
        self.sessions.push(s);
        proof {
            let sv = session_of_row(*row, status);
            assert(self@.sessions =~= v0.sessions.push(sv));
            assert(self@.clients == v0.clients);
            assert forall|i: int, j: int|
                0 <= i < self@.sessions.len() && 0 <= j < self@.sessions.len() && i != j
                    && (#[trigger] self@.sessions[i]).is_open() && (#[trigger] self@.sessions[j]).is_open()
                    implies !(self@.sessions[i].filename == self@.sessions[j].filename
                    && self@.sessions[i].client == self@.sessions[j].client) by {
                if i == v0.sessions.len() {
                    if v0.sessions[j].filename == sv.filename && v0.sessions[j].client == sv.client {
                        assert(v0.sessions[j].is_open_for(sv.filename, sv.client));
                    }
                } else if j == v0.sessions.len() {
                    if v0.sessions[i].filename == sv.filename && v0.sessions[i].client == sv.client {
                        assert(v0.sessions[i].is_open_for(sv.filename, sv.client));
                    }
                } else {
                    assert(v0.sessions[i] == self@.sessions[i] && v0.sessions[j] == self@.sessions[j]);
                }
            }
        }
        true
    }

    /// Adds a client read back from storage, unless its identity is there
    /// already.
    pub fn restore_client(&mut self, client: Client) -> (r: bool)
        requires
            old(self).wf(),
        ensures
            final(self).wf(),
            r <==> !old(self)@.has_client(client@.identity),
            r ==> final(self)@ == (StoreView { clients: old(self)@.clients.push(client@), ..old(self)@ }),
            !r ==> final(self)@ == old(self)@,
    {
        let n = self.clients.len();
        let mut j: usize = 0;
        while j < n
            invariant
                n == self.clients@.len(),
                0 <= j <= n,
                self.wf(),
                forall|k: int| 0 <= k < j ==> (#[trigger] self@.clients[k]).identity != client@.identity,
            decreases n - j,
        {
            assert(self@.clients[j as int] == self.clients@[j as int]@);
            if crate::session::text_eq(self.clients[j].client_ip.as_str(), client.client_ip.as_str()) {
                return false;
            }
            j = j + 1;
        }
        let ghost v0 = self@;
        let ghost cv = client@;
        self.clients.push(client);
        proof {
            assert(self@.clients =~= v0.clients.push(cv));
            assert forall|a: int, b: int|
                0 <= a < self@.clients.len() && 0 <= b < self@.clients.len() && a != b
                    implies (#[trigger] self@.clients[a]).identity != (#[trigger] self@.clients[b]).identity by {
                if a == v0.clients.len() {
                    assert(v0.clients[b].identity != cv.identity);
                } else if b == v0.clients.len() {
                    assert(v0.clients[a].identity != cv.identity);
                } else {
                    assert(v0.clients[a].identity != v0.clients[b].identity);
                }
            }
        }
        true
    }

    /// The sessions updated strictly after `watermark`, ordered by
    /// `updated_at` ascending and then by identity.
    pub fn changes_since(&self, watermark: i64) -> (r: Vec<UploadData>)
        requires
            self.wf(),
        ensures
            is_change_list(self@, watermark as int, r@),
    {
        let n = self.sessions.len();
        let mut sel: Vec<usize> = Vec::new();
        let mut keys: Vec<i128> = Vec::new();
        let mut i: usize = 0;
        while i < n
            invariant
                n == self.sessions@.len(),
                0 <= i <= n,
                sel@.len() == keys@.len(),
                forall|k: int|
                    0 <= k < sel@.len() ==> #[trigger] sel@[k] < i && keys@[k] == self@.sessions[sel@[k] as int].updated_at
                        && self@.sessions[sel@[k] as int].updated_at > watermark,
                forall|a: int, b: int| 0 <= a < b < sel@.len() ==> #[trigger] sel@[a] < #[trigger] sel@[b],
                forall|j: int| 0 <= j < i && self@.sessions[j].updated_at > watermark ==> #[trigger] lists(sel@, j),
            decreases n - i,
        {
            assert(self@.sessions[i as int] == self.sessions@[i as int]@);
            if self.sessions[i].updated_at > watermark {
                let ghost old_sel = sel@;
                sel.push(i);
                keys.push(self.sessions[i].updated_at as i128);
                proof {
                    assert(sel@[sel@.len() - 1] == i);
                    assert forall|j: int| 0 <= j < i + 1 && self@.sessions[j].updated_at > watermark implies #[trigger] lists(sel@, j) by {
                        if j < i {
                            assert(lists(old_sel, j));
                            let k = choose|k: int| 0 <= k < old_sel.len() && old_sel[k] == j;
                            assert(sel@[k] == j);
                        }
                    }
                }
            }
            i = i + 1;
        }
        let ord = order_by_key(&keys);
        let m = ord.len();
        let mut out: Vec<UploadData> = Vec::new();
        let mut k: usize = 0;
        while k < m
            invariant
                m == ord@.len(),
                n == self.sessions@.len(),
                is_key_order(keys@, ord@),
                sel@.len() == keys@.len(),
                forall|x: int| 0 <= x < sel@.len() ==> #[trigger] sel@[x] < n,
                0 <= k <= m,
                out@.len() == k,
                forall|a: int| 0 <= a < k ==> (#[trigger] out@[a]).describes(self@.sessions[sel@[ord@[a] as int] as int]),
            decreases m - k,
        {
            let x = ord[k];
            let idx = sel[x];
            let row = UploadData::from_session(&self.sessions[idx]);
            proof {
                assert(self@.sessions[idx as int] == self.sessions@[idx as int]@);
            }
            out.push(row);
            k = k + 1;
        }
        proof {
            let st = self@;
            let w = watermark as int;
            assert forall|a: int| 0 <= a < out@.len() implies shows_change(st, w, #[trigger] out@[a]) by {
                let idx = sel@[ord@[a] as int] as int;
                assert(st.sessions[idx].updated_at > w);
                assert(out@[a].describes(st.sessions[idx]));
            }
            assert forall|j: int| 0 <= j < st.sessions.len() && st.sessions[j].updated_at > w implies shown(
                out@,
                #[trigger] st.sessions[j],
            ) by {
                assert(lists(sel@, j));
                let x = choose|x: int| 0 <= x < sel@.len() && sel@[x] == j;
                assert(lists(ord@, x));
                let a = choose|a: int| 0 <= a < ord@.len() && ord@[a] == x;
                assert(out@[a].describes(st.sessions[j]));
            }
            assert forall|a: int, b: int| 0 <= a < b < out@.len() implies (#[trigger] out@[a]).updated_at < (
            #[trigger] out@[b]).updated_at || (out@[a].updated_at == out@[b].updated_at && out@[a].id < out@[b].id) by {
                let xa = ord@[a] as int;
                let xb = ord@[b] as int;
                assert(key_before(keys@, xa, xb));
                let ia = sel@[xa] as int;
                let ib = sel@[xb] as int;
                assert(st.sessions[ia].id == ia + 1);
                assert(st.sessions[ib].id == ib + 1);
                if keys@[xa] == keys@[xb] {
                    assert(sel@[xa] < sel@[xb]);
                }
            }
        }
        out
    }
}

} // verus!
