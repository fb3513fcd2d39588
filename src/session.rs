use vstd::prelude::*;

verus! {

/// Where an upload session stands in its life cycle.
///
/// `Init -> Uploading -> Complete`, with `Uploading <-> Disconnected` as a
/// side loop; `Complete` is terminal.
#[derive(Clone, Copy, Debug, PartialEq, Eq, Structural)]
pub enum UploadStatus {
    Init,
    Uploading,
    Complete,
    Disconnected,
}

/// The name under which a status is stored and shown.
pub open spec fn status_name(s: UploadStatus) -> Seq<char> {
    match s {
        UploadStatus::Init => seq!['i', 'n', 'i', 't'],
        UploadStatus::Uploading => seq!['u', 'p', 'l', 'o', 'a', 'd', 'i', 'n', 'g'],
        UploadStatus::Complete => seq!['c', 'o', 'm', 'p', 'l', 'e', 't', 'e'],
        UploadStatus::Disconnected => seq![
            'd', 'i', 's', 'c', 'o', 'n', 'n', 'e', 'c', 't', 'e', 'd',
        ],
    }
}

impl UploadStatus {
    /// The stored name of this status.
    pub fn as_str(&self) -> (r: &'static str)
        ensures
            r@ == status_name(*self),
    {
        match self {
            UploadStatus::Init => {
                proof {
                    reveal_strlit("init");
                }
                "init"
            },
            UploadStatus::Uploading => {
                proof {
                    reveal_strlit("uploading");
                }
                "uploading"
            },
            UploadStatus::Complete => {
                proof {
                    reveal_strlit("complete");
                }
                "complete"
            },
            UploadStatus::Disconnected => {
                proof {
                    reveal_strlit("disconnected");
                }
                "disconnected"
            },
        }
    }

    /// Reads a stored status name back.
    pub fn parse(s: &str) -> (r: Option<UploadStatus>)
        ensures
            r matches Some(st) ==> status_name(st) == s@,
            r is None ==> forall|st: UploadStatus| status_name(st) != s@,
    {
        let all = [
            UploadStatus::Init,
            UploadStatus::Uploading,
            UploadStatus::Complete,
            UploadStatus::Disconnected,
        ];
        let mut i: usize = 0;
        while i < 4
            invariant
                0 <= i <= 4,
                all@ == seq![
                    UploadStatus::Init,
                    UploadStatus::Uploading,
                    UploadStatus::Complete,
                    UploadStatus::Disconnected,
                ],
                forall|k: int| 0 <= k < i ==> status_name(#[trigger] all@[k]) != s@,
            decreases 4 - i,
        {
            let st = all[i];
            if text_eq(st.as_str(), s) {
                return Some(st);
            }
            i = i + 1;
        }
        assert forall|st: UploadStatus| status_name(st) != s@ by {
            match st {
                UploadStatus::Init => assert(all@[0] == st),
                UploadStatus::Uploading => assert(all@[1] == st),
                UploadStatus::Complete => assert(all@[2] == st),
                UploadStatus::Disconnected => assert(all@[3] == st),
            }
        }
        None
    }
}

/// Character-wise equality of two texts.
pub fn text_eq(a: &str, b: &str) -> (r: bool)
    ensures
        r == (a@ == b@),
{
    let n = a.unicode_len();
    if n != b.unicode_len() {
        return false;
    }
    let mut i: usize = 0;
    while i < n
        invariant
            n == a@.len() == b@.len(),
            0 <= i <= n,
            forall|k: int| 0 <= k < i ==> a@[k] == b@[k],
        decreases n - i,
    {
        if a.get_char(i) != b.get_char(i) {
            return false;
        }
        i = i + 1;
    }
    assert(a@ =~= b@);
    true
}

/// The mathematical content of one upload session.
pub struct SessionView {
    pub id: int,
    pub filename: Seq<char>,
    pub client: Seq<char>,
    pub size: nat,
    pub status: UploadStatus,
    pub started_at: int,
    pub updated_at: int,
    pub completed_at: Option<int>,
    pub announced: bool,
}

/// One tracked attempt to transfer one file from one client identity.
///
/// Timestamps are milliseconds since the Unix epoch.
pub struct UploadSession {
    pub id: i64,
    pub filename: String,
    pub client_ip: String,
    pub size: u64,
    pub status: UploadStatus,
    pub started_at: i64,
    pub updated_at: i64,
    pub completed_at: Option<i64>,
    /// Whether the start (or resumption) of this session was already reported
    /// by this process.
    pub announced: bool,
}

/// An optional timestamp as an integer.
pub open spec fn opt_time(t: Option<i64>) -> Option<int> {
    match t {
        Some(v) => Some(v as int),
        None => None,
    }
}

impl View for UploadSession {
    type V = SessionView;

    open spec fn view(&self) -> SessionView {
        SessionView {
            id: self.id as int,
            filename: self.filename@,
            client: self.client_ip@,
            size: self.size as nat,
            status: self.status,
            started_at: self.started_at as int,
            updated_at: self.updated_at as int,
            completed_at: opt_time(self.completed_at),
            announced: self.announced,
        }
    }
}

impl SessionView {
    /// Open sessions are those that a new chunk may still continue.
    pub open spec fn is_open(self) -> bool {
        self.status != UploadStatus::Complete
    }

    /// This session is the open one for `(filename, client)`.
    pub open spec fn is_open_for(self, filename: Seq<char>, client: Seq<char>) -> bool {
        &&& self.filename == filename
        &&& self.client == client
        &&& self.is_open()
    }

    /// `completed_at` is present exactly on complete sessions.
    pub open spec fn wf(self) -> bool {
        self.completed_at is Some <==> self.status == UploadStatus::Complete
    }
}

/// The mathematical content of a connected client.
pub struct ClientView {
    pub identity: Seq<char>,
    pub user_agent: Option<Seq<char>>,
    pub first_seen: int,
    pub last_seen: int,
}

/// A client that has been seen recently enough to count as connected.
pub struct Client {
    pub client_ip: String,
    pub user_agent: Option<String>,
    pub first_seen: i64,
    pub last_seen: i64,
}

/// An optional text as its characters.
pub open spec fn opt_text(t: Option<String>) -> Option<Seq<char>> {
    match t {
        Some(s) => Some(s@),
        None => None,
    }
}

impl View for Client {
    type V = ClientView;

    open spec fn view(&self) -> ClientView {
        ClientView {
            identity: self.client_ip@,
            user_agent: opt_text(self.user_agent),
            first_seen: self.first_seen as int,
            last_seen: self.last_seen as int,
        }
    }
}

/// A copy of an optional text.
pub fn clone_opt_text(t: &Option<String>) -> (r: Option<String>)
    ensures
        opt_text(r) == opt_text(*t),
{
    match t {
        Some(s) => Some(s.clone()),
        None => None,
    }
}

impl Client {
    /// A field-by-field copy.
    pub fn duplicate(&self) -> (r: Client)
        ensures
            r@ == self@,
    {
        Client {
            client_ip: self.client_ip.clone(),
            user_agent: clone_opt_text(&self.user_agent),
            first_seen: self.first_seen,
            last_seen: self.last_seen,
        }
    }
}

} // verus!
