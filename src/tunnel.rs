//! The boundary of the tunnel-exposure subsystem: its configuration and
//! error types, and the decisions it takes on what `cloudflared` reports.

use vstd::prelude::*;

use crate::text::{has_prefix, is_infix, replace_all, replace_text, text_contains, text_starts_with};

verus! {

/// Why a tunnel could not be set up or run.
pub enum TunnelError {
    NotInstalled(String),
    ConfigError(String),
    NetworkError(String),
    AuthError(String),
}

/// The message shown for a tunnel error.
pub open spec fn tunnel_error_text(e: TunnelError) -> Seq<char> {
    match e {
        TunnelError::NotInstalled(m) => "Tunnel not installed: "@ + m@,
        TunnelError::ConfigError(m) => "Configuration error: "@ + m@,
        TunnelError::NetworkError(m) => "Network error: "@ + m@,
        TunnelError::AuthError(m) => "Authentication error: "@ + m@,
    }
}

impl TunnelError {
    /// The message shown for this error.
    pub fn message(&self) -> (r: String)
        ensures
            r@ == tunnel_error_text(*self),
    {
        match self {
            TunnelError::NotInstalled(m) => "Tunnel not installed: ".to_string().concat(m.as_str()),
            TunnelError::ConfigError(m) => "Configuration error: ".to_string().concat(m.as_str()),
            TunnelError::NetworkError(m) => "Network error: ".to_string().concat(m.as_str()),
            TunnelError::AuthError(m) => "Authentication error: ".to_string().concat(m.as_str()),
        }
    }
}

/// Where a tunnel should point: the domain under which a hostname is made,
/// and the local port it forwards to.
pub struct TunnelConfig {
    pub hostname_root: String,
    pub local_port: u16,
}

/// The same, for the direct Cloudflare manager.
pub struct CfTunnelConfig {
    pub hostname_root: String,
    pub local_port: u16,
}

/// The public hostname once a tunnel is up.
pub struct TunnelInfo {
    pub hostname: Option<String>,
}

/// The Cloudflare tunnel provider.
pub struct CloudflareTunnelProvider;

/// A prepared Cloudflare tunnel: its public hostname and the path of the
/// ingress configuration written for it.
pub struct CfTunnelManager {
    pub hostname: String,
    pub config_path: String,
}

/// The request that registers a port with a tunnel server.
pub struct RegisterRequest {
    pub port: u16,
}

/// A tunnel server's answer to a registration.
pub struct RegisterResponse {
    pub success: bool,
    pub subdomain: Option<String>,
    pub external_ip: Option<String>,
    pub message: Option<String>,
    pub expires_in: Option<u64>,
}

/// A client of a tunnel server. `expires_at` is in seconds since the Unix
/// epoch.
pub struct TunnelClient {
    pub tunnel_server: String,
    pub local_port: u16,
    pub subdomain: Option<String>,
    pub external_ip: Option<String>,
    pub expires_at: Option<u64>,
}

/// The HTTP address of a tunnel server given by its WebSocket address.
pub open spec fn api_address(server: Seq<char>) -> Seq<char> {
    replace_all(replace_all(server, "wss://"@, "https://"@), "ws://"@, "http://"@)
}

/// An address outside the loopback and private ranges this client knows.
pub open spec fn likely_public(ip: Seq<char>) -> bool {
    !has_prefix(ip, "127."@) && !has_prefix(ip, "192.168."@) && !has_prefix(ip, "10."@) && !has_prefix(
        ip,
        "172."@,
    )
}

impl TunnelClient {
    /// A client for `tunnel_server`, its WebSocket scheme turned into the
    /// HTTP one, with nothing registered yet.
    pub fn new(local_port: u16, tunnel_server: String) -> (r: TunnelClient)
        ensures
            r.tunnel_server@ == api_address(tunnel_server@),
            r.local_port == local_port,
            r.subdomain is None,
            r.external_ip is None,
            r.expires_at is None,
    {
        proof {
            reveal_strlit("wss://");
            reveal_strlit("ws://");
        }
        let secure = replace_text(tunnel_server.as_str(), "wss://", "https://");
        let api_server = replace_text(secure.as_str(), "ws://", "http://");
        TunnelClient { tunnel_server: api_server, local_port, subdomain: None, external_ip: None, expires_at: None }
    }

    /// The external address the tunnel server saw, once registered.
    pub fn get_external_ip(&self) -> (r: Option<String>)
        ensures
            match r {
                Some(ip) => self.external_ip matches Some(e) && ip@ == e@,
                None => self.external_ip is None,
            },
    {
        match &self.external_ip {
            Some(ip) => Some(ip.clone()),
            None => None,
        }
    }

    /// A rough guess that this host sits behind a NAT: the address the server
    /// saw is not in a loopback or private range.
    pub fn is_likely_behind_nat(&self, external_ip: &str) -> (r: bool)
        ensures
            r == likely_public(external_ip@),
    {
        !text_starts_with(external_ip, "127.") && !text_starts_with(external_ip, "192.168.")
            && !text_starts_with(external_ip, "10.") && !text_starts_with(external_ip, "172.")
    }
}

/// The leftmost-first match of a regular expression in a text, if any; none
/// also when the pattern does not compile.
pub uninterp spec fn regex_first_match(pattern: Seq<char>, text: Seq<char>) -> Option<Seq<char>>;

/// Relies on `regex::Regex::new` and `Regex::find`: the leftmost-first match
/// of `pattern` in `text`, which depends on the two alone; a match is a
/// piece of the text.
#[verifier::external_body]
fn find_match(pattern: &str, text: &str) -> (r: Option<String>)
    ensures
        match r {
            Some(m) => regex_first_match(pattern@, text@) == Some(m@) && is_infix(m@, text@),
            None => regex_first_match(pattern@, text@) is None,
        },
{
    regex::Regex::new(pattern).ok().and_then(|re| re.find(text)).map(|m| m.as_str().to_string())
}

/// A UUID written in hexadecimal groups of 8-4-4-4-12 digits.
pub const UUID_PATTERN: &'static str = "[0-9a-fA-F]{8}-[0-9a-fA-F]{4}-[0-9a-fA-F]{4}-[0-9a-fA-F]{4}-[0-9a-fA-F]{12}";

/// The first UUID in a line of `cloudflared tunnel list`.
pub fn extract_uuid(s: &str) -> (r: Option<String>)
    ensures
        match r {
            Some(m) => regex_first_match(UUID_PATTERN@, s@) == Some(m@) && is_infix(m@, s@),
            None => regex_first_match(UUID_PATTERN@, s@) is None,
        },
{
    find_match(UUID_PATTERN, s)
}

/// A line without the carriage return that ended it before its line feed.
pub open spec fn strip_cr(line: Seq<char>) -> Seq<char> {
    if line.len() > 0 && line.last() == '\r' {
        line.drop_last()
    } else {
        line
    }
}

/// The lines of `s`, the current one begun as `cur`: split at line feeds, a
/// carriage return just before a line feed dropped, and no empty line after
/// a final line feed.
pub open spec fn lines_after(cur: Seq<char>, s: Seq<char>) -> Seq<Seq<char>>
    decreases s.len(),
{
    if s.len() == 0 {
        if cur.len() == 0 {
            Seq::empty()
        } else {
            seq![cur]
        }
    } else if s[0] == '\n' {
        seq![strip_cr(cur)] + lines_after(Seq::empty(), s.drop_first())
    } else {
        lines_after(cur.push(s[0]), s.drop_first())
    }
}

/// The lines of a text.
pub open spec fn lines_of(s: Seq<char>) -> Seq<Seq<char>> {
    lines_after(Seq::empty(), s)
}

/// Splits a text into its lines (see `lines_of`).
pub fn split_lines(s: &str) -> (r: Vec<String>)
    ensures
        r@.map_values(|l: String| l@) == lines_of(s@),
{
    let n = s.unicode_len();
    let mut out: Vec<String> = Vec::new();
    let mut cur = String::new();
    let mut i: usize = 0;
    assert(s@.skip(0) =~= s@);
    assert(out@.map_values(|l: String| l@) + lines_after(cur@, s@.skip(0)) =~= lines_of(s@));
    while i < n
        invariant
            n == s@.len(),
            0 <= i <= n,
            lines_of(s@) == out@.map_values(|l: String| l@) + lines_after(cur@, s@.skip(i as int)),
        decreases n - i,
    {
        let ghost rest = s@.skip(i as int);
        let ghost before = out@.map_values(|l: String| l@);
        let ghost old_cur = cur@;
        proof {
            assert(rest[0] == s@[i as int]);
            assert(rest.drop_first() =~= s@.skip(i + 1));
        }
        let c = s.get_char(i);
        if c == '\n' {
            let k = cur.as_str().unicode_len();
            let line = if k > 0 && cur.as_str().get_char(k - 1) == '\r' {
                let t = cur.as_str().substring_char(0, k - 1).to_string();
                assert(t@ =~= strip_cr(old_cur));
                t
            } else {
                cur
            };
            assert(line@ == strip_cr(old_cur));
            out.push(line);
            cur = String::new();
            proof {
                assert(out@.map_values(|l: String| l@) =~= before.push(strip_cr(old_cur)));
                assert(before + (seq![strip_cr(old_cur)] + lines_after(Seq::empty(), s@.skip(i + 1))) =~= before.push(
                    strip_cr(old_cur),
                ) + lines_after(cur@, s@.skip(i + 1)));
            }
        } else {
            let piece = s.substring_char(i, i + 1);
            assert(piece@ =~= seq![c]);
            cur.append(piece);
            assert(cur@ =~= old_cur.push(c));
        }
        i = i + 1;
    }
    proof {
        assert(s@.skip(n as int).len() == 0);
        assert(out@.map_values(|l: String| l@) + lines_after(cur@, s@.skip(n as int)) =~= out@.map_values(
            |l: String| l@,
        ) + if cur@.len() == 0 {
            Seq::<Seq<char>>::empty()
        } else {
            seq![cur@]
        });
    }
    if cur.as_str().unicode_len() > 0 {
        let ghost before = out@.map_values(|l: String| l@);
        let ghost last = cur@;
        out.push(cur);
        assert(out@.map_values(|l: String| l@) =~= before + seq![last]);
    } else {
        assert(out@.map_values(|l: String| l@) + Seq::<Seq<char>>::empty() =~= out@.map_values(|l: String| l@));
    }
    out
}

/// The UUID on the first line that names `name` and holds one.
pub open spec fn uuid_in_lines(lines: Seq<Seq<char>>, name: Seq<char>) -> Option<Seq<char>>
    decreases lines.len(),
{
    if lines.len() == 0 {
        None
    } else if is_infix(name, lines[0]) && regex_first_match(UUID_PATTERN@, lines[0]) is Some {
        regex_first_match(UUID_PATTERN@, lines[0])
    } else {
        uuid_in_lines(lines.drop_first(), name)
    }
}

/// The UUID of tunnel `name` among the lines of `cloudflared tunnel list`.
pub fn find_tunnel_uuid(lines: &Vec<String>, name: &str) -> (r: Option<String>)
    ensures
        match r {
            Some(u) => uuid_in_lines(lines@.map_values(|l: String| l@), name@) == Some(u@),
            None => uuid_in_lines(lines@.map_values(|l: String| l@), name@) is None,
        },
{
    let ghost ls = lines@.map_values(|l: String| l@);
    let n = lines.len();
    let mut i: usize = 0;
    assert(ls.skip(0) =~= ls);
    while i < n
        invariant
            n == lines@.len(),
            ls == lines@.map_values(|l: String| l@),
            0 <= i <= n,
            uuid_in_lines(ls, name@) == uuid_in_lines(ls.skip(i as int), name@),
        decreases n - i,
    {
        proof {
            assert(ls.skip(i as int)[0] == lines@[i as int]@);
            assert(ls.skip(i as int).drop_first() =~= ls.skip(i + 1));
        }
        let line = lines[i].as_str();
        if text_contains(line, name) {
            if let Some(id) = extract_uuid(line) {
                return Some(id);
            }
        }
        i = i + 1;
    }
    proof {
        assert(ls.skip(i as int).len() == 0);
    }
    None
}

/// The UUID of tunnel `name` in the output of `cloudflared tunnel list`.
pub fn tunnel_uuid_in_listing(listing: &str, name: &str) -> (r: Option<String>)
    ensures
        match r {
            Some(u) => uuid_in_lines(lines_of(listing@), name@) == Some(u@),
            None => uuid_in_lines(lines_of(listing@), name@) is None,
        },
{
    let lines = split_lines(listing);
    find_tunnel_uuid(&lines, name)
}

/// The lowercase mapping `str::to_lowercase` gives.
pub uninterp spec fn lower_of(s: Seq<char>) -> Seq<char>;

/// Relies on `str::to_lowercase`: the lowercase mapping of the text, which
/// depends on the text alone.
#[verifier::external_body]
fn lowercase(s: &str) -> (r: String)
    ensures
        r@ == lower_of(s@),
{
    s.to_lowercase()
}

/// Lowercased `cloudflared` output that says the user is not logged in.
pub open spec fn says_unauthenticated(lowered: Seq<char>) -> bool {
    is_infix("not authenticated"@, lowered) || is_infix("login"@, lowered)
}

/// Whether lowercased `cloudflared` output says the user is not logged in.
pub fn mentions_login(lowered: &str) -> (r: bool)
    ensures
        r == says_unauthenticated(lowered@),
{
    text_contains(lowered, "not authenticated") || text_contains(lowered, "login")
}

/// Whether lowercased `cloudflared` output says the DNS route exists already.
pub fn mentions_existing(lowered: &str) -> (r: bool)
    ensures
        r == is_infix("already exists"@, lowered@),
{
    text_contains(lowered, "already exists")
}

/// How a failed `cloudflared` command ends the setup.
pub enum CommandFailure {
    /// The user must log in first.
    Unauthenticated,
    /// The DNS route is there already; setup goes on.
    AlreadyRouted,
    /// Any other failure, with its output.
    Failed,
}

/// Classifies the error output of a failed `cloudflared` command;
/// `route` is set for `tunnel route dns`, where an existing route is fine.
pub fn classify_failure(stderr: &str, route: bool) -> (r: CommandFailure)
    ensures
        says_unauthenticated(lower_of(stderr@)) ==> r is Unauthenticated,
        !says_unauthenticated(lower_of(stderr@)) && route && is_infix("already exists"@, lower_of(stderr@))
            ==> r is AlreadyRouted,
        !says_unauthenticated(lower_of(stderr@)) && !(route && is_infix("already exists"@, lower_of(stderr@)))
            ==> r is Failed,
{
    let lowered = lowercase(stderr);
    if mentions_login(lowered.as_str()) {
        CommandFailure::Unauthenticated
    } else if route && mentions_existing(lowered.as_str()) {
        CommandFailure::AlreadyRouted
    } else {
        CommandFailure::Failed
    }
}

/// The provider a lowercased name selects.
pub fn provider_for(lowered: &str, name: &str) -> (r: Result<CloudflareTunnelProvider, TunnelError>)
    ensures
        r is Ok <==> lowered@ == "cloudflare"@,
        r matches Err(TunnelError::ConfigError(m)) ==> m@ == "Unknown tunnel provider: "@ + name@,
        r is Err ==> r matches Err(TunnelError::ConfigError(_)),
{
    proof {
        reveal_strlit("cloudflare");
    }
    if crate::session::text_eq(lowered, "cloudflare") {
        Ok(CloudflareTunnelProvider)
    } else {
        Err(TunnelError::ConfigError("Unknown tunnel provider: ".to_string().concat(name)))
    }
}

/// The tunnel provider named `provider_name`, matched without regard to case.
pub fn create_tunnel_provider(provider_name: &str) -> (r: Result<CloudflareTunnelProvider, TunnelError>)
    ensures
        r is Ok <==> lower_of(provider_name@) == "cloudflare"@,
        r matches Err(TunnelError::ConfigError(m)) ==> m@ == "Unknown tunnel provider: "@ + provider_name@,
        r is Err ==> r matches Err(TunnelError::ConfigError(_)),
{
    let lowered = lowercase(provider_name);
    provider_for(lowered.as_str(), provider_name)
}

/// The public hostname and the tunnel name made from a random hash:
/// `<hash>.<root>` and `drcv-<hash>`.
pub fn tunnel_names(hash: &str, hostname_root: &str) -> (r: (String, String))
    ensures
        r.0@ == hash@ + "."@ + hostname_root@,
        r.1@ == "drcv-"@ + hash@,
{
    let hostname = hash.to_string().concat(".").concat(hostname_root);
    let name = "drcv-".to_string().concat(hash);
    (hostname, name)
}

/// A drawn alphanumeric sample as a character of a tunnel hash: lowercase
/// letters (`a` = 97 to `z` = 122) and digits (`0` = 48 to `9` = 57) are
/// kept, anything else is skipped.
pub fn hash_char(sample: u8) -> (r: Option<char>)
    ensures
        r matches Some(c) ==> c == sample as char,
        r is Some <==> ((97 <= sample <= 122) || (48 <= sample <= 57)),
{
    if (97 <= sample && sample <= 122) || (48 <= sample && sample <= 57) {
        Some(sample as char)
    } else {
        None
    }
}

} // verus!
