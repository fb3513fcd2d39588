use vstd::prelude::*;

verus! {

/// What `str::trim` leaves of a text.
pub uninterp spec fn trimmed(s: Seq<char>) -> Seq<char>;

/// Relies on `str::trim`: the text without leading and trailing white space,
/// which depends on the text alone.
#[verifier::external_body]
fn trim_text(s: &str) -> (r: &str)
    ensures
        r@ == trimmed(s@),
{
    s.trim()
}

/// The text before the first comma (all of it when there is none): the first
/// entry of a forwarded-for list.
pub open spec fn first_field(s: Seq<char>) -> Seq<char>
    decreases s.len(),
{
    if s.len() == 0 {
        s
    } else if s[0] == ',' {
        Seq::empty()
    } else {
        seq![s[0]] + first_field(s.drop_first())
    }
}

/// The first entry of a comma-separated list.
pub fn first_entry(s: &str) -> (r: &str)
    ensures
        r@ == first_field(s@),
{
    let n = s.unicode_len();
    let mut i: usize = 0;
    assert(s@.take(0) + first_field(s@.skip(0)) =~= first_field(s@)) by {
        assert(s@.skip(0) =~= s@);
    }
    while i < n && s.get_char(i) != ','
        invariant
            n == s@.len(),
            0 <= i <= n,
            first_field(s@) == s@.take(i as int) + first_field(s@.skip(i as int)),
        decreases n - i,
    {
        proof {
            let t = s@.skip(i as int);
            assert(t[0] == s@[i as int]);
            assert(t.drop_first() =~= s@.skip(i + 1));
            assert(s@.take(i + 1) =~= s@.take(i as int).push(s@[i as int]));
            assert(s@.take(i as int) + first_field(t) =~= s@.take(i + 1) + first_field(s@.skip(i + 1)));
        }
        i = i + 1;
    }
    proof {
        if i == n {
            assert(s@.skip(i as int).len() == 0);
            assert(s@.take(i as int) =~= s@);
        } else {
            assert(s@.skip(i as int)[0] == ',');
        }
        assert(s@.take(i as int) + first_field(s@.skip(i as int)) =~= s@.subrange(0, i as int));
    }
    s.substring_char(0, i)
}

/// The headers a trusted local relay may set to name the client behind it.
pub struct ProxyHeaders {
    pub cf_connecting_ip: Option<String>,
    pub true_client_ip: Option<String>,
    pub forwarded_for: Option<String>,
    pub real_ip: Option<String>,
}

/// The candidate a single-value header offers: its trimmed value, empty when
/// absent.
pub open spec fn candidate(h: Option<String>) -> Seq<char> {
    match h {
        Some(v) => trimmed(v@),
        None => Seq::empty(),
    }
}

/// The candidate a forwarded-for header offers: its first entry, trimmed.
pub open spec fn list_candidate(h: Option<String>) -> Seq<char> {
    match h {
        Some(v) => trimmed(first_field(v@)),
        None => Seq::empty(),
    }
}

/// The candidates in order of precedence: connecting-ip, true-client-ip,
/// forwarded-for, real-ip.
pub open spec fn candidates(h: ProxyHeaders) -> Seq<Seq<char>> {
    seq![
        candidate(h.cf_connecting_ip),
        candidate(h.true_client_ip),
        list_candidate(h.forwarded_for),
        candidate(h.real_ip),
    ]
}

/// The first non-empty candidate when the peer is trusted; otherwise, or when
/// there is none, the peer address.
pub open spec fn pick(peer: Seq<char>, trusted: bool, cands: Seq<Seq<char>>) -> Seq<char>
    decreases cands.len(),
{
    if !trusted || cands.len() == 0 {
        peer
    } else if cands[0].len() > 0 {
        cands[0]
    } else {
        pick(peer, trusted, cands.drop_first())
    }
}

/// Picks a client identity from candidates already trimmed, in order of
/// precedence.
pub fn choose_identity(peer_ip: &str, trusted: bool, cands: &Vec<String>) -> (r: String)
    ensures
        r@ == pick(peer_ip@, trusted, cands@.map_values(|c: String| c@)),
{
    let ghost cs = cands@.map_values(|c: String| c@);
    if trusted {
        let n = cands.len();
        let mut i: usize = 0;
        assert(cs.skip(0) =~= cs);
        while i < n
            invariant
                n == cands@.len(),
                cs == cands@.map_values(|c: String| c@),
                trusted,
                0 <= i <= n,
                pick(peer_ip@, trusted, cs) == pick(peer_ip@, trusted, cs.skip(i as int)),
            decreases n - i,
        {
            proof {
                assert(cs.skip(i as int)[0] == cands@[i as int]@);
                assert(cs.skip(i as int).drop_first() =~= cs.skip(i + 1));
            }
            if cands[i].as_str().unicode_len() > 0 {
                return cands[i].clone();
            }
            i = i + 1;
        }
        proof {
            assert(cs.skip(i as int).len() == 0);
        }
    }
    peer_ip.to_string()
}

/// The candidate a single-value header offers.
fn candidate_of(h: &Option<String>) -> (r: String)
    ensures
        r@ == candidate(*h),
{
    match h {
        Some(v) => trim_text(v.as_str()).to_string(),
        None => String::new(),
    }
}

/// The identity of a client: proxy headers count only when the peer is a
/// trusted relay.
pub open spec fn client_identity(peer: Seq<char>, trusted: bool, h: ProxyHeaders) -> Seq<char> {
    pick(peer, trusted, candidates(h))
}

/// Resolves the identity of the client behind a request. Proxy headers are
/// trusted only when the peer is a loopback address (the local tunnel
/// relay).
pub fn extract_client_ip(peer_ip: &str, peer_is_loopback: bool, headers: &ProxyHeaders) -> (r: String)
    ensures
        r@ == client_identity(peer_ip@, peer_is_loopback, *headers),
{
    let mut cands: Vec<String> = Vec::new();
    cands.push(candidate_of(&headers.cf_connecting_ip));
    cands.push(candidate_of(&headers.true_client_ip));
    let listed = match &headers.forwarded_for {
        Some(v) => trim_text(first_entry(v.as_str())).to_string(),
        None => String::new(),
    };
    cands.push(listed);
    cands.push(candidate_of(&headers.real_ip));
    proof {
        assert(cands@.map_values(|c: String| c@) =~= candidates(*headers));
    }
    choose_identity(peer_ip, peer_is_loopback, &cands)
}

} // verus!
