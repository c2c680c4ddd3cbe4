//! LAN access control: the optional access token, the Host/Origin checks
//! that stop DNS rebinding, which settings a peer may write, and which
//! outbound addresses the server may fetch from.

use vstd::prelude::*;
use crate::ip::{ip_literal, is_local_only, local_only, parse_ip_literal};
use crate::text::{
    all_digits, chars_eq, chars_of, contains_char, ends_with, find_char, find_sub, find_from,
    first_index_of, has_prefix, has_suffix, lemma_first_index_of, lemma_last_index_of,
    last_index_of, lower_chars, lower_seq, rfind_char, slice_chars, split_chars, split_on,
    seqs_of, starts_with, string_from_chars, take_chars, trim_chars, trim_ws, is_ws, occurs_at, trim_end_ws,
    trim_start_ws,
};

verus! {

// ---------------------------------------------------------------------------
// Token
// ---------------------------------------------------------------------------

/// Compares two strings without stopping at the first difference: the
/// lengths are compared first, then every position is folded into one
/// accumulator. The result is plain equality.
fn constant_time_eq(a: &str, b: &str) -> (r: bool)
    ensures
        r == (a@ == b@),
{
    let x = chars_of(a);
    let y = chars_of(b);
    if x.len() != y.len() {
        return false;
    }
    let mut diff: u32 = 0;
    let mut i: usize = 0;
    while i < x.len()
        invariant
            i <= x@.len(),
            x@.len() == y@.len(),
            (diff == 0) == (forall|j: int| 0 <= j < i ==> x@[j] == y@[j]),
        decreases x.len() - i,
    {
        let ne: u32 = if x[i] == y[i] {
            0
        } else {
            1
        };
        let old_diff = diff;
        diff = diff | ne;
        assert((old_diff | ne) == 0u32 <==> (old_diff == 0u32 && ne == 0u32)) by (bit_vector);
        i = i + 1;
    }
    proof {
        if diff == 0 {
            assert(x@ =~= y@);
        }
    }
    diff == 0
}

/// `Bearer `.
pub open spec fn bearer() -> Seq<char> {
    seq!['B', 'e', 'a', 'r', 'e', 'r', ' ']
}

/// The token check: an empty expected token admits everything; otherwise
/// the `Authorization` value matches as `Bearer <token>` or as the bare
/// token, or the `token` query value matches. Matching is exact (trailing
/// spaces count).
pub open spec fn token_ok(
    auth: Option<Seq<char>>,
    query: Option<Seq<char>>,
    expected: Seq<char>,
) -> bool {
    ||| expected.len() == 0
    ||| (auth is Some && has_prefix(auth->0, bearer()) && auth->0.skip(7) == expected)
    ||| auth == Some(expected)
    ||| query == Some(expected)
}

/// The view of an optional string slice.
pub open spec fn opt_view(o: Option<&str>) -> Option<Seq<char>> {
    match o {
        Some(s) => Some(s@),
        None => None,
    }
}

/// Whether a request carries the expected token (see [`token_ok`]).
pub fn token_authorized(auth: Option<&str>, query: Option<&str>, expected: &str) -> (r: bool)
    ensures
        r == token_ok(opt_view(auth), opt_view(query), expected@),
{
    if expected.is_empty() {
        return true;
    }
    proof {
        reveal_strlit("Bearer ");
    }
    assert("Bearer "@ =~= bearer());
    let bear = match auth {
        Some(v) => {
            let cv = chars_of(v);
            let pre = chars_of("Bearer ");
            if starts_with(cv.as_slice(), pre.as_slice()) {
                let rest = slice_chars(cv.as_slice(), 7, cv.len());
                assert(rest@ =~= v@.skip(7));
                let rs = string_from_chars(rest.as_slice());
                constant_time_eq(rs.as_str(), expected)
            } else {
                false
            }
        },
        None => false,
    };
    let raw = match auth {
        Some(v) => constant_time_eq(v, expected),
        None => false,
    };
    let q = match query {
        Some(v) => constant_time_eq(v, expected),
        None => false,
    };
    bear || raw || q
}

/// The decision for one request: the loopback peer is always admitted (the
/// desktop app cannot lock itself out); with no token configured the LAN is
/// open; otherwise the token must match (see [`token_ok`]).
pub open spec fn allowed(
    expected: Seq<char>,
    auth: Option<Seq<char>>,
    query: Option<Seq<char>>,
    is_loopback: bool,
) -> bool {
    is_loopback || expected.len() == 0 || token_ok(auth, query, expected)
}

/// Whether a request may proceed (see [`allowed`]).
pub fn request_allowed(
    expected_token: &str,
    authz: Option<&str>,
    query_token: Option<&str>,
    is_loopback: bool,
) -> (r: bool)
    ensures
        r == allowed(expected_token@, opt_view(authz), opt_view(query_token), is_loopback),
        is_loopback ==> r,
        expected_token@.len() == 0 ==> r,
{
    if is_loopback {
        return true;
    }
    if expected_token.is_empty() {
        return true;
    }
    token_authorized(authz, query_token, expected_token)
}

/// `token`.
pub open spec fn token_key() -> Seq<char> {
    seq!['t', 'o', 'k', 'e', 'n']
}

/// The value of the first `token=` pair among `pairs[i..]`.
pub open spec fn token_in_pairs(pairs: Seq<Seq<char>>, i: int) -> Option<Seq<char>>
    decreases pairs.len() - i,
{
    if i < 0 || i >= pairs.len() {
        None
    } else {
        let p = pairs[i];
        let k = first_index_of(p, '=');
        if k >= 0 && p.take(k) == token_key() {
            Some(p.skip(k + 1))
        } else {
            token_in_pairs(pairs, i + 1)
        }
    }
}

/// The `token` value of a query string: the first `&`-separated pair whose
/// key (up to its first `=`) is `token`.
pub open spec fn query_token(q: Seq<char>) -> Option<Seq<char>> {
    token_in_pairs(split_on(q, '&'), 0)
}

/// The `token` parameter of a query string, if any (see [`query_token`]).
pub fn extract_query_token(q: Option<&str>) -> (r: Option<String>)
    ensures
        match q {
            None => r is None,
            Some(s) => match r {
                Some(v) => query_token(s@) == Some(v@),
                None => query_token(s@) is None,
            },
        },
{
    let s = match q {
        Some(s) => s,
        None => return None,
    };
    let cs = chars_of(s);
    let pairs = split_chars(cs.as_slice(), '&');
    let key = ['t', 'o', 'k', 'e', 'n'];
    assert(key@ =~= token_key());
    let mut i: usize = 0;
    while i < pairs.len()
        invariant
            i <= pairs@.len(),
            seqs_of(pairs@) == split_on(s@, '&'),
            key@ == token_key(),
            q == Some(s),
            token_in_pairs(seqs_of(pairs@), 0) == token_in_pairs(seqs_of(pairs@), i as int),
        decreases pairs.len() - i,
    {
        let p = &pairs[i];
        assert(seqs_of(pairs@)[i as int] == p@);
        proof {
            lemma_first_index_of(p@, '=');
        }
        assert(token_in_pairs(seqs_of(pairs@), i as int) == (if first_index_of(p@, '=') >= 0
            && p@.take(first_index_of(p@, '=')) == token_key() {
            Some(p@.skip(first_index_of(p@, '=') + 1))
        } else {
            token_in_pairs(seqs_of(pairs@), i as int + 1)
        }));
        match find_char(p.as_slice(), '=') {
            Some(k) => {
                assert(k < p@.len());
                assert(k < p.len());
                let head = take_chars(p.as_slice(), k);
                if chars_eq(head.as_slice(), &key) {
                    let v = slice_chars(p.as_slice(), k + 1, p.len());
                    assert(v@ =~= p@.skip(k + 1));
                    return Some(string_from_chars(v.as_slice()));
                }
            },
            None => {},
        }
        i = i + 1;
    }
    None
}

// ---------------------------------------------------------------------------
// Host and Origin
// ---------------------------------------------------------------------------

/// The host name of a Host header or URL authority: brackets stripped from
/// an IPv6 literal, and a trailing `:port` of digits dropped.
pub open spec fn hostname(host: Seq<char>) -> Seq<char> {
    if host.len() > 0 && host[0] == '[' {
        let rest = host.skip(1);
        let k = first_index_of(rest, ']');
        if k < 0 {
            rest
        } else {
            rest.take(k)
        }
    } else {
        let k = last_index_of(host, ':');
        if k >= 0 && k + 1 < host.len() && all_digits(host.skip(k + 1)) {
            host.take(k)
        } else {
            host
        }
    }
}

fn hostname_of(host: &[char]) -> (r: Vec<char>)
    ensures
        r@ == hostname(host@),
{
    if host.len() > 0 && host[0] == '[' {
        let rest = slice_chars(host, 1, host.len());
        assert(rest@ =~= host@.skip(1));
        proof {
            lemma_first_index_of(rest@, ']');
        }
        return match find_char(rest.as_slice(), ']') {
            Some(k) => take_chars(rest.as_slice(), k),
            None => rest,
        };
    }
    proof {
        lemma_last_index_of(host@, ':');
    }
    match rfind_char(host, ':') {
        Some(k) => {
            if k + 1 < host.len() {
                let port = slice_chars(host, k + 1, host.len());
                assert(port@ =~= host@.skip(k + 1));
                let mut i: usize = 0;
                let mut digits = true;
                while i < port.len()
                    invariant
                        i <= port@.len(),
                        digits == (forall|j: int| 0 <= j < i ==> '0' <= #[trigger] port@[j] <= '9'),
                    decreases port.len() - i,
                {
                    let c = port[i];
                    if !('0' <= c && c <= '9') {
                        digits = false;
                    }
                    i = i + 1;
                }
                if digits {
                    take_chars(host, k)
                } else {
                    take_chars(host, host.len())
                }
            } else {
                take_chars(host, host.len())
            }
        },
        None => take_chars(host, host.len()),
    }
}

/// `localhost`.
pub open spec fn localhost() -> Seq<char> {
    seq!['l', 'o', 'c', 'a', 'l', 'h', 'o', 's', 't']
}

/// `.localhost`.
pub open spec fn dot_localhost() -> Seq<char> {
    seq!['.', 'l', 'o', 'c', 'a', 'l', 'h', 'o', 's', 't']
}

/// `.local`.
pub open spec fn dot_local() -> Seq<char> {
    seq!['.', 'l', 'o', 'c', 'a', 'l']
}

/// A host of this machine or the LAN: an IP literal, `localhost` or a
/// `*.localhost` name, an mDNS `*.local` name, or a single label without
/// dots. Other dotted names, malformed colon forms and empty names are not.
pub open spec fn localish(authority: Seq<char>) -> bool {
    let name = hostname(authority);
    let lower = lower_seq(name);
    name.len() > 0 && (ip_literal(name) is Some || (!name.contains(':') && (lower == localhost()
        || has_suffix(lower, dot_localhost()) || has_suffix(lower, dot_local())
        || !lower.contains('.'))))
}

fn is_localish_hostname(authority: &[char]) -> (r: bool)
    ensures
        r == localish(authority@),
{
    let name = hostname_of(authority);
    if name.len() == 0 {
        return false;
    }
    if parse_ip_literal(name.as_slice()).is_some() {
        return true;
    }
    if contains_char(name.as_slice(), ':') {
        return false;
    }
    let lower = lower_chars(name.as_slice());
    let lh = ['l', 'o', 'c', 'a', 'l', 'h', 'o', 's', 't'];
    let dlh = ['.', 'l', 'o', 'c', 'a', 'l', 'h', 'o', 's', 't'];
    let dl = ['.', 'l', 'o', 'c', 'a', 'l'];
    assert(lh@ =~= localhost());
    assert(dlh@ =~= dot_localhost());
    assert(dl@ =~= dot_local());
    chars_eq(lower.as_slice(), &lh) || ends_with(lower.as_slice(), &dlh) || ends_with(
        lower.as_slice(),
        &dl,
    ) || !contains_char(lower.as_slice(), '.')
}

/// Whether a Host header is acceptable: absent, or a local host form
/// (see [`localish`]).
pub fn host_allowed(host: Option<&str>) -> (r: bool)
    ensures
        r == match host {
            None => true,
            Some(h) => localish(h@),
        },
{
    match host {
        None => true,
        Some(h) => {
            let v = chars_of(h);
            is_localish_hostname(v.as_slice())
        },
    }
}

/// Index of the first `/`, `?` or `#` in `s`, or -1.
pub open spec fn first_delim(s: Seq<char>) -> int
    decreases s.len(),
{
    if s.len() == 0 {
        -1
    } else {
        let p = first_delim(s.drop_last());
        if p >= 0 {
            p
        } else if s.last() == '/' || s.last() == '?' || s.last() == '#' {
            s.len() - 1
        } else {
            -1
        }
    }
}

proof fn lemma_first_delim(s: Seq<char>)
    ensures
        -1 <= first_delim(s) < s.len(),
    decreases s.len(),
{
    if s.len() > 0 {
        lemma_first_delim(s.drop_last());
    }
}

/// The authority of what follows `scheme://`: everything up to the first
/// `/`, `?` or `#`.
pub open spec fn authority_of(rest: Seq<char>) -> Seq<char> {
    if first_delim(rest) < 0 {
        rest
    } else {
        rest.take(first_delim(rest))
    }
}

fn authority_chars(rest: &[char]) -> (r: Vec<char>)
    ensures
        r@ == authority_of(rest@),
{
    let mut i: usize = 0;
    while i < rest.len()
        invariant
            i <= rest@.len(),
            first_delim(rest@.take(i as int)) == -1,
        decreases rest.len() - i,
    {
        let c = rest[i];
        assert(rest@.take(i as int + 1).drop_last() =~= rest@.take(i as int));
        if c == '/' || c == '?' || c == '#' {
            proof {
                lemma_prefix_delim(rest@, i as int + 1);
            }
            return take_chars(rest, i);
        }
        i = i + 1;
    }
    assert(rest@.take(rest@.len() as int) =~= rest@);
    take_chars(rest, rest.len())
}

proof fn lemma_prefix_delim(s: Seq<char>, k: int)
    requires
        0 < k <= s.len(),
        first_delim(s.take(k)) == k - 1,
    ensures
        first_delim(s) == k - 1,
    decreases s.len(),
{
    if s.len() > k {
        assert(s.drop_last().take(k) =~= s.take(k));
        lemma_prefix_delim(s.drop_last(), k);
    } else {
        assert(s.take(k) =~= s);
    }
}

/// `://`.
pub open spec fn scheme_sep() -> Seq<char> {
    seq![':', '/', '/']
}

/// An Origin header is acceptable when it is absent or blank, or when it is
/// `http`, `https` or `tauri` `://` a local host form (see [`localish`]);
/// `null` and every other scheme are refused.
pub open spec fn origin_ok(origin: Option<Seq<char>>) -> bool {
    match origin {
        None => true,
        Some(raw) => {
            let o = trim_ws(raw);
            let k = find_from(o, scheme_sep(), 0);
            if o.len() == 0 {
                true
            } else if o == seq!['n', 'u', 'l', 'l'] {
                false
            } else if k < 0 {
                false
            } else {
                let scheme = o.take(k);
                (scheme == seq!['h', 't', 't', 'p'] || scheme == seq!['h', 't', 't', 'p', 's']
                    || scheme == seq!['t', 'a', 'u', 'r', 'i']) && localish(
                    authority_of(o.skip(k + 3)),
                )
            }
        },
    }
}

/// Whether an Origin header is acceptable (see [`origin_ok`]).
pub fn origin_allowed(origin: Option<&str>) -> (r: bool)
    ensures
        r == origin_ok(opt_view(origin)),
{
    let raw = match origin {
        None => return true,
        Some(o) => o,
    };
    let rv = chars_of(raw);
    let o = trim_chars(rv.as_slice());
    if o.len() == 0 {
        return true;
    }
    let null = ['n', 'u', 'l', 'l'];
    assert(null@ =~= seq!['n', 'u', 'l', 'l']);
    if chars_eq(o.as_slice(), &null) {
        return false;
    }
    let sep = [':', '/', '/'];
    assert(sep@ =~= scheme_sep());
    let k = match find_sub(o.as_slice(), &sep) {
        Some(k) => k,
        None => return false,
    };
    proof {
        crate::text::lemma_find_from(o@, sep@, 0);
    }
    let scheme = take_chars(o.as_slice(), k);
    let http = ['h', 't', 't', 'p'];
    let https = ['h', 't', 't', 'p', 's'];
    let tauri = ['t', 'a', 'u', 'r', 'i'];
    assert(http@ =~= seq!['h', 't', 't', 'p']);
    assert(https@ =~= seq!['h', 't', 't', 'p', 's']);
    assert(tauri@ =~= seq!['t', 'a', 'u', 'r', 'i']);
    if !(chars_eq(scheme.as_slice(), &http) || chars_eq(scheme.as_slice(), &https) || chars_eq(
        scheme.as_slice(),
        &tauri,
    )) {
        return false;
    }
    let rest = slice_chars(o.as_slice(), k + 3, o.len());
    assert(rest@ =~= o@.skip(k + 3));
    let auth = authority_chars(rest.as_slice());
    is_localish_hostname(auth.as_slice())
}

/// Both the Host and the Origin header (where present) have local forms.
pub fn request_host_origin_ok(host: Option<&str>, origin: Option<&str>) -> (r: bool)
    ensures
        r == (match host {
            None => true,
            Some(h) => localish(h@),
        } && origin_ok(opt_view(origin))),
{
    host_allowed(host) && origin_allowed(origin)
}

/// The schemes an Origin may use.
pub open spec fn allowed_scheme(scheme: Seq<char>) -> bool {
    scheme == seq!['h', 't', 't', 'p'] || scheme == seq!['h', 't', 't', 'p', 's'] || scheme == seq![
        't',
        'a',
        'u',
        'r',
        'i',
    ]
}

proof fn lemma_no_delim(s: Seq<char>)
    requires
        forall|i: int| 0 <= i < s.len() ==> #[trigger] s[i] != '/' && s[i] != '?' && s[i] != '#',
    ensures
        first_delim(s) == -1,
    decreases s.len(),
{
    if s.len() > 0 {
        assert forall|i: int| 0 <= i < s.drop_last().len() implies #[trigger] s.drop_last()[i] != '/'
            && s.drop_last()[i] != '?' && s.drop_last()[i] != '#' by {
            assert(s.drop_last()[i] == s[i]);
        }
        lemma_no_delim(s.drop_last());
    }
}

proof fn lemma_trim_end_keeps(s: Seq<char>)
    requires
        s.len() > 0,
        !is_ws(s.last()),
    ensures
        trim_end_ws(s) == s,
{
}

proof fn lemma_trim_start_keeps(s: Seq<char>)
    requires
        s.len() > 0,
        !is_ws(s[0]),
    ensures
        trim_start_ws(s) == s,
{
}

/// An Origin `scheme://h` with an allowed scheme is accepted exactly when
/// the Host `h` would be: the two checks agree on the host part (for a host
/// text without `/`, `?`, `#` and without trailing white space, as a Host
/// header is).
pub proof fn law_origin_agrees_with_host(scheme: Seq<char>, h: Seq<char>)
    requires
        allowed_scheme(scheme),
        forall|i: int| 0 <= i < h.len() ==> #[trigger] h[i] != '/' && h[i] != '?' && h[i] != '#',
        h.len() > 0 ==> !is_ws(h.last()),
    ensures
        origin_ok(Some(scheme + scheme_sep() + h)) == localish(h),
{
    let sep = scheme_sep();
    let o = scheme + sep + h;
    let l = scheme.len() as int;
    assert(o.len() == l + 3 + h.len());
    assert(o[0] == scheme[0]);
    assert(scheme[0] == 'h' || scheme[0] == 't');
    if h.len() > 0 {
        assert(o.last() == h.last());
    } else {
        assert(o.last() == '/');
    }
    lemma_trim_end_keeps(o);
    lemma_trim_start_keeps(o);
    assert(trim_ws(o) == o);
    assert(o != seq!['n', 'u', 'l', 'l']) by {
        if o.len() == 4 {
            assert(o[0] == 'h' || o[0] == 't');
        }
    }
    assert(o.subrange(l, l + 3) =~= sep);
    assert(occurs_at(o, sep, l));
    assert forall|j: int| 0 <= j < l implies !occurs_at(o, sep, j) by {
        assert(o[j] == scheme[j]);
        if occurs_at(o, sep, j) {
            assert(o.subrange(j, j + 3)[0] == o[j]);
        }
    }
    crate::text::lemma_find_from(o, sep, 0);
    let k = find_from(o, sep, 0);
    assert(k == l);
    assert(o.take(l) =~= scheme);
    assert(o.skip(l + 3) =~= h);
    lemma_no_delim(h);
    assert(authority_of(h) == h);
}

// ---------------------------------------------------------------------------
// Sensitive settings
// ---------------------------------------------------------------------------

/// `server_token`.
pub open spec fn server_token_key() -> Seq<char> {
    seq!['s', 'e', 'r', 'v', 'e', 'r', '_', 't', 'o', 'k', 'e', 'n']
}

/// `server_bind`.
pub open spec fn server_bind_key() -> Seq<char> {
    seq!['s', 'e', 'r', 'v', 'e', 'r', '_', 'b', 'i', 'n', 'd']
}

/// The settings that only the local machine may change and that never leave it.
pub open spec fn lan_sensitive(key: Seq<char>) -> bool {
    key == server_token_key() || key == server_bind_key()
}

/// Whether a setting is one of the LAN-sensitive ones (`server_token`, `server_bind`).
pub fn is_lan_sensitive(key: &str) -> (r: bool)
    ensures
        r == lan_sensitive(key@),
{
    let k = chars_of(key);
    let t = ['s', 'e', 'r', 'v', 'e', 'r', '_', 't', 'o', 'k', 'e', 'n'];
    let b = ['s', 'e', 'r', 'v', 'e', 'r', '_', 'b', 'i', 'n', 'd'];
    assert(t@ =~= server_token_key());
    assert(b@ =~= server_bind_key());
    chars_eq(k.as_slice(), &t) || chars_eq(k.as_slice(), &b)
}

/// Whether the peer may write this setting: the loopback peer may write
/// every key, a LAN peer every key but the sensitive ones.
pub fn setting_key_writable(key: &str, is_loopback: bool) -> (r: bool)
    ensures
        r == (is_loopback || !lan_sensitive(key@)),
{
    is_loopback || !is_lan_sensitive(key)
}

// ---------------------------------------------------------------------------
// Outbound addresses
// ---------------------------------------------------------------------------

/// The host of a URL authority: after the last `@`, then as [`hostname`].
pub open spec fn url_host(authority: Seq<char>) -> Seq<char> {
    let at = last_index_of(authority, '@');
    hostname(
        if at < 0 {
            authority
        } else {
            authority.skip(at + 1)
        },
    )
}

/// A URL the server may fetch on a user's behalf: `http://` or `https://`,
/// a non-empty host that is not `localhost` or a `*.localhost` name, and
/// whose IP literal (if it is one) is not loopback, unspecified or
/// link-local (see [`local_only_ip`]).
pub open spec fn outbound_ok(url: Seq<char>) -> bool {
    let k = find_from(url, scheme_sep(), 0);
    if k < 0 {
        false
    } else {
        let scheme = url.take(k);
        let host = url_host(authority_of(url.skip(k + 3)));
        let lower = lower_seq(host);
        (scheme == seq!['h', 't', 't', 'p'] || scheme == seq!['h', 't', 't', 'p', 's']) && host.len()
            > 0 && match ip_literal(host) {
            Some((v6, p)) => !local_only(v6, p),
            None => lower != localhost() && !has_suffix(lower, dot_localhost()),
        }
    }
}

/// Whether a URL may be fetched from the server (see [`outbound_ok`]).
#[verifier::spinoff_prover]
pub fn validate_outbound_url(url: &str) -> (r: bool)
    ensures
        r == outbound_ok(url@),
{
    let u = chars_of(url);
    let sep = [':', '/', '/'];
    assert(sep@ =~= scheme_sep());
    let k = match find_sub(u.as_slice(), &sep) {
        Some(k) => k,
        None => return false,
    };
    proof {
        crate::text::lemma_find_from(u@, sep@, 0);
        assert(sep@.len() == 3);
        assert(k + 3 <= u@.len());
    }
    assert(k + 3 <= u.len());
    let scheme = take_chars(u.as_slice(), k);
    let http = ['h', 't', 't', 'p'];
    let https = ['h', 't', 't', 'p', 's'];
    assert(http@ =~= seq!['h', 't', 't', 'p']);
    assert(https@ =~= seq!['h', 't', 't', 'p', 's']);
    if !(chars_eq(scheme.as_slice(), &http) || chars_eq(scheme.as_slice(), &https)) {
        return false;
    }
    let rest = slice_chars(u.as_slice(), k + 3, u.len());
    assert(rest@ =~= u@.skip(k + 3));
    let authority = authority_chars(rest.as_slice());
    proof {
        lemma_last_index_of(authority@, '@');
    }
    let after_at = match rfind_char(authority.as_slice(), '@') {
        Some(at) => {
            assert(at < authority@.len());
            assert(at < authority.len());
            let t = slice_chars(authority.as_slice(), at + 1, authority.len());
            assert(t@ =~= authority@.skip(at + 1));
            t
        },
        None => authority,
    };
    let host = hostname_of(after_at.as_slice());
    if host.len() == 0 {
        return false;
    }
    match parse_ip_literal(host.as_slice()) {
        Some(ip) => !is_local_only(&ip, host.as_slice()),
        None => {
            let lower = lower_chars(host.as_slice());
            let lh = ['l', 'o', 'c', 'a', 'l', 'h', 'o', 's', 't'];
            let dlh = ['.', 'l', 'o', 'c', 'a', 'l', 'h', 'o', 's', 't'];
            assert(lh@ =~= localhost());
            assert(dlh@ =~= dot_localhost());
            !chars_eq(lower.as_slice(), &lh) && !ends_with(lower.as_slice(), &dlh)
        },
    }
}

} // verus!
