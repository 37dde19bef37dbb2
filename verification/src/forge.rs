//! Host guards for the forge (GitHub/GitLab) calls: which remote domains may
//! be queried at all, which may receive a GitLab token, and the GitLab
//! project request built from them.
use vstd::prelude::*;

use crate::text::{
    all_digits, chars_of, digits_val, eq_ignore_ascii_case, lower_ascii, push_str, split,
    split_chars, string_from, trim, trim_chars, utf8_bytes, views,
};

verus! {

/// A hostname character: ASCII letter, digit, `.` or `-`.
pub open spec fn host_char(c: char) -> bool {
    ('a' <= c && c <= 'z') || ('A' <= c && c <= 'Z') || ('0' <= c && c <= '9') || c == '.' || c
        == '-'
}

/// One dotted-quad octet as std's IPv4 parser accepts it: 1–3 digits, no
/// leading zero, at most 255.
pub open spec fn ipv4_octet(p: Seq<char>) -> bool {
    1 <= p.len() <= 3 && all_digits(p) && (p.len() == 1 || p[0] != '0') && digits_val(p) <= 255
}

/// An IPv4 literal in dotted-quad form (what `IpAddr::from_str` accepts among
/// strings made of host characters; IPv6 literals need `:`).
pub open spec fn ipv4_literal(s: Seq<char>) -> bool {
    let parts = split(s, '.');
    parts.len() == 4 && forall|i: int| 0 <= i < 4 ==> ipv4_octet(#[trigger] parts[i])
}

/// A plain DNS hostname: non-empty, at most 253 characters, all of them host
/// characters, with a dot, and not an IP address literal.
pub open spec fn valid_domain(d: Seq<char>) -> bool {
    &&& d.len() > 0
    &&& d.len() <= 253
    &&& (forall|k: int| 0 <= k < d.len() ==> host_char(#[trigger] d[k]))
    &&& d.contains('.')
    &&& !ipv4_literal(d)
}

fn octet_ok(p: &[char]) -> (r: bool)
    ensures
        r == ipv4_octet(p@),
{
    if p.len() < 1 || p.len() > 3 {
        return false;
    }
    let mut v: u32 = 0;
    let mut k: usize = 0;
    while k < p.len()
        invariant
            1 <= p@.len() <= 3,
            k <= p@.len(),
            all_digits(p@.take(k as int)),
            v == digits_val(p@.take(k as int)),
            v < (if k == 0 {
                1int
            } else if k == 1 {
                10int
            } else if k == 2 {
                100int
            } else {
                1000int
            }),
        decreases p.len() - k,
    {
        let c = p[k];
        if !('0' <= c && c <= '9') {
            assert(!all_digits(p@)) by {
                assert(p@[k as int] == c);
            }
            return false;
        }
        proof {
            assert(p@.take(k + 1).drop_last() =~= p@.take(k as int));
            assert(p@.take(k + 1).last() == c);
        }
        v = v * 10 + ((c as u32) - ('0' as u32));
        proof {
            assert(all_digits(p@.take(k + 1)));
        }
        k = k + 1;
    }
    proof {
        assert(p@.take(p@.len() as int) =~= p@);
    }
    (p.len() == 1 || p[0] != '0') && v <= 255
}

fn is_ipv4_literal(s: &[char]) -> (r: bool)
    ensures
        r == ipv4_literal(s@),
{
    let parts = split_chars(s, '.');
    if parts.len() != 4 {
        return false;
    }
    let mut k: usize = 0;
    while k < 4
        invariant
            parts@.len() == 4,
            views(parts@) == split(s@, '.'),
            k <= 4,
            forall|i: int| 0 <= i < k ==> ipv4_octet(#[trigger] split(s@, '.')[i]),
        decreases 4 - k,
    {
        proof {
            assert(views(parts@)[k as int] == parts@[k as int]@);
        }
        if !octet_ok(&parts[k]) {
            return false;
        }
        k = k + 1;
    }
    true
}

/// Guard the GitLab API host against SSRF: accept only plain DNS hostnames —
/// no IPs, ports, schemes, paths, or credentials.
pub fn valid_host(domain: &str) -> (r: bool)
    ensures
        r == valid_domain(domain@),
{
    let d = chars_of(domain);
    if d.len() == 0 || d.len() > 253 {
        return false;
    }
    let mut k: usize = 0;
    let mut dot = false;
    while k < d.len()
        invariant
            k <= d@.len(),
            d@ == domain@,
            forall|m: int| 0 <= m < k ==> host_char(#[trigger] d@[m]),
            dot == (exists|m: int| 0 <= m < k && d@[m] == '.'),
        decreases d.len() - k,
    {
        let c = d[k];
        if !(('a' <= c && c <= 'z') || ('A' <= c && c <= 'Z') || ('0' <= c && c <= '9') || c == '.'
            || c == '-') {
            assert(!host_char(d@[k as int]));
            return false;
        }
        if c == '.' {
            dot = true;
        }
        k = k + 1;
    }
    if !dot {
        return false;
    }
    !is_ipv4_literal(&d)
}

/// Whether a GitLab token may be sent to `domain`: only `gitlab.com` or a
/// host on the user's allowlist (compared case-insensitively, entries
/// trimmed), and never a host that fails [`valid_host`].
pub fn gitlab_host_trusted(domain: &str, gitlab_hosts: &[String]) -> (r: bool)
    ensures
        r == (valid_domain(domain@) && (lower_ascii(domain@) == lower_ascii("gitlab.com"@) || exists|
            i: int,
        |
            0 <= i < gitlab_hosts@.len() && lower_ascii(trim(#[trigger] gitlab_hosts@[i]@))
                == lower_ascii(domain@))),
        r ==> valid_domain(domain@),
{
    if !valid_host(domain) {
        return false;
    }
    let d = chars_of(domain);
    if eq_ignore_ascii_case(&d, &chars_of("gitlab.com")) {
        return true;
    }
    let mut k: usize = 0;
    while k < gitlab_hosts.len()
        invariant
            k <= gitlab_hosts@.len(),
            d@ == domain@,
            valid_domain(domain@),
            forall|i: int|
                0 <= i < k ==> lower_ascii(trim(#[trigger] gitlab_hosts@[i]@)) != lower_ascii(
                    domain@,
                ),
        decreases gitlab_hosts.len() - k,
    {
        let h = chars_of(gitlab_hosts[k].as_str());
        let t = trim_chars(&h);
        if eq_ignore_ascii_case(&t, &d) {
            assert(lower_ascii(trim(gitlab_hosts@[k as int]@)) == lower_ascii(domain@));
            return true;
        }
        k = k + 1;
    }
    false
}


/// Whether a byte passes URL percent-encoding unchanged: ASCII letters and
/// digits, `-`, `.`, `_` and `~`.
pub open spec fn url_safe_byte(b: u8) -> bool {
    (48 <= b <= 57) || (65 <= b <= 90) || (97 <= b <= 122) || b == 45 || b == 46 || b == 95 || b
        == 126
}

/// The upper-case hex digit of `d < 16`.
pub open spec fn hex_upper(d: u8) -> char {
    if d < 10 {
        (48 + d) as char
    } else {
        (55 + d) as char
    }
}

/// Percent-encoding of bytes: every byte but the URL-safe ones becomes `%XX`
/// (upper-case hex).
pub open spec fn percent_encoded(bytes: Seq<u8>) -> Seq<char>
    decreases bytes.len(),
{
    if bytes.len() == 0 {
        Seq::empty()
    } else {
        let b = bytes.last();
        percent_encoded(bytes.drop_last()) + if url_safe_byte(b) {
            seq![b as char]
        } else {
            seq!['%', hex_upper(b / 16), hex_upper(b % 16)]
        }
    }
}

/// `urlencoding::encode`: percent-encodes the UTF-8 bytes of `s`, leaving
/// ASCII letters, digits and `-._~` as they are, with upper-case hex digits.
#[verifier::external_body]
fn url_encode(s: &str) -> (r: String)
    ensures
        r@ == percent_encoded(utf8_bytes(s@)),
{
    urlencoding::encode(s).into_owned()
}

/// Whether a GitLab token may go to `domain` (what `gitlab_host_trusted`
/// decides).
pub open spec fn gitlab_trusted(domain: Seq<char>, hosts: Seq<String>) -> bool {
    valid_domain(domain) && (lower_ascii(domain) == lower_ascii("gitlab.com"@) || exists|i: int|
        0 <= i < hosts.len() && lower_ascii(trim(#[trigger] hosts[i]@)) == lower_ascii(domain))
}

/// The GitLab project API URL to query for `slug` on `domain`, and the token
/// to send with it: the host must be a plain DNS name (else the request is
/// refused), and the token goes only to a trusted host; an untrusted one is
/// still queried, unauthenticated.
pub fn gitlab_request(domain: &str, slug: &str, token: Option<String>, gitlab_hosts: &[String]) -> (r:
    Result<(String, Option<String>), String>)
    ensures
        !valid_domain(domain@) ==> (r matches Err(e) && e@ == "refusing to query untrusted host: "@
            + domain@),
        valid_domain(domain@) ==> (r matches Ok((url, t)) && url@ == "https://"@ + domain@
            + "/api/v4/projects/"@ + percent_encoded(utf8_bytes(slug@)) && t == if gitlab_trusted(
            domain@,
            gitlab_hosts@,
        ) {
            token
        } else {
            None
        }),
{
    if !valid_host(domain) {
        let mut v = chars_of("refusing to query untrusted host: ");
        push_str(&mut v, domain);
        return Err(string_from(&v));
    }
    let trusted = gitlab_host_trusted(domain, gitlab_hosts);
    let mut v = chars_of("https://");
    push_str(&mut v, domain);
    push_str(&mut v, "/api/v4/projects/");
    let enc = url_encode(slug);
    push_str(&mut v, enc.as_str());
    let url = string_from(&v);
    if trusted {
        Ok((url, token))
    } else {
        Ok((url, None))
    }
}

} // verus!
