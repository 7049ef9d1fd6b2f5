use vstd::prelude::*;

use crate::numfmt::{spec_udigits, u16_to_string};

verus! {

/// Whether `url::Url::parse` accepts this input as an absolute URL.
pub uninterp spec fn url_ok(s: Seq<char>) -> bool;

/// The host component the url parser finds in this input, or the empty
/// sequence when the parsed URL has no host.
pub uninterp spec fn url_host(s: Seq<char>) -> Seq<char>;

/// The explicit port the url parser finds in this input; `None` when the
/// input gives none, or gives the scheme's default port.
pub uninterp spec fn url_port(s: Seq<char>) -> Option<u16>;

/// Relies on url::Url::parse, Url::host_str and Url::port: parsing is a pure
/// function of the input string, so its outcome on this input is named by
/// `url_ok`, `url_host` (the host, empty when absent) and `url_port`.
#[verifier::external_body]
pub(crate) fn parse_host_port(input: &str) -> (r: Option<(String, Option<u16>)>)
    ensures
        r is Some <==> url_ok(input@),
        (match r {
            Option::Some((h, p)) => h@ == url_host(input@) && p == url_port(input@),
            Option::None => true,
        }),
{
    match url::Url::parse(input) {
        Ok(u) => Some((u.host_str().unwrap_or_default().to_string(), u.port())),
        Err(_) => None,
    }
}

/// Whether the character occurs in the string.
pub fn contains_char(s: &str, c: char) -> (r: bool)
    ensures
        r == s@.contains(c),
{
    let len = s.unicode_len();
    let mut i: usize = 0;
    while i < len
        invariant
            i <= len,
            len == s@.len(),
            forall|j: int| 0 <= j < i ==> s@[j] != c,
        decreases len - i,
    {
        if s.get_char(i) == c {
            return true;
        }
        i += 1;
    }
    false
}

/// Whether the two strings hold the same characters.
pub fn str_eq(a: &str, b: &str) -> (r: bool)
    ensures
        r == (a@ == b@),
{
    let alen = a.unicode_len();
    let blen = b.unicode_len();
    if alen != blen {
        return false;
    }
    let mut i: usize = 0;
    while i < alen
        invariant
            i <= alen,
            alen == a@.len(),
            blen == b@.len(),
            alen == blen,
            forall|j: int| 0 <= j < i ==> a@[j] == b@[j],
        decreases alen - i,
    {
        if a.get_char(i) != b.get_char(i) {
            return false;
        }
        i += 1;
    }
    assert(a@ =~= b@);
    true
}

/// Whether `p` is a prefix of `s`.
pub fn str_has_prefix(s: &str, p: &str) -> (r: bool)
    ensures
        r == p@.is_prefix_of(s@),
{
    let slen = s.unicode_len();
    let plen = p.unicode_len();
    if slen < plen {
        return false;
    }
    let mut i: usize = 0;
    while i < plen
        invariant
            i <= plen,
            plen == p@.len(),
            slen == s@.len(),
            plen <= slen,
            forall|j: int| 0 <= j < i ==> s@[j] == p@[j],
        decreases plen - i,
    {
        if s.get_char(i) != p.get_char(i) {
            assert(!p@.is_prefix_of(s@));
            return false;
        }
        i += 1;
    }
    assert(p@ =~= s@.subrange(0, p@.len() as int));
    true
}

/// The string handed to the url parser: input that already carries an
/// `http://` or `https://` scheme is kept, anything else gets `http://`
/// prepended.
pub open spec fn spec_with_scheme(s: Seq<char>) -> Seq<char> {
    if "http://"@.is_prefix_of(s) || "https://"@.is_prefix_of(s) {
        s
    } else {
        "http://"@ + s
    }
}

/// The canonical `host[:port]` this input normalizes to: empty input, input
/// without a dot, and input the url parser rejects all give the empty
/// sequence; otherwise the parsed host, with the explicit port kept.
pub open spec fn spec_extract_hostname(s: Seq<char>) -> Seq<char> {
    if s.len() == 0 || !s.contains('.') {
        Seq::empty()
    } else {
        let t = spec_with_scheme(s);
        if !url_ok(t) {
            Seq::empty()
        } else {
            match url_port(t) {
                Option::Some(p) => url_host(t) + seq![':'] + spec_udigits(p as nat),
                Option::None => url_host(t),
            }
        }
    }
}

/// Normalizes free-text input to a bare `host[:port]`, or the empty string
/// when the input cannot name a public host.
pub fn extract_hostname(input: &str) -> (r: String)
    ensures
        r@ == spec_extract_hostname(input@),
{
    if input.unicode_len() == 0 || !contains_char(input, '.') {
        return String::new();
    }
    let with_scheme: String = if str_has_prefix(input, "http://") || str_has_prefix(
        input,
        "https://",
    ) {
        String::from_str(input)
    } else {
        let mut t = String::from_str("http://");
        t.append(input);
        t
    };
    match parse_host_port(with_scheme.as_str()) {
        Option::Some((host, port_opt)) => {
            match port_opt {
                Option::Some(p) => {
                    let mut s = host;
                    s.append(":");
                    s.append(u16_to_string(p).as_str());
                    proof {
                        reveal_strlit(":");
                        assert(s@ =~= spec_extract_hostname(input@));
                    }
                    s
                },
                Option::None => host,
            }
        },
        Option::None => String::new(),
    }
}

/// Produces both scheme variants of one normalized host, since every tracked
/// input is probed over HTTP and HTTPS independently: `(true, http, https)`
/// for input that normalizes, `(false, "", "")` otherwise.
pub fn read_url(input: &str) -> (r: (bool, String, String))
    ensures
        r.0 == (spec_extract_hostname(input@).len() != 0),
        spec_extract_hostname(input@).len() == 0 ==> r.1@ == Seq::<char>::empty() && r.2@
            == Seq::<char>::empty(),
        spec_extract_hostname(input@).len() != 0 ==> r.1@ == "http://"@ + spec_extract_hostname(
            input@,
        ) && r.2@ == "https://"@ + spec_extract_hostname(input@),
{
    let url = extract_hostname(input);
    if url.as_str().unicode_len() == 0 {
        return (false, String::new(), String::new());
    }
    let mut http_url = String::from_str("http://");
    http_url.append(url.as_str());
    let mut https_url = String::from_str("https://");
    https_url.append(url.as_str());
    (true, http_url, https_url)
}

} // verus!
