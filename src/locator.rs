use vstd::prelude::*;

use crate::text::{
    chars_of, find, find_exec, lemma_find_at, lemma_find_from, occurs_at, push_range,
    same_chars, slice_of, string_of,
};

verus! {

/// The only scheme that is supported.
pub open spec fn http() -> Seq<char> {
    seq!['h', 't', 't', 'p']
}

/// What separates a scheme from the rest of a locator.
pub open spec fn scheme_sep() -> Seq<char> {
    seq![':', '/', '/']
}

/// What separates host from path.
pub open spec fn slash() -> Seq<char> {
    seq!['/']
}

/// The scheme of a locator: what stands before the first "://", or "http" where there is none.
pub open spec fn scheme_of(raw: Seq<char>) -> Seq<char> {
    let i = find(raw, scheme_sep());
    if i < 0 {
        http()
    } else {
        raw.subrange(0, i)
    }
}

/// What follows the first "://" of a locator, or the whole locator where there is none.
pub open spec fn rest_of(raw: Seq<char>) -> Seq<char> {
    let i = find(raw, scheme_sep());
    if i < 0 {
        raw
    } else {
        raw.subrange(i + 3, raw.len() as int)
    }
}

/// The host: what stands before the first '/', or all of it.
pub open spec fn host_of(rest: Seq<char>) -> Seq<char> {
    let j = find(rest, slash());
    if j < 0 {
        rest
    } else {
        rest.subrange(0, j)
    }
}

/// The path: '/' followed by what stands after the first '/', or "/" where there is none.
pub open spec fn path_of(rest: Seq<char>) -> Seq<char> {
    let j = find(rest, slash());
    if j < 0 {
        slash()
    } else {
        slash() + rest.subrange(j + 1, rest.len() as int)
    }
}

/// The address (scheme, host, path) that a locator names, or none where its scheme is not "http".
pub open spec fn parse_spec(raw: Seq<char>) -> Option<(Seq<char>, Seq<char>, Seq<char>)> {
    if scheme_of(raw) == http() {
        Some((http(), host_of(rest_of(raw)), path_of(rest_of(raw))))
    } else {
        None
    }
}

/// An address written out as a locator with its scheme.
pub open spec fn locator_of(a: (Seq<char>, Seq<char>, Seq<char>)) -> Seq<char> {
    a.0 + scheme_sep() + a.1 + a.2
}

/// The request for `path` on `host`: the request line, the Host header and a blank line.
pub open spec fn request_spec(host: Seq<char>, path: Seq<char>) -> Seq<char> {
    "GET "@ + path + " HTTP/1.0\r\n"@ + "Host: "@ + host + "\r\n"@ + "\r\n"@
}

/// Why a locator was refused.
#[derive(Debug, Clone, Copy, PartialEq, Eq, Structural)]
pub enum LocatorError {
    /// A scheme other than "http" was given.
    UnsupportedScheme,
}

/// A parsed locator.
#[derive(Debug)]
pub struct URL {
    pub scheme: String,
    pub host: String,
    pub path: String,
}

impl View for URL {
    type V = (Seq<char>, Seq<char>, Seq<char>);

    open spec fn view(&self) -> (Seq<char>, Seq<char>, Seq<char>) {
        (self.scheme@, self.host@, self.path@)
    }
}

impl PartialEq for URL {
    fn eq(&self, o: &URL) -> (r: bool)
        ensures
            r == (self@ == o@),
    {
        self.scheme == o.scheme && self.host == o.host && self.path == o.path
    }
}

impl vstd::std_specs::cmp::PartialEqSpecImpl for URL {
    open spec fn obeys_eq_spec() -> bool {
        true
    }

    open spec fn eq_spec(&self, o: &URL) -> bool {
        self@ == o@
    }
}

impl URL {
    /// Parses a locator into scheme, host and path; a scheme other than "http" is refused.
    pub fn parse(unparsed: &str) -> (r: Result<URL, LocatorError>)
        ensures
            match r {
                Ok(u) => parse_spec(unparsed@) == Some(u@),
                Err(e) => parse_spec(unparsed@) is None && e == LocatorError::UnsupportedScheme,
            },
    {
        let s = chars_of(unparsed);
        let sep: Vec<char> = vec![':', '/', '/'];
        let http_chars: Vec<char> = vec!['h', 't', 't', 'p'];
        assert(sep@ == scheme_sep());
        assert(http_chars@ == http());
        let (scheme, rest) = match find_exec(&s, &sep, 0) {
            Some(i) => {
                proof {
                    lemma_find_from(s@, sep@, 0);
                }
                (slice_of(&s, 0, i), slice_of(&s, i + 3, s.len()))
            },
            None => {
                assert(s@.subrange(0, s@.len() as int) == s@);
                (slice_of(&http_chars, 0, 4), slice_of(&s, 0, s.len()))
            },
        };
        assert(scheme@ == scheme_of(s@) && rest@ == rest_of(s@));
        if !same_chars(&scheme, &http_chars) {
            return Err(LocatorError::UnsupportedScheme);
        }
        let slash_chars: Vec<char> = vec!['/'];
        assert(slash_chars@ == slash());
        let (host, path) = match find_exec(&rest, &slash_chars, 0) {
            Some(j) => {
                proof {
                    lemma_find_from(rest@, slash_chars@, 0);
                }
                let mut path: Vec<char> = vec!['/'];
                push_range(&mut path, &rest, j + 1, rest.len());
                (slice_of(&rest, 0, j), path)
            },
            None => {
                assert(rest@.subrange(0, rest@.len() as int) == rest@);
                (slice_of(&rest, 0, rest.len()), vec!['/'])
            },
        };
        assert(host@ == host_of(rest@) && path@ == path_of(rest@));
        Ok(URL { scheme: string_of(&scheme), host: string_of(&host), path: string_of(&path) })
    }

    /// The request that fetches this address: "GET <path> HTTP/1.0", "Host: <host>" and a
    /// blank line, each ended by CRLF.
    pub fn request_message(&self) -> (r: String)
        ensures
            r@ == request_spec(self.host@, self.path@),
    {
        let mut r = String::new();
        r.append("GET ");
        r.append(self.path.as_str());
        r.append(" HTTP/1.0\r\n");
        r.append("Host: ");
        r.append(self.host.as_str());
        r.append("\r\n");
        r.append("\r\n");
        r
    }
}

/// '/' stands at `k` exactly where the character there is '/'.
proof fn lemma_slash_at(s: Seq<char>, k: int)
    ensures
        occurs_at(s, slash(), k) <==> (0 <= k < s.len() && s[k] == '/'),
{
    if 0 <= k < s.len() {
        if s[k] == '/' {
            assert(s.subrange(k, k + 1) =~= slash());
        } else {
            assert(s.subrange(k, k + 1)[0] != slash()[0]);
        }
    }
}

/// The host of a parsed address holds no '/', and `rest` is its host followed by what stands
/// after it, from the first '/' on.
proof fn lemma_host_path(rest: Seq<char>)
    ensures
        forall|k: int| 0 <= k < host_of(rest).len() ==> host_of(rest)[k] != '/',
        find(rest, slash()) >= 0 ==> rest == host_of(rest) + rest.subrange(
            host_of(rest).len() as int,
            rest.len() as int,
        ),
{
    lemma_find_from(rest, slash(), 0);
    let j = find(rest, slash());
    assert forall|k: int| 0 <= k < host_of(rest).len() implies host_of(rest)[k] != '/' by {
        lemma_slash_at(rest, k);
    }
    if j >= 0 {
        assert(rest =~= host_of(rest) + rest.subrange(j, rest.len() as int));
    }
}

/// A locator without "://" is read with the scheme "http", and all of it names host and path.
pub proof fn law_default_scheme(raw: Seq<char>)
    requires
        forall|i: int| !occurs_at(raw, scheme_sep(), i),
    ensures
        parse_spec(raw) == Some((http(), host_of(raw), path_of(raw))),
{
    lemma_find_from(raw, scheme_sep(), 0);
}

/// In a locator with "://", what stands before its first occurrence is the scheme, and the
/// locator is refused exactly where that scheme is not "http".
pub proof fn law_scheme_prefix(raw: Seq<char>, i: int)
    requires
        occurs_at(raw, scheme_sep(), i),
        forall|j: int| 0 <= j < i ==> !occurs_at(raw, scheme_sep(), j),
    ensures
        scheme_of(raw) == raw.subrange(0, i),
        rest_of(raw) == raw.subrange(i + 3, raw.len() as int),
        parse_spec(raw) is None <==> raw.subrange(0, i) != http(),
{
    lemma_find_at(raw, scheme_sep(), 0, i);
}

/// The path of a parsed locator starts with '/', and is "/" alone where no '/' follows the
/// scheme.
pub proof fn law_path_rooted(raw: Seq<char>)
    requires
        parse_spec(raw) is Some,
    ensures
        parse_spec(raw).unwrap().2.len() >= 1,
        parse_spec(raw).unwrap().2[0] == '/',
        (forall|j: int| !occurs_at(rest_of(raw), slash(), j)) ==> parse_spec(raw).unwrap().2
            == slash(),
{
    lemma_find_from(rest_of(raw), slash(), 0);
}

/// An address read from a locator, written back as an "http://" locator, reads as the same
/// address: host and path, and so the request built from them, are recovered unchanged.
pub proof fn law_locator_round_trip(raw: Seq<char>)
    requires
        parse_spec(raw) is Some,
    ensures
        parse_spec(locator_of(parse_spec(raw).unwrap())) == parse_spec(raw),
{
    let a = parse_spec(raw).unwrap();
    let rest = rest_of(raw);
    let h = host_of(rest);
    let p = path_of(rest);
    let l = locator_of(a);
    lemma_host_path(rest);
    lemma_find_from(rest, slash(), 0);
    // the scheme separator first stands right after "http"
    assert(l.subrange(4, 7) =~= scheme_sep());
    assert forall|j: int| 0 <= j < 4 implies !occurs_at(l, scheme_sep(), j) by {
        if occurs_at(l, scheme_sep(), j) {
            assert(l.subrange(j, j + 3)[0] == l[j]);
        }
    }
    lemma_find_at(l, scheme_sep(), 0, 4);
    assert(l.subrange(0, 4) =~= http());
    let r2 = l.subrange(7, l.len() as int);
    assert(r2 =~= h + p);
    // in what follows, the first '/' is the one that starts the path
    lemma_slash_at(r2, h.len() as int);
    assert forall|j: int| 0 <= j < h.len() implies !occurs_at(r2, slash(), j) by {
        lemma_slash_at(r2, j);
    }
    lemma_find_at(r2, slash(), 0, h.len() as int);
    assert(r2.subrange(0, h.len() as int) =~= h);
    assert(slash() + r2.subrange(h.len() as int + 1, r2.len() as int) =~= p);
}

} // verus!
