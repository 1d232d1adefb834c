use vstd::prelude::*;

use crate::headers::Headers;
use crate::text::{
    chars_of, find, find_exec, occurs_at, lemma_find_from, lower_of, lowercase, push_range, slice_of,
    string_of, trim_start, trim_start_of,
};

verus! {

/// What separates the fields of a status line.
pub open spec fn space() -> Seq<char> {
    seq![' ']
}

/// What separates a header's name from its value.
pub open spec fn colon() -> Seq<char> {
    seq![':']
}

/// A line without the '\r' that ends it, if one does.
pub open spec fn strip_cr(line: Seq<char>) -> Seq<char> {
    if line.len() > 0 && line.last() == '\r' {
        line.drop_last()
    } else {
        line
    }
}

/// The lines of `s[start..]`, where the line being read began at `start` and `s[start..i]`
/// holds no '\n'. A line ends at '\n', and at a "\r\n" that is dropped with it; a last line
/// without an end is kept, an empty one after the last '\n' is not.
pub open spec fn lines_acc(s: Seq<char>, start: int, i: int) -> Seq<Seq<char>>
    decreases s.len() - i,
{
    if i < 0 || i >= s.len() {
        if 0 <= start < s.len() {
            seq![s.subrange(start, s.len() as int)]
        } else {
            seq![]
        }
    } else if s[i] == '\n' {
        seq![strip_cr(s.subrange(start, i))] + lines_acc(s, i + 1, i + 1)
    } else {
        lines_acc(s, start, i + 1)
    }
}

/// The lines of a text.
pub open spec fn lines_of(s: Seq<char>) -> Seq<Seq<char>> {
    lines_acc(s, 0, 0)
}

/// The index of the first empty line at or after `i`, or the number of lines.
pub open spec fn blank_from(lines: Seq<Seq<char>>, i: int) -> int
    decreases lines.len() - i,
{
    if i < 0 || i >= lines.len() {
        lines.len() as int
    } else if lines[i].len() == 0 {
        i
    } else {
        blank_from(lines, i + 1)
    }
}

/// Where the header lines, which start after the status line, end.
pub open spec fn header_end(lines: Seq<Seq<char>>) -> int {
    blank_from(lines, 1)
}

/// The field that a header line gives: its name before the first ':', lower-cased, and its
/// value after it, with leading whitespace trimmed.
pub open spec fn header_field(line: Seq<char>) -> Option<(Seq<char>, Seq<char>)> {
    let c = find(line, colon());
    if c < 0 {
        None
    } else {
        Some((lower_of(line.subrange(0, c)), trim_start_of(line.subrange(c + 1, line.len() as int))))
    }
}

/// The headers that lines `1..n` give; a line without ':' is skipped, and a later field
/// overwrites an earlier one of the same name.
pub open spec fn headers_of(lines: Seq<Seq<char>>, n: int) -> Map<Seq<char>, Seq<char>>
    decreases n,
{
    if n <= 1 {
        Map::empty()
    } else {
        match header_field(lines[n - 1]) {
            Some(f) => headers_of(lines, n - 1).insert(f.0, f.1),
            None => headers_of(lines, n - 1),
        }
    }
}

/// Lines `from..to` joined without separators.
pub open spec fn joined(lines: Seq<Seq<char>>, from: int, to: int) -> Seq<char>
    decreases to - from,
{
    if to <= from {
        seq![]
    } else {
        joined(lines, from, to - 1) + lines[to - 1]
    }
}

/// Why a response was refused.
#[derive(Debug, Clone, Copy, PartialEq, Eq, Structural)]
pub enum ResponseError {
    /// The response holds no line at all.
    MissingStatusline,
    /// The status line holds no status code.
    MissingStatus,
    /// A Transfer-Encoding header is present: such bodies are not decoded.
    TransferEncodingUnsupported,
    /// A Content-Encoding header is present: such bodies are not decoded.
    ContentEncodingUnsupported,
}

/// Version, status code, reason, headers and body of a response.
pub type ResponseModel = (Seq<char>, Seq<char>, Seq<char>, Map<Seq<char>, Seq<char>>, Seq<char>);

/// What a raw response parses to. The status line splits at its first two spaces into
/// version, status code and reason (empty where there is no second space). Header lines
/// follow up to the first empty line, or to the end; what follows that empty line, its lines
/// joined, is the body. A response with a Transfer-Encoding or Content-Encoding header is
/// refused.
pub open spec fn response_spec(raw: Seq<char>) -> Result<ResponseModel, ResponseError> {
    let lines = lines_of(raw);
    if lines.len() == 0 {
        Err(ResponseError::MissingStatusline)
    } else {
        let st = lines[0];
        let i = find(st, space());
        if i < 0 {
            Err(ResponseError::MissingStatus)
        } else {
            let version = st.subrange(0, i);
            let tail = st.subrange(i + 1, st.len() as int);
            let j = find(tail, space());
            let status = if j < 0 {
                tail
            } else {
                tail.subrange(0, j)
            };
            let reason = if j < 0 {
                seq![]
            } else {
                tail.subrange(j + 1, tail.len() as int)
            };
            let e = header_end(lines);
            let h = headers_of(lines, e);
            if h.contains_key("transfer-encoding"@) {
                Err(ResponseError::TransferEncodingUnsupported)
            } else if h.contains_key("content-encoding"@) {
                Err(ResponseError::ContentEncodingUnsupported)
            } else {
                Ok((version, status, reason, h, joined(lines, e + 1, lines.len() as int)))
            }
        }
    }
}

/// The characters of each line.
pub open spec fn lines_view(lines: Seq<Vec<char>>) -> Seq<Seq<char>> {
    lines.map_values(|l: Vec<char>| l@)
}

/// Splits a text into its lines.
pub fn split_lines(s: &Vec<char>) -> (r: Vec<Vec<char>>)
    ensures
        lines_view(r@) == lines_of(s@),
{
    let mut out: Vec<Vec<char>> = Vec::new();
    let mut start: usize = 0;
    let mut i: usize = 0;
    while i < s.len()
        invariant
            start <= i <= s.len(),
            lines_view(out@) + lines_acc(s@, start as int, i as int) == lines_of(s@),
        decreases s.len() - i,
    {
        if s[i] == '\n' {
            let end: usize = if i > start && s[i - 1] == '\r' {
                i - 1
            } else {
                i
            };
            let line = slice_of(s, start, end);
            assert(line@ == strip_cr(s@.subrange(start as int, i as int)));
            let ghost before = out@;
            out.push(line);
            assert(lines_view(out@) == lines_view(before).push(line@));
            assert(lines_view(out@) + lines_acc(s@, i + 1, i + 1) == lines_view(before) + (
            seq![line@] + lines_acc(s@, i + 1, i + 1)));
            start = i + 1;
        }
        i = i + 1;
    }
    if start < s.len() {
        let line = slice_of(s, start, s.len());
        let ghost before = out@;
        out.push(line);
        assert(lines_view(out@) == lines_view(before).push(line@));
    } else {
        assert(lines_view(out@) + seq![] == lines_view(out@));
    }
    out
}

/// A parsed response.
pub struct ParsedResponse {
    pub version: String,
    pub status_code: String,
    pub reason: String,
    pub headers: Headers,
    pub body: String,
}

impl View for ParsedResponse {
    type V = ResponseModel;

    open spec fn view(&self) -> ResponseModel {
        (self.version@, self.status_code@, self.reason@, self.headers@, self.body@)
    }
}

/// Parses a raw response into status line, headers and body, refusing those whose body is
/// transfer- or content-encoded.
pub fn parse_response(raw: &str) -> (r: Result<ParsedResponse, ResponseError>)
    ensures
        match r {
            Ok(p) => response_spec(raw@) == Ok::<ResponseModel, ResponseError>(p@) && p.headers.wf(),
            Err(e) => response_spec(raw@) == Err::<ResponseModel, ResponseError>(e),
        },
{
    let s = chars_of(raw);
    let lines = split_lines(&s);
    let ghost ls = lines_view(lines@);
    if lines.len() == 0 {
        return Err(ResponseError::MissingStatusline);
    }
    let st = &lines[0];
    assert(st@ == ls[0]);
    let space_chars: Vec<char> = vec![' '];
    assert(space_chars@ == space());
    let i = match find_exec(st, &space_chars, 0) {
        Some(i) => i,
        None => {
            return Err(ResponseError::MissingStatus);
        },
    };
    proof {
        lemma_find_from(st@, space(), 0);
    }
    assert(occurs_at(st@, space(), i as int));
    let st_len = st.len();
    assert(i < st_len);
    let version = slice_of(st, 0, i);
    let tail = slice_of(st, i + 1, st_len);
    let (status, reason) = match find_exec(&tail, &space_chars, 0) {
        Some(j) => {
            proof {
                lemma_find_from(tail@, space(), 0);
            }
            (slice_of(&tail, 0, j), slice_of(&tail, j + 1, tail.len()))
        },
        None => {
            assert(tail@.subrange(0, tail@.len() as int) == tail@);
            (slice_of(&tail, 0, tail.len()), Vec::new())
        },
    };
    let colon_chars: Vec<char> = vec![':'];
    assert(colon_chars@ == colon());
    let mut headers = Headers::new();
    let mut n: usize = 1;
    while n < lines.len() && lines[n].len() != 0
        invariant
            1 <= n <= lines@.len(),
            ls == lines_view(lines@),
            colon_chars@ == colon(),
            header_end(ls) == blank_from(ls, n as int),
            headers.wf(),
            headers@ == headers_of(ls, n as int),
        decreases lines.len() - n,
    {
        let line = &lines[n];
        assert(line@ == ls[n as int]);
        match find_exec(line, &colon_chars, 0) {
            Some(c) => {
                proof {
                    lemma_find_from(line@, colon(), 0);
                }
                let name = lowercase(&slice_of(line, 0, c));
                let value = trim_start(&slice_of(line, c + 1, line.len()));
                headers.insert(name, value);
            },
            None => {},
        }
        n = n + 1;
    }
    if headers.contains(&chars_of("transfer-encoding")) {
        return Err(ResponseError::TransferEncodingUnsupported);
    }
    if headers.contains(&chars_of("content-encoding")) {
        return Err(ResponseError::ContentEncodingUnsupported);
    }
    let mut body: Vec<char> = Vec::new();
    let mut k: usize = if n < lines.len() {
        n + 1
    } else {
        n
    };
    while k < lines.len()
        invariant
            n <= k <= lines@.len(),
            n < lines@.len() ==> n + 1 <= k,
            n <= lines@.len(),
            ls == lines_view(lines@),
            body@ == joined(ls, n + 1, k as int),
        decreases lines.len() - k,
    {
        assert(lines@[k as int]@ == ls[k as int]);
        push_range(&mut body, &lines[k], 0, lines[k].len());
        assert(lines@[k as int]@.subrange(0, lines@[k as int]@.len() as int) == lines@[k as int]@);
        k = k + 1;
    }
    Ok(
        ParsedResponse {
            version: string_of(&version),
            status_code: string_of(&status),
            reason: string_of(&reason),
            headers,
            body: string_of(&body),
        },
    )
}

/// A field that a header line before `n` gives is named in the headers of lines `1..n`.
proof fn lemma_headers_hold(lines: Seq<Seq<char>>, n: int, m: int)
    requires
        1 <= m < n,
        header_field(lines[m]) is Some,
    ensures
        headers_of(lines, n).contains_key(header_field(lines[m]).unwrap().0),
    decreases n,
{
    if m < n - 1 {
        lemma_headers_hold(lines, n - 1, m);
    }
}

/// A response with a Transfer-Encoding header among its headers is refused, whatever the
/// header's value.
pub proof fn law_transfer_encoding_refused(raw: Seq<char>, m: int)
    requires
        lines_of(raw).len() > 0,
        find(lines_of(raw)[0], space()) >= 0,
        1 <= m < header_end(lines_of(raw)),
        header_field(lines_of(raw)[m]) is Some,
        header_field(lines_of(raw)[m]).unwrap().0 == "transfer-encoding"@,
    ensures
        response_spec(raw) == Err::<ResponseModel, ResponseError>(
            ResponseError::TransferEncodingUnsupported,
        ),
{
    lemma_headers_hold(lines_of(raw), header_end(lines_of(raw)), m);
}

} // verus!
