//! Reading an HTTP request: finding the end of its head, parsing the request
//! line and the header fields, and locating its body.
use vstd::prelude::*;
use crate::text::{
    chars_eq_ignore_ascii_case, chars_of, decode_lossy, eq_ignore_ascii_case, line_views, lines,
    parse_usize, parse_usize_chars, split_lines, split_once, split_once_chars, string_from_chars,
    trim, trim_chars, utf8_lossy,
};

verus! {

broadcast use vstd::string::group_string_axioms;

// ---------------------------------------------------------------------------
// Searching bytes
// ---------------------------------------------------------------------------

/// Whether `needle` occurs in `haystack` starting at index `i`.
pub open spec fn occurs_at(haystack: Seq<u8>, needle: Seq<u8>, i: int) -> bool {
    0 <= i && i + needle.len() <= haystack.len() && haystack.subrange(i, i + needle.len())
        == needle
}

/// Find the position of a subsequence in a byte slice: the least index at
/// which `needle` occurs in `haystack`, or `None` when it occurs nowhere.
pub fn find_subsequence(haystack: &[u8], needle: &[u8]) -> (r: Option<usize>)
    requires
        needle@.len() > 0,
    ensures
        match r {
            Some(i) => occurs_at(haystack@, needle@, i as int) && forall|j: int|
                0 <= j < i ==> !#[trigger] occurs_at(haystack@, needle@, j),
            None => forall|j: int| !#[trigger] occurs_at(haystack@, needle@, j),
        },
{
    let n: usize = needle.len();
    if haystack.len() < n {
        return None;
    }
    let last: usize = haystack.len() - n;
    let mut i: usize = 0;
    while i <= last
        invariant
            n == needle@.len(),
            n > 0,
            last + n == haystack@.len(),
            i <= last + 1,
            forall|j: int| 0 <= j < i ==> !#[trigger] occurs_at(haystack@, needle@, j),
        decreases last + 1 - i,
    {
        let mut k: usize = 0;
        let mut same = true;
        while k < n
            invariant
                n == needle@.len(),
                i <= last,
                last + n == haystack.len(),
                i + n <= haystack@.len(),
                k <= n,
                same == forall|m: int| 0 <= m < k ==> haystack@[i + m] == needle@[m],
            decreases n - k,
        {
            if haystack[i + k] != needle[k] {
                same = false;
            }
            k = k + 1;
        }
        if same {
            assert(haystack@.subrange(i as int, i + n) =~= needle@);
            return Some(i);
        }
        assert(!occurs_at(haystack@, needle@, i as int)) by {
            if occurs_at(haystack@, needle@, i as int) {
                assert forall|m: int| 0 <= m < n implies haystack@[i + m] == needle@[m] by {
                    assert(haystack@.subrange(i as int, i + n)[m] == haystack@[i + m]);
                }
            }
        }
        i = i + 1;
    }
    None
}

/// The bytes that end the head of a request: an empty line.
pub open spec fn head_terminator() -> Seq<u8> {
    seq![13u8, 10u8, 13u8, 10u8]
}

/// Whether `i` is where the head of the request in `data` ends: the first
/// place where `\r\n\r\n` occurs.
pub open spec fn is_head_end(data: Seq<u8>, i: int) -> bool {
    &&& occurs_at(data, head_terminator(), i)
    &&& forall|j: int| 0 <= j < i ==> !#[trigger] occurs_at(data, head_terminator(), j)
}

/// Where the head of the request in `data` ends, if it does.
pub open spec fn head_end_of(data: Seq<u8>) -> Option<int> {
    if exists|i: int| is_head_end(data, i) {
        Some(choose|i: int| is_head_end(data, i))
    } else {
        None
    }
}

/// There is at most one place where a head ends.
pub proof fn lemma_head_end_unique(data: Seq<u8>, a: int, b: int)
    requires
        is_head_end(data, a),
        is_head_end(data, b),
    ensures
        a == b,
{
    if a < b {
        assert(!occurs_at(data, head_terminator(), a));
    } else if b < a {
        assert(!occurs_at(data, head_terminator(), b));
    }
}

/// Where the head of a request ends: the index of the first `\r\n\r\n` in
/// `data`, if it holds one.
pub fn head_end(data: &[u8]) -> (r: Option<usize>)
    ensures
        match r {
            Some(i) => head_end_of(data@) == Some(i as int) && i + 4 <= data@.len(),
            None => head_end_of(data@) is None,
        },
{
    let terminator: [u8; 4] = [13u8, 10u8, 13u8, 10u8];
    assert(terminator@ =~= head_terminator());
    match find_subsequence(data, &terminator) {
        Some(e) => {
            proof {
                assert(is_head_end(data@, e as int));
                let c = choose|i: int| is_head_end(data@, i);
                lemma_head_end_unique(data@, c, e as int);
            }
            Some(e)
        },
        None => {
            proof {
                if exists|i: int| is_head_end(data@, i) {
                    let i = choose|i: int| is_head_end(data@, i);
                    assert(occurs_at(data@, head_terminator(), i));
                }
            }
            None
        },
    }
}

// ---------------------------------------------------------------------------
// The head of a request
// ---------------------------------------------------------------------------

/// The name of the header field that gives the length of the body.
pub open spec fn content_length_name() -> Seq<char> {
    seq!['c', 'o', 'n', 't', 'e', 'n', 't', '-', 'l', 'e', 'n', 'g', 't', 'h']
}

/// The header field that a line of the head holds: the text before and after
/// its first `:`, each trimmed. A line without `:` holds none.
pub open spec fn header_of_line(line: Seq<char>) -> Option<(Seq<char>, Seq<char>)> {
    match split_once(line, ':') {
        Some((k, v)) => Some((trim(k), trim(v))),
        None => None,
    }
}

/// The header fields held by `ls`, in order.
pub open spec fn header_fields(ls: Seq<Seq<char>>) -> Seq<(Seq<char>, Seq<char>)>
    decreases ls.len(),
{
    if ls.len() == 0 {
        Seq::empty()
    } else {
        let rest = header_fields(ls.drop_last());
        match header_of_line(ls.last()) {
            Some(h) => rest.push(h),
            None => rest,
        }
    }
}

/// The length of the body announced by the header fields `hs`: the last
/// `Content-Length` field (in any ASCII case) decides; a value that is not a
/// `usize`, or the absence of the field, means 0.
pub open spec fn content_length_of(hs: Seq<(Seq<char>, Seq<char>)>) -> usize
    decreases hs.len(),
{
    if hs.len() == 0 {
        0
    } else if eq_ignore_ascii_case(hs.last().0, content_length_name()) {
        match parse_usize(hs.last().1) {
            Some(n) => n,
            None => 0,
        }
    } else {
        content_length_of(hs.drop_last())
    }
}

/// The method and the request target of a request line: the text before its
/// first space, and the text after it up to the next space. A line without a
/// space is no request line.
pub open spec fn request_line_parts(line: Seq<char>) -> Option<(Seq<char>, Seq<char>)> {
    match split_once(line, ' ') {
        Some((m, rest)) => Some(
            (
                m,
                match split_once(rest, ' ') {
                    Some((t, _)) => t,
                    None => rest,
                },
            ),
        ),
        None => None,
    }
}

/// The path and the query of a request target, split at its first `?`.
pub open spec fn target_parts(t: Seq<char>) -> (Seq<char>, Seq<char>) {
    match split_once(t, '?') {
        Some((p, q)) => (p, q),
        None => (t, Seq::empty()),
    }
}

/// What the parser reads from the head of a request.
pub struct HeadView {
    pub method: Seq<char>,
    pub path: Seq<char>,
    pub query: Seq<char>,
    pub headers: Seq<(Seq<char>, Seq<char>)>,
    pub content_length: usize,
}

/// The head of a request, given as text: the request line is its first line
/// and each later line that holds a `:` is a header field. `None` when there
/// is no line, or the first line has no space.
pub open spec fn parse_head(text: Seq<char>) -> Option<HeadView> {
    let ls = lines(text);
    if ls.len() == 0 {
        None
    } else {
        match request_line_parts(ls[0]) {
            Some((m, t)) => {
                let hs = header_fields(ls.skip(1));
                Some(
                    HeadView {
                        method: m,
                        path: target_parts(t).0,
                        query: target_parts(t).1,
                        headers: hs,
                        content_length: content_length_of(hs),
                    },
                )
            },
            None => None,
        }
    }
}

/// The character sequences of a list of header fields.
pub open spec fn header_views(h: Seq<(String, String)>) -> Seq<(Seq<char>, Seq<char>)> {
    h.map_values(|p: (String, String)| (p.0@, p.1@))
}

/// The parsed head of an incoming request.
pub struct RequestHead {
    /// The method as written in the request line (e.g. "GET").
    pub method: String,
    /// The path of the request target.
    pub path: String,
    /// The query string of the request target, empty if none.
    pub query: String,
    /// The header fields, trimmed, in order.
    pub headers: Vec<(String, String)>,
    /// The announced length of the body.
    pub content_length: usize,
}

impl View for RequestHead {
    type V = HeadView;

    open spec fn view(&self) -> HeadView {
        HeadView {
            method: self.method@,
            path: self.path@,
            query: self.query@,
            headers: header_views(self.headers@),
            content_length: self.content_length,
        }
    }
}

fn content_length_chars() -> (v: Vec<char>)
    ensures
        v@ == content_length_name(),
{
    let mut v: Vec<char> = Vec::new();
    v.push('c');
    v.push('o');
    v.push('n');
    v.push('t');
    v.push('e');
    v.push('n');
    v.push('t');
    v.push('-');
    v.push('l');
    v.push('e');
    v.push('n');
    v.push('g');
    v.push('t');
    v.push('h');
    assert(v@ =~= content_length_name());
    v
}

/// Parse the head of a request, given as text.
pub fn parse_request_text(text: &str) -> (r: Option<RequestHead>)
    ensures
        match r {
            Some(h) => parse_head(text@) == Some(h@),
            None => parse_head(text@) is None,
        },
{
    let chars = chars_of(text);
    let ls = split_lines(&chars);
    let ghost lv = line_views(ls@);
    if ls.len() == 0 {
        return None;
    }
    let (method, rest) = match split_once_chars(&ls[0], ' ') {
        Some(p) => p,
        None => {
            return None;
        },
    };
    let target = match split_once_chars(&rest, ' ') {
        Some((t, _)) => t,
        None => rest,
    };
    let (path, query) = match split_once_chars(&target, '?') {
        Some(p) => p,
        None => (target, Vec::new()),
    };
    assert(request_line_parts(lv[0]) == Some((method@, target@)));
    assert(target_parts(target@) == (path@, query@));
    let name = content_length_chars();
    let mut headers: Vec<(String, String)> = Vec::new();
    let mut content_length: usize = 0;
    let mut k: usize = 1;
    assert(lv.subrange(1, 1) =~= Seq::<Seq<char>>::empty());
    while k < ls.len()
        invariant
            1 <= k <= ls.len(),
            lv == line_views(ls@),
            name@ == content_length_name(),
            header_views(headers@) == header_fields(lv.subrange(1, k as int)),
            content_length == content_length_of(header_fields(lv.subrange(1, k as int))),
        decreases ls.len() - k,
    {
        let ghost before = header_views(headers@);
        assert(lv.subrange(1, k + 1).drop_last() =~= lv.subrange(1, k as int));
        assert(lv.subrange(1, k + 1).last() == ls@[k as int]@);
        match split_once_chars(&ls[k], ':') {
            Some((key, value)) => {
                let key = trim_chars(&key);
                let value = trim_chars(&value);
                if chars_eq_ignore_ascii_case(&key, &name) {
                    content_length = match parse_usize_chars(&value) {
                        Some(n) => n,
                        None => 0,
                    };
                }
                let key_string = string_from_chars(&key);
                let value_string = string_from_chars(&value);
                headers.push((key_string, value_string));
                assert(header_views(headers@) =~= before.push((key@, value@)));
                assert(header_fields(lv.subrange(1, k + 1)) == before.push((key@, value@)));
                assert(before.push((key@, value@)).drop_last() =~= before);
                assert(content_length == content_length_of(before.push((key@, value@))));
            },
            None => {
                assert(header_fields(lv.subrange(1, k + 1)) == before);
            },
        }
        k = k + 1;
    }
    assert(lv.subrange(1, ls.len() as int) =~= lv.skip(1));
    let head = RequestHead {
        method: string_from_chars(&method),
        path: string_from_chars(&path),
        query: string_from_chars(&query),
        headers,
        content_length,
    };
    Some(head)
}

/// Parse the head of a request, given as the bytes before the empty line
/// that ends it; they are decoded as UTF-8 with invalid sequences replaced.
pub fn parse_request_head(head: &[u8]) -> (r: Option<RequestHead>)
    ensures
        match r {
            Some(h) => parse_head(utf8_lossy(head@)) == Some(h@),
            None => parse_head(utf8_lossy(head@)) is None,
        },
{
    let text = decode_lossy(head);
    parse_request_text(text.as_str())
}

/// What a recorded request holds, by character sequences.
pub struct RequestView {
    pub method: Seq<char>,
    pub path: Seq<char>,
    pub headers: Seq<(Seq<char>, Seq<char>)>,
    pub body: Seq<char>,
    pub query: Seq<char>,
}

/// A recorded incoming HTTP request.
#[derive(Debug, Clone)]
pub struct RecordedRequest {
    /// The HTTP method (e.g. "GET", "POST").
    pub method: String,
    /// The request path (e.g. "/api/users").
    pub path: String,
    /// Request headers as key-value pairs.
    pub headers: Vec<(String, String)>,
    /// The request body as a string.
    pub body: String,
    /// The query string (e.g. "foo=bar&baz=1"), empty if none.
    pub query: String,
}

impl View for RecordedRequest {
    type V = RequestView;

    open spec fn view(&self) -> RequestView {
        RequestView {
            method: self.method@,
            path: self.path@,
            headers: header_views(self.headers@),
            body: self.body@,
            query: self.query@,
        }
    }
}

/// A copy of a list of header fields.
pub fn copy_headers(h: &Vec<(String, String)>) -> (r: Vec<(String, String)>)
    ensures
        header_views(r@) == header_views(h@),
{
    let mut r: Vec<(String, String)> = Vec::new();
    let mut i: usize = 0;
    while i < h.len()
        invariant
            i <= h.len(),
            header_views(r@) == header_views(h@.take(i as int)),
        decreases h.len() - i,
    {
        let ghost before = header_views(r@);
        let k = h[i].0.clone();
        let v = h[i].1.clone();
        r.push((k, v));
        assert(header_views(r@) =~= before.push((h@[i as int].0@, h@[i as int].1@)));
        assert(header_views(h@.take(i + 1)) =~= header_views(h@.take(i as int)).push(
            (h@[i as int].0@, h@[i as int].1@),
        ));
        i = i + 1;
    }
    assert(h@.take(h.len() as int) =~= h@);
    r
}

impl RecordedRequest {
    /// A copy of this request.
    pub fn copy(&self) -> (r: RecordedRequest)
        ensures
            r@ == self@,
    {
        RecordedRequest {
            method: self.method.clone(),
            path: self.path.clone(),
            headers: copy_headers(&self.headers),
            body: self.body.clone(),
            query: self.query.clone(),
        }
    }
}

/// Where the body of a request ends in a buffer of `total` bytes whose body
/// starts at `body_start`: after the announced length, or at the end of the
/// buffer when fewer bytes arrived.
pub open spec fn body_end_spec(body_start: int, content_length: int, total: int) -> int {
    if body_start + content_length <= total {
        body_start + content_length
    } else {
        total
    }
}

/// The head and the body of the request in `data`: the head is the text
/// before the first empty line, decoded; the body is what follows, up to
/// its announced length, decoded.
pub open spec fn request_of(data: Seq<u8>) -> Option<(HeadView, Seq<char>)> {
    match head_end_of(data) {
        None => None,
        Some(e) => match parse_head(utf8_lossy(data.take(e))) {
            None => None,
            Some(h) => Some(
                (
                    h,
                    utf8_lossy(
                        data.subrange(e + 4, body_end_spec(e + 4, h.content_length as int, data.len() as int)),
                    ),
                ),
            ),
        },
    }
}

/// Where the body of a request ends in a buffer of `total` bytes.
pub fn body_end(body_start: usize, content_length: usize, total: usize) -> (r: usize)
    requires
        body_start <= total,
    ensures
        r == body_end_spec(body_start as int, content_length as int, total as int),
{
    if content_length <= total - body_start {
        body_start + content_length
    } else {
        total
    }
}


/// How far the bytes read from a connection are from a whole request.
pub enum ReadProgress {
    /// The head has not ended yet: read more.
    NeedHead,
    /// The head ended but holds no request line: close the connection.
    NoRequest,
    /// The head is complete and this many bytes of the body are missing.
    NeedBody(usize),
    /// The head and the body announced by it are complete.
    Complete,
}

/// How far `data`, the bytes read so far, is from a whole request.
pub fn read_progress(data: &[u8]) -> (p: ReadProgress)
    ensures
        match p {
            ReadProgress::NeedHead => head_end_of(data@) is None,
            ReadProgress::NoRequest => head_end_of(data@) matches Some(e) && parse_head(
                utf8_lossy(data@.take(e)),
            ) is None,
            ReadProgress::NeedBody(n) => head_end_of(data@) matches Some(e) && parse_head(
                utf8_lossy(data@.take(e)),
            ) matches Some(h) && data@.len() < e + 4 + h.content_length && n == e + 4
                + h.content_length - data@.len(),
            ReadProgress::Complete => head_end_of(data@) matches Some(e) && parse_head(
                utf8_lossy(data@.take(e)),
            ) matches Some(h) && e + 4 + h.content_length <= data@.len(),
        },
{
    let end: usize = match head_end(data) {
        Some(e) => e,
        None => {
            return ReadProgress::NeedHead;
        },
    };
    let head_bytes = vstd::slice::slice_subrange(data, 0, end);
    assert(head_bytes@ =~= data@.take(end as int));
    let head = match parse_request_head(head_bytes) {
        Some(h) => h,
        None => {
            return ReadProgress::NoRequest;
        },
    };
    let received: usize = data.len() - (end + 4);
    if head.content_length <= received {
        ReadProgress::Complete
    } else {
        ReadProgress::NeedBody(head.content_length - received)
    }
}

} // verus!
