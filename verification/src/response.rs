//! Writing responses and the text that the server shows of itself.
use vstd::prelude::*;
use crate::method::method_name;
use crate::mock::{MockResponse, MockView, ResponseView, ServerState};
use crate::request::header_views;
use crate::status::{reason_phrase, status_reason};
use crate::text::{decimal, decimal_string};

verus! {

broadcast use vstd::string::group_string_axioms;

/// The number of bytes of the UTF-8 encoding of `s`.
pub open spec fn byte_len(s: Seq<char>) -> usize {
    vstd::utf8::encode_utf8(s).len() as usize
}

/// The header lines of a response: `name: value` and CRLF for each field.
pub open spec fn header_lines(hs: Seq<(Seq<char>, Seq<char>)>) -> Seq<char>
    decreases hs.len(),
{
    if hs.len() == 0 {
        Seq::empty()
    } else {
        header_lines(hs.drop_last()) + hs.last().0 + ": "@ + hs.last().1 + "\r\n"@
    }
}

/// The head of a response, up to and including the empty line: the status
/// line, `Content-Length` with the byte length of the body, then the fields.
pub open spec fn response_head(r: ResponseView) -> Seq<char> {
    "HTTP/1.1 "@ + decimal(r.status as nat) + " "@ + reason_phrase(r.status)
        + "\r\nContent-Length: "@ + decimal(byte_len(r.body) as nat) + "\r\n"@ + header_lines(
        r.headers,
    ) + "\r\n"@
}

/// The text of a response: its head, then its body.
pub open spec fn response_text(r: ResponseView) -> Seq<char> {
    response_head(r) + r.body
}

impl MockResponse {
    /// The text of the response, as it is sent.
    pub fn render(&self) -> (s: String)
        ensures
            s@ == response_text(self@),
    {
        let mut s = String::from_str("HTTP/1.1 ");
        s.append(decimal_string(self.status as usize).as_str());
        s.append(" ");
        s.append(status_reason(self.status));
        s.append("\r\nContent-Length: ");
        let n: usize = self.body.as_str().len();
        s.append(decimal_string(n).as_str());
        s.append("\r\n");
        let ghost prefix = s@;
        let mut i: usize = 0;
        while i < self.headers.len()
            invariant
                i <= self.headers.len(),
                s@ == prefix + header_lines(header_views(self.headers@).take(i as int)),
            decreases self.headers.len() - i,
        {
            let ghost hs = header_views(self.headers@);
            assert(hs.take(i + 1).drop_last() =~= hs.take(i as int));
            s.append(self.headers[i].0.as_str());
            s.append(": ");
            s.append(self.headers[i].1.as_str());
            s.append("\r\n");
            i = i + 1;
        }
        assert(header_views(self.headers@).take(self.headers.len() as int) =~= header_views(
            self.headers@,
        ));
        s.append("\r\n");
        s.append(self.body.as_str());
        s
    }
}

/// The base URL of a server listening on `port` of the loopback address.
pub open spec fn url_of(port: u16) -> Seq<char> {
    "http://127.0.0.1:"@ + decimal(port as nat)
}

/// Returns the base URL of a mock server on `port` (e.g.
/// `http://127.0.0.1:12345`).
pub fn server_url(port: u16) -> (s: String)
    ensures
        s@ == url_of(port),
{
    let mut s = String::from_str("http://127.0.0.1:");
    s.append(decimal_string(port as usize).as_str());
    s
}

/// Whether mock `m` was expected a number of times and was called otherwise.
pub open spec fn expectation_unmet(m: MockView) -> bool {
    match m.times {
        Some(t) => t != m.call_count,
        None => false,
    }
}

/// The warning for a mock whose expected call count was not met.
pub open spec fn expectation_message(m: MockView) -> Seq<char> {
    "Mock expectation failed: "@ + method_name(m.method) + " "@ + m.path + " expected "@
        + decimal(m.times.unwrap() as nat) + " calls, got "@ + decimal(m.call_count as nat)
}

/// The warnings for the mocks `ms`, in order.
pub open spec fn unmet_messages(ms: Seq<MockView>) -> Seq<Seq<char>>
    decreases ms.len(),
{
    if ms.len() == 0 {
        Seq::empty()
    } else if expectation_unmet(ms.last()) {
        unmet_messages(ms.drop_last()).push(expectation_message(ms.last()))
    } else {
        unmet_messages(ms.drop_last())
    }
}

/// The character sequences of a list of strings.
pub open spec fn string_views(v: Seq<String>) -> Seq<Seq<char>> {
    v.map_values(|s: String| s@)
}

impl ServerState {
    /// The warnings to print when the server stops: one for each mock whose
    /// expected call count differs from the calls it answered.
    pub fn unmet_expectations(&self) -> (r: Vec<String>)
        ensures
            string_views(r@) == unmet_messages(self@.mocks),
    {
        let mut r: Vec<String> = Vec::new();
        let mut i: usize = 0;
        let n = self.mock_count();
        while i < n
            invariant
                i <= n,
                n == self@.mocks.len(),
                string_views(r@) == unmet_messages(self@.mocks.take(i as int)),
            decreases n - i,
        {
            let ghost ms = self@.mocks;
            assert(ms.take(i + 1).drop_last() =~= ms.take(i as int));
            let (m, path, times, count) = self.expectation(i);
            match times {
                Some(t) => {
                    if t != count {
                        let ghost before = string_views(r@);
                        let mut msg = String::from_str("Mock expectation failed: ");
                        msg.append(m.as_str());
                        msg.append(" ");
                        msg.append(path);
                        msg.append(" expected ");
                        msg.append(decimal_string(t).as_str());
                        msg.append(" calls, got ");
                        msg.append(decimal_string(count).as_str());
                        let ghost text = msg@;
                        r.push(msg);
                        assert(string_views(r@) =~= before.push(text));
                    }
                },
                None => {},
            }
            i = i + 1;
        }
        assert(self@.mocks.take(n as int) =~= self@.mocks);
        r
    }
}

} // verus!
