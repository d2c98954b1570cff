//! Mocks and the registry that answers requests with them.
use vstd::prelude::*;
use std::time::Duration;
use crate::method::{read_upper_name, uppercase, Method};
use crate::request::{
    body_end, copy_headers, head_end, header_views, parse_request_head, request_of, HeadView,
    RecordedRequest, RequestHead, RequestView,
};
use crate::text::decode_lossy;

verus! {

broadcast use vstd::string::group_string_axioms;

// ---------------------------------------------------------------------------
// Mock definitions
// ---------------------------------------------------------------------------

/// What a mock holds: what it answers, how, and how often it has answered.
pub struct MockView {
    pub method: Method,
    pub path: Seq<char>,
    pub status: u16,
    pub headers: Seq<(Seq<char>, Seq<char>)>,
    pub body: Option<Seq<char>>,
    pub delay: Option<Duration>,
    pub times: Option<usize>,
    pub call_count: usize,
}

/// A registered mock, used for matching and responding.
pub struct MockDefinition {
    pub method: Method,
    pub path: String,
    pub status: u16,
    pub headers: Vec<(String, String)>,
    pub body: Option<String>,
    pub delay: Option<Duration>,
    pub times: Option<usize>,
    pub call_count: usize,
}

/// The character sequence held by an optional string.
pub open spec fn opt_view(s: Option<String>) -> Option<Seq<char>> {
    match s {
        Some(t) => Some(t@),
        None => None,
    }
}

impl View for MockDefinition {
    type V = MockView;

    open spec fn view(&self) -> MockView {
        MockView {
            method: self.method,
            path: self.path@,
            status: self.status,
            headers: header_views(self.headers@),
            body: opt_view(self.body),
            delay: self.delay,
            times: self.times,
            call_count: self.call_count,
        }
    }
}

/// The views of a list of mocks.
pub open spec fn mock_views(v: Seq<MockDefinition>) -> Seq<MockView> {
    v.map_values(|m: MockDefinition| m@)
}

fn copy_opt_string(s: &Option<String>) -> (r: Option<String>)
    ensures
        opt_view(r) == opt_view(*s),
{
    match s {
        Some(t) => Some(t.clone()),
        None => None,
    }
}

/// `serde_json::Value`, carried through opaquely: only its text is used.
#[verifier::external_type_specification]
#[verifier::external_body]
pub struct ExJsonValue(serde_json::Value);

// ---------------------------------------------------------------------------
// The builder
// ---------------------------------------------------------------------------

/// The header field that marks a JSON body.
pub open spec fn json_content_type() -> (Seq<char>, Seq<char>) {
    ("Content-Type"@, "application/json"@)
}

/// Fluent builder for configuring a mock response.
pub struct MockBuilder {
    method: Method,
    path: String,
    status: u16,
    headers: Vec<(String, String)>,
    body: Option<String>,
    delay: Option<Duration>,
    times: Option<usize>,
}

impl View for MockBuilder {
    type V = MockView;

    /// The mock that `create` registers.
    closed spec fn view(&self) -> MockView {
        MockView {
            method: self.method,
            path: self.path@,
            status: self.status,
            headers: header_views(self.headers@),
            body: opt_view(self.body),
            delay: self.delay,
            times: self.times,
            call_count: 0,
        }
    }
}

impl MockBuilder {
    /// Begin building a mock for the given HTTP method and path: status 200,
    /// no headers, no body, no delay, no expected call count.
    pub fn new(method: Method, path: &str) -> (b: MockBuilder)
        ensures
            b@ == (MockView {
                method,
                path: path@,
                status: 200,
                headers: Seq::empty(),
                body: None,
                delay: None,
                times: None,
                call_count: 0,
            }),
    {
        let b = MockBuilder {
            method,
            path: String::from_str(path),
            status: 200,
            headers: Vec::new(),
            body: None,
            delay: None,
            times: None,
        };
        assert(header_views(b.headers@) =~= Seq::empty());
        b
    }

    /// Set the HTTP response status code.
    pub fn with_status(self, code: u16) -> (b: MockBuilder)
        ensures
            b@ == (MockView { status: code, ..self@ }),
    {
        let mut b = self;
        b.status = code;
        b
    }

    /// Set the response body as a plain string.
    pub fn with_body(self, body: &str) -> (b: MockBuilder)
        ensures
            b@ == (MockView { body: Some(body@), ..self@ }),
    {
        let mut b = self;
        b.body = Some(String::from_str(body));
        b
    }

    /// Set the response body to the text of a JSON value and add
    /// `Content-Type: application/json`.
    pub fn with_json_text(self, json: &str) -> (b: MockBuilder)
        ensures
            b@ == (MockView {
                body: Some(json@),
                headers: self@.headers.push(json_content_type()),
                ..self@
            }),
    {
        let mut b = self;
        let ghost before = header_views(b.headers@);
        b.body = Some(String::from_str(json));
        b.headers.push((String::from_str("Content-Type"), String::from_str("application/json")));
        assert(header_views(b.headers@) =~= before.push(json_content_type()));
        b
    }

    /// Set the response body to a JSON value, written in compact form, and
    /// add `Content-Type: application/json`.
    pub fn with_json(self, value: serde_json::Value) -> (b: MockBuilder)
        ensures
            exists|text: String|
                vstd::string::to_string_from_display_ensures::<serde_json::Value>(&value, text)
                    && b@ == (MockView {
                    body: Some(text@),
                    headers: self@.headers.push(json_content_type()),
                    ..self@
                }),
    {
        let text = value.to_string();
        self.with_json_text(text.as_str())
    }

    /// Add a custom response header.
    pub fn with_header(self, key: &str, value: &str) -> (b: MockBuilder)
        ensures
            b@ == (MockView { headers: self@.headers.push((key@, value@)), ..self@ }),
    {
        let mut b = self;
        let ghost before = header_views(b.headers@);
        b.headers.push((String::from_str(key), String::from_str(value)));
        assert(header_views(b.headers@) =~= before.push((key@, value@)));
        b
    }

    /// Add a delay before the server sends the response.
    pub fn with_delay(self, duration: Duration) -> (b: MockBuilder)
        ensures
            b@ == (MockView { delay: Some(duration), ..self@ }),
    {
        let mut b = self;
        b.delay = Some(duration);
        b
    }

    /// Expect this mock to be called exactly `times` times; once it has
    /// answered that often it answers no more.
    pub fn expect(self, times: usize) -> (b: MockBuilder)
        ensures
            b@ == (MockView { times: Some(times), ..self@ }),
    {
        let mut b = self;
        b.times = Some(times);
        b
    }

    /// Register the mock on the registry, after those registered before.
    pub fn create(&self, state: &mut ServerState)
        ensures
            final(state)@ == (StateView { mocks: old(state)@.mocks.push(self@), ..old(state)@ }),
    {
        let definition = MockDefinition {
            method: self.method,
            path: self.path.clone(),
            status: self.status,
            headers: copy_headers(&self.headers),
            body: copy_opt_string(&self.body),
            delay: self.delay,
            times: self.times,
            call_count: 0,
        };
        state.register(definition);
    }
}

// ---------------------------------------------------------------------------
// Answering requests
// ---------------------------------------------------------------------------

/// What a response holds.
pub struct ResponseView {
    pub status: u16,
    pub headers: Seq<(Seq<char>, Seq<char>)>,
    pub body: Seq<char>,
    pub delay: Option<Duration>,
}

/// The response to send for a request: status, header fields, body, and the
/// delay to wait before sending it.
pub struct MockResponse {
    pub status: u16,
    pub headers: Vec<(String, String)>,
    pub body: String,
    pub delay: Option<Duration>,
}

impl View for MockResponse {
    type V = ResponseView;

    open spec fn view(&self) -> ResponseView {
        ResponseView {
            status: self.status,
            headers: header_views(self.headers@),
            body: self.body@,
            delay: self.delay,
        }
    }
}

/// Whether mock `m` answers a request with the (parsed) method and path: the
/// method and path are equal, and an expected call count is not used up.
pub open spec fn serves(m: MockView, method: Option<Method>, path: Seq<char>) -> bool {
    &&& method == Some(m.method)
    &&& m.path == path
    &&& match m.times {
        Some(t) => m.call_count < t,
        None => true,
    }
}

/// The first mock, in order of registration, that answers the request.
pub open spec fn first_serving(ms: Seq<MockView>, method: Option<Method>, path: Seq<char>) -> Option<
    int,
>
    decreases ms.len(),
{
    if ms.len() == 0 {
        None
    } else {
        match first_serving(ms.drop_last(), method, path) {
            Some(i) => Some(i),
            None => if serves(ms.last(), method, path) {
                Some(ms.len() - 1)
            } else {
                None
            },
        }
    }
}

/// `first_serving` gives the least index of a mock that serves the request.
pub proof fn lemma_first_serving(ms: Seq<MockView>, method: Option<Method>, path: Seq<char>)
    ensures
        match first_serving(ms, method, path) {
            Some(i) => 0 <= i < ms.len() && serves(ms[i], method, path) && forall|j: int|
                0 <= j < i ==> !#[trigger] serves(ms[j], method, path),
            None => forall|j: int| 0 <= j < ms.len() ==> !#[trigger] serves(ms[j], method, path),
        },
    decreases ms.len(),
{
    if ms.len() > 0 {
        lemma_first_serving(ms.drop_last(), method, path);
        assert(forall|j: int| 0 <= j < ms.len() - 1 ==> ms.drop_last()[j] == ms[j]);
    }
}

/// The answer when no mock serves a request.
pub open spec fn not_found_response() -> ResponseView {
    ResponseView { status: 404, headers: Seq::empty(), body: "No mock matched"@, delay: None }
}

/// The answer that mock `m` gives; a mock without a body answers an empty one.
pub open spec fn mock_response(m: MockView) -> ResponseView {
    ResponseView {
        status: m.status,
        headers: m.headers,
        body: match m.body {
            Some(b) => b,
            None => Seq::empty(),
        },
        delay: m.delay,
    }
}

/// Mock `m` after answering once more.
pub open spec fn answered(m: MockView) -> MockView {
    MockView { call_count: (m.call_count + 1) as usize, ..m }
}

/// The mocks after answering a request, and the answer: the first mock that
/// serves it answers and counts the call; without one, the answer is 404.
pub open spec fn respond_spec(ms: Seq<MockView>, method: Option<Method>, path: Seq<char>) -> (
    Seq<MockView>,
    ResponseView,
) {
    match first_serving(ms, method, path) {
        Some(i) => (ms.update(i, answered(ms[i])), mock_response(ms[i])),
        None => (ms, not_found_response()),
    }
}

/// Whether every call count can still grow by one.
pub open spec fn counts_below_max(ms: Seq<MockView>) -> bool {
    forall|i: int| 0 <= i < ms.len() ==> #[trigger] ms[i].call_count < usize::MAX
}

/// The method that a request names, read in any case; `None` if none.
pub open spec fn request_method(method: Seq<char>) -> Option<Method> {
    match read_upper_name(uppercase(method)) {
        Ok(m) => Some(m),
        Err(_) => None,
    }
}

/// The record of a request with head `h` and body `body`.
pub open spec fn recorded(h: HeadView, body: Seq<char>) -> RequestView {
    RequestView { method: h.method, path: h.path, headers: h.headers, body, query: h.query }
}

/// The registry after a request with head `h` and body `body`, and the
/// answer: the request is recorded, then answered.
pub open spec fn dispatch_spec(s: StateView, h: HeadView, body: Seq<char>) -> (
    StateView,
    ResponseView,
) {
    let (ms, r) = respond_spec(s.mocks, request_method(h.method), h.path);
    (StateView { mocks: ms, requests: s.requests.push(recorded(h, body)) }, r)
}

// ---------------------------------------------------------------------------
// The registry
// ---------------------------------------------------------------------------

/// The registered mocks, in order, and the recorded requests, in order.
pub struct StateView {
    pub mocks: Seq<MockView>,
    pub requests: Seq<RequestView>,
}

/// The state of a mock server: its mocks and the requests it received.
pub struct ServerState {
    mocks: Vec<MockDefinition>,
    requests: Vec<RecordedRequest>,
}

/// The views of a list of recorded requests.
pub open spec fn request_views(v: Seq<RecordedRequest>) -> Seq<RequestView> {
    v.map_values(|r: RecordedRequest| r@)
}

impl View for ServerState {
    type V = StateView;

    closed spec fn view(&self) -> StateView {
        StateView { mocks: mock_views(self.mocks@), requests: request_views(self.requests@) }
    }
}

impl ServerState {
    /// A registry without mocks or requests.
    pub fn new() -> (s: ServerState)
        ensures
            s@ == (StateView { mocks: Seq::empty(), requests: Seq::empty() }),
    {
        let s = ServerState { mocks: Vec::new(), requests: Vec::new() };
        assert(mock_views(s.mocks@) =~= Seq::empty());
        assert(request_views(s.requests@) =~= Seq::empty());
        s
    }

    fn register(&mut self, definition: MockDefinition)
        ensures
            final(self)@ == (StateView {
                mocks: old(self)@.mocks.push(definition@),
                ..old(self)@
            }),
    {
        let ghost before = mock_views(self.mocks@);
        self.mocks.push(definition);
        assert(mock_views(self.mocks@) =~= before.push(definition@));
    }

    /// Returns a snapshot of all recorded requests, in the order received.
    pub fn requests(&self) -> (r: Vec<RecordedRequest>)
        ensures
            request_views(r@) == self@.requests,
    {
        let mut r: Vec<RecordedRequest> = Vec::new();
        let mut i: usize = 0;
        while i < self.requests.len()
            invariant
                i <= self.requests.len(),
                request_views(r@) == request_views(self.requests@.take(i as int)),
            decreases self.requests.len() - i,
        {
            let ghost before = request_views(r@);
            let c = self.requests[i].copy();
            r.push(c);
            assert(request_views(r@) =~= before.push(self.requests@[i as int]@));
            assert(request_views(self.requests@.take(i + 1)) =~= request_views(
                self.requests@.take(i as int),
            ).push(self.requests@[i as int]@));
            i = i + 1;
        }
        assert(self.requests@.take(self.requests.len() as int) =~= self.requests@);
        r
    }

    /// Clear all registered mocks and recorded requests.
    pub fn reset(&mut self)
        ensures
            final(self)@ == (StateView { mocks: Seq::empty(), requests: Seq::empty() }),
    {
        self.mocks = Vec::new();
        self.requests = Vec::new();
        assert(mock_views(self.mocks@) =~= Seq::empty());
        assert(request_views(self.requests@) =~= Seq::empty());
    }

    /// Whether every call count can still grow by one.
    pub fn counts_below_max(&self) -> (b: bool)
        ensures
            b == counts_below_max(self@.mocks),
    {
        let mut i: usize = 0;
        while i < self.mocks.len()
            invariant
                i <= self.mocks.len(),
                forall|j: int| 0 <= j < i ==> #[trigger] self.mocks@[j].call_count < usize::MAX,
            decreases self.mocks.len() - i,
        {
            if self.mocks[i].call_count == usize::MAX {
                assert(mock_views(self.mocks@)[i as int].call_count == usize::MAX);
                return false;
            }
            i = i + 1;
        }
        assert forall|j: int| 0 <= j < self@.mocks.len() implies #[trigger] self@.mocks[j].call_count
            < usize::MAX by {
            assert(mock_views(self.mocks@)[j] == self.mocks@[j]@);
        }
        true
    }

    /// The number of registered mocks.
    pub fn mock_count(&self) -> (n: usize)
        ensures
            n == self@.mocks.len(),
    {
        self.mocks.len()
    }

    /// What mock `i` was registered for and how often it answered: its method,
    /// its path, its expected call count and its call count.
    pub fn expectation(&self, i: usize) -> (r: (Method, &str, Option<usize>, usize))
        requires
            i < self@.mocks.len(),
        ensures
            r.0 == self@.mocks[i as int].method,
            r.1@ == self@.mocks[i as int].path,
            r.2 == self@.mocks[i as int].times,
            r.3 == self@.mocks[i as int].call_count,
    {
        let m = &self.mocks[i];
        (m.method, m.path.as_str(), m.times, m.call_count)
    }

    /// Record a request.
    pub fn record(&mut self, request: RecordedRequest)
        ensures
            final(self)@ == (StateView {
                requests: old(self)@.requests.push(request@),
                ..old(self)@
            }),
    {
        let ghost before = request_views(self.requests@);
        self.requests.push(request);
        assert(request_views(self.requests@) =~= before.push(request@));
    }

    /// Answer a request with the given (parsed) method and path: the first
    /// registered mock that serves it answers and its call count grows by
    /// one; without one the answer is 404 "No mock matched".
    pub fn respond(&mut self, method: Option<Method>, path: &String) -> (r: MockResponse)
        requires
            counts_below_max(old(self)@.mocks),
        ensures
            (final(self)@.mocks, r@) == respond_spec(old(self)@.mocks, method, path@),
            final(self)@.requests == old(self)@.requests,
    {
        let ghost ms = mock_views(self.mocks@);
        let mut i: usize = 0;
        while i < self.mocks.len()
            invariant
                i <= self.mocks.len(),
                ms == mock_views(self.mocks@),
                self.mocks@ == old(self).mocks@,
                self.requests@ == old(self).requests@,
                counts_below_max(ms),
                forall|j: int| 0 <= j < i ==> !#[trigger] serves(ms[j], method, path@),
            decreases self.mocks.len() - i,
        {
            let m = &self.mocks[i];
            assert(ms[i as int] == m@);
            let available = match m.times {
                Some(t) => m.call_count < t,
                None => true,
            };
            let same_method = match method {
                Some(mm) => mm == m.method,
                None => false,
            };
            if same_method && m.path == *path && available {
                proof {
                    lemma_first_serving(ms, method, path@);
                    assert(serves(ms[i as int], method, path@));
                }
                let response = MockResponse {
                    status: m.status,
                    headers: copy_headers(&m.headers),
                    body: match &m.body {
                        Some(b) => b.clone(),
                        None => String::new(),
                    },
                    delay: m.delay,
                };
                let count: usize = m.call_count;
                self.mocks[i].call_count = count + 1;
                assert(mock_views(self.mocks@) =~= ms.update(i as int, answered(ms[i as int])));
                return response;
            }
            assert(!serves(ms[i as int], method, path@));
            i = i + 1;
        }
        proof {
            lemma_first_serving(ms, method, path@);
        }
        let response = MockResponse {
            status: 404,
            headers: Vec::new(),
            body: String::from_str("No mock matched"),
            delay: None,
        };
        assert(header_views(response.headers@) =~= Seq::empty());
        response
    }

    /// Record a request with the given head and body, then answer it; the
    /// method is read in any case.
    pub fn dispatch(&mut self, head: &RequestHead, body: String) -> (r: MockResponse)
        requires
            counts_below_max(old(self)@.mocks),
        ensures
            (final(self)@, r@) == dispatch_spec(old(self)@, head@, body@),
    {
        let request = RecordedRequest {
            method: head.method.clone(),
            path: head.path.clone(),
            headers: copy_headers(&head.headers),
            body,
            query: head.query.clone(),
        };
        self.record(request);
        let method = match Method::parse(head.method.as_str()) {
            Ok(m) => Some(m),
            Err(_) => None,
        };
        self.respond(method, &head.path)
    }

    /// Handle the bytes of a request read from a connection: find the end of
    /// its head, parse the head, take the body up to its announced length,
    /// then record and answer it. `None`, with nothing recorded, when the head
    /// is incomplete or holds no request line.
    pub fn handle_request(&mut self, data: &[u8]) -> (r: Option<MockResponse>)
        requires
            counts_below_max(old(self)@.mocks),
        ensures
            match request_of(data@) {
                None => r is None && final(self)@ == old(self)@,
                Some((h, body)) => r matches Some(resp) && (final(self)@, resp@) == dispatch_spec(
                    old(self)@,
                    h,
                    body,
                ),
            },
    {
        let end: usize = match head_end(data) {
            Some(e) => e,
            None => {
                return None;
            },
        };
        assert(end + 4 <= data@.len());
        assert(data@.len() == data.len());
        let head_bytes = vstd::slice::slice_subrange(data, 0, end);
        assert(head_bytes@ =~= data@.take(end as int));
        let head = match parse_request_head(head_bytes) {
            Some(h) => h,
            None => {
                return None;
            },
        };
        let body_start: usize = end + 4;
        let stop: usize = body_end(body_start, head.content_length, data.len());
        let body_bytes = vstd::slice::slice_subrange(data, body_start, stop);
        let body = decode_lossy(body_bytes);
        Some(self.dispatch(&head, body))
    }
}

} // verus!
