//! Properties of the library as a whole, each proved over the specifications
//! that the functions' contracts use.
use vstd::prelude::*;
use crate::method::{method_name, read_upper_name, Method};
use crate::mock::{
    answered, dispatch_spec, first_serving, lemma_first_serving, mock_response,
    not_found_response, recorded, request_method, respond_spec, serves, MockView, ResponseView,
    StateView,
};
use crate::request::{
    content_length_name, content_length_of, head_end_of, header_fields, header_of_line, parse_head, request_line_parts,
    request_of, target_parts, HeadView, RequestView,
};
use crate::response::{expectation_message, expectation_unmet, unmet_messages};
use crate::text::{
    ascii_lower_code, ascii_upper, lemma_find_first_at, line_state, lines,
    split_once, strip_cr, trim, trim_start, decimal, digit_char, digits_value, eq_ignore_ascii_case,
    is_digit, parse_usize, unsigned_digits, utf8_lossy,
};

verus! {

/// Every method's name reads back as that method.
pub proof fn method_name_reads_back(m: Method)
    ensures
        read_upper_name(method_name(m)) == Ok::<Method, Seq<char>>(m),
{
    reveal_strlit("GET");
    reveal_strlit("POST");
    reveal_strlit("PUT");
    reveal_strlit("DELETE");
    reveal_strlit("PATCH");
    reveal_strlit("HEAD");
    reveal_strlit("OPTIONS");
    assert("GET"@.len() == 3 && "PUT"@.len() == 3 && "POST"@.len() == 4 && "HEAD"@.len() == 4);
    assert("PATCH"@.len() == 5 && "DELETE"@.len() == 6 && "OPTIONS"@.len() == 7);
    assert("GET"@ != "PUT"@) by {
        assert("GET"@[0] != "PUT"@[0]);
    }
    assert("POST"@ != "HEAD"@) by {
        assert("POST"@[0] != "HEAD"@[0]);
    }
}

/// A method's name written in any mix of ASCII upper and lower case is ASCII
/// text, and upper-cased it reads as that method.
pub proof fn method_name_in_any_case(m: Method, s: Seq<char>)
    requires
        eq_ignore_ascii_case(s, method_name(m)),
    ensures
        vstd::utf8::is_ascii_chars(s),
        read_upper_name(ascii_upper(s)) == Ok::<Method, Seq<char>>(m),
{
    reveal_strlit("GET");
    reveal_strlit("POST");
    reveal_strlit("PUT");
    reveal_strlit("DELETE");
    reveal_strlit("PATCH");
    reveal_strlit("HEAD");
    reveal_strlit("OPTIONS");
    let name = method_name(m);
    assert forall|i: int| 0 <= i < s.len() implies 65 <= #[trigger] (name[i] as u32) <= 90 by {
        assert(ascii_lower_code(s[i]) == ascii_lower_code(name[i]));
    }
    assert forall|i: int| 0 <= i < s.len() implies '\0' <= #[trigger] s[i] <= '\u{7f}' by {
        assert(ascii_lower_code(s[i]) == ascii_lower_code(name[i]));
        assert(65 <= name[i] as u32 <= 90);
        assert(s[i] as u32 <= 122);
        char_below_128_is_ascii(s[i]);
    }
    assert forall|i: int| 0 <= i < s.len() implies #[trigger] ascii_upper(s)[i] == name[i] by {
        assert(ascii_lower_code(s[i]) == ascii_lower_code(name[i]));
        let u: u32 = s[i] as u32;
        let v: u32 = name[i] as u32;
        if 97 <= u <= 122 {
            assert(u - 32 == v);
            vstd::utf8::char_u32_cast(name[i], v);
        } else {
            assert(u == v);
            vstd::utf8::char_u32_cast(s[i], u);
            vstd::utf8::char_u32_cast(name[i], v);
        }
    }
    assert(ascii_upper(s) =~= name);
    method_name_reads_back(m);
}

proof fn char_below_128_is_ascii(c: char)
    requires
        (c as u32) < 128,
    ensures
        '\0' <= c <= '\u{7f}',
{
    assert((c as int) <= 127);
    assert('\u{7f}' as int == 127);
}

proof fn digit_char_code(d: nat)
    requires
        d < 10,
    ensures
        digit_char(d) as u32 == d + 48,
{
}

proof fn decimal_digits(n: nat)
    ensures
        decimal(n).len() > 0,
        decimal(n)[0] != '+',
        forall|i: int| 0 <= i < decimal(n).len() ==> is_digit(#[trigger] decimal(n)[i]),
        digits_value(decimal(n)) == n,
    decreases n,
{
    if n < 10 {
        digit_char_code(n);
        let d = decimal(n);
        assert(d.drop_last() =~= Seq::<char>::empty());
        assert(digits_value(d.drop_last()) == 0);
        assert(d.last() as u32 == n + 48);
        assert(digits_value(d) == n);
    } else {
        decimal_digits(n / 10);
        digit_char_code(n % 10);
        assert((n / 10) * 10 + n % 10 == n) by (nonlinear_arith);
        let d = decimal(n);
        assert(d.drop_last() =~= decimal(n / 10));
        assert forall|i: int| 0 <= i < d.len() implies is_digit(#[trigger] d[i]) by {
            if i < d.len() - 1 {
                assert(d[i] == decimal(n / 10)[i]);
            }
        }
    }
}

/// The decimal representation of a `usize` reads back as that number: the
/// port in a server's URL can be read from it.
pub proof fn decimal_reads_back(n: usize)
    ensures
        parse_usize(decimal(n as nat)) == Some(n),
{
    decimal_digits(n as nat);
    assert(unsigned_digits(decimal(n as nat)) == decimal(n as nat));
}

/// A mock that is registered after mocks none of which serves its method and
/// path answers a request for them, unless it was expected zero times.
pub proof fn registered_mock_answers(ms: Seq<MockView>, m: MockView)
    requires
        m.call_count == 0,
        m.times != Some(0usize),
        forall|j: int|
            0 <= j < ms.len() ==> !#[trigger] serves(ms[j], Some(m.method), m.path),
    ensures
        respond_spec(ms.push(m), Some(m.method), m.path) == (
            ms.push(answered(m)),
            mock_response(m),
        ),
{
    let all = ms.push(m);
    assert(all.drop_last() =~= ms);
    lemma_first_serving(ms, Some(m.method), m.path);
    assert(first_serving(all, Some(m.method), m.path) == Some(ms.len() as int));
    assert(all.update(ms.len() as int, answered(m)) =~= ms.push(answered(m)));
}

/// Whether no mock has answered more often than it was expected to.
pub open spec fn within_expectations(ms: Seq<MockView>) -> bool {
    forall|i: int|
        0 <= i < ms.len() ==> match #[trigger] ms[i].times {
            Some(t) => ms[i].call_count <= t,
            None => true,
        }
}

/// Answering a request keeps every mock within its expected call count: a
/// mock expected `n` times answers at most `n` times.
pub proof fn answers_stay_within_expectations(
    ms: Seq<MockView>,
    method: Option<Method>,
    path: Seq<char>,
)
    requires
        within_expectations(ms),
        forall|i: int| 0 <= i < ms.len() ==> #[trigger] ms[i].call_count < usize::MAX,
    ensures
        within_expectations(respond_spec(ms, method, path).0),
{
    lemma_first_serving(ms, method, path);
    let after = respond_spec(ms, method, path).0;
    assert forall|i: int| 0 <= i < after.len() implies match #[trigger] after[i].times {
        Some(t) => after[i].call_count <= t,
        None => true,
    } by {
        assert(ms[i].times == after[i].times);
    }
}

/// Answering a request changes only the call count of the mock that answers,
/// by one, and nothing else.
pub proof fn answer_counts_one_call(ms: Seq<MockView>, method: Option<Method>, path: Seq<char>)
    requires
        forall|i: int| 0 <= i < ms.len() ==> #[trigger] ms[i].call_count < usize::MAX,
    ensures
        respond_spec(ms, method, path).0.len() == ms.len(),
        forall|i: int|
            0 <= i < ms.len() ==> {
                let after = #[trigger] respond_spec(ms, method, path).0[i];
                &&& after.call_count == if first_serving(ms, method, path) == Some(i) {
                    ms[i].call_count + 1
                } else {
                    ms[i].call_count as int
                }
                &&& after == MockView { call_count: after.call_count, ..ms[i] }
            },
{
    lemma_first_serving(ms, method, path);
}

/// After a reset, every request is recorded as the only request and answered
/// with 404 "No mock matched".
pub proof fn reset_answers_not_found(h: HeadView, body: Seq<char>)
    ensures
        dispatch_spec(StateView { mocks: Seq::empty(), requests: Seq::empty() }, h, body) == (
            StateView { mocks: Seq::empty(), requests: seq![recorded(h, body)] },
            not_found_response(),
        ),
{
    assert(Seq::<crate::request::RequestView>::empty().push(recorded(h, body)) =~= seq![
        recorded(h, body),
    ]);
}

/// Every request that reaches the registry is recorded, after those before
/// it, whether or not a mock answers it.
pub proof fn every_request_is_recorded(s: StateView, h: HeadView, body: Seq<char>)
    ensures
        dispatch_spec(s, h, body).0.requests == s.requests.push(
            RequestView {
                method: h.method,
                path: h.path,
                headers: h.headers,
                body,
                query: h.query,
            },
        ),
{
}

/// Whether the character `c` does not occur in `s`.
pub open spec fn lacks(s: Seq<char>, c: char) -> bool {
    forall|i: int| 0 <= i < s.len() ==> s[i] != c
}

proof fn line_state_without_newline(s: Seq<char>)
    requires
        lacks(s, '\n'),
    ensures
        line_state(s) == (Seq::<Seq<char>>::empty(), s),
    decreases s.len(),
{
    if s.len() > 0 {
        assert(lacks(s.drop_last(), '\n'));
        line_state_without_newline(s.drop_last());
        assert(s.drop_last().push(s.last()) =~= s);
    }
}

proof fn split_at_first(a: Seq<char>, c: char, b: Seq<char>)
    requires
        lacks(a, c),
    ensures
        split_once(a + seq![c] + b, c) == Some((a, b)),
{
    let s = a + seq![c] + b;
    assert(s[a.len() as int] == c);
    assert forall|j: int| 0 <= j < a.len() implies s[j] != c by {
        assert(s[j] == a[j]);
    }
    lemma_find_first_at(s, c, a.len() as int);
    assert(s.take(a.len() as int) =~= a);
    assert(s.skip(a.len() as int + 1) =~= b);
}

/// The state of the line reader after a text that ends a line, followed by
/// more text: the lines of the first part come first.
proof fn line_state_concat(p: Seq<char>, q: Seq<char>)
    requires
        line_state(p).1.len() == 0,
    ensures
        line_state(p + q) == (line_state(p).0 + line_state(q).0, line_state(q).1),
    decreases q.len(),
{
    if q.len() == 0 {
        assert(p + q =~= p);
        assert(line_state(p).0 + line_state(q).0 =~= line_state(p).0);
        assert(line_state(p).1 =~= Seq::<char>::empty());
    } else {
        line_state_concat(p, q.drop_last());
        assert((p + q).drop_last() =~= p + q.drop_last());
        assert((p + q).last() == q.last());
        let (dq, cq) = line_state(q.drop_last());
        if q.last() == '\n' {
            assert(line_state(p).0 + dq.push(strip_cr(cq)) =~= (line_state(p).0 + dq).push(
                strip_cr(cq),
            ));
        }
    }
}

/// The lines of a text made of a line, CRLF, and more text: the line, then
/// the lines of the rest.
pub proof fn lines_after_crlf(a: Seq<char>, b: Seq<char>)
    requires
        lacks(a, '\n'),
    ensures
        lines(a + seq!['\r', '\n'] + b) == seq![a] + lines(b),
{
    let ar = a.push('\r');
    assert(lacks(ar, '\n'));
    line_state_without_newline(ar);
    let p = ar.push('\n');
    assert(p.drop_last() =~= ar);
    assert(strip_cr(ar) =~= a);
    assert(line_state(p) == (seq![a], Seq::<char>::empty()));
    line_state_concat(p, b);
    assert(a + seq!['\r', '\n'] + b =~= p + b);
    let (db, cb) = line_state(b);
    assert((seq![a] + db).push(cb) =~= seq![a] + db.push(cb));
}

/// The text of a header field line: `name: value`.
pub open spec fn field_line(h: (Seq<char>, Seq<char>)) -> Seq<char> {
    h.0 + seq![':', ' '] + h.1
}

/// Header field lines, each after a CRLF.
pub open spec fn fields_text(hs: Seq<(Seq<char>, Seq<char>)>) -> Seq<char>
    decreases hs.len(),
{
    if hs.len() == 0 {
        Seq::empty()
    } else {
        seq!['\r', '\n'] + field_line(hs[0]) + fields_text(hs.drop_first())
    }
}

/// The protocol version that a client writes in its request line.
pub open spec fn http11() -> Seq<char> {
    seq!['H', 'T', 'T', 'P', '/', '1', '.', '1']
}

/// The head of a request as a client writes it: `method SP target SP
/// HTTP/1.1`, then each header field on a line of its own.
pub open spec fn request_head_text(
    method: Seq<char>,
    target: Seq<char>,
    hs: Seq<(Seq<char>, Seq<char>)>,
) -> Seq<char> {
    method + seq![' '] + target + seq![' '] + http11() + fields_text(hs)
}

/// Whether a header field can be written as `name: value` and read back: the
/// name has no `:`, neither part has a line break, and neither has
/// whitespace at its ends.
pub open spec fn writable_field(h: (Seq<char>, Seq<char>)) -> bool {
    &&& lacks(h.0, ':')
    &&& lacks(h.0, '\n')
    &&& lacks(h.1, '\n')
    &&& trim(h.0) == h.0
    &&& trim(h.1) == h.1
}

/// A header field line `name: value` reads back as the field.
pub proof fn field_line_reads_back(h: (Seq<char>, Seq<char>))
    requires
        writable_field(h),
    ensures
        header_of_line(field_line(h)) == Some(h),
{
    let sv = seq![' '] + h.1;
    assert(field_line(h) =~= h.0 + seq![':'] + sv);
    split_at_first(h.0, ':', sv);
    assert(sv.drop_first() =~= h.1);
    assert(trim_start(sv) == trim_start(h.1));
}

proof fn field_line_is_one_line(h: (Seq<char>, Seq<char>))
    requires
        writable_field(h),
    ensures
        lacks(field_line(h), '\n'),
        field_line(h).len() > 0,
{
    let l = field_line(h);
    assert forall|i: int| 0 <= i < l.len() implies l[i] != '\n' by {
        if i < h.0.len() {
            assert(l[i] == h.0[i]);
        } else if i >= h.0.len() + 2 {
            assert(l[i] == h.1[i - h.0.len() - 2]);
        }
    }
}

/// The field lines of `hs`, one per field.
pub open spec fn field_lines(hs: Seq<(Seq<char>, Seq<char>)>) -> Seq<Seq<char>> {
    Seq::new(hs.len(), |i: int| field_line(hs[i]))
}

proof fn lines_of_fields(first: Seq<char>, hs: Seq<(Seq<char>, Seq<char>)>)
    requires
        lacks(first, '\n'),
        first.len() > 0,
        forall|i: int| 0 <= i < hs.len() ==> writable_field(#[trigger] hs[i]),
    ensures
        lines(first + fields_text(hs)) == seq![first] + field_lines(hs),
    decreases hs.len(),
{
    if hs.len() == 0 {
        assert(first + fields_text(hs) =~= first);
        line_state_without_newline(first);
        assert(seq![first] + field_lines(hs) =~= seq![first]);
    } else {
        let h0 = hs[0];
        let rest = hs.drop_first();
        assert(writable_field(h0));
        field_line_is_one_line(h0);
        assert forall|i: int| 0 <= i < rest.len() implies writable_field(#[trigger] rest[i]) by {
            assert(rest[i] == hs[i + 1]);
        }
        lines_of_fields(field_line(h0), rest);
        let tail = field_line(h0) + fields_text(rest);
        assert(first + fields_text(hs) =~= first + seq!['\r', '\n'] + tail);
        lines_after_crlf(first, tail);
        assert(seq![first] + (seq![field_line(h0)] + field_lines(rest)) =~= seq![first]
            + field_lines(hs));
    }
}

proof fn header_fields_of_field_lines(hs: Seq<(Seq<char>, Seq<char>)>)
    requires
        forall|i: int| 0 <= i < hs.len() ==> writable_field(#[trigger] hs[i]),
    ensures
        header_fields(field_lines(hs)) == hs,
    decreases hs.len(),
{
    if hs.len() == 0 {
        assert(field_lines(hs) =~= Seq::<Seq<char>>::empty());
        assert(hs =~= Seq::<(Seq<char>, Seq<char>)>::empty());
    } else {
        let init = hs.drop_last();
        assert forall|i: int| 0 <= i < init.len() implies writable_field(#[trigger] init[i]) by {
            assert(init[i] == hs[i]);
        }
        header_fields_of_field_lines(init);
        assert(field_lines(hs).drop_last() =~= field_lines(init));
        assert(writable_field(hs.last()));
        field_line_reads_back(hs.last());
        assert(init.push(hs.last()) =~= hs);
    }
}

/// The head of a request as a client writes it reads back exactly: its
/// method, the path and query of its target, its header fields in order, and
/// the body length that those fields announce. What a client writes is what
/// the server records.
pub proof fn request_head_reads_back(
    method: Seq<char>,
    target: Seq<char>,
    hs: Seq<(Seq<char>, Seq<char>)>,
)
    requires
        lacks(method, ' '),
        lacks(method, '\n'),
        lacks(target, ' '),
        lacks(target, '\n'),
        forall|i: int| 0 <= i < hs.len() ==> writable_field(#[trigger] hs[i]),
    ensures
        parse_head(request_head_text(method, target, hs)) == Some(
            HeadView {
                method,
                path: target_parts(target).0,
                query: target_parts(target).1,
                headers: hs,
                content_length: content_length_of(hs),
            },
        ),
{
    let rest = target + seq![' '] + http11();
    let first = method + seq![' '] + rest;
    assert(lacks(first, '\n')) by {
        assert forall|i: int| 0 <= i < first.len() implies first[i] != '\n' by {
            if i < method.len() {
                assert(first[i] == method[i]);
            } else if i == method.len() {
            } else if i < method.len() + 1 + target.len() {
                assert(first[i] == target[i - method.len() - 1]);
            } else if i == method.len() + 1 + target.len() {
            } else {
                assert(first[i] == http11()[i - method.len() - 2 - target.len()]);
            }
        }
    }
    assert(request_head_text(method, target, hs) =~= first + fields_text(hs));
    lines_of_fields(first, hs);
    let ls = lines(request_head_text(method, target, hs));
    assert(ls[0] == first);
    split_at_first(method, ' ', rest);
    split_at_first(target, ' ', http11());
    assert(request_line_parts(first) == Some((method, target)));
    assert(ls.skip(1) =~= field_lines(hs));
    header_fields_of_field_lines(hs);
}

/// The registry answers the bytes of a connection exactly when the reader
/// finds a complete head that holds a request line; otherwise nothing is
/// recorded or answered.
pub proof fn answered_exactly_when_head_is_read(data: Seq<u8>)
    ensures
        request_of(data) is Some <==> (head_end_of(data) matches Some(e) && parse_head(
            utf8_lossy(data.take(e)),
        ) is Some),
{
}

// ---------------------------------------------------------------------------
// The announced body length
// ---------------------------------------------------------------------------

/// Whether `name` is `Content-Length`, in any ASCII case.
pub open spec fn names_content_length(name: Seq<char>) -> bool {
    eq_ignore_ascii_case(name, content_length_name())
}

/// The body length that a `Content-Length` value announces: its number, or 0
/// when it is no `usize`.
pub open spec fn announced_length(value: Seq<char>) -> usize {
    match parse_usize(value) {
        Some(n) => n,
        None => 0,
    }
}

/// The last `Content-Length` field decides the body length, wherever it
/// stands among the other fields.
pub proof fn last_content_length_field_decides(hs: Seq<(Seq<char>, Seq<char>)>, i: int)
    requires
        0 <= i < hs.len(),
        names_content_length(hs[i].0),
        forall|j: int| i < j < hs.len() ==> !names_content_length(#[trigger] hs[j].0),
    ensures
        content_length_of(hs) == announced_length(hs[i].1),
    decreases hs.len(),
{
    if i < hs.len() - 1 {
        let init = hs.drop_last();
        assert(!names_content_length(hs[hs.len() - 1].0));
        assert forall|j: int| i < j < init.len() implies !names_content_length(
            #[trigger] init[j].0,
        ) by {
            assert(init[j] == hs[j]);
        }
        last_content_length_field_decides(init, i);
    }
}

/// Without a `Content-Length` field the body is empty.
pub proof fn no_content_length_field_means_no_body(hs: Seq<(Seq<char>, Seq<char>)>)
    requires
        forall|j: int| 0 <= j < hs.len() ==> !names_content_length(#[trigger] hs[j].0),
    ensures
        content_length_of(hs) == 0,
    decreases hs.len(),
{
    if hs.len() > 0 {
        let init = hs.drop_last();
        assert(!names_content_length(hs[hs.len() - 1].0));
        assert forall|j: int| 0 <= j < init.len() implies !names_content_length(
            #[trigger] init[j].0,
        ) by {
            assert(init[j] == hs[j]);
        }
        no_content_length_field_means_no_body(init);
    }
}

/// A field of another name, added after the others, leaves the announced
/// body length as it was; a `Content-Length` field sets it.
pub proof fn adding_a_field_and_the_body_length(
    hs: Seq<(Seq<char>, Seq<char>)>,
    f: (Seq<char>, Seq<char>),
)
    ensures
        !names_content_length(f.0) ==> content_length_of(hs.push(f)) == content_length_of(hs),
        names_content_length(f.0) ==> content_length_of(hs.push(f)) == announced_length(f.1),
{
    let all = hs.push(f);
    assert(all.drop_last() =~= hs);
    assert(all.last() == f);
}

// ---------------------------------------------------------------------------
// Answers
// ---------------------------------------------------------------------------

/// Whether mock `m` is for the method and path and still has calls left.
pub open spec fn answers_for(m: MockView, method: Option<Method>, path: Seq<char>) -> bool {
    &&& method == Some(m.method)
    &&& m.path == path
    &&& match m.times {
        Some(t) => m.call_count < t,
        None => true,
    }
}

proof fn answers_for_is_serves(m: MockView, method: Option<Method>, path: Seq<char>)
    ensures
        answers_for(m, method, path) == serves(m, method, path),
{
}

/// The first mock registered for the method and path that has calls left
/// answers with its own status, header fields, body (empty if it has none)
/// and delay, however often it has answered before; its call count, and
/// nothing else, grows by one.
pub proof fn first_matching_mock_answers(
    ms: Seq<MockView>,
    method: Option<Method>,
    path: Seq<char>,
    i: int,
)
    requires
        0 <= i < ms.len(),
        answers_for(ms[i], method, path),
        forall|j: int| 0 <= j < i ==> !answers_for(#[trigger] ms[j], method, path),
    ensures
        respond_spec(ms, method, path).1 == (ResponseView {
            status: ms[i].status,
            headers: ms[i].headers,
            body: match ms[i].body {
                Some(b) => b,
                None => Seq::empty(),
            },
            delay: ms[i].delay,
        }),
        respond_spec(ms, method, path).0 == ms.update(
            i,
            MockView { call_count: (ms[i].call_count + 1) as usize, ..ms[i] },
        ),
{
    lemma_first_serving(ms, method, path);
    answers_for_is_serves(ms[i], method, path);
    match first_serving(ms, method, path) {
        Some(k) => {
            if k < i {
                answers_for_is_serves(ms[k], method, path);
            } else if k > i {
                assert(!serves(ms[i], method, path));
            }
        },
        None => {
            assert(!serves(ms[i], method, path));
        },
    }
}

/// A request that no mock is registered for, or whose mocks have no calls
/// left, is answered 404 "No mock matched" with no fields, no body delay,
/// and no call count changes.
pub proof fn unmatched_request_answers_not_found(
    ms: Seq<MockView>,
    method: Option<Method>,
    path: Seq<char>,
)
    requires
        forall|j: int| 0 <= j < ms.len() ==> !answers_for(#[trigger] ms[j], method, path),
    ensures
        respond_spec(ms, method, path) == (
            ms,
            ResponseView {
                status: 404,
                headers: Seq::empty(),
                body: "No mock matched"@,
                delay: None,
            },
        ),
{
    lemma_first_serving(ms, method, path);
    match first_serving(ms, method, path) {
        Some(k) => {
            answers_for_is_serves(ms[k], method, path);
        },
        None => {},
    }
}

/// A request that reaches the registry is recorded with its method, path,
/// query, header fields and body as read, and is answered by the first mock
/// registered for its method (read in any case) and its path exactly as
/// sent, with that mock's status, fields, body and delay.
pub proof fn dispatch_answers_with_mock_for_its_path(
    s: StateView,
    h: HeadView,
    body: Seq<char>,
    i: int,
)
    requires
        0 <= i < s.mocks.len(),
        answers_for(s.mocks[i], request_method(h.method), h.path),
        forall|j: int|
            0 <= j < i ==> !answers_for(#[trigger] s.mocks[j], request_method(h.method), h.path),
    ensures
        dispatch_spec(s, h, body).1 == (ResponseView {
            status: s.mocks[i].status,
            headers: s.mocks[i].headers,
            body: match s.mocks[i].body {
                Some(b) => b,
                None => Seq::empty(),
            },
            delay: s.mocks[i].delay,
        }),
        dispatch_spec(s, h, body).0 == (StateView {
            mocks: s.mocks.update(
                i,
                MockView { call_count: (s.mocks[i].call_count + 1) as usize, ..s.mocks[i] },
            ),
            requests: s.requests.push(
                RequestView {
                    method: h.method,
                    path: h.path,
                    headers: h.headers,
                    body,
                    query: h.query,
                },
            ),
        }),
{
    first_matching_mock_answers(s.mocks, request_method(h.method), h.path, i);
}

/// A request for which no mock is registered with its method and its path
/// exactly as sent, or whose mocks have no calls left, is recorded and
/// answered 404 "No mock matched".
pub proof fn dispatch_without_mock_answers_not_found(s: StateView, h: HeadView, body: Seq<char>)
    requires
        forall|j: int|
            0 <= j < s.mocks.len() ==> !answers_for(
                #[trigger] s.mocks[j],
                request_method(h.method),
                h.path,
            ),
    ensures
        dispatch_spec(s, h, body).1 == (ResponseView {
            status: 404,
            headers: Seq::empty(),
            body: "No mock matched"@,
            delay: None,
        }),
        dispatch_spec(s, h, body).0.mocks == s.mocks,
{
    unmatched_request_answers_not_found(s.mocks, request_method(h.method), h.path);
}

// ---------------------------------------------------------------------------
// Expectations
// ---------------------------------------------------------------------------

/// The warnings when a server stops are, in order of registration, one for
/// each mock that was expected some number of times and answered a different
/// number of times, never answering included.
pub proof fn warnings_are_for_unmet_expectations(ms: Seq<MockView>)
    ensures
        unmet_messages(ms) == ms.filter(
            |m: MockView|
                match m.times {
                    Some(t) => t != m.call_count,
                    None => false,
                },
        ).map_values(|m: MockView| expectation_message(m)),
    decreases ms.len(),
{
    let pred = |m: MockView|
        match m.times {
            Some(t) => t != m.call_count,
            None => false,
        };
    reveal(Seq::filter);
    if ms.len() > 0 {
        warnings_are_for_unmet_expectations(ms.drop_last());
        let f = ms.drop_last().filter(pred);
        if pred(ms.last()) {
            assert(f.push(ms.last()).map_values(|m: MockView| expectation_message(m))
                =~= f.map_values(|m: MockView| expectation_message(m)).push(
                expectation_message(ms.last()),
            ));
        }
    } else {
        assert(ms.filter(pred).map_values(|m: MockView| expectation_message(m)) =~= Seq::<
            Seq<char>,
        >::empty());
    }
}

/// A mock expected `t` times that answered a different number of times,
/// none included, is warned about by name: "Mock expectation failed: METHOD
/// PATH expected T calls, got N".
pub proof fn unmet_expectation_is_warned(ms: Seq<MockView>, i: int, t: usize)
    requires
        0 <= i < ms.len(),
        ms[i].times == Some(t),
        t != ms[i].call_count,
    ensures
        unmet_messages(ms).contains(
            "Mock expectation failed: "@ + method_name(ms[i].method) + " "@ + ms[i].path
                + " expected "@ + decimal(t as nat) + " calls, got "@ + decimal(
                ms[i].call_count as nat,
            ),
        ),
    decreases ms.len(),
{
    if i < ms.len() - 1 {
        unmet_expectation_is_warned(ms.drop_last(), i, t);
        let u = unmet_messages(ms.drop_last());
        let k = choose|k: int| 0 <= k < u.len() && u[k] == "Mock expectation failed: "@
            + method_name(ms[i].method) + " "@ + ms[i].path + " expected "@ + decimal(t as nat)
            + " calls, got "@ + decimal(ms[i].call_count as nat);
        if expectation_unmet(ms.last()) {
            assert(unmet_messages(ms)[k] == u[k]);
        }
    } else {
        let u = unmet_messages(ms);
        assert(u[u.len() - 1] == expectation_message(ms[i]));
    }
}

} // verus!
