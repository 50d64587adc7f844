use vstd::prelude::*;
use crate::text::spec_skip_spaces;
use crate::text::spec_scan_to;
use crate::text::spec_digits_end;
use crate::text::spec_parse_i64;
use crate::text::lemma_scan_to;
use crate::text::lemma_scan_to_suffix;
use crate::text::skip_spaces;
use crate::text::scan_to;
use crate::text::digits_end;
use crate::text::parse_i64_range;
use crate::text::sub_vec;
use crate::text::sub_string;
use crate::text::str_to_chars;
use crate::timestamp::Timestamp;
use crate::timestamp::spec_parse_timestamp;
use crate::timestamp::parse_timestamp;

verus! {

/// Why a line was rejected. Every failure of the grammar, of the timestamp, of
/// the status code or of the request shape is the one malformed-line error.
#[derive(Clone, Copy, PartialEq, Eq, Debug, Structural)]
pub enum ParseError {
    Malformed,
}

/// One parsed access-log line.
pub struct ApacheLog {
    pub source: String,
    pub timestamp: Timestamp,
    pub method: String,
    pub uri: String,
    pub status_code: i64,
    pub content_length: Option<i64>,
    pub referrer: String,
    pub user_agent: String,
}

/// The mathematical image of an `ApacheLog`.
pub ghost struct SpecLog {
    pub source: Seq<char>,
    pub timestamp: Timestamp,
    pub method: Seq<char>,
    pub uri: Seq<char>,
    pub status_code: i64,
    pub content_length: Option<i64>,
    pub referrer: Seq<char>,
    pub user_agent: Seq<char>,
}

impl View for ApacheLog {
    type V = SpecLog;

    open spec fn view(&self) -> SpecLog {
        SpecLog {
            source: self.source@,
            timestamp: self.timestamp,
            method: self.method@,
            uri: self.uri@,
            status_code: self.status_code,
            content_length: self.content_length,
            referrer: self.referrer@,
            user_agent: self.user_agent@,
        }
    }
}

impl DeepView for ApacheLog {
    type V = SpecLog;

    open spec fn deep_view(&self) -> SpecLog {
        self.view()
    }
}

/// The raw text of each field of a line that matched the grammar, before any
/// field is interpreted.
pub ghost struct RawFields {
    pub source: Seq<char>,
    pub identd: Seq<char>,
    pub username: Seq<char>,
    pub timestamp: Seq<char>,
    pub request: Seq<char>,
    pub status: Seq<char>,
    pub content_length: Seq<char>,
    pub referrer: Seq<char>,
    pub user_agent: Seq<char>,
}

/// A whitespace-delimited token: whitespace is skipped, then the token runs to
/// the next space character or the end. The token may be empty.
pub open spec fn spec_word(s: Seq<char>, i: int) -> (Seq<char>, int) {
    let j = spec_skip_spaces(s, i);
    let k = spec_scan_to(s, j, ' ');
    (s.subrange(j, k), k)
}

/// A field delimited by `open_c` and `close_c` after optional whitespace; the
/// interior is any run free of the closing character.
pub open spec fn spec_delimited(s: Seq<char>, i: int, open_c: char, close_c: char) -> Option<
    (Seq<char>, int),
> {
    let j = spec_skip_spaces(s, i);
    if j < s.len() && s[j] == open_c {
        let k = spec_scan_to(s, j + 1, close_c);
        if k < s.len() {
            Some((s.subrange(j + 1, k), k + 1))
        } else {
            None
        }
    } else {
        None
    }
}

/// Where the loose dotted-quad source token ends: four digit runs, each
/// possibly empty, joined by three dots, starting at the first character.
pub open spec fn spec_quad_end(s: Seq<char>) -> Option<int> {
    let j1 = spec_digits_end(s, 0);
    if j1 < s.len() && s[j1] == '.' {
        let j2 = spec_digits_end(s, j1 + 1);
        if j2 < s.len() && s[j2] == '.' {
            let j3 = spec_digits_end(s, j2 + 1);
            if j3 < s.len() && s[j3] == '.' {
                Some(spec_digits_end(s, j3 + 1))
            } else {
                None
            }
        } else {
            None
        }
    } else {
        None
    }
}

/// The field sequence of one line: dotted-quad source, identd and username
/// tokens, a bracketed timestamp, a quoted request, status and content-length
/// tokens, then the quoted referrer and user agent. Anything after the last
/// quote is ignored.
pub open spec fn spec_lex(s: Seq<char>) -> Option<RawFields> {
    match spec_quad_end(s) {
        None => None,
        Some(i0) => {
            let w1 = spec_word(s, i0);
            let w2 = spec_word(s, w1.1);
            match spec_delimited(s, w2.1, '[', ']') {
                None => None,
                Some(ts) => match spec_delimited(s, ts.1, '"', '"') {
                    None => None,
                    Some(rq) => {
                        let st = spec_word(s, rq.1);
                        let cl = spec_word(s, st.1);
                        match spec_delimited(s, cl.1, '"', '"') {
                            None => None,
                            Some(rf) => match spec_delimited(s, rf.1, '"', '"') {
                                None => None,
                                Some(ua) => Some(
                                    RawFields {
                                        source: s.subrange(0, i0),
                                        identd: w1.0,
                                        username: w2.0,
                                        timestamp: ts.0,
                                        request: rq.0,
                                        status: st.0,
                                        content_length: cl.0,
                                        referrer: rf.0,
                                        user_agent: ua.0,
                                    },
                                ),
                            },
                        }
                    },
                },
            }
        },
    }
}

/// The method and URI of a request field, split on single space characters
/// with empty pieces kept: accepted only as exactly two pieces (method, URI)
/// or three (method, URI, and a protocol version that is dropped).
pub open spec fn spec_request_parts(t: Seq<char>) -> Option<(Seq<char>, Seq<char>)> {
    let k1 = spec_scan_to(t, 0, ' ');
    if k1 == t.len() {
        None
    } else {
        let k2 = spec_scan_to(t, k1 + 1, ' ');
        if k2 == t.len() {
            Some((t.subrange(0, k1), t.subrange(k1 + 1, t.len() as int)))
        } else {
            let k3 = spec_scan_to(t, k2 + 1, ' ');
            if k3 == t.len() {
                Some((t.subrange(0, k1), t.subrange(k1 + 1, k2)))
            } else {
                None
            }
        }
    }
}

/// What `str::to_uppercase` returns; it depends on the characters alone.
pub uninterp spec fn upper_of(s: Seq<char>) -> Seq<char>;

/// Relies on `str::to_uppercase`: its result is a function of the characters
/// of its argument alone.
#[verifier::external_body]
fn to_upper(s: &String) -> (r: String)
    ensures
        r@ == upper_of(s@),
{
    s.to_uppercase()
}

/// The record read off matched fields: the timestamp and the status code must
/// interpret, the request must split into two or three pieces, the method is
/// uppercased, and a content length that is no integer is simply absent.
pub open spec fn spec_interpret(f: RawFields) -> Option<SpecLog> {
    match spec_parse_timestamp(f.timestamp) {
        None => None,
        Some(ts) => match spec_parse_i64(f.status) {
            None => None,
            Some(code) => match spec_request_parts(f.request) {
                None => None,
                Some(parts) => Some(
                    SpecLog {
                        source: f.source,
                        timestamp: ts,
                        method: upper_of(parts.0),
                        uri: parts.1,
                        status_code: code,
                        content_length: spec_parse_i64(f.content_length),
                        referrer: f.referrer,
                        user_agent: f.user_agent,
                    },
                ),
            },
        },
    }
}

/// The meaning of one line: the record it parses to, if any.
pub open spec fn spec_parse(s: Seq<char>) -> Option<SpecLog> {
    match spec_lex(s) {
        None => None,
        Some(f) => spec_interpret(f),
    }
}

fn word_bounds(v: &Vec<char>, i: usize) -> (r: (usize, usize))
    requires
        i <= v.len(),
    ensures
        i <= r.0 <= r.1 <= v.len(),
        spec_word(v@, i as int) == (v@.subrange(r.0 as int, r.1 as int), r.1 as int),
{
    let a = skip_spaces(v, i);
    let b = scan_to(v, a, ' ');
    (a, b)
}

fn delimited_bounds(v: &Vec<char>, i: usize, open_c: char, close_c: char) -> (r: Option<
    (usize, usize),
>)
    requires
        i <= v.len(),
    ensures
        match r {
            Some(p) => i <= p.0 <= p.1 < v.len() && spec_delimited(v@, i as int, open_c, close_c)
                == Some((v@.subrange(p.0 as int, p.1 as int), p.1 as int + 1)),
            None => spec_delimited(v@, i as int, open_c, close_c) is None,
        },
{
    let j = skip_spaces(v, i);
    if j < v.len() && v[j] == open_c {
        let k = scan_to(v, j + 1, close_c);
        if k < v.len() {
            Some((j + 1, k))
        } else {
            None
        }
    } else {
        None
    }
}

/// Parses one line against the combined access-log grammar: the result is
/// exactly what `spec_parse` says of the line's characters, and a line the
/// grammar rejects is the malformed-line error.
pub fn parse_string(s: &str) -> (r: Result<ApacheLog, ParseError>)
    ensures
        match r {
            Ok(log) => spec_parse(s@) == Some(log@),
            Err(e) => spec_parse(s@) is None && e == ParseError::Malformed,
        },
{
    let v = str_to_chars(s);
    let n = v.len();
    let j1 = digits_end(&v, 0);
    if j1 == n || v[j1] != '.' {
        return Err(ParseError::Malformed);
    }
    let j2 = digits_end(&v, j1 + 1);
    if j2 == n || v[j2] != '.' {
        return Err(ParseError::Malformed);
    }
    let j3 = digits_end(&v, j2 + 1);
    if j3 == n || v[j3] != '.' {
        return Err(ParseError::Malformed);
    }
    let i0 = digits_end(&v, j3 + 1);
    let w1 = word_bounds(&v, i0);
    let w2 = word_bounds(&v, w1.1);
    let ts = match delimited_bounds(&v, w2.1, '[', ']') {
        Some(p) => p,
        None => {
            return Err(ParseError::Malformed);
        },
    };
    let rq = match delimited_bounds(&v, ts.1 + 1, '"', '"') {
        Some(p) => p,
        None => {
            return Err(ParseError::Malformed);
        },
    };
    let st = word_bounds(&v, rq.1 + 1);
    let cl = word_bounds(&v, st.1);
    let rf = match delimited_bounds(&v, cl.1, '"', '"') {
        Some(p) => p,
        None => {
            return Err(ParseError::Malformed);
        },
    };
    let ua = match delimited_bounds(&v, rf.1 + 1, '"', '"') {
        Some(p) => p,
        None => {
            return Err(ParseError::Malformed);
        },
    };
    let ghost f = RawFields {
        source: v@.subrange(0, i0 as int),
        identd: v@.subrange(w1.0 as int, w1.1 as int),
        username: v@.subrange(w2.0 as int, w2.1 as int),
        timestamp: v@.subrange(ts.0 as int, ts.1 as int),
        request: v@.subrange(rq.0 as int, rq.1 as int),
        status: v@.subrange(st.0 as int, st.1 as int),
        content_length: v@.subrange(cl.0 as int, cl.1 as int),
        referrer: v@.subrange(rf.0 as int, rf.1 as int),
        user_agent: v@.subrange(ua.0 as int, ua.1 as int),
    };
    proof {
        assert(spec_lex(v@) == Some(f));
    }
    let ts_vec = sub_vec(&v, ts.0, ts.1);
    let stamp = match parse_timestamp(&ts_vec) {
        Some(t) => t,
        None => {
            return Err(ParseError::Malformed);
        },
    };
    let status_code = match parse_i64_range(&v, st.0, st.1) {
        Some(c) => c,
        None => {
            return Err(ParseError::Malformed);
        },
    };
    let rq_vec = sub_vec(&v, rq.0, rq.1);
    let k1 = scan_to(&rq_vec, 0, ' ');
    if k1 == rq_vec.len() {
        return Err(ParseError::Malformed);
    }
    let k2 = scan_to(&rq_vec, k1 + 1, ' ');
    let uri_end: usize;
    if k2 == rq_vec.len() {
        uri_end = k2;
    } else {
        let k3 = scan_to(&rq_vec, k2 + 1, ' ');
        if k3 == rq_vec.len() {
            uri_end = k2;
        } else {
            return Err(ParseError::Malformed);
        }
    }
    let method_raw = sub_string(&rq_vec, 0, k1);
    let method = to_upper(&method_raw);
    let uri = sub_string(&rq_vec, k1 + 1, uri_end);
    let content_length = parse_i64_range(&v, cl.0, cl.1);
    let log = ApacheLog {
        source: sub_string(&v, 0, i0),
        timestamp: stamp,
        method,
        uri,
        status_code,
        content_length,
        referrer: sub_string(&v, rf.0, rf.1),
        user_agent: sub_string(&v, ua.0, ua.1),
    };
    proof {
        assert(spec_interpret(f) == Some(log@));
    }
    Ok(log)
}

/// How many pieces the request field splits into on single space characters,
/// empty pieces kept.
pub open spec fn spec_token_count(t: Seq<char>) -> int
    decreases t.len(),
{
    let k = spec_scan_to(t, 0, ' ');
    if 0 <= k && k < t.len() {
        1 + spec_token_count(t.subrange(k + 1, t.len() as int))
    } else {
        1
    }
}

pub proof fn lemma_token_count_pos(t: Seq<char>)
    ensures
        spec_token_count(t) >= 1,
    decreases t.len(),
{
    let k = spec_scan_to(t, 0, ' ');
    if 0 <= k && k < t.len() {
        lemma_token_count_pos(t.subrange(k + 1, t.len() as int));
    }
}

/// The request field is accepted exactly when it splits into two or three
/// pieces; one piece, or four or more, is refused.
pub proof fn lemma_request_arity(t: Seq<char>)
    ensures
        (spec_request_parts(t) is Some) == (spec_token_count(t) == 2 || spec_token_count(t) == 3),
{
    lemma_scan_to(t, 0, ' ');
    let k1 = spec_scan_to(t, 0, ' ');
    if k1 == t.len() {
        assert(spec_token_count(t) == 1);
    } else {
        let t1 = t.subrange(k1 + 1, t.len() as int);
        lemma_scan_to_suffix(t, k1 + 1, ' ');
        lemma_scan_to(t, k1 + 1, ' ');
        let k2 = spec_scan_to(t, k1 + 1, ' ');
        assert(spec_token_count(t) == 1 + spec_token_count(t1));
        assert(spec_scan_to(t1, 0, ' ') == k2 - (k1 + 1));
        if k2 == t.len() {
            assert(spec_token_count(t1) == 1);
        } else {
            let t2 = t.subrange(k2 + 1, t.len() as int);
            assert(t1.subrange(k2 - k1, t1.len() as int) =~= t2);
            assert(spec_token_count(t1) == 1 + spec_token_count(t2));
            lemma_scan_to_suffix(t, k2 + 1, ' ');
            lemma_scan_to(t, k2 + 1, ' ');
            let k3 = spec_scan_to(t, k2 + 1, ' ');
            assert(spec_scan_to(t2, 0, ' ') == k3 - (k2 + 1));
            if k3 == t.len() {
                assert(spec_token_count(t2) == 1);
            } else {
                let t3 = t2.subrange(k3 - k2, t2.len() as int);
                assert(spec_token_count(t2) == 1 + spec_token_count(t3));
                lemma_token_count_pos(t3);
            }
        }
    }
}

/// Every line whose fields match the grammar and whose timestamp, status and
/// request interpret is accepted, and each record field equals its own source
/// token: the source text verbatim, the interpreted timestamp, the uppercased
/// request method, the verbatim URI, the losslessly read numbers, and the
/// verbatim quoted fields.
pub proof fn lemma_well_formed_line_parses(s: Seq<char>, f: RawFields)
    requires
        spec_lex(s) == Some(f),
        spec_parse_timestamp(f.timestamp) is Some,
        spec_parse_i64(f.status) is Some,
        spec_request_parts(f.request) is Some,
    ensures
        spec_parse(s) is Some,
        spec_parse(s).unwrap().source == f.source,
        Some(spec_parse(s).unwrap().timestamp) == spec_parse_timestamp(f.timestamp),
        spec_parse(s).unwrap().method == upper_of(spec_request_parts(f.request).unwrap().0),
        spec_parse(s).unwrap().uri == spec_request_parts(f.request).unwrap().1,
        Some(spec_parse(s).unwrap().status_code) == spec_parse_i64(f.status),
        spec_parse(s).unwrap().content_length == spec_parse_i64(f.content_length),
        spec_parse(s).unwrap().referrer == f.referrer,
        spec_parse(s).unwrap().user_agent == f.user_agent,
{
}

/// A content-length token that is no integer leaves the field absent; it
/// fails nothing.
pub proof fn lemma_content_length_absent(f: RawFields)
    requires
        spec_parse_i64(f.content_length) is None,
    ensures
        spec_interpret(f) matches Some(r) ==> r.content_length is None,
{
}

/// The content-length token decides only its own field: two field sets that
/// differ in nothing else are accepted alike and agree in every other field.
pub proof fn lemma_content_length_independent(f1: RawFields, f2: RawFields)
    requires
        f1.source == f2.source,
        f1.identd == f2.identd,
        f1.username == f2.username,
        f1.timestamp == f2.timestamp,
        f1.request == f2.request,
        f1.status == f2.status,
        f1.referrer == f2.referrer,
        f1.user_agent == f2.user_agent,
    ensures
        (spec_interpret(f1) is Some) == (spec_interpret(f2) is Some),
        spec_interpret(f1) is Some ==> ({
            let r1 = spec_interpret(f1).unwrap();
            let r2 = spec_interpret(f2).unwrap();
            r1.source == r2.source && r1.timestamp == r2.timestamp && r1.method == r2.method
                && r1.uri == r2.uri && r1.status_code == r2.status_code && r1.referrer
                == r2.referrer && r1.user_agent == r2.user_agent && r1.content_length
                == spec_parse_i64(f1.content_length) && r2.content_length == spec_parse_i64(
                f2.content_length,
            )
        }),
{
}

/// A status token that is no integer fails the whole line.
pub proof fn lemma_nonnumeric_status_fails(f: RawFields)
    requires
        spec_parse_i64(f.status) is None,
    ensures
        spec_interpret(f) is None,
        forall|s: Seq<char>| spec_lex(s) == Some(f) ==> #[trigger] spec_parse(s) is None,
{
}

/// With the timestamp and status in order, the request's piece count alone
/// decides the line: two or three pieces parse, any other count fails.
pub proof fn lemma_request_arity_decides(f: RawFields)
    requires
        spec_parse_timestamp(f.timestamp) is Some,
        spec_parse_i64(f.status) is Some,
    ensures
        (spec_interpret(f) is Some) == (spec_token_count(f.request) == 2 || spec_token_count(
            f.request,
        ) == 3),
{
    lemma_request_arity(f.request);
}

} // verus!
