//! HTTP messages: the requests to send, the replies to read and the small
//! server side of a browser callback.
use crate::digits::{decimal, is_dec, law_decimal_reads_back, to_decimal};
use crate::params::pairs_view;
use crate::split::{
    around_first, join, joined, lemma_first_of_is, lines, lines_of, split_once, texts, words,
    words_of,
};
use crate::text::{
    concat, concat3, first_at, is_empty, is_ws, lemma_first_at, occurs, occurs_at, opt_text,
    CharClass,
};
use vstd::prelude::*;
use vstd::string::*;
use vstd::utf8::*;

verus! {

/// What a request asks for.
#[derive(Debug, Clone, Copy, PartialEq, Eq, Structural)]
pub enum Method {
    Get,
    Post,
}

/// A request to be sent to a server.
#[derive(Debug, Clone, PartialEq, Eq)]
pub struct HttpRequest {
    pub method: Method,
    pub url: String,
    pub headers: Vec<(String, String)>,
    /// The pairs of the query string, not yet encoded.
    pub query: Vec<(String, String)>,
    pub body: Option<String>,
    /// The user name of basic authentication, with an empty password.
    pub basic_user: Option<String>,
}

/// What a request holds.
pub struct RequestView {
    pub method: Method,
    pub url: Seq<char>,
    pub headers: Seq<(Seq<char>, Seq<char>)>,
    pub query: Seq<(Seq<char>, Seq<char>)>,
    pub body: Option<Seq<char>>,
    pub basic_user: Option<Seq<char>>,
}

impl View for HttpRequest {
    type V = RequestView;

    open spec fn view(&self) -> RequestView {
        RequestView {
            method: self.method,
            url: self.url@,
            headers: pairs_view(self.headers@),
            query: pairs_view(self.query@),
            body: opt_text(self.body),
            basic_user: opt_text(self.basic_user),
        }
    }
}

/// What a server replied.
#[derive(Debug, Clone, PartialEq, Eq)]
pub struct HttpReply {
    pub status: u16,
    pub body: String,
}

/// What a reply holds.
pub struct ReplyView {
    pub status: u16,
    pub body: Seq<char>,
}

impl View for HttpReply {
    type V = ReplyView;

    open spec fn view(&self) -> ReplyView {
        ReplyView { status: self.status, body: self.body@ }
    }
}

/// Does a status tell of success?
pub open spec fn succeeded(status: u16) -> bool {
    200 <= status < 300
}

/// Does a status tell of success?
pub fn is_success(status: u16) -> (r: bool)
    ensures
        r == succeeded(status),
{
    200 <= status && status < 300
}

/// Why a request could not be sent: the address it was sent to, the causes from
/// the outermost to the innermost, and the error's own message.
#[derive(Debug, Clone, PartialEq, Eq)]
pub struct SendError {
    pub url: Option<String>,
    pub causes: Vec<String>,
    pub message: String,
}

/// What a send error holds.
pub struct SendErrorView {
    pub url: Option<Seq<char>>,
    pub causes: Seq<Seq<char>>,
    pub message: Seq<char>,
}

impl View for SendError {
    type V = SendErrorView;

    open spec fn view(&self) -> SendErrorView {
        SendErrorView {
            url: opt_text(self.url),
            causes: texts(self.causes@),
            message: self.message@,
        }
    }
}

/// The outcome of sending a request.
pub open spec fn outcome_view(o: Result<HttpReply, SendError>) -> Result<ReplyView, SendErrorView> {
    match o {
        Ok(reply) => Ok(reply@),
        Err(e) => Err(e@),
    }
}

/// The last position at or before `n` at which a character begins or the bytes end.
pub open spec fn boundary_before(bytes: Seq<u8>, n: int) -> int
    decreases n,
{
    if n <= 0 || is_char_boundary(bytes, n) {
        n
    } else {
        boundary_before(bytes, n - 1)
    }
}

/// An address in a message: where it has more than 96 bytes, the characters
/// that lie whole in its first 96, and an ellipsis.
pub open spec fn short_url(url: Seq<char>) -> Seq<char> {
    let bytes = encode_utf8(url);
    if bytes.len() > 96 {
        decode_utf8(bytes.take(boundary_before(bytes, 96))) + "…"@
    } else {
        url
    }
}

/// An address in a message, cut down to 96 bytes.
fn shorten_url(url: &str) -> (r: String)
    ensures
        r@ == short_url(url@),
{
    let ghost bytes = encode_utf8(url@);
    proof {
        encode_utf8_valid_utf8(url@);
        is_char_boundary_start_end_of_seq(bytes);
    }
    if url.as_bytes().len() <= 96 {
        return url.to_owned();
    }
    let mut n: usize = 96;
    while n > 0 && !url.is_char_boundary(n)
        invariant
            n <= 96,
            bytes == encode_utf8(url@),
            is_char_boundary(bytes, 0),
            boundary_before(bytes, 96) == boundary_before(bytes, n as int),
        decreases n,
    {
        n -= 1;
    }
    let (head, _) = url.split_at(n);
    proof {
        assert(encode_utf8(head@) =~= bytes.take(n as int));
        encode_utf8_decode_utf8(head@);
    }
    concat(head, "…")
}

/// Why a request failed, in one line: the causes come before the address,
/// which can be long.
pub open spec fn send_error_text(context: Seq<char>, e: SendErrorView) -> Seq<char> {
    let cause = if e.causes.len() == 0 {
        e.message
    } else {
        joined(e.causes, " → "@)
    };
    let url = match e.url {
        Some(u) => short_url(u),
        None => ""@,
    };
    if url.len() == 0 {
        context + ": "@ + cause
    } else {
        context + ": "@ + cause + " ("@ + url + ")"@
    }
}

/// Why a request failed, in one line.
pub fn format_send_error(context: &str, e: &SendError) -> (r: String)
    ensures
        r@ == send_error_text(context@, e@),
{
    let url = match &e.url {
        Some(u) => shorten_url(u.as_str()),
        None => "".to_owned(),
    };
    assert(texts(e.causes@).len() == e.causes@.len());
    let cause = if e.causes.len() == 0 {
        e.message.clone()
    } else {
        join(&e.causes, " → ")
    };
    let mut out = concat3(context, ": ", cause.as_str());
    if !is_empty(url.as_str()) {
        out.append(" (");
        out.append(url.as_str());
        out.append(")");
    }
    out
}

/// The parts of a request text: the first two words of its first line, and
/// what follows the first empty line.
pub open spec fn request_parts(req: Seq<char>) -> Option<(Seq<char>, Seq<char>, Seq<char>)> {
    let (head, body) = match around_first(req, "\r\n\r\n"@) {
        Some(hb) => hb,
        None => (req, ""@),
    };
    let ls = lines_of(head);
    if ls.len() == 0 || words_of(ls[0]).len() < 2 {
        None
    } else {
        Some((words_of(ls[0])[0], words_of(ls[0])[1], body))
    }
}

/// The method, the target and the body of a request text.
pub fn parse_http_request(req: &str) -> (r: Option<(String, String, String)>)
    ensures
        match r {
            Some((m, t, b)) => request_parts(req@) == Some((m@, t@, b@)),
            None => request_parts(req@) is None,
        },
{
    let (head, body) = match split_once(req, "\r\n\r\n") {
        Some(hb) => hb,
        None => (req.to_owned(), "".to_owned()),
    };
    let ls = lines(head.as_str());
    assert(texts(ls@).len() == ls@.len());
    if ls.len() == 0 {
        return None;
    }
    assert(texts(ls@)[0] == ls@[0]@);
    let ws = words(ls[0].as_str());
    assert(texts(ws@).len() == ws@.len());
    if ws.len() < 2 {
        return None;
    }
    assert(texts(ws@)[0] == ws@[0]@);
    assert(texts(ws@)[1] == ws@[1]@);
    Some((ws[0].clone(), ws[1].clone(), body))
}

/// The words that go with a status.
pub open spec fn reason_of(status: u16) -> Seq<char> {
    if status == 200 {
        "OK"@
    } else if status == 400 {
        "Bad Request"@
    } else if status == 404 {
        "Not Found"@
    } else if status == 405 {
        "Method Not Allowed"@
    } else {
        "Error"@
    }
}

/// The words that go with a status.
fn reason(status: u16) -> (r: &'static str)
    ensures
        r@ == reason_of(status),
{
    if status == 200 {
        "OK"
    } else if status == 400 {
        "Bad Request"
    } else if status == 404 {
        "Not Found"
    } else if status == 405 {
        "Method Not Allowed"
    } else {
        "Error"
    }
}

/// A whole response: its head, which gives the number of bytes in the body, and the body.
pub open spec fn response_text(status: u16, content_type: Seq<char>, body: Seq<char>) -> Seq<char> {
    "HTTP/1.1 "@ + decimal(status as nat) + " "@ + reason_of(status) + "\r\nContent-Type: "@
        + content_type + "\r\nContent-Length: "@ + decimal(encode_utf8(body).len())
        + "\r\nConnection: close\r\n\r\n"@ + body
}

/// A whole response.
pub fn http_response(status: u16, content_type: &str, body: &str) -> (r: String)
    ensures
        r@ == response_text(status, content_type@, body@),
{
    let mut out = "HTTP/1.1 ".to_owned();
    out.append(to_decimal(status as u64).as_str());
    out.append(" ");
    out.append(reason(status));
    out.append("\r\nContent-Type: ");
    out.append(content_type);
    out.append("\r\nContent-Length: ");
    let n: usize = body.as_bytes().len();
    out.append(to_decimal(n as u64).as_str());
    out.append("\r\nConnection: close\r\n\r\n");
    out.append(body);
    out
}

/// Is no carriage return in `s` followed, two places on, by another or by the end?
spec fn no_gap(s: Seq<char>) -> bool {
    forall|i: int| 0 <= i < s.len() && #[trigger] s[i] == '\r' ==> i + 2 < s.len() && s[i + 2] != '\r'
}

/// Two such texts make one.
proof fn lemma_no_gap(a: Seq<char>, b: Seq<char>)
    requires
        no_gap(a),
        no_gap(b),
    ensures
        no_gap(a + b),
{
    let s = a + b;
    assert forall|i: int| 0 <= i < s.len() && #[trigger] s[i] == '\r' implies i + 2 < s.len() && s[i
        + 2] != '\r' by {
        if i < a.len() {
            assert(a[i] == '\r');
        } else {
            assert(b[i - a.len()] == '\r');
        }
    }
}

/// The head of a response, without the empty line that ends it.
pub open spec fn response_head(status: u16, content_type: Seq<char>, body: Seq<char>) -> Seq<char> {
    "HTTP/1.1 "@ + decimal(status as nat) + " "@ + reason_of(status) + "\r\nContent-Type: "@
        + content_type + "\r\nContent-Length: "@ + decimal(encode_utf8(body).len())
        + "\r\nConnection: close"@
}

/// The empty line that ends the head of a response stands right before its body.
pub proof fn law_body_follows_head(status: u16, content_type: Seq<char>, body: Seq<char>)
    requires
        forall|i: int| 0 <= i < content_type.len() ==> #[trigger] content_type[i] != '\r',
    ensures
        around_first(response_text(status, content_type, body), "\r\n\r\n"@) == Some(
            (response_head(status, content_type, body), body),
        ),
{
    let head = response_head(status, content_type, body);
    let all = response_text(status, content_type, body);
    let mark = "\r\n\r\n"@;
    let n = head.len() as int;
    reveal_strlit("HTTP/1.1 ");
    reveal_strlit(" ");
    reveal_strlit("OK");
    reveal_strlit("Bad Request");
    reveal_strlit("Not Found");
    reveal_strlit("Method Not Allowed");
    reveal_strlit("Error");
    reveal_strlit("\r\nContent-Type: ");
    reveal_strlit("\r\nContent-Length: ");
    reveal_strlit("\r\nConnection: close");
    reveal_strlit("\r\n\r\n");
    reveal_strlit("\r\nConnection: close\r\n\r\n");
    let d1 = decimal(status as nat);
    let d2 = decimal(encode_utf8(body).len());
    law_decimal_reads_back(status as nat);
    law_decimal_reads_back(encode_utf8(body).len());
    assert(no_gap(d1)) by {
        assert forall|i: int| 0 <= i < d1.len() implies #[trigger] d1[i] != '\r' by {
            assert(is_dec(d1[i]));
        }
    }
    assert(no_gap(d2)) by {
        assert forall|i: int| 0 <= i < d2.len() implies #[trigger] d2[i] != '\r' by {
            assert(is_dec(d2[i]));
        }
    }
    let h1 = "HTTP/1.1 "@ + d1;
    let h2 = h1 + " "@;
    let h3 = h2 + reason_of(status);
    let h4 = h3 + "\r\nContent-Type: "@;
    let h5 = h4 + content_type;
    let h6 = h5 + "\r\nContent-Length: "@;
    let h7 = h6 + d2;
    lemma_no_gap("HTTP/1.1 "@, d1);
    lemma_no_gap(h1, " "@);
    lemma_no_gap(h2, reason_of(status));
    lemma_no_gap(h3, "\r\nContent-Type: "@);
    lemma_no_gap(h4, content_type);
    lemma_no_gap(h5, "\r\nContent-Length: "@);
    lemma_no_gap(h6, d2);
    lemma_no_gap(h7, "\r\nConnection: close"@);
    assert(all =~= head + mark + body);
    assert(all.subrange(n, n + 4) =~= mark);
    assert(crate::text::occurs_at(all, mark, n));
    crate::text::lemma_first_at(all, mark, 0);
    let k = crate::text::first_at(all, mark, 0)->0;
    if k < n {
        let w = all.subrange(k, k + 4);
        assert(w[0] == '\r' && w[2] == '\r');
        assert(head[k] == '\r');
    }
    assert(all.take(n) =~= head);
    assert(all.skip(n + 4) =~= body);
}

/// A text begins with its first line, up to a line feed.
proof fn lemma_first_line(line: Seq<char>, rest: Seq<char>)
    requires
        forall|i: int| 0 <= i < line.len() ==> line[i] != '\n' && line[i] != '\r',
    ensures
        lines_of(line + seq!['\r', '\n'] + rest).len() > 0,
        lines_of(line + seq!['\r', '\n'] + rest)[0] == line,
        line.len() > 0 ==> lines_of(line) == seq![line],
{
    let s = line + seq!['\r', '\n'] + rest;
    let feed = CharClass::Only('\n');
    assert forall|i: int| 0 <= i < line.len() + 1 implies !feed.has(#[trigger] s[i]) by {
        if i < line.len() {
            assert(s[i] == line[i]);
        }
    }
    assert(s[line.len() as int + 1] == '\n');
    lemma_first_of_is(s, feed, line.len() as int + 1);
    assert(s.take(line.len() as int + 1).drop_last() =~= line);
    assert(s.take(line.len() as int + 1).last() == '\r');
    lemma_first_of_is(line, feed, line.len() as int);
}

/// The first two words of a text, where each is followed by a space.
proof fn lemma_first_words(a: Seq<char>, b: Seq<char>, rest: Seq<char>)
    requires
        a.len() > 0,
        b.len() > 0,
        forall|i: int| 0 <= i < a.len() ==> !is_ws(a[i]),
        forall|i: int| 0 <= i < b.len() ==> !is_ws(b[i]),
    ensures
        words_of(a + seq![' '] + b + seq![' '] + rest).len() >= 2,
        words_of(a + seq![' '] + b + seq![' '] + rest)[0] == a,
        words_of(a + seq![' '] + b + seq![' '] + rest)[1] == b,
{
    let ws = CharClass::Whitespace;
    let s = a + seq![' '] + b + seq![' '] + rest;
    assert forall|i: int| 0 <= i < a.len() implies !ws.has(#[trigger] s[i]) by {
        assert(s[i] == a[i]);
    }
    assert(s[a.len() as int] == ' ');
    lemma_first_of_is(s, ws, a.len() as int);
    assert(s.take(a.len() as int) =~= a);
    let t = s.skip(a.len() as int);
    assert(t[0] == ' ');
    lemma_first_of_is(t, ws, 0);
    let u = b + seq![' '] + rest;
    assert(t.skip(1) =~= u);
    assert forall|i: int| 0 <= i < b.len() implies !ws.has(#[trigger] u[i]) by {
        assert(u[i] == b[i]);
    }
    assert(u[b.len() as int] == ' ');
    lemma_first_of_is(u, ws, b.len() as int);
    assert(u.take(b.len() as int) =~= b);
    assert(words_of(t) == words_of(u));
    assert(words_of(s) =~= seq![a] + words_of(t));
}

/// The method and the target of a request are the first two words of its first
/// line, whatever headers and body follow.
pub proof fn law_request_line_is_read(method: Seq<char>, target: Seq<char>, rest: Seq<char>)
    requires
        method.len() > 0,
        target.len() > 0,
        forall|i: int| 0 <= i < method.len() ==> !is_ws(method[i]),
        forall|i: int| 0 <= i < target.len() ==> !is_ws(target[i]),
    ensures
        request_parts(method + seq![' '] + target + " HTTP/1.1\r\n"@ + rest) matches Some((m, t, _))
            && m == method && t == target,
{
    reveal_strlit(" HTTP/1.1\r\n");
    reveal_strlit("\r\n\r\n");
    reveal_strlit("HTTP/1.1");
    let line = method + seq![' '] + target + seq![' '] + "HTTP/1.1"@;
    let req = method + seq![' '] + target + " HTTP/1.1\r\n"@ + rest;
    let gap = "\r\n\r\n"@;
    assert(" HTTP/1.1\r\n"@ =~= seq![' '] + "HTTP/1.1"@ + seq!['\r', '\n']);
    assert(req =~= line + seq!['\r', '\n'] + rest);
    lemma_first_words(method, target, "HTTP/1.1"@);
    assert forall|i: int| 0 <= i < line.len() implies line[i] != '\n' && line[i] != '\r' by {
        let n = method.len() as int;
        let k = target.len() as int;
        if i < n {
            assert(line[i] == method[i]);
        } else if i == n || i == n + 1 + k {
            assert(line[i] == ' ');
        } else if i < n + 1 + k {
            assert(line[i] == target[i - n - 1]);
        } else {
            assert(line[i] == "HTTP/1.1"@[i - n - k - 2]);
        }
    }
    lemma_first_at(req, gap, 0);
    lemma_first_line(line, rest);
    match first_at(req, gap, 0) {
        Some(k) => {
            assert(req.subrange(k, k + 4)[0] == req[k]);
            assert(req[k] == '\r');
            if k < line.len() {
                assert(req[k] == line[k]);
            } else if k == line.len() {
                assert(req.take(k) =~= line);
            } else {
                assert(req[line.len() as int + 1] == '\n');
                let more = req.take(k).skip(line.len() as int + 2);
                assert(req.take(k) =~= line + seq!['\r', '\n'] + more);
                lemma_first_line(line, more);
            }
        },
        None => {},
    }
}

/// The body of a request is what follows the first empty line, and a request
/// without one has an empty body.
pub proof fn law_request_body_follows_empty_line(head: Seq<char>, body: Seq<char>)
    requires
        forall|i: int| 0 <= i < head.len() ==> !occurs_at(head + "\r\n\r\n"@ + body, "\r\n\r\n"@, i),
    ensures
        request_parts(head + "\r\n\r\n"@ + body) matches Some((_, _, b)) ==> b == body,
        !occurs(head, "\r\n\r\n"@) ==> (request_parts(head) matches Some((_, _, b)) ==> b.len()
            == 0),
{
    reveal_strlit("\r\n\r\n");
    reveal_strlit("");
    let gap = "\r\n\r\n"@;
    let req = head + gap + body;
    let n = head.len() as int;
    lemma_first_at(req, gap, 0);
    lemma_first_at(head, gap, 0);
    assert(req.subrange(n, n + gap.len()) =~= gap);
    assert(occurs_at(req, gap, n));
    assert(req.skip(n + gap.len()) =~= body);
    if first_at(head, gap, 0) is Some {
        assert(occurs(head, gap));
    }
}

/// Success is told by the statuses from 200 to 299, and by no others.
pub proof fn law_success_statuses(status: u16)
    ensures
        succeeded(status) <==> status / 100 == 2,
{
}

/// A response begins with its status and the words for it, says of what type and how long
/// its body is, in bytes, and ends with the body.
pub proof fn law_response_tells_its_body(status: u16, content_type: Seq<char>, body: Seq<char>)
    ensures
        response_text(status, content_type, body) == "HTTP/1.1 "@ + decimal(status as nat) + " "@
            + reason_of(status) + "\r\nContent-Type: "@ + content_type + "\r\nContent-Length: "@
            + decimal(encode_utf8(body).len()) + "\r\nConnection: close\r\n\r\n"@ + body,
        crate::text::ends(response_text(status, content_type, body), body),
        reason_of(200) == "OK"@,
        reason_of(400) == "Bad Request"@,
        reason_of(404) == "Not Found"@,
        reason_of(405) == "Method Not Allowed"@,
{
    let r = response_text(status, content_type, body);
    assert(r.skip(r.len() - body.len()) =~= body);
}

/// A failure to send tells the causes, from the outermost to the innermost, or else the
/// message, and behind it the address where that is known; a short address as it is.
pub proof fn law_send_failure_tells_causes(context: Seq<char>, e: SendErrorView)
    ensures
        ({
            let cause = if e.causes.len() > 0 {
                joined(e.causes, " → "@)
            } else {
                e.message
            };
            &&& e.url is None ==> send_error_text(context, e) == context + ": "@ + cause
            &&& e.url is Some && 0 < encode_utf8(e.url->0).len() <= 96 && e.url->0.len() > 0
                ==> send_error_text(context, e) == context + ": "@ + cause + " ("@ + e.url->0
                + ")"@
        }),
{
    reveal_strlit("");
}

} // verus!
