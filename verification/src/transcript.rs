//! Session transcripts: JSON lines that begin with a header and record the
//! messages of one agent session.
use crate::iso::{iso_ms, parse_iso_ms};
use crate::json::{
    either_str, get_either, json_parsed, member, member_array, member_str, parse_json, views, Json,
    JsonView,
};
use crate::letters::{lowercase, to_lower};
use crate::path::{file_name, name_of};
use crate::split::{lines, lines_of, shorten, shortened, texts};
use crate::text::{
    after_prefix, concat, is_empty, nonblank, opt_text, opt_view, or_else, own_opt, replace,
    replaced, str_eq, strip_prefix, trim, trim_opt, trimmed,
};
use vstd::prelude::*;
use vstd::string::*;

verus! {

/// The header of a session file.
pub struct SessionHeader {
    pub id: Option<String>,
    pub cwd: Option<String>,
    pub parent_session: Option<String>,
}

/// What a session header holds.
pub struct HeaderView {
    pub id: Option<Seq<char>>,
    pub cwd: Option<Seq<char>>,
    pub parent_session: Option<Seq<char>>,
}

impl View for SessionHeader {
    type V = HeaderView;

    open spec fn view(&self) -> HeaderView {
        HeaderView {
            id: opt_text(self.id),
            cwd: opt_text(self.cwd),
            parent_session: opt_text(self.parent_session),
        }
    }
}

/// What an optional header holds.
pub open spec fn opt_header(h: Option<SessionHeader>) -> Option<HeaderView> {
    match h {
        Some(x) => Some(x@),
        None => None,
    }
}

/// The header that a JSON value writes: an object of type `session`.
pub open spec fn header_of(v: JsonView) -> Option<HeaderView> {
    if member_str(v, "type"@) == Some("session"@) {
        Some(
            HeaderView {
                id: member_str(v, "id"@),
                cwd: member_str(v, "cwd"@),
                parent_session: member_str(v, "parentSession"@),
            },
        )
    } else {
        None
    }
}

/// The header that the first line of a session file writes.
pub open spec fn header_of_line(line: Seq<char>) -> Option<HeaderView> {
    match json_parsed(trimmed(line)) {
        Ok(v) => header_of(v),
        Err(_) => None,
    }
}

/// Is an optional text this one?
fn opt_is(o: Option<&str>, s: &str) -> (r: bool)
    ensures
        r == (opt_view(o) == Some(s@)),
{
    match o {
        Some(t) => str_eq(t, s),
        None => false,
    }
}

/// The header that a JSON value writes.
pub fn session_header(v: &Json) -> (r: Option<SessionHeader>)
    ensures
        opt_header(r) == header_of(v@),
{
    if opt_is(v.get_str("type"), "session") {
        Some(
            SessionHeader {
                id: own_opt(v.get_str("id")),
                cwd: own_opt(v.get_str("cwd")),
                parent_session: own_opt(v.get_str("parentSession")),
            },
        )
    } else {
        None
    }
}

/// The header that the first line of a session file writes.
pub fn read_session_header(line: &str) -> (r: Option<SessionHeader>)
    ensures
        opt_header(r) == header_of_line(line@),
{
    match parse_json(trim(line)) {
        Ok(v) => session_header(&v),
        Err(_) => None,
    }
}

/// What a session file tells about its session.
pub struct ParsedSession {
    pub id: Option<String>,
    pub name: Option<String>,
    pub first_user_goal: Option<String>,
    pub last_user_goal: Option<String>,
    pub activity: Option<String>,
    pub updated_at_ms: Option<u64>,
    pub tool_events: usize,
    pub assistant_chars: usize,
    pub ended: bool,
}

/// What a parsed session holds.
pub struct ParsedView {
    pub id: Option<Seq<char>>,
    pub name: Option<Seq<char>>,
    pub first_user_goal: Option<Seq<char>>,
    pub last_user_goal: Option<Seq<char>>,
    pub activity: Option<Seq<char>>,
    pub updated_at_ms: Option<u64>,
    pub tool_events: usize,
    pub assistant_chars: usize,
    pub ended: bool,
}

impl View for ParsedSession {
    type V = ParsedView;

    open spec fn view(&self) -> ParsedView {
        ParsedView {
            id: opt_text(self.id),
            name: opt_text(self.name),
            first_user_goal: opt_text(self.first_user_goal),
            last_user_goal: opt_text(self.last_user_goal),
            activity: opt_text(self.activity),
            updated_at_ms: self.updated_at_ms,
            tool_events: self.tool_events,
            assistant_chars: self.assistant_chars,
            ended: self.ended,
        }
    }
}

/// A session file, read up to some line.
pub struct Scan {
    pub parsed: ParsedSession,
    pub last_role: Option<String>,
    pub agent_status: Option<String>,
}

/// What a partly read session file holds.
pub struct ScanView {
    pub parsed: ParsedView,
    pub last_role: Option<Seq<char>>,
    pub agent_status: Option<Seq<char>>,
}

impl View for Scan {
    type V = ScanView;

    open spec fn view(&self) -> ScanView {
        ScanView {
            parsed: self.parsed@,
            last_role: opt_text(self.last_role),
            agent_status: opt_text(self.agent_status),
        }
    }
}

/// A session of which nothing is known.
pub open spec fn blank_session() -> ParsedView {
    ParsedView {
        id: None,
        name: None,
        first_user_goal: None,
        last_user_goal: None,
        activity: None,
        updated_at_ms: None,
        tool_events: 0,
        assistant_chars: 0,
        ended: true,
    }
}

/// A session file of which nothing has been read.
pub open spec fn blank_scan() -> ScanView {
    ScanView { parsed: blank_session(), last_role: None, agent_status: None }
}

/// `n` and `k` more, up to the largest count.
pub open spec fn counted(n: usize, k: int) -> usize {
    if n + k > usize::MAX {
        usize::MAX
    } else {
        (n + k) as usize
    }
}

/// `n` and `k` more, up to the largest count.
fn count(n: usize, k: usize) -> (r: usize)
    ensures
        r == counted(n, k as int),
{
    if k > usize::MAX - n {
        usize::MAX
    } else {
        n + k
    }
}

/// `s` without the white space around it, cut down to `max` characters.
pub open spec fn brief(s: Seq<char>, max: int) -> Seq<char> {
    shortened(trimmed(s), max)
}

/// `s` without the white space around it, cut down to `max` characters.
pub fn truncate(s: &str, max: usize) -> (r: String)
    ensures
        r@ == brief(s@, max as int),
{
    shorten(trim(s), max)
}

/// The text of a message's parts so far, and that of one part more, on lines of their own.
pub open spec fn with_part(out: Seq<char>, part: JsonView) -> Seq<char> {
    if member_str(part, "type"@) == Some("text"@) {
        match member_str(part, "text"@) {
            Some(t) => if out.len() > 0 {
                out + "\n"@ + t
            } else {
                t
            },
            None => out,
        }
    } else {
        out
    }
}

/// The text of a message's parts.
pub open spec fn parts_text(parts: Seq<JsonView>) -> Seq<char>
    decreases parts.len(),
{
    if parts.len() == 0 {
        Seq::empty()
    } else {
        with_part(parts_text(parts.drop_last()), parts.last())
    }
}

/// The text of a message.
pub open spec fn text_of_message(message: JsonView) -> Option<Seq<char>> {
    match member(message, "content"@) {
        Some(JsonView::Str(s)) => Some(s),
        Some(JsonView::Array(parts)) => if parts_text(parts).len() > 0 {
            Some(parts_text(parts))
        } else {
            None
        },
        _ => None,
    }
}

/// The text of a message: its content, or the text parts of it, one to a line.
pub fn message_text(message: &Json) -> (r: Option<String>)
    ensures
        opt_text(r) == text_of_message(message@),
{
    match message.get("content") {
        Some(Json::Str(s)) => Some(s.clone()),
        Some(Json::Array(parts)) => {
            let mut out = String::new();
            let mut i: usize = 0;
            let ghost all = views(parts@);
            assert(json_array_view(*parts) == JsonView::Array(all)) by {
                lemma_array_view(*parts);
            }
            assert(out@ =~= parts_text(all.take(0)));
            while i < parts.len()
                invariant
                    i <= parts@.len(),
                    all == views(parts@),
                    out@ == parts_text(all.take(i as int)),
                decreases parts.len() - i,
            {
                let part = &parts[i];
                assert(all.take(i + 1).drop_last() =~= all.take(i as int));
                assert(all.take(i + 1).last() == part@);
                if opt_is(part.get_str("type"), "text") {
                    if let Some(t) = part.get_str("text") {
                        if !is_empty(out.as_str()) {
                            out.append("\n");
                        }
                        assert(out@.len() == 0 ==> out@ + t@ =~= t@);
                        out.append(t);
                    }
                }
                i += 1;
            }
            assert(all.take(i as int) =~= all);
            if is_empty(out.as_str()) {
                None
            } else {
                Some(out)
            }
        },
        _ => None,
    }
}

/// The mathematical value of an array.
spec fn json_array_view(items: Vec<Json>) -> JsonView {
    Json::Array(items)@
}

/// An array's value is made of the values of its items.
proof fn lemma_array_view(items: Vec<Json>)
    ensures
        json_array_view(items) == JsonView::Array(views(items@)),
{
    assert(json_array_view(items)->Array_0 =~= views(items@));
}

/// What the user asked for, without the marks around a query, in at most 80 characters.
pub open spec fn goal_of(text: Seq<char>) -> Seq<char> {
    let a = replaced(trimmed(text), "<user_query>"@, ""@);
    let b = replaced(a, "</user_query>"@, ""@);
    let c = replaced(b, "<user>"@, ""@);
    let d = replaced(c, "</user>"@, ""@);
    brief(d, 80)
}

/// What the user asked for, without the marks around a query, in at most 80 characters.
pub fn sanitize_goal(text: &str) -> (r: String)
    ensures
        r@ == goal_of(text@),
{
    proof {
        reveal_strlit("<user_query>");
        reveal_strlit("</user_query>");
        reveal_strlit("<user>");
        reveal_strlit("</user>");
    }
    let a = replace(trim(text), "<user_query>", "");
    let b = replace(a.as_str(), "</user_query>", "");
    let c = replace(b.as_str(), "<user>", "");
    let d = replace(c.as_str(), "</user>", "");
    truncate(d.as_str(), 80)
}

/// What follows the imperative with which a request in lower case begins.
pub open spec fn after_imperative(low: Seq<char>) -> Option<Seq<char>> {
    or_else(
        after_prefix(low, "fix the "@),
        or_else(
            after_prefix(low, "fix "@),
            or_else(
                after_prefix(low, "add a "@),
                or_else(
                    after_prefix(low, "add "@),
                    or_else(
                        after_prefix(low, "implement "@),
                        or_else(
                            after_prefix(low, "create "@),
                            or_else(
                                after_prefix(low, "update "@),
                                after_prefix(low, "refactor "@),
                            ),
                        ),
                    ),
                ),
            ),
        ),
    )
}

/// A request as the topic of a sentence, given the request in lower case.
pub open spec fn topic_given(goal: Seq<char>, low: Seq<char>) -> Seq<char> {
    match after_imperative(low) {
        Some(rest) => "that "@ + rest,
        None => "that "@ + goal,
    }
}

/// A request as the topic of a sentence.
pub open spec fn topic_of(goal: Seq<char>) -> Seq<char> {
    topic_given(trimmed(goal), lowercase(trimmed(goal)))
}

/// What follows the imperative with which a request in lower case begins.
fn strip_imperative<'a>(low: &'a str) -> (r: Option<&'a str>)
    ensures
        opt_view(r) == after_imperative(low@),
{
    if let Some(t) = strip_prefix(low, "fix the ") {
        return Some(t);
    }
    if let Some(t) = strip_prefix(low, "fix ") {
        return Some(t);
    }
    if let Some(t) = strip_prefix(low, "add a ") {
        return Some(t);
    }
    if let Some(t) = strip_prefix(low, "add ") {
        return Some(t);
    }
    if let Some(t) = strip_prefix(low, "implement ") {
        return Some(t);
    }
    if let Some(t) = strip_prefix(low, "create ") {
        return Some(t);
    }
    if let Some(t) = strip_prefix(low, "update ") {
        return Some(t);
    }
    strip_prefix(low, "refactor ")
}

/// A request as the topic of a sentence, given the request in lower case.
pub fn topic_from(goal: &str, low: &str) -> (r: String)
    ensures
        r@ == topic_given(goal@, low@),
{
    let mut out = "that ".to_owned();
    match strip_imperative(low) {
        Some(rest) => out.append(rest),
        None => out.append(goal),
    }
    out
}

/// A request as the topic of a sentence: `that`, then the request without the
/// imperative that it begins with.
pub fn casual_topic(goal: &str) -> (r: String)
    ensures
        r@ == topic_of(goal@),
        vstd::utf8::is_ascii_chars(trimmed(goal@)) ==> r@ == topic_given(
            trimmed(goal@),
            crate::letters::ascii_lower(trimmed(goal@)),
        ),
{
    let g = trim(goal);
    let low = to_lower(g);
    topic_from(g, low.as_str())
}

/// The arguments of a tool call.
pub open spec fn arguments_of(part: JsonView) -> JsonView {
    match or_else(member(part, "arguments"@), member(part, "input"@)) {
        Some(v) => v,
        None => JsonView::Null,
    }
}

/// The first line of `code`.
pub open spec fn first_line(code: Seq<char>) -> Seq<char> {
    if lines_of(code).len() > 0 {
        lines_of(code)[0]
    } else {
        code
    }
}

/// What a tool call is about, in a few words.
pub open spec fn activity_of(name: Seq<char>, part: JsonView) -> Seq<char> {
    let args = arguments_of(part);
    if name == "ipython"@ || name == "IPython"@ {
        match member_str(args, "code"@) {
            Some(code) => "Running "@ + brief(trimmed(first_line(code)), 40),
            None => "Running IPython"@,
        }
    } else if name == "bash"@ || name == "Bash"@ || name == "Shell"@ {
        match either_str(args, "command"@, "cmd"@) {
            Some(cmd) => "Running "@ + brief(cmd, 48),
            None => "Running "@ + name,
        }
    } else if name == "read"@ || name == "Read"@ {
        match either_str(args, "path"@, "file_path"@) {
            Some(path) => match name_of(path) {
                Some(n) => "Reading "@ + n,
                None => "Reading "@ + path,
            },
            None => "Reading"@,
        }
    } else {
        "Using "@ + name
    }
}

/// What a tool call is about, given its arguments.
fn activity_given(name: &str, args: &Json) -> (r: String)
    ensures
        forall|part: JsonView|
            args@ == arguments_of(part) ==> r@ == #[trigger] activity_of(name@, part),
{
    if str_eq(name, "ipython") || str_eq(name, "IPython") {
        match args.get_str("code") {
            Some(code) => {
                let ls = lines(code);
                assert(texts(ls@).len() == ls@.len());
                let first = if ls.len() > 0 {
                    assert(texts(ls@)[0] == ls@[0]@);
                    trim(ls[0].as_str())
                } else {
                    trim(code)
                };
                concat("Running ", truncate(first, 40).as_str())
            },
            None => "Running IPython".to_owned(),
        }
    } else if str_eq(name, "bash") || str_eq(name, "Bash") || str_eq(name, "Shell") {
        match get_either(args, "command", "cmd") {
            Some(cmd) => concat("Running ", truncate(cmd, 48).as_str()),
            None => concat("Running ", name),
        }
    } else if str_eq(name, "read") || str_eq(name, "Read") {
        match get_either(args, "path", "file_path") {
            Some(path) => match file_name(path) {
                Some(n) => concat("Reading ", n.as_str()),
                None => concat("Reading ", path),
            },
            None => "Reading".to_owned(),
        }
    } else {
        concat("Using ", name)
    }
}

/// What a tool call is about, in a few words.
pub fn format_tool_activity(name: &str, part: &Json) -> (r: String)
    ensures
        r@ == activity_of(name@, part@),
{
    match part.get("arguments") {
        Some(args) => activity_given(name, args),
        None => match part.get("input") {
            Some(args) => activity_given(name, args),
            None => activity_given(name, &Json::Null),
        },
    }
}

/// A session after one part of an assistant's message.
pub open spec fn scan_part(s: ParsedView, part: JsonView) -> ParsedView {
    match member_str(part, "type"@) {
        Some(t) => if t == "text"@ {
            match member_str(part, "text"@) {
                Some(x) => ParsedView {
                    assistant_chars: counted(s.assistant_chars, x.len() as int),
                    ..s
                },
                None => s,
            }
        } else if t == "toolCall"@ || t == "tool_use"@ {
            ParsedView {
                tool_events: counted(s.tool_events, 1),
                ended: false,
                activity: match member_str(part, "name"@) {
                    Some(name) => Some(activity_of(name, part)),
                    None => s.activity,
                },
                ..s
            }
        } else if t == "thinking"@ {
            ParsedView {
                ended: false,
                activity: or_else(s.activity, Some("Thinking…"@)),
                ..s
            }
        } else {
            s
        },
        None => s,
    }
}

/// A session after the parts of an assistant's message.
pub open spec fn scan_parts(s: ParsedView, parts: Seq<JsonView>) -> ParsedView
    decreases parts.len(),
{
    if parts.len() == 0 {
        s
    } else {
        scan_part(scan_parts(s, parts.drop_last()), parts.last())
    }
}

/// A session after a message of the user.
pub open spec fn scan_user(s: ParsedView, message: JsonView) -> ParsedView {
    match text_of_message(message) {
        Some(text) => if goal_of(text).len() > 0 {
            ParsedView {
                first_user_goal: or_else(s.first_user_goal, Some(goal_of(text))),
                last_user_goal: Some(goal_of(text)),
                ended: false,
                ..s
            }
        } else {
            ParsedView { ended: false, ..s }
        },
        None => ParsedView { ended: false, ..s },
    }
}

/// A session after a message of the assistant.
pub open spec fn scan_assistant(s: ParsedView, message: JsonView) -> ParsedView {
    let after = match member_array(message, "content"@) {
        Some(parts) => scan_parts(s, parts),
        None => s,
    };
    if member_str(message, "stopReason"@) == Some("stop"@) {
        ParsedView { ended: true, ..after }
    } else {
        after
    }
}

/// Who a message is from.
pub open spec fn role_of(message: JsonView) -> Seq<char> {
    match member_str(message, "role"@) {
        Some(role) => role,
        None => ""@,
    }
}

/// A session after a message.
pub open spec fn scan_message(s: ScanView, message: JsonView) -> ScanView {
    let role = role_of(message);
    ScanView {
        last_role: Some(role),
        parsed: if role == "user"@ {
            scan_user(s.parsed, message)
        } else if role == "assistant"@ {
            scan_assistant(s.parsed, message)
        } else if role == "toolResult"@ {
            ParsedView { tool_events: counted(s.parsed.tool_events, 1), ended: false, ..s.parsed }
        } else {
            s.parsed
        },
        ..s
    }
}

/// A session after the time stamp of an entry.
pub open spec fn scan_time(s: ScanView, entry: JsonView) -> ScanView {
    match member_str(entry, "timestamp"@) {
        Some(ts) => match iso_ms(ts) {
            Some(ms) => ScanView {
                parsed: ParsedView { updated_at_ms: Some(ms), ..s.parsed },
                ..s
            },
            None => s,
        },
        None => s,
    }
}

/// A session after an entry of its file.
pub open spec fn scan_entry(before: ScanView, entry: JsonView) -> ScanView {
    let s = scan_time(before, entry);
    match member_str(entry, "type"@) {
        Some(t) => if t == "session"@ {
            ScanView { parsed: ParsedView { id: member_str(entry, "id"@), ..s.parsed }, ..s }
        } else if t == "session_info"@ {
            match nonblank(member_str(entry, "name"@)) {
                Some(name) => ScanView {
                    parsed: ParsedView { name: Some(name), ..s.parsed },
                    ..s
                },
                None => s,
            }
        } else if t == "agent_status"@ {
            ScanView {
                agent_status: or_else(
                    nonblank(member_str(entry, "summary"@)),
                    or_else(nonblank(member_str(entry, "status"@)), s.agent_status),
                ),
                ..s
            }
        } else if t == "message"@ {
            match member(entry, "message"@) {
                Some(message) => scan_message(s, message),
                None => s,
            }
        } else {
            s
        },
        None => s,
    }
}

/// A session after a line of its file. A line that is no JSON text tells nothing.
pub open spec fn scan_line(s: ScanView, line: Seq<char>) -> ScanView {
    if trimmed(line).len() == 0 {
        s
    } else {
        match json_parsed(trimmed(line)) {
            Ok(entry) => scan_entry(s, entry),
            Err(_) => s,
        }
    }
}

/// A session after lines of its file.
pub open spec fn scan_lines(s: ScanView, lines: Seq<Seq<char>>) -> ScanView
    decreases lines.len(),
{
    if lines.len() == 0 {
        s
    } else {
        scan_line(scan_lines(s, lines.drop_last()), lines.last())
    }
}

/// What a whole session file tells: a status that the agent set itself says
/// best what it does; else a session that ended waits or idles, and one that
/// goes on does what its last tool call does.
pub open spec fn finished(s: ScanView, mtime_ms: Option<u64>) -> ParsedView {
    ParsedView {
        updated_at_ms: or_else(s.parsed.updated_at_ms, mtime_ms),
        activity: match s.agent_status {
            Some(status) => Some(status),
            None => if s.parsed.ended {
                if s.last_role == Some("user"@) {
                    Some("Waiting for input"@)
                } else {
                    Some("Idle"@)
                }
            } else {
                or_else(s.parsed.activity, Some("Working…"@))
            },
        },
        ..s.parsed
    }
}

/// What a session file tells; nothing where it could not be read.
pub open spec fn session_of(lines: Option<Seq<Seq<char>>>, mtime_ms: Option<u64>) -> ParsedView {
    match lines {
        Some(ls) => finished(scan_lines(blank_scan(), ls), mtime_ms),
        None => blank_session(),
    }
}

impl ParsedSession {
    /// A session of which nothing is known.
    pub fn blank() -> (r: ParsedSession)
        ensures
            r@ == blank_session(),
    {
        ParsedSession {
            id: None,
            name: None,
            first_user_goal: None,
            last_user_goal: None,
            activity: None,
            updated_at_ms: None,
            tool_events: 0,
            assistant_chars: 0,
            ended: true,
        }
    }

    /// Takes in one part of an assistant's message.
    pub fn take_part(&mut self, part: &Json)
        ensures
            final(self)@ == scan_part(old(self)@, part@),
    {
        match part.get_str("type") {
            Some(t) => {
                if str_eq(t, "text") {
                    if let Some(x) = part.get_str("text") {
                        self.assistant_chars = count(self.assistant_chars, x.unicode_len());
                    }
                } else if str_eq(t, "toolCall") || str_eq(t, "tool_use") {
                    self.tool_events = count(self.tool_events, 1);
                    self.ended = false;
                    if let Some(name) = part.get_str("name") {
                        self.activity = Some(format_tool_activity(name, part));
                    }
                } else if str_eq(t, "thinking") {
                    self.ended = false;
                    if self.activity.is_none() {
                        self.activity = Some("Thinking…".to_owned());
                    }
                }
            },
            None => {},
        }
    }

    /// Takes in a message of the user.
    pub fn take_user(&mut self, message: &Json)
        ensures
            final(self)@ == scan_user(old(self)@, message@),
    {
        if let Some(text) = message_text(message) {
            let goal = sanitize_goal(text.as_str());
            if !is_empty(goal.as_str()) {
                if self.first_user_goal.is_none() {
                    self.first_user_goal = Some(goal.clone());
                }
                self.last_user_goal = Some(goal);
            }
        }
        self.ended = false;
    }

    /// Takes in a message of the assistant.
    pub fn take_assistant(&mut self, message: &Json)
        ensures
            final(self)@ == scan_assistant(old(self)@, message@),
    {
        if let Some(parts) = message.get_array("content") {
            let mut i: usize = 0;
            let ghost all = views(parts@);
            let ghost before = self@;
            while i < parts.len()
                invariant
                    i <= parts@.len(),
                    all == views(parts@),
                    self@ == scan_parts(before, all.take(i as int)),
                decreases parts.len() - i,
            {
                assert(all.take(i + 1).drop_last() =~= all.take(i as int));
                assert(all.take(i + 1).last() == parts@[i as int]@);
                self.take_part(&parts[i]);
                i += 1;
            }
            assert(all.take(i as int) =~= all);
        }
        if opt_is(message.get_str("stopReason"), "stop") {
            self.ended = true;
        }
    }
}

impl Scan {
    /// A session file of which nothing has been read.
    pub fn blank() -> (r: Scan)
        ensures
            r@ == blank_scan(),
    {
        Scan { parsed: ParsedSession::blank(), last_role: None, agent_status: None }
    }

    /// Takes in a message.
    pub fn take_message(&mut self, message: &Json)
        ensures
            final(self)@ == scan_message(old(self)@, message@),
    {
        let role = match message.get_str("role") {
            Some(role) => role,
            None => "",
        };
        self.last_role = Some(role.to_owned());
        if str_eq(role, "user") {
            self.parsed.take_user(message);
        } else if str_eq(role, "assistant") {
            self.parsed.take_assistant(message);
        } else if str_eq(role, "toolResult") {
            self.parsed.tool_events = count(self.parsed.tool_events, 1);
            self.parsed.ended = false;
        }
    }

    /// Takes in an entry of the session file.
    pub fn take_entry(&mut self, entry: &Json)
        ensures
            final(self)@ == scan_entry(old(self)@, entry@),
    {
        if let Some(ts) = entry.get_str("timestamp") {
            if let Some(ms) = parse_iso_ms(ts) {
                self.parsed.updated_at_ms = Some(ms);
            }
        }
        assert(self@ == scan_time(old(self)@, entry@));
        match entry.get_str("type") {
            Some(t) => {
                if str_eq(t, "session") {
                    self.parsed.id = own_opt(entry.get_str("id"));
                } else if str_eq(t, "session_info") {
                    if let Some(name) = trim_opt(entry.get_str("name")) {
                        self.parsed.name = Some(name);
                    }
                } else if str_eq(t, "agent_status") {
                    if let Some(summary) = trim_opt(entry.get_str("summary")) {
                        self.agent_status = Some(summary);
                    } else if let Some(status) = trim_opt(entry.get_str("status")) {
                        self.agent_status = Some(status);
                    }
                } else if str_eq(t, "message") {
                    if let Some(message) = entry.get("message") {
                        self.take_message(message);
                    }
                }
            },
            None => {},
        }
    }

    /// Takes in a line of the session file.
    pub fn take_line(&mut self, line: &str)
        ensures
            final(self)@ == scan_line(old(self)@, line@),
    {
        let t = trim(line);
        if !is_empty(t) {
            if let Ok(entry) = parse_json(t) {
                self.take_entry(&entry);
            }
        }
    }

    /// What the whole file tells, given when it was last written.
    pub fn finish(self, mtime_ms: Option<u64>) -> (r: ParsedSession)
        ensures
            r@ == finished(self@, mtime_ms),
    {
        let mut parsed = self.parsed;
        if parsed.updated_at_ms.is_none() {
            parsed.updated_at_ms = mtime_ms;
        }
        if let Some(status) = self.agent_status {
            parsed.activity = Some(status);
        } else if parsed.ended {
            let waits = match &self.last_role {
                Some(role) => str_eq(role.as_str(), "user"),
                None => false,
            };
            parsed.activity = if waits {
                Some("Waiting for input".to_owned())
            } else {
                Some("Idle".to_owned())
            };
        } else if parsed.activity.is_none() {
            parsed.activity = Some("Working…".to_owned());
        }
        parsed
    }
}

/// The lines of a file that could be read.
pub open spec fn opt_lines(lines: Option<&Vec<String>>) -> Option<Seq<Seq<char>>> {
    match lines {
        Some(v) => Some(texts(v@)),
        None => None,
    }
}

/// What a session file tells about its session, given its lines and when it
/// was last written; nothing where it could not be read.
pub fn parse_session_file(lines: Option<&Vec<String>>, mtime_ms: Option<u64>) -> (r: ParsedSession)
    ensures
        r@ == session_of(opt_lines(lines), mtime_ms),
{
    match lines {
        Some(ls) => {
            let mut scan = Scan::blank();
            let mut i: usize = 0;
            let ghost all = texts(ls@);
            while i < ls.len()
                invariant
                    i <= ls@.len(),
                    all == texts(ls@),
                    scan@ == scan_lines(blank_scan(), all.take(i as int)),
                decreases ls.len() - i,
            {
                assert(all.take(i + 1).drop_last() =~= all.take(i as int));
                assert(all.take(i + 1).last() == ls@[i as int]@);
                scan.take_line(ls[i].as_str());
                i += 1;
            }
            assert(all.take(i as int) =~= all);
            scan.finish(mtime_ms)
        },
        None => ParsedSession::blank(),
    }
}

/// Of a session whose file could be read it is always known what it does.
pub proof fn law_activity_is_known(lines: Seq<Seq<char>>, mtime_ms: Option<u64>)
    ensures
        session_of(Some(lines), mtime_ms).activity is Some,
{
}

/// A goal is never longer than 80 characters.
pub proof fn law_goal_is_short(text: Seq<char>)
    ensures
        goal_of(text).len() <= 80,
{
    let a = replaced(trimmed(text), "<user_query>"@, ""@);
    let b = replaced(a, "</user_query>"@, ""@);
    let c = replaced(b, "<user>"@, ""@);
    let d = replaced(c, "</user>"@, ""@);
    crate::split::law_shortened_fits(trimmed(d), 80);
}

/// Does the session have a first goal exactly where it has a last one?
pub open spec fn goals_agree(p: ParsedView) -> bool {
    p.first_user_goal is Some <==> p.last_user_goal is Some
}

/// The parts of an assistant's message leave the goals as they are.
proof fn lemma_parts_keep_goals(s: ParsedView, parts: Seq<JsonView>)
    ensures
        scan_parts(s, parts).first_user_goal == s.first_user_goal,
        scan_parts(s, parts).last_user_goal == s.last_user_goal,
    decreases parts.len(),
{
    if parts.len() > 0 {
        lemma_parts_keep_goals(s, parts.drop_last());
    }
}

/// Every line keeps the goals in agreement.
proof fn lemma_lines_keep_goals(s: ScanView, lines: Seq<Seq<char>>)
    requires
        goals_agree(s.parsed),
    ensures
        goals_agree(scan_lines(s, lines).parsed),
    decreases lines.len(),
{
    if lines.len() > 0 {
        lemma_lines_keep_goals(s, lines.drop_last());
        let before = scan_lines(s, lines.drop_last());
        if let Ok(entry) = json_parsed(trimmed(lines.last())) {
            if let Some(message) = member(entry, "message"@) {
                if let Some(parts) = member_array(message, "content"@) {
                    lemma_parts_keep_goals(scan_time(before, entry).parsed, parts);
                }
            }
        }
    }
}

/// A session has a first goal exactly where it has a last one.
pub proof fn law_goals_come_together(lines: Option<Seq<Seq<char>>>, mtime_ms: Option<u64>)
    ensures
        goals_agree(session_of(lines, mtime_ms)),
{
    if let Some(ls) = lines {
        lemma_lines_keep_goals(blank_scan(), ls);
    }
}

/// The JSON value that a line of a session file writes, where it writes one.
pub open spec fn entry_in(line: Seq<char>) -> Option<JsonView> {
    match json_parsed(trimmed(line)) {
        Ok(v) => if trimmed(line).len() > 0 {
            Some(v)
        } else {
            None
        },
        Err(_) => None,
    }
}

/// Does a line write an entry of this type?
pub open spec fn entry_is(line: Seq<char>, kind: Seq<char>) -> bool {
    entry_in(line) matches Some(e) && member_str(e, "type"@) == Some(kind)
}

/// The message that a line records, where it records one.
pub open spec fn message_on(line: Seq<char>) -> Option<JsonView> {
    if entry_is(line, "message"@) {
        member(entry_in(line)->0, "message"@)
    } else {
        None
    }
}

/// Does a line record a message from `role`?
pub open spec fn says(line: Seq<char>, role: Seq<char>) -> bool {
    message_on(line) matches Some(m) && member_str(m, "role"@) == Some(role)
}

/// Does the agent say on this line how it fares?
pub open spec fn sets_status(line: Seq<char>) -> bool {
    entry_is(line, "agent_status"@) && (nonblank(member_str(entry_in(line)->0, "summary"@)) is Some
        || nonblank(member_str(entry_in(line)->0, "status"@)) is Some)
}

/// Does the agent stop with this line?
pub open spec fn stops(line: Seq<char>) -> bool {
    says(line, "assistant"@) && member_str(message_on(line)->0, "stopReason"@) == Some("stop"@)
}

/// The types of entries, and the roles, are told apart.
proof fn lemma_words_differ()
    ensures
        "session"@ != "session_info"@,
        "session"@ != "agent_status"@,
        "session"@ != "message"@,
        "session_info"@ != "agent_status"@,
        "session_info"@ != "message"@,
        "agent_status"@ != "message"@,
        "user"@ != "assistant"@,
        "user"@ != "toolResult"@,
        "assistant"@ != "toolResult"@,
        ""@ != "user"@,
        ""@ != "assistant"@,
        ""@ != "toolResult"@,
        "text"@ != "toolCall"@,
        "text"@ != "tool_use"@,
        "text"@ != "thinking"@,
        "toolCall"@ != "thinking"@,
        "tool_use"@ != "thinking"@,
{
    reveal_strlit("session");
    reveal_strlit("session_info");
    reveal_strlit("agent_status");
    reveal_strlit("message");
    reveal_strlit("user");
    reveal_strlit("assistant");
    reveal_strlit("toolResult");
    reveal_strlit("");
    reveal_strlit("text");
    reveal_strlit("toolCall");
    reveal_strlit("tool_use");
    reveal_strlit("thinking");
    assert("session"@.len() == 7 && "session_info"@.len() == 12 && "agent_status"@.len() == 12
        && "message"@.len() == 7);
    assert("session"@[0] == 's' && "message"@[0] == 'm');
    assert("session_info"@[0] == 's' && "agent_status"@[0] == 'a');
    assert("user"@.len() == 4 && "assistant"@.len() == 9 && "toolResult"@.len() == 10);
    assert("text"@.len() == 4 && "toolCall"@.len() == 8 && "tool_use"@.len() == 8
        && "thinking"@.len() == 8);
    assert("toolCall"@[1] == 'o' && "tool_use"@[1] == 'o' && "thinking"@[1] == 'h');
}

/// A line that sets no status leaves the status; one that records no message
/// leaves what the messages tell.
proof fn lemma_line_keeps(s: ScanView, line: Seq<char>)
    ensures
        !sets_status(line) ==> scan_line(s, line).agent_status == s.agent_status,
        message_on(line) is None ==> scan_line(s, line).last_role == s.last_role && scan_line(
            s,
            line,
        ).parsed.ended == s.parsed.ended && scan_line(s, line).parsed.activity == s.parsed.activity,
{
    lemma_words_differ();
}

/// Lines that set no status leave the status.
proof fn lemma_lines_keep_status(s: ScanView, lines: Seq<Seq<char>>)
    requires
        forall|i: int| 0 <= i < lines.len() ==> !sets_status(#[trigger] lines[i]),
    ensures
        scan_lines(s, lines).agent_status == s.agent_status,
    decreases lines.len(),
{
    if lines.len() > 0 {
        let t = lines.drop_last();
        assert forall|i: int| 0 <= i < t.len() implies !sets_status(#[trigger] t[i]) by {
            assert(t[i] == lines[i]);
        }
        lemma_lines_keep_status(s, t);
        assert(!sets_status(lines[lines.len() - 1]));
        lemma_line_keeps(scan_lines(s, t), lines.last());
    }
}

/// Where the last message is the user's, the session goes on.
proof fn lemma_asked_goes_on(lines: Seq<Seq<char>>)
    ensures
        scan_lines(blank_scan(), lines).last_role == Some("user"@) ==> !scan_lines(
            blank_scan(),
            lines,
        ).parsed.ended,
    decreases lines.len(),
{
    if lines.len() > 0 {
        lemma_asked_goes_on(lines.drop_last());
        lemma_line_keeps(scan_lines(blank_scan(), lines.drop_last()), lines.last());
        lemma_words_differ();
    }
}

/// A session that ended is idle, whatever it did before, unless the agent said
/// itself how it fares.
pub proof fn law_ended_session_is_idle(lines: Seq<Seq<char>>, mtime_ms: Option<u64>)
    requires
        session_of(Some(lines), mtime_ms).ended,
        forall|i: int| 0 <= i < lines.len() ==> !sets_status(#[trigger] lines[i]),
    ensures
        session_of(Some(lines), mtime_ms).activity == Some("Idle"@),
{
    lemma_lines_keep_status(blank_scan(), lines);
    lemma_asked_goes_on(lines);
}

/// Has the session ended? It has where the last message that tells so is one with
/// which the agent stops.
proof fn lemma_stop_ends(lines: Seq<Seq<char>>, k: int)
    requires
        0 <= k < lines.len(),
        stops(lines[k]),
        forall|i: int| k < i < lines.len() ==> message_on(#[trigger] lines[i]) is None,
    ensures
        scan_lines(blank_scan(), lines).parsed.ended,
    decreases lines.len(),
{
    let t = lines.drop_last();
    if k < t.len() {
        assert(t[k] == lines[k]);
        assert forall|i: int| k < i < t.len() implies message_on(#[trigger] t[i]) is None by {
            assert(t[i] == lines[i]);
        }
        lemma_stop_ends(t, k);
        assert(message_on(lines[lines.len() - 1]) is None);
        lemma_line_keeps(scan_lines(blank_scan(), t), lines.last());
    } else {
        lemma_words_differ();
    }
}

/// A session whose last message is one with which the agent stopped has ended and
/// is idle, whatever tool calls and thoughts came before.
pub proof fn law_stopped_session_is_idle(lines: Seq<Seq<char>>, k: int, mtime_ms: Option<u64>)
    requires
        0 <= k < lines.len(),
        stops(lines[k]),
        forall|i: int| k < i < lines.len() ==> message_on(#[trigger] lines[i]) is None,
        forall|i: int| 0 <= i < lines.len() ==> !sets_status(#[trigger] lines[i]),
    ensures
        session_of(Some(lines), mtime_ms).ended,
        session_of(Some(lines), mtime_ms).activity == Some("Idle"@),
{
    lemma_stop_ends(lines, k);
    law_ended_session_is_idle(lines, mtime_ms);
}

/// What the agent last said of itself is what it does: its summary, or else its
/// status, without the white space around it.
pub proof fn law_own_status_is_told(lines: Seq<Seq<char>>, k: int, mtime_ms: Option<u64>)
    requires
        0 <= k < lines.len(),
        sets_status(lines[k]),
        forall|i: int| k < i < lines.len() ==> !sets_status(#[trigger] lines[i]),
    ensures
        ({
            let entry = entry_in(lines[k])->0;
            let told = session_of(Some(lines), mtime_ms).activity;
            match member_str(entry, "summary"@) {
                Some(s) => if trimmed(s).len() > 0 {
                    told == Some(trimmed(s))
                } else {
                    told == Some(trimmed(member_str(entry, "status"@)->0))
                },
                None => told == Some(trimmed(member_str(entry, "status"@)->0)),
            }
        }),
    decreases lines.len(),
{
    lemma_words_differ();
    let t = lines.drop_last();
    if k < t.len() {
        assert(t[k] == lines[k]);
        assert forall|i: int| k < i < t.len() implies !sets_status(#[trigger] t[i]) by {
            assert(t[i] == lines[i]);
        }
        law_own_status_is_told(t, k, mtime_ms);
        lemma_status_known(t, k);
        assert(!sets_status(lines[lines.len() - 1]));
        lemma_line_keeps(scan_lines(blank_scan(), t), lines.last());
    }
}

/// A status that was set stays set.
proof fn lemma_status_known(lines: Seq<Seq<char>>, k: int)
    requires
        0 <= k < lines.len(),
        sets_status(lines[k]),
    ensures
        scan_lines(blank_scan(), lines).agent_status is Some,
    decreases lines.len(),
{
    lemma_words_differ();
    let t = lines.drop_last();
    if k < t.len() {
        assert(t[k] == lines[k]);
        lemma_status_known(t, k);
    }
}

/// Is the part a tool call?
pub open spec fn calls_tool(part: JsonView) -> bool {
    member_str(part, "type"@) == Some("toolCall"@) || member_str(part, "type"@) == Some(
        "tool_use"@,
    )
}

/// The parts of the assistant's message on a line.
pub open spec fn parts_on(line: Seq<char>) -> Seq<JsonView> {
    if says(line, "assistant"@) {
        match member_array(message_on(line)->0, "content"@) {
            Some(parts) => parts,
            None => Seq::empty(),
        }
    } else {
        Seq::empty()
    }
}

/// How many tool calls are among the parts.
pub open spec fn calls_among(parts: Seq<JsonView>) -> nat {
    parts.filter(|p: JsonView| calls_tool(p)).len()
}

/// How many characters the text parts hold together.
pub open spec fn letters_among(parts: Seq<JsonView>) -> nat
    decreases parts.len(),
{
    if parts.len() == 0 {
        0
    } else {
        letters_among(parts.drop_first()) + match member_str(parts[0], "text"@) {
            Some(t) => if member_str(parts[0], "type"@) == Some("text"@) {
                t.len()
            } else {
                0
            },
            None => 0,
        }
    }
}

/// The letters of the last part come on top of those before it.
proof fn lemma_letters_last(parts: Seq<JsonView>)
    requires
        parts.len() > 0,
    ensures
        letters_among(parts) == letters_among(parts.drop_last()) + letters_among(
            seq![parts.last()],
        ),
    decreases parts.len(),
{
    let one = seq![parts.last()];
    assert(one.drop_first() =~= Seq::empty());
    if parts.len() == 1 {
        assert(parts =~= one);
        assert(parts.drop_last() =~= Seq::empty());
    } else {
        lemma_letters_last(parts.drop_first());
        assert(parts.drop_first().drop_last() =~= parts.drop_last().drop_first());
        assert(parts.drop_first().last() == parts.last());
    }
}

/// What the parts of a message count for.
proof fn lemma_parts_count(s: ParsedView, parts: Seq<JsonView>)
    ensures
        scan_parts(s, parts).tool_events == counted(s.tool_events, calls_among(parts) as int),
        scan_parts(s, parts).assistant_chars == counted(
            s.assistant_chars,
            letters_among(parts) as int,
        ),
        scan_parts(s, parts).ended == (s.ended && forall|i: int|
            0 <= i < parts.len() ==> !calls_tool(#[trigger] parts[i]) && member_str(
                parts[i],
                "type"@,
            ) != Some("thinking"@)),
    decreases parts.len(),
{
    reveal(Seq::filter);
    reveal_with_fuel(letters_among, 2);
    lemma_words_differ();
    if parts.len() > 0 {
        let t = parts.drop_last();
        lemma_parts_count(s, t);
        lemma_letters_last(parts);
        let one = seq![parts.last()];
        assert(one.drop_first() =~= Seq::empty());
        assert(one[0] == parts.last());
        assert(parts[parts.len() - 1] == parts.last());
        assert forall|i: int| 0 <= i < t.len() implies #[trigger] t[i] == parts[i] by {}
        if scan_parts(s, parts).ended {
            assert forall|i: int| 0 <= i < parts.len() implies !calls_tool(#[trigger] parts[i])
                && member_str(parts[i], "type"@) != Some("thinking"@) by {
                if i < t.len() {
                    assert(!calls_tool(t[i]));
                }
            }
        } else if s.ended && scan_parts(s, t).ended {
            assert(calls_tool(parts[parts.len() - 1]) || member_str(
                parts[parts.len() - 1],
                "type"@,
            ) == Some("thinking"@));
        } else if s.ended {
            let i = choose|i: int|
                0 <= i < t.len() && (calls_tool(#[trigger] t[i]) || member_str(t[i], "type"@)
                    == Some("thinking"@));
            assert(calls_tool(parts[i]) || member_str(parts[i], "type"@) == Some("thinking"@));
        }
    }
}

/// One line more tells of the session's id only where it is a header, and of its
/// name only where it is a `session_info` entry with a name.
pub proof fn law_line_names_session(
    lines: Seq<Seq<char>>,
    line: Seq<char>,
    mtime_ms: Option<u64>,
)
    ensures
        ({
            let p = session_of(Some(lines), mtime_ms);
            let q = session_of(Some(lines.push(line)), mtime_ms);
            let entry = entry_in(line)->0;
            &&& entry_is(line, "session"@) ==> q.id == member_str(entry, "id"@)
            &&& !entry_is(line, "session"@) ==> q.id == p.id
            &&& match member_str(entry, "name"@) {
                Some(n) => if entry_is(line, "session_info"@) && trimmed(n).len() > 0 {
                    q.name == Some(trimmed(n))
                } else {
                    q.name == p.name
                },
                None => q.name == p.name,
            }
        }),
{
    lemma_words_differ();
    assert(lines.push(line).drop_last() =~= lines);
    let s = scan_lines(blank_scan(), lines);
    if says(line, "assistant"@) {
        lemma_parts_keep_names(scan_time(s, entry_in(line)->0).parsed, parts_on(line));
    }
}

/// The parts of an assistant's message leave the id, the name and the time.
proof fn lemma_parts_keep_names(s: ParsedView, parts: Seq<JsonView>)
    ensures
        scan_parts(s, parts).id == s.id,
        scan_parts(s, parts).name == s.name,
        scan_parts(s, parts).updated_at_ms == s.updated_at_ms,
    decreases parts.len(),
{
    if parts.len() > 0 {
        lemma_parts_keep_names(s, parts.drop_last());
    }
}

/// The user's goals are those of the user's messages that say something: the first
/// such message sets the first goal, and each sets the last. No other line changes
/// a goal.
pub proof fn law_line_sets_goals(lines: Seq<Seq<char>>, line: Seq<char>, mtime_ms: Option<u64>)
    ensures
        ({
            let p = session_of(Some(lines), mtime_ms);
            let q = session_of(Some(lines.push(line)), mtime_ms);
            match text_of_message(message_on(line)->0) {
                Some(text) => if says(line, "user"@) && goal_of(text).len() > 0 {
                    &&& q.last_user_goal == Some(goal_of(text))
                    &&& p.first_user_goal is Some ==> q.first_user_goal == p.first_user_goal
                    &&& p.first_user_goal is None ==> q.first_user_goal == Some(goal_of(text))
                } else {
                    q.first_user_goal == p.first_user_goal && q.last_user_goal == p.last_user_goal
                },
                None => q.first_user_goal == p.first_user_goal && q.last_user_goal
                    == p.last_user_goal,
            }
        }),
{
    lemma_words_differ();
    assert(lines.push(line).drop_last() =~= lines);
    let s = scan_lines(blank_scan(), lines);
    if says(line, "assistant"@) {
        lemma_parts_keep_goals(scan_time(s, entry_in(line)->0).parsed, parts_on(line));
    }
}

/// A request and the result of a tool set the agent to work, and so do the tool
/// calls and thoughts in its own messages, unless it stops with them. No other
/// line starts or ends a session.
pub proof fn law_line_starts_or_ends(lines: Seq<Seq<char>>, line: Seq<char>, mtime_ms: Option<u64>)
    ensures
        ({
            let p = session_of(Some(lines), mtime_ms);
            let q = session_of(Some(lines.push(line)), mtime_ms);
            &&& stops(line) ==> q.ended
            &&& says(line, "user"@) || says(line, "toolResult"@) ==> !q.ended
            &&& !stops(line) && (exists|i: int|
                0 <= i < parts_on(line).len() && (calls_tool(#[trigger] parts_on(line)[i])
                    || member_str(parts_on(line)[i], "type"@) == Some("thinking"@))) ==> !q.ended
            &&& !stops(line) && !says(line, "user"@) && !says(line, "toolResult"@) && (forall|
                i: int,
            |
                0 <= i < parts_on(line).len() ==> !calls_tool(#[trigger] parts_on(line)[i])
                    && member_str(parts_on(line)[i], "type"@) != Some("thinking"@)) ==> q.ended
                == p.ended
        }),
{
    lemma_words_differ();
    assert(lines.push(line).drop_last() =~= lines);
    let s = scan_lines(blank_scan(), lines);
    if says(line, "assistant"@) {
        lemma_parts_count(scan_time(s, entry_in(line)->0).parsed, parts_on(line));
    }
}

/// Tool calls and tool results count as events, and the characters of the agent's
/// own text parts are counted; nothing else is.
pub proof fn law_line_counts(lines: Seq<Seq<char>>, line: Seq<char>, mtime_ms: Option<u64>)
    ensures
        ({
            let p = session_of(Some(lines), mtime_ms);
            let q = session_of(Some(lines.push(line)), mtime_ms);
            let events = p.tool_events + calls_among(parts_on(line)) + if says(
                line,
                "toolResult"@,
            ) {
                1int
            } else {
                0int
            };
            let letters = p.assistant_chars + letters_among(parts_on(line));
            &&& q.tool_events == if events <= usize::MAX { events } else { usize::MAX as int }
            &&& q.assistant_chars == if letters <= usize::MAX { letters } else { usize::MAX as int }
        }),
{
    lemma_words_differ();
    reveal(Seq::filter);
    assert(lines.push(line).drop_last() =~= lines);
    let s = scan_lines(blank_scan(), lines);
    if says(line, "assistant"@) {
        lemma_parts_count(scan_time(s, entry_in(line)->0).parsed, parts_on(line));
    } else {
        assert(parts_on(line).len() == 0);
    }
}

/// A session was last active at the last time that can be read in its entries, or
/// else when its file was written.
pub proof fn law_line_sets_time(lines: Seq<Seq<char>>, line: Seq<char>, mtime_ms: Option<u64>)
    ensures
        session_of(Some(Seq::empty()), mtime_ms).updated_at_ms == mtime_ms,
        ({
            let p = session_of(Some(lines), mtime_ms);
            let q = session_of(Some(lines.push(line)), mtime_ms);
            match entry_in(line) {
                Some(entry) => match member_str(entry, "timestamp"@) {
                    Some(ts) => match iso_ms(ts) {
                        Some(ms) => q.updated_at_ms == Some(ms),
                        None => q.updated_at_ms == p.updated_at_ms,
                    },
                    None => q.updated_at_ms == p.updated_at_ms,
                },
                None => q.updated_at_ms == p.updated_at_ms,
            }
        }),
{
    lemma_words_differ();
    assert(lines.push(line).drop_last() =~= lines);
    let s = scan_lines(blank_scan(), lines);
    if says(line, "assistant"@) {
        lemma_parts_keep_names(scan_time(s, entry_in(line)->0).parsed, parts_on(line));
    }
}

/// A file without lines tells of no name and no goal, and its session has ended; a
/// file that could not be read tells nothing at all.
pub proof fn law_empty_file_tells_nothing(mtime_ms: Option<u64>)
    ensures
        ({
            let p = session_of(Some(Seq::empty()), mtime_ms);
            &&& p.id is None && p.name is None
            &&& p.first_user_goal is None && p.last_user_goal is None
            &&& p.tool_events == 0 && p.assistant_chars == 0
            &&& p.ended
        }),
        ({
            let p = session_of(None, mtime_ms);
            &&& p.id is None && p.name is None && p.activity is None && p.updated_at_ms is None
            &&& p.first_user_goal is None && p.last_user_goal is None
            &&& p.tool_events == 0 && p.assistant_chars == 0
            &&& p.ended
        }),
{
}

/// The tool calls of the parts that follow decide what is done, if they name a tool.
proof fn lemma_last_call(s: ParsedView, parts: Seq<JsonView>, j: int)
    requires
        0 <= j < parts.len(),
        calls_tool(parts[j]),
        member_str(parts[j], "name"@) is Some,
        forall|i: int|
            j < i < parts.len() ==> !(calls_tool(#[trigger] parts[i]) && member_str(
                parts[i],
                "name"@,
            ) is Some),
    ensures
        scan_parts(s, parts).activity == Some(
            activity_of(member_str(parts[j], "name"@)->0, parts[j]),
        ),
    decreases parts.len(),
{
    lemma_words_differ();
    let t = parts.drop_last();
    if j < t.len() {
        assert(t[j] == parts[j]);
        assert forall|i: int| j < i < t.len() implies !(calls_tool(#[trigger] t[i]) && member_str(
            t[i],
            "name"@,
        ) is Some) by {
            assert(t[i] == parts[i]);
        }
        lemma_last_call(s, t, j);
        assert(!(calls_tool(parts[parts.len() - 1]) && member_str(
            parts[parts.len() - 1],
            "name"@,
        ) is Some));
    }
}

/// Lines without a message of the agent leave what it does.
proof fn lemma_quiet_lines_keep(s: ScanView, line: Seq<char>)
    requires
        !says(line, "assistant"@),
    ensures
        scan_line(s, line).parsed.activity == s.parsed.activity,
{
    lemma_words_differ();
}

/// The last tool call in the agent's last message, from line `k` on.
proof fn lemma_call_is_kept(lines: Seq<Seq<char>>, k: int, j: int)
    requires
        0 <= k < lines.len(),
        0 <= j < parts_on(lines[k]).len(),
        calls_tool(parts_on(lines[k])[j]),
        member_str(parts_on(lines[k])[j], "name"@) is Some,
        forall|i: int|
            j < i < parts_on(lines[k]).len() ==> !(calls_tool(#[trigger] parts_on(lines[k])[i])
                && member_str(parts_on(lines[k])[i], "name"@) is Some),
        forall|i: int| k < i < lines.len() ==> !says(#[trigger] lines[i], "assistant"@),
    ensures
        scan_lines(blank_scan(), lines).parsed.activity == Some(
            activity_of(
                member_str(parts_on(lines[k])[j], "name"@)->0,
                parts_on(lines[k])[j],
            ),
        ),
    decreases lines.len(),
{
    lemma_words_differ();
    let t = lines.drop_last();
    let s = scan_lines(blank_scan(), t);
    if k < t.len() {
        assert(t[k] == lines[k]);
        assert forall|i: int| k < i < t.len() implies !says(#[trigger] t[i], "assistant"@) by {
            assert(t[i] == lines[i]);
        }
        lemma_call_is_kept(t, k, j);
        assert(!says(lines[lines.len() - 1], "assistant"@));
        lemma_quiet_lines_keep(s, lines.last());
    } else {
        lemma_last_call(scan_time(s, entry_in(lines[k])->0).parsed, parts_on(lines[k]), j);
    }
}

/// An agent at work does what the last tool call in its last message does.
pub proof fn law_last_tool_call_is_shown(
    lines: Seq<Seq<char>>,
    k: int,
    j: int,
    mtime_ms: Option<u64>,
)
    requires
        0 <= k < lines.len(),
        0 <= j < parts_on(lines[k]).len(),
        calls_tool(parts_on(lines[k])[j]),
        member_str(parts_on(lines[k])[j], "name"@) is Some,
        forall|i: int|
            j < i < parts_on(lines[k]).len() ==> !(calls_tool(#[trigger] parts_on(lines[k])[i])
                && member_str(parts_on(lines[k])[i], "name"@) is Some),
        forall|i: int| k < i < lines.len() ==> !says(#[trigger] lines[i], "assistant"@),
        forall|i: int| 0 <= i < lines.len() ==> !sets_status(#[trigger] lines[i]),
        !session_of(Some(lines), mtime_ms).ended,
    ensures
        session_of(Some(lines), mtime_ms).activity == Some(
            activity_of(
                member_str(parts_on(lines[k])[j], "name"@)->0,
                parts_on(lines[k])[j],
            ),
        ),
{
    lemma_lines_keep_status(blank_scan(), lines);
    lemma_call_is_kept(lines, k, j);
}

/// What parts that name no tool leave or set.
proof fn lemma_thoughts(s: ParsedView, parts: Seq<JsonView>)
    requires
        forall|i: int|
            0 <= i < parts.len() ==> !(calls_tool(#[trigger] parts[i]) && member_str(
                parts[i],
                "name"@,
            ) is Some),
    ensures
        scan_parts(s, parts).activity == s.activity || (s.activity is None && scan_parts(
            s,
            parts,
        ).activity == Some("Thinking…"@)),
        (exists|i: int|
            0 <= i < parts.len() && member_str(#[trigger] parts[i], "type"@) == Some("thinking"@))
            ==> scan_parts(s, parts).activity is Some,
        (forall|i: int|
            0 <= i < parts.len() ==> member_str(#[trigger] parts[i], "type"@) != Some("thinking"@))
            ==> scan_parts(s, parts).activity == s.activity,
    decreases parts.len(),
{
    lemma_words_differ();
    if parts.len() > 0 {
        let t = parts.drop_last();
        assert forall|i: int| 0 <= i < t.len() implies #[trigger] t[i] == parts[i] by {}
        lemma_thoughts(s, t);
        assert(parts.last() == parts[parts.len() - 1]);
        if exists|i: int|
            0 <= i < parts.len() && member_str(#[trigger] parts[i], "type"@) == Some("thinking"@) {
            let i = choose|i: int|
                0 <= i < parts.len() && member_str(#[trigger] parts[i], "type"@) == Some(
                    "thinking"@,
                );
            if i < t.len() {
                assert(member_str(t[i], "type"@) == Some("thinking"@));
            }
        } else {
            assert forall|i: int| 0 <= i < t.len() implies member_str(#[trigger] t[i], "type"@)
                != Some("thinking"@) by {
                assert(t[i] == parts[i]);
            }
        }
    }
}

/// Does the agent think on this line?
pub open spec fn thinks(line: Seq<char>) -> bool {
    exists|i: int|
        0 <= i < parts_on(line).len() && member_str(#[trigger] parts_on(line)[i], "type"@) == Some(
            "thinking"@,
        )
}

/// Does the agent call a tool by name on this line?
pub open spec fn names_tool(line: Seq<char>) -> bool {
    exists|i: int|
        0 <= i < parts_on(line).len() && calls_tool(#[trigger] parts_on(line)[i]) && member_str(
            parts_on(line)[i],
            "name"@,
        ) is Some
}

/// What lines without a named tool tell of what the agent does.
proof fn lemma_toolless(lines: Seq<Seq<char>>)
    requires
        forall|i: int| 0 <= i < lines.len() ==> !names_tool(#[trigger] lines[i]),
    ensures
        ({
            let a = scan_lines(blank_scan(), lines).parsed.activity;
            if exists|i: int| 0 <= i < lines.len() && thinks(#[trigger] lines[i]) {
                a == Some("Thinking…"@)
            } else {
                a is None
            }
        }),
    decreases lines.len(),
{
    lemma_words_differ();
    if lines.len() > 0 {
        let t = lines.drop_last();
        let last = lines.last();
        assert forall|i: int| 0 <= i < t.len() implies !names_tool(#[trigger] t[i]) by {
            assert(t[i] == lines[i]);
        }
        lemma_toolless(t);
        assert(!names_tool(lines[lines.len() - 1]));
        let s = scan_lines(blank_scan(), t);
        if says(last, "assistant"@) {
            lemma_thoughts(scan_time(s, entry_in(last)->0).parsed, parts_on(last));
        } else {
            lemma_quiet_lines_keep(s, last);
            assert(!thinks(last));
        }
        if exists|i: int| 0 <= i < lines.len() && thinks(#[trigger] lines[i]) {
            let i = choose|i: int| 0 <= i < lines.len() && thinks(#[trigger] lines[i]);
            if i < t.len() {
                assert(thinks(t[i]));
            }
        } else {
            assert(!thinks(lines[lines.len() - 1]));
            assert forall|i: int| 0 <= i < t.len() implies !thinks(#[trigger] t[i]) by {
                assert(t[i] == lines[i]);
            }
        }
    }
}

/// An agent at work that has called no tool by name thinks, where it has thoughts,
/// and works otherwise.
pub proof fn law_toolless_agent_thinks_or_works(lines: Seq<Seq<char>>, mtime_ms: Option<u64>)
    requires
        forall|i: int| 0 <= i < lines.len() ==> !names_tool(#[trigger] lines[i]),
        forall|i: int| 0 <= i < lines.len() ==> !sets_status(#[trigger] lines[i]),
        !session_of(Some(lines), mtime_ms).ended,
    ensures
        session_of(Some(lines), mtime_ms).activity == if exists|i: int|
            0 <= i < lines.len() && thinks(#[trigger] lines[i]) {
            Some("Thinking…"@)
        } else {
            Some("Working…"@)
        },
{
    lemma_lines_keep_status(blank_scan(), lines);
    lemma_toolless(lines);
}

/// A message's text is its content where that is a text.
pub proof fn law_plain_content_is_the_text(message: JsonView)
    ensures
        member_str(message, "content"@) is Some ==> text_of_message(message) == member_str(
            message,
            "content"@,
        ),
        member_str(message, "content"@) is None && member_array(message, "content"@) is None
            ==> text_of_message(message) is None,
{
}

/// The text parts of a message are put on lines of their own; parts of other types
/// do not count. Here `n` is the message `m` with one part more.
pub proof fn law_text_parts_are_lines(m: JsonView, n: JsonView, part: JsonView)
    requires
        member_array(m, "content"@) is Some,
        member_array(n, "content"@) == Some(member_array(m, "content"@)->0.push(part)),
    ensures
        match member_str(part, "text"@) {
            Some(t) => if member_str(part, "type"@) == Some("text"@) && t.len() > 0 {
                match text_of_message(m) {
                    Some(before) => text_of_message(n) == Some(before + seq!['\n'] + t),
                    None => text_of_message(n) == Some(t),
                }
            } else if member_str(part, "type"@) != Some("text"@) {
                text_of_message(n) == text_of_message(m)
            } else {
                true
            },
            None => text_of_message(n) == text_of_message(m),
        },
{
    reveal_strlit("\n");
    assert("\n"@ =~= seq!['\n']);
    let parts = member_array(m, "content"@)->0;
    assert(parts.push(part).drop_last() =~= parts);
}

/// Nothing is replaced where the first character of what is sought is missing.
proof fn lemma_nothing_replaced(s: Seq<char>, from: Seq<char>, to: Seq<char>)
    requires
        from.len() > 0,
        forall|i: int| 0 <= i < s.len() ==> !crate::text::occurs_at(s, from, i),
    ensures
        replaced(s, from, to) == s,
{
    crate::text::lemma_first_at(s, from, 0);
}

/// A text that stands once, at `k`, and is taken out.
proof fn lemma_taken_out(s: Seq<char>, from: Seq<char>, k: int)
    requires
        from.len() > 0,
        crate::text::occurs_at(s, from, k),
        forall|i: int| 0 <= i < s.len() && i != k ==> !crate::text::occurs_at(s, from, i),
    ensures
        replaced(s, from, ""@) == s.take(k) + s.skip(k + from.len()),
{
    reveal_strlit("");
    crate::text::lemma_first_at(s, from, 0);
    let rest = s.skip(k + from.len());
    assert forall|i: int| 0 <= i < rest.len() implies !crate::text::occurs_at(rest, from, i) by {
        if crate::text::occurs_at(rest, from, i) {
            let j = i + k + from.len();
            assert(s.subrange(j, j + from.len()) =~= rest.subrange(i, i + from.len()));
            assert(crate::text::occurs_at(s, from, j));
        }
    }
    lemma_nothing_replaced(rest, from, ""@);
    assert(s.take(k) + ""@ + rest =~= s.take(k) + rest);
}

/// Where two texts differ at their `j`-th character, one does not stand where the
/// other does.
proof fn lemma_not_there(s: Seq<char>, needle: Seq<char>, i: int, j: int)
    requires
        0 <= j < needle.len(),
        0 <= i,
        i + j < s.len() ==> s[i + j] != needle[j],
    ensures
        !crate::text::occurs_at(s, needle, i),
{
    if crate::text::occurs_at(s, needle, i) {
        assert(s.subrange(i, i + needle.len())[j] == needle[j]);
    }
}

/// A request without marks is the goal, cut down to 80 characters; so is one
/// between the marks of a query or of the user.
pub proof fn law_goal_is_what_was_asked(q: Seq<char>)
    requires
        forall|i: int| 0 <= i < q.len() ==> q[i] != '<',
    ensures
        goal_of(q) == shortened(trimmed(q), 80),
        goal_of("<user_query>"@ + q + "</user_query>"@) == shortened(trimmed(q), 80),
        goal_of("<user>"@ + q + "</user>"@) == shortened(trimmed(q), 80),
{
    reveal_strlit("<user_query>");
    reveal_strlit("</user_query>");
    reveal_strlit("<user>");
    reveal_strlit("</user>");
    let a = "<user_query>"@;
    let b = "</user_query>"@;
    let c = "<user>"@;
    let d = "</user>"@;
    lemma_unmarked(q);
    crate::text::law_trim_idempotent(q);
    lemma_trimmed_unmarked(q);
    lemma_unmarked(trimmed(q));
    assert(is_mark(a) && is_mark(b) && is_mark(c) && is_mark(d)) by {
        assert forall|i: int| 0 < i < b.len() implies b[i] != '<' by {}
        assert forall|i: int| 0 < i < a.len() implies a[i] != '<' by {}
    }
    lemma_marks_trimmed(a, q, b);
    lemma_open_taken(a, q, b);
    lemma_close_taken(q, b);
    lemma_marks_trimmed(c, q, d);
    lemma_foreign_mark(c, q, d, a, 5, 1);
    lemma_foreign_mark(c, q, d, b, 1, 6);
    lemma_open_taken(c, q, d);
    lemma_close_taken(q, d);
}

/// Is the text a mark: from an angle bracket to the other one?
spec fn is_mark(m: Seq<char>) -> bool {
    &&& m.len() >= 2
    &&& m[0] == '<' && m.last() == '>'
    &&& forall|i: int| 0 < i < m.len() ==> m[i] != '<'
}

/// A text between two marks has no white space around it.
proof fn lemma_marks_trimmed(open: Seq<char>, q: Seq<char>, close: Seq<char>)
    requires
        is_mark(open),
        is_mark(close),
    ensures
        trimmed(open + q + close) == open + q + close,
{
    let s = open + q + close;
    assert(s.last() == '>' && s[0] == '<');
    crate::text::lemma_drop_leading_none(s, crate::text::CharClass::Whitespace);
    crate::text::lemma_drop_trailing_none(s, crate::text::CharClass::Whitespace);
}

/// In a text between two marks an angle bracket stands only where a mark begins.
proof fn lemma_brackets(open: Seq<char>, q: Seq<char>, close: Seq<char>, i: int)
    requires
        is_mark(open),
        is_mark(close),
        forall|k: int| 0 <= k < q.len() ==> q[k] != '<',
        0 <= i < open.len() + q.len() + close.len(),
        i != 0,
        i != open.len() + q.len(),
    ensures
        (open + q + close)[i] != '<',
{
    let s = open + q + close;
    if i < open.len() {
        assert(s[i] == open[i]);
    } else if i < open.len() + q.len() {
        assert(s[i] == q[i - open.len()]);
    } else {
        assert(s[i] == close[i - open.len() - q.len()]);
    }
}

/// The mark before a text is taken out.
proof fn lemma_open_taken(open: Seq<char>, q: Seq<char>, close: Seq<char>)
    requires
        is_mark(open),
        is_mark(close),
        open[1] != close[1],
        forall|i: int| 0 <= i < q.len() ==> q[i] != '<',
    ensures
        replaced(open + q + close, open, ""@) == q + close,
{
    let s = open + q + close;
    assert(s.subrange(0, open.len() as int) =~= open);
    assert forall|i: int| 0 <= i < s.len() && i != 0 implies !crate::text::occurs_at(
        s,
        open,
        i,
    ) by {
        if i == open.len() + q.len() {
            assert(s[i + 1] == close[1]);
            lemma_not_there(s, open, i, 1);
        } else {
            lemma_brackets(open, q, close, i);
            lemma_not_there(s, open, i, 0);
        }
    }
    lemma_taken_out(s, open, 0);
    assert(s.take(0) + s.skip(open.len() as int) =~= q + close);
}

/// The mark behind a text is taken out.
proof fn lemma_close_taken(q: Seq<char>, close: Seq<char>)
    requires
        is_mark(close),
        forall|i: int| 0 <= i < q.len() ==> q[i] != '<',
    ensures
        replaced(q + close, close, ""@) == q,
{
    let s = q + close;
    let n = q.len() as int;
    assert(s.subrange(n, n + close.len()) =~= close);
    assert forall|i: int| 0 <= i < s.len() && i != n implies !crate::text::occurs_at(
        s,
        close,
        i,
    ) by {
        assert(s[i] != '<') by {
            if i < n {
                assert(s[i] == q[i]);
            } else {
                assert(s[i] == close[i - n]);
            }
        }
        lemma_not_there(s, close, i, 0);
    }
    lemma_taken_out(s, close, n);
    assert(s.take(n) + s.skip(n + close.len()) =~= q);
}

/// A mark that differs from both marks around a text is not found in it.
proof fn lemma_foreign_mark(
    open: Seq<char>,
    q: Seq<char>,
    close: Seq<char>,
    m: Seq<char>,
    j: int,
    k: int,
)
    requires
        is_mark(open),
        is_mark(close),
        is_mark(m),
        0 <= j < open.len() && j < m.len() && open[j] != m[j],
        0 <= k < close.len() && k < m.len() && close[k] != m[k],
        forall|i: int| 0 <= i < q.len() ==> q[i] != '<',
    ensures
        replaced(open + q + close, m, ""@) == open + q + close,
{
    let s = open + q + close;
    assert forall|i: int| 0 <= i < s.len() implies !crate::text::occurs_at(s, m, i) by {
        if i == 0 {
            assert(s[j] == open[j]);
            lemma_not_there(s, m, 0, j);
        } else if i == open.len() + q.len() {
            assert(s[i + k] == close[k]);
            lemma_not_there(s, m, i, k);
        } else {
            lemma_brackets(open, q, close, i);
            lemma_not_there(s, m, i, 0);
        }
    }
    lemma_nothing_replaced(s, m, ""@);
}

/// No mark is found in a text without its first character.
proof fn lemma_unmarked(q: Seq<char>)
    requires
        forall|i: int| 0 <= i < q.len() ==> q[i] != '<',
    ensures
        replaced(q, "<user_query>"@, ""@) == q,
        replaced(q, "</user_query>"@, ""@) == q,
        replaced(q, "<user>"@, ""@) == q,
        replaced(q, "</user>"@, ""@) == q,
{
    reveal_strlit("<user_query>");
    reveal_strlit("</user_query>");
    reveal_strlit("<user>");
    reveal_strlit("</user>");
    assert forall|i: int| 0 <= i < q.len() implies !crate::text::occurs_at(
        q,
        "<user_query>"@,
        i,
    ) && !crate::text::occurs_at(q, "</user_query>"@, i) && !crate::text::occurs_at(
        q,
        "<user>"@,
        i,
    ) && !crate::text::occurs_at(q, "</user>"@, i) by {
        lemma_not_there(q, "<user_query>"@, i, 0);
        lemma_not_there(q, "</user_query>"@, i, 0);
        lemma_not_there(q, "<user>"@, i, 0);
        lemma_not_there(q, "</user>"@, i, 0);
    }
    lemma_nothing_replaced(q, "<user_query>"@, ""@);
    lemma_nothing_replaced(q, "</user_query>"@, ""@);
    lemma_nothing_replaced(q, "<user>"@, ""@);
    lemma_nothing_replaced(q, "</user>"@, ""@);
}

/// Trimming brings no marks in.
proof fn lemma_trimmed_unmarked(q: Seq<char>)
    requires
        forall|i: int| 0 <= i < q.len() ==> q[i] != '<',
    ensures
        forall|i: int| 0 <= i < trimmed(q).len() ==> trimmed(q)[i] != '<',
{
    crate::text::law_trim_cuts_only_white_space(q);
}

/// What a tool call is about: a shell runs its command, a notebook the first line
/// of its code, a reader reads the file of that name, and any other tool is used.
pub proof fn law_tool_calls_are_described(name: Seq<char>, part: JsonView, args: JsonView)
    requires
        member(part, "arguments"@) == Some(args) || (member(part, "arguments"@) is None && member(
            part,
            "input"@,
        ) == Some(args)),
    ensures
        ({
            let shell = name == "bash"@ || name == "Bash"@ || name == "Shell"@;
            let notebook = name == "ipython"@ || name == "IPython"@;
            let reader = name == "read"@ || name == "Read"@;
            let told = activity_of(name, part);
            &&& !shell && !notebook && !reader ==> told == "Using "@ + name
            &&& shell && member_str(args, "command"@) is Some && trimmed(
                member_str(args, "command"@)->0,
            ).len() <= 48 ==> told == "Running "@ + trimmed(member_str(args, "command"@)->0)
            &&& shell && member(args, "command"@) is None && member_str(args, "cmd"@) is Some
                && trimmed(member_str(args, "cmd"@)->0).len() <= 48 ==> told == "Running "@
                + trimmed(member_str(args, "cmd"@)->0)
            &&& shell && member(args, "command"@) is None && member(args, "cmd"@) is None ==> told
                == "Running "@ + name
            &&& notebook && member_str(args, "code"@) is Some && lines_of(
                member_str(args, "code"@)->0,
            ).len() > 0 && trimmed(lines_of(member_str(args, "code"@)->0)[0]).len() <= 40 ==> told
                == "Running "@ + trimmed(lines_of(member_str(args, "code"@)->0)[0])
            &&& notebook && member_str(args, "code"@) is None ==> told == "Running IPython"@
            &&& reader && member_str(args, "path"@) is Some && name_of(
                member_str(args, "path"@)->0,
            ) is Some ==> told == "Reading "@ + name_of(member_str(args, "path"@)->0)->0
            &&& reader && member(args, "path"@) is None && member(args, "file_path"@) is None
                ==> told == "Reading"@
        }),
{
    reveal_strlit("bash");
    reveal_strlit("Bash");
    reveal_strlit("Shell");
    reveal_strlit("ipython");
    reveal_strlit("IPython");
    reveal_strlit("read");
    reveal_strlit("Read");
    assert("bash"@.len() == 4 && "Bash"@.len() == 4 && "read"@.len() == 4 && "Read"@.len() == 4);
    assert("bash"@[0] == 'b' && "Bash"@[0] == 'B' && "read"@[0] == 'r' && "Read"@[0] == 'R');
    assert("Shell"@.len() == 5 && "ipython"@.len() == 7 && "IPython"@.len() == 7);
    if lines_of(member_str(args, "code"@)->0).len() > 0 {
        crate::text::law_trim_idempotent(lines_of(member_str(args, "code"@)->0)[0]);
    }
}

/// A request that begins with an imperative is spoken of by what follows it.
pub proof fn law_imperative_is_left_out(goal: Seq<char>, rest: Seq<char>)
    ensures
        topic_given(goal, "fix the "@ + rest) == "that "@ + rest,
        topic_given(goal, "add a "@ + rest) == "that "@ + rest,
        topic_given(goal, "implement "@ + rest) == "that "@ + rest,
        topic_given(goal, "create "@ + rest) == "that "@ + rest,
        topic_given(goal, "update "@ + rest) == "that "@ + rest,
        topic_given(goal, "refactor "@ + rest) == "that "@ + rest,
        !crate::text::begins(rest, "the "@) ==> topic_given(goal, "fix "@ + rest) == "that "@ + rest,
        !crate::text::begins(rest, "a "@) ==> topic_given(goal, "add "@ + rest) == "that "@ + rest,
        rest.len() == 0 || (rest[0] != 'f' && rest[0] != 'a' && rest[0] != 'i' && rest[0] != 'c'
            && rest[0] != 'u' && rest[0] != 'r') ==> topic_given(goal, rest) == "that "@ + goal,
{
    reveal_strlit("fix the ");
    reveal_strlit("fix ");
    reveal_strlit("add a ");
    reveal_strlit("add ");
    reveal_strlit("implement ");
    reveal_strlit("create ");
    reveal_strlit("update ");
    reveal_strlit("refactor ");
    reveal_strlit("the ");
    reveal_strlit("a ");
    assert("fix the "@ =~= "fix "@ + "the "@);
    assert("add a "@ =~= "add "@ + "a "@);
    lemma_prefix_of("fix the "@, rest);
    lemma_prefix_of("fix "@, rest);
    lemma_prefix_of("add a "@, rest);
    lemma_prefix_of("add "@, rest);
    lemma_prefix_of("implement "@, rest);
    lemma_prefix_of("create "@, rest);
    lemma_prefix_of("update "@, rest);
    lemma_prefix_of("refactor "@, rest);
    if crate::text::begins("fix "@ + rest, "fix the "@) {
        assert(rest.take(4) =~= ("fix "@ + rest).take(8).skip(4));
        assert("fix the "@.skip(4) =~= "the "@);
    }
    if crate::text::begins("add "@ + rest, "add a "@) {
        assert(rest.take(2) =~= ("add "@ + rest).take(6).skip(4));
        assert("add a "@.skip(4) =~= "a "@);
    }
    lemma_other_start("add a "@ + rest, "fix the "@);
    lemma_other_start("add a "@ + rest, "fix "@);
    lemma_other_start("add "@ + rest, "fix the "@);
    lemma_other_start("add "@ + rest, "fix "@);
    lemma_no_start("implement "@ + rest, 'i');
    lemma_no_start("create "@ + rest, 'c');
    lemma_no_start("update "@ + rest, 'u');
    lemma_no_start("refactor "@ + rest, 'r');
    if rest.len() == 0 || (rest[0] != 'f' && rest[0] != 'a' && rest[0] != 'i' && rest[0] != 'c'
        && rest[0] != 'u' && rest[0] != 'r') {
        lemma_no_start(rest, ' ');
    }
}

/// A text begins with its first part.
proof fn lemma_prefix_of(p: Seq<char>, rest: Seq<char>)
    ensures
        after_prefix(p + rest, p) == Some(rest),
{
    assert((p + rest).take(p.len() as int) =~= p);
    assert((p + rest).skip(p.len() as int) =~= rest);
}

/// A text does not begin with one that has another first character.
proof fn lemma_other_start(s: Seq<char>, p: Seq<char>)
    requires
        p.len() > 0,
        s.len() == 0 || s[0] != p[0],
    ensures
        after_prefix(s, p) is None,
{
    if s.len() >= p.len() {
        assert(s.take(p.len() as int)[0] == s[0]);
    }
}

/// Which imperatives a text does not begin with, by its first character.
proof fn lemma_no_start(s: Seq<char>, c: char)
    requires
        s.len() > 0 ==> (s[0] == c || (s[0] != 'f' && s[0] != 'a' && s[0] != 'i' && s[0] != 'c'
            && s[0] != 'u' && s[0] != 'r')),
        c != 'f' && c != 'a',
    ensures
        after_prefix(s, "fix the "@) is None,
        after_prefix(s, "fix "@) is None,
        after_prefix(s, "add a "@) is None,
        after_prefix(s, "add "@) is None,
        c != 'i' ==> after_prefix(s, "implement "@) is None,
        c != 'c' ==> after_prefix(s, "create "@) is None,
        c != 'u' ==> after_prefix(s, "update "@) is None,
        c != 'r' ==> after_prefix(s, "refactor "@) is None,
{
    reveal_strlit("fix the ");
    reveal_strlit("fix ");
    reveal_strlit("add a ");
    reveal_strlit("add ");
    reveal_strlit("implement ");
    reveal_strlit("create ");
    reveal_strlit("update ");
    reveal_strlit("refactor ");
    lemma_other_start(s, "fix the "@);
    lemma_other_start(s, "fix "@);
    lemma_other_start(s, "add a "@);
    lemma_other_start(s, "add "@);
    if c != 'i' {
        lemma_other_start(s, "implement "@);
    }
    if c != 'c' {
        lemma_other_start(s, "create "@);
    }
    if c != 'u' {
        lemma_other_start(s, "update "@);
    }
    if c != 'r' {
        lemma_other_start(s, "refactor "@);
    }
}

/// A session's header is an object of type `session`, and tells the id, the working
/// directory and the parent that its members of these names hold; any other first line is
/// no header.
pub proof fn law_header_is_read(line: Seq<char>)
    ensures
        match json_parsed(trimmed(line)) {
            Ok(v) => if member_str(v, "type"@) == Some("session"@) {
                &&& header_of_line(line) is Some
                &&& header_of_line(line)->0.id == member_str(v, "id"@)
                &&& header_of_line(line)->0.cwd == member_str(v, "cwd"@)
                &&& header_of_line(line)->0.parent_session == member_str(v, "parentSession"@)
            } else {
                header_of_line(line) is None
            },
            Err(_) => header_of_line(line) is None,
        },
{
}

} // verus!
