//! Sessions on disk and the child sessions nested under them.
//!
//! Sessions are flat JSONL files in one directory. A child session names its
//! parent in its header.
use crate::json::{json_parsed, member_str, JsonView};
use crate::letters::{lowercase, to_lower};
use crate::order::{lemma_le_total, lemma_le_transitive, not_after, text_le};
use crate::path::{
    below, extension, extension_of, file_stem, join_path, same, same_path, stem_of,
};
use crate::text::{
    concat, concat3, contains, copy_opt, is_empty, nonblank, occurs, opt_text, opt_view, or_else,
    str_eq, trim, trim_opt, trimmed,
};
use crate::transcript::{
    brief, casual_topic, header_of_line, opt_lines, parse_session_file, read_session_header,
    session_of, topic_of, truncate, HeaderView, ParsedSession, ParsedView, SessionHeader,
};
use vstd::prelude::*;
use vstd::string::*;

verus! {

/// How a subagent fares.
#[derive(Debug, Clone, Copy, PartialEq, Eq, Structural)]
pub enum SubagentStatus {
    Running,
    Done,
    Failed,
}

impl SubagentStatus {
    /// Is the subagent still at work?
    pub fn is_live(self) -> (r: bool)
        ensures
            r == (self == SubagentStatus::Running),
    {
        match self {
            SubagentStatus::Running => true,
            _ => false,
        }
    }
}

/// A subagent under a parent session.
#[derive(Debug, Clone, PartialEq, Eq)]
pub struct Subagent {
    pub id: String,
    pub title: String,
    pub kind: Option<String>,
    pub status: SubagentStatus,
    /// The session to resume, where the subagent has a session of its own.
    pub chat_id: Option<String>,
}

/// What a subagent holds.
pub struct SubagentView {
    pub id: Seq<char>,
    pub title: Seq<char>,
    pub kind: Option<Seq<char>>,
    pub status: SubagentStatus,
    pub chat_id: Option<Seq<char>>,
}

impl View for Subagent {
    type V = SubagentView;

    open spec fn view(&self) -> SubagentView {
        SubagentView {
            id: self.id@,
            title: self.title@,
            kind: opt_text(self.kind),
            status: self.status,
            chat_id: opt_text(self.chat_id),
        }
    }
}

/// What the subagents of a list hold.
pub open spec fn subagents_view(v: Seq<Subagent>) -> Seq<SubagentView> {
    v.map_values(|x: Subagent| x@)
}

/// A short account of what a session is about.
#[derive(Debug, Clone, PartialEq, Eq)]
pub struct SessionSummary {
    /// What the user asked for last.
    pub goal: Option<String>,
    /// A sentence on the session; it may hold light markdown.
    pub prose: String,
}

/// What a summary holds.
pub struct SummaryView {
    pub goal: Option<Seq<char>>,
    pub prose: Seq<char>,
}

impl View for SessionSummary {
    type V = SummaryView;

    open spec fn view(&self) -> SummaryView {
        SummaryView { goal: opt_text(self.goal), prose: self.prose@ }
    }
}

/// What an optional summary holds.
pub open spec fn opt_summary(s: Option<SessionSummary>) -> Option<SummaryView> {
    match s {
        Some(x) => Some(x@),
        None => None,
    }
}

/// A short text that can stand for a session: its goal, or else its prose.
pub open spec fn hint_of(s: SummaryView) -> Option<Seq<char>> {
    match s.goal {
        Some(g) => if g.len() > 0 {
            Some(g)
        } else {
            nonblank(Some(s.prose))
        },
        None => nonblank(Some(s.prose)),
    }
}

impl SessionSummary {
    /// Does the summary say nothing?
    pub fn is_empty(&self) -> (r: bool)
        ensures
            r == (trimmed(self@.prose).len() == 0 && self@.goal is None),
    {
        is_empty(trim(self.prose.as_str())) && self.goal.is_none()
    }

    /// The best short text to name a session by.
    pub fn title_hint(&self) -> (r: Option<&str>)
        ensures
            opt_view(r) == hint_of(self@),
    {
        if let Some(g) = &self.goal {
            if !is_empty(g.as_str()) {
                return Some(g.as_str());
            }
        }
        let p = trim(self.prose.as_str());
        if is_empty(p) {
            None
        } else {
            Some(p)
        }
    }
}

/// What is known of a session and of the subagents under it.
#[derive(Debug, Clone)]
pub struct ChatSnapshot {
    pub title: Option<String>,
    pub updated_at_ms: Option<u64>,
    pub subagents: Vec<Subagent>,
    /// What the session does now.
    pub activity: Option<String>,
    pub summary: Option<SessionSummary>,
}

/// What a snapshot holds.
pub struct SnapshotView {
    pub title: Option<Seq<char>>,
    pub updated_at_ms: Option<u64>,
    pub subagents: Seq<SubagentView>,
    pub activity: Option<Seq<char>>,
    pub summary: Option<SummaryView>,
}

impl View for ChatSnapshot {
    type V = SnapshotView;

    open spec fn view(&self) -> SnapshotView {
        SnapshotView {
            title: opt_text(self.title),
            updated_at_ms: self.updated_at_ms,
            subagents: subagents_view(self.subagents@),
            activity: opt_text(self.activity),
            summary: opt_summary(self.summary),
        }
    }
}

/// A snapshot that tells nothing.
pub open spec fn blank_snapshot() -> SnapshotView {
    SnapshotView {
        title: None,
        updated_at_ms: None,
        subagents: Seq::empty(),
        activity: None,
        summary: None,
    }
}

impl Default for ChatSnapshot {
    fn default() -> (r: ChatSnapshot)
        ensures
            r@ == blank_snapshot(),
    {
        let r = ChatSnapshot {
            title: None,
            updated_at_ms: None,
            subagents: Vec::new(),
            activity: None,
            summary: None,
        };
        assert(subagents_view(r.subagents@) =~= Seq::empty());
        r
    }
}

/// The directory that holds the session files, given what the environment says.
pub open spec fn root_of(
    prime: Option<Seq<char>>,
    coding: Option<Seq<char>>,
    home: Option<Seq<char>>,
) -> Option<Seq<char>> {
    match or_else(nonblank(prime), nonblank(coding)) {
        Some(dir) => Some(dir),
        None => match home {
            Some(h) => Some(below(below(below(h, ".prime"@), "agent"@), "sessions"@)),
            None => None,
        },
    }
}

/// The directory that holds the session files: `PRIME_AGENT_SESSION_DIR`, else
/// `PRIME_AGENT_CODING_AGENT_SESSION_DIR`, else `.prime/agent/sessions` in the
/// home directory.
pub fn sessions_root(prime: Option<&str>, coding: Option<&str>, home: Option<&str>) -> (r: Option<
    String,
>)
    ensures
        opt_text(r) == root_of(opt_view(prime), opt_view(coding), opt_view(home)),
{
    if let Some(dir) = trim_opt(prime) {
        return Some(dir);
    }
    if let Some(dir) = trim_opt(coding) {
        return Some(dir);
    }
    match home {
        Some(h) => {
            let a = join_path(h, ".prime");
            let b = join_path(a.as_str(), "agent");
            Some(join_path(b.as_str(), "sessions"))
        },
        None => None,
    }
}

/// The file that a session with this id has.
pub open spec fn path_of_session(root: Seq<char>, id: Seq<char>) -> Seq<char> {
    below(root, id + ".jsonl"@)
}

/// The file that a session with this id has.
pub fn session_path(root: &str, id: &str) -> (r: String)
    ensures
        r@ == path_of_session(root@, id@),
{
    join_path(root, concat(id, ".jsonl").as_str())
}

/// Is the path one of a session file whose stem holds `id`?
pub open spec fn path_matches(path: Seq<char>, id: Seq<char>) -> bool {
    extension_of(path) == Some("jsonl"@) && occurs(
        match stem_of(path) {
            Some(s) => s,
            None => ""@,
        },
        id,
    )
}

/// The paths among `paths` that match `id`.
pub open spec fn matching(paths: Seq<Seq<char>>, id: Seq<char>) -> Seq<Seq<char>> {
    paths.filter(|p: Seq<char>| path_matches(p, id))
}

/// The session file that an id stands for: the file at that path; the file of
/// that name in the directory; the only file in it whose stem holds the id.
pub open spec fn found_file(
    session_id: Seq<char>,
    path_is_file: bool,
    root: Option<Seq<char>>,
    direct_is_file: bool,
    entries: Option<Seq<Seq<char>>>,
) -> Option<Seq<char>> {
    let id = trimmed(session_id);
    if id.len() == 0 {
        None
    } else if path_is_file {
        Some(id)
    } else {
        match root {
            Some(r) => if direct_is_file {
                Some(path_of_session(r, id))
            } else {
                match entries {
                    Some(paths) => if matching(paths, id).len() == 1 {
                        Some(matching(paths, id)[0])
                    } else {
                        None
                    },
                    None => None,
                }
            },
            None => None,
        }
    }
}

/// Is the path one of a session file?
fn is_jsonl(path: &str) -> (r: bool)
    ensures
        r == (extension_of(path@) == Some("jsonl"@)),
{
    match extension(path) {
        Some(e) => str_eq(e.as_str(), "jsonl"),
        None => false,
    }
}

/// Is the path one of a session file whose stem holds `id`?
fn is_match(path: &str, id: &str) -> (r: bool)
    ensures
        r == path_matches(path@, id@),
{
    is_jsonl(path) && match file_stem(path) {
        Some(s) => contains(s.as_str(), id),
        None => contains("", id),
    }
}

/// The only one of the paths that matches `id`.
fn only_match(paths: &Vec<String>, id: &str) -> (r: Option<String>)
    ensures
        ({
            let found = matching(crate::split::texts(paths@), id@);
            opt_text(r) == if found.len() == 1 {
                Some(found[0])
            } else {
                None
            }
        }),
{
    let ghost all = crate::split::texts(paths@);
    let ghost keep = |p: Seq<char>| path_matches(p, id@);
    let mut found: Option<String> = None;
    let mut several = false;
    let mut i: usize = 0;
    proof {
        assert(all.take(0) =~= Seq::empty());
        reveal(Seq::filter);
    }
    while i < paths.len()
        invariant
            i <= paths@.len(),
            all == crate::split::texts(paths@),
            keep == (|p: Seq<char>| path_matches(p, id@)),
            several == (all.take(i as int).filter(keep).len() > 1),
            !several ==> match found {
                Some(f) => all.take(i as int).filter(keep) == seq![f@],
                None => all.take(i as int).filter(keep).len() == 0,
            },
        decreases paths.len() - i,
    {
        proof {
            reveal(Seq::filter);
            assert(all.take(i + 1).drop_last() =~= all.take(i as int));
            assert(all.take(i + 1).last() == paths@[i as int]@);
        }
        if is_match(paths[i].as_str(), id) {
            if found.is_some() {
                several = true;
            } else {
                found = Some(paths[i].clone());
                assert(!several ==> all.take(i + 1).filter(keep) =~= seq![paths@[i as int]@]);
            }
        }
        i += 1;
    }
    assert(all.take(i as int) =~= all);
    if several {
        None
    } else {
        found
    }
}

/// An optional list of texts, by their characters.
pub open spec fn opt_texts(v: Option<&Vec<String>>) -> Option<Seq<Seq<char>>> {
    opt_lines(v)
}

/// The session file that an id, a part of one or a path stands for. `root` is
/// the sessions' directory and `entries` the paths in it; `path_is_file` says
/// whether the id is itself the path of a file, and `direct_is_file` whether
/// `session_path` of root and id is one.
pub fn find_session_file(
    session_id: &str,
    path_is_file: bool,
    root: Option<&str>,
    direct_is_file: bool,
    entries: Option<&Vec<String>>,
) -> (r: Option<String>)
    ensures
        opt_text(r) == found_file(
            session_id@,
            path_is_file,
            opt_view(root),
            direct_is_file,
            opt_texts(entries),
        ),
{
    let id = trim(session_id);
    if is_empty(id) {
        return None;
    }
    if path_is_file {
        return Some(id.to_owned());
    }
    match root {
        Some(r) => {
            if direct_is_file {
                return Some(session_path(r, id));
            }
            match entries {
                Some(paths) => only_match(paths, id),
                None => None,
            }
        },
        None => None,
    }
}

/// A session file: its path, its first line and all of its lines where they
/// could be read, and when it was last written.
pub struct SessionFile {
    pub path: String,
    pub header_line: Option<String>,
    pub lines: Option<Vec<String>>,
    pub mtime_ms: Option<u64>,
}

/// What a session file holds.
pub struct FileView {
    pub path: Seq<char>,
    pub header_line: Option<Seq<char>>,
    pub lines: Option<Seq<Seq<char>>>,
    pub mtime_ms: Option<u64>,
}

impl View for SessionFile {
    type V = FileView;

    open spec fn view(&self) -> FileView {
        FileView {
            path: self.path@,
            header_line: opt_text(self.header_line),
            lines: match self.lines {
                Some(v) => Some(crate::split::texts(v@)),
                None => None,
            },
            mtime_ms: self.mtime_ms,
        }
    }
}

/// What the session files of a list hold.
pub open spec fn files_view(v: Seq<SessionFile>) -> Seq<FileView> {
    v.map_values(|x: SessionFile| x@)
}

/// The header that a file's first line writes, where that could be read.
pub open spec fn file_header(line: Option<Seq<char>>) -> Option<HeaderView> {
    match line {
        Some(l) => header_of_line(l),
        None => None,
    }
}

/// Does the parent that a header names stand for the session at `parent_path`
/// with the id `parent_id`? It is the path, or holds the id or the path's stem.
pub open spec fn names_parent(
    named: Seq<char>,
    parent_path: Seq<char>,
    parent_id: Option<Seq<char>>,
) -> bool {
    let stem = match stem_of(parent_path) {
        Some(s) => s,
        None => ""@,
    };
    ||| named == parent_path
    ||| same(named, parent_path)
    ||| match parent_id {
        Some(id) => occurs(named, id),
        None => false,
    }
    ||| (stem.len() > 0 && occurs(named, stem))
}

/// The header of a file that is a child session of the given parent.
pub open spec fn child_header(
    path: Seq<char>,
    header_line: Option<Seq<char>>,
    parent_path: Seq<char>,
    parent_id: Option<Seq<char>>,
) -> Option<HeaderView> {
    if same(path, parent_path) || extension_of(path) != Some("jsonl"@) {
        None
    } else {
        match file_header(header_line) {
            Some(h) => match h.parent_session {
                Some(named) => if names_parent(named, parent_path, parent_id) {
                    Some(h)
                } else {
                    None
                },
                None => None,
            },
            None => None,
        }
    }
}

/// How a child session fares, given what it does, also in lower case.
pub open spec fn status_given(activity: Option<Seq<char>>, low: Seq<char>, ended: bool) -> SubagentStatus {
    match activity {
        Some(a) => if a == "Idle"@ || a == "Waiting for input"@ {
            SubagentStatus::Done
        } else if occurs(low, "fail"@) || occurs(low, "error"@) {
            SubagentStatus::Failed
        } else if ended {
            SubagentStatus::Done
        } else {
            SubagentStatus::Running
        },
        None => if ended {
            SubagentStatus::Done
        } else {
            SubagentStatus::Running
        },
    }
}

/// How a child session fares.
pub open spec fn status_of(child: ParsedView) -> SubagentStatus {
    status_given(
        child.activity,
        match child.activity {
            Some(a) => lowercase(a),
            None => ""@,
        },
        child.ended,
    )
}

/// A child session as a subagent.
pub open spec fn subagent_of(path: Seq<char>, h: HeaderView, child: ParsedView) -> SubagentView {
    let id = match or_else(h.id, stem_of(path)) {
        Some(id) => id,
        None => path,
    };
    let title = match or_else(child.name, child.first_user_goal) {
        Some(t) => t,
        None => "Subagent"@,
    };
    SubagentView {
        id,
        title: brief(title, 64),
        kind: Some("rlm"@),
        status: status_of(child),
        chat_id: Some(id),
    }
}

/// The child sessions among the files, in the order of the files.
pub open spec fn children_in(
    files: Seq<FileView>,
    parent_path: Seq<char>,
    parent_id: Option<Seq<char>>,
) -> Seq<SubagentView>
    decreases files.len(),
{
    if files.len() == 0 {
        Seq::empty()
    } else {
        let f = files.last();
        let before = children_in(files.drop_last(), parent_path, parent_id);
        match child_header(f.path, f.header_line, parent_path, parent_id) {
            Some(h) => before.push(subagent_of(f.path, h, session_of(f.lines, f.mtime_ms))),
            None => before,
        }
    }
}

/// `x` put into a list by title, after those of the same title.
pub open spec fn put_by_title(s: Seq<SubagentView>, x: SubagentView) -> Seq<SubagentView>
    decreases s.len(),
{
    if s.len() == 0 || text_le(s.last().title, x.title) {
        s.push(x)
    } else {
        put_by_title(s.drop_last(), x).push(s.last())
    }
}

/// A list by title; those of the same title stay in their order.
pub open spec fn by_title(s: Seq<SubagentView>) -> Seq<SubagentView>
    decreases s.len(),
{
    if s.len() == 0 {
        s
    } else {
        put_by_title(by_title(s.drop_last()), s.last())
    }
}

/// Where `put_by_title` puts a subagent.
proof fn lemma_put_at(s: Seq<SubagentView>, x: SubagentView, k: int)
    requires
        0 <= k <= s.len(),
        forall|i: int| k <= i < s.len() ==> !text_le(#[trigger] s[i].title, x.title),
        k > 0 ==> text_le(s[k - 1].title, x.title),
    ensures
        put_by_title(s, x) == s.insert(k, x),
    decreases s.len() - k,
{
    if k == s.len() {
        assert(s.insert(k, x) =~= s.push(x));
    } else {
        assert(!text_le(s[s.len() - 1].title, x.title));
        lemma_put_at(s.drop_last(), x, k);
        assert(s.drop_last().insert(k, x).push(s.last()) =~= s.insert(k, x));
    }
}

/// Puts a subagent into a list by title.
fn put(v: &mut Vec<Subagent>, x: Subagent)
    ensures
        subagents_view(final(v)@) == put_by_title(subagents_view(old(v)@), x@),
{
    let mut k: usize = v.len();
    let ghost before = subagents_view(v@);
    while k > 0 && !not_after(v[k - 1].title.as_str(), x.title.as_str())
        invariant
            k <= v@.len(),
            before == subagents_view(v@),
            forall|i: int| k <= i < before.len() ==> !text_le(#[trigger] before[i].title, x@.title),
        decreases k,
    {
        k -= 1;
        assert(before[k as int].title == v@[k as int].title@);
    }
    proof {
        if k > 0 {
            assert(before[k - 1].title == v@[k - 1].title@);
        }
        lemma_put_at(before, x@, k as int);
        assert(subagents_view(v@.insert(k as int, x)) =~= before.insert(k as int, x@));
    }
    v.insert(k, x);
}

/// Is the list in the order of titles?
pub open spec fn titles_ordered(s: Seq<SubagentView>) -> bool {
    forall|i: int, j: int| 0 <= i <= j < s.len() ==> text_le(#[trigger] s[i].title, #[trigger] s[j].title)
}

/// Putting a subagent into an ordered list keeps the order and loses nothing.
proof fn lemma_put_keeps(s: Seq<SubagentView>, x: SubagentView)
    requires
        titles_ordered(s),
    ensures
        titles_ordered(put_by_title(s, x)),
        put_by_title(s, x).to_multiset() == s.to_multiset().insert(x),
        put_by_title(s, x).len() == s.len() + 1,
        forall|i: int|
            0 <= i < put_by_title(s, x).len() ==> #[trigger] put_by_title(s, x)[i] == x || s.contains(
                put_by_title(s, x)[i],
            ),
    decreases s.len(),
{
    broadcast use vstd::seq_lib::group_to_multiset_ensures;

    let r = put_by_title(s, x);
    if s.len() == 0 || text_le(s.last().title, x.title) {
        assert forall|i: int, j: int| 0 <= i <= j < r.len() implies text_le(
            #[trigger] r[i].title,
            #[trigger] r[j].title,
        ) by {
            lemma_le_total(x.title, x.title);
            if j == s.len() && i < j {
                assert(text_le(s[i].title, s[s.len() - 1].title));
                lemma_le_transitive(s[i].title, s.last().title, x.title);
            }
        }
        assert forall|i: int| 0 <= i < r.len() implies #[trigger] r[i] == x || s.contains(r[i]) by {
            if i < s.len() {
                assert(s[i] == r[i]);
            }
        }
    } else {
        let t = s.drop_last();
        let q = put_by_title(t, x);
        lemma_put_keeps(t, x);
        lemma_le_total(s.last().title, x.title);
        assert(r == q.push(s.last()));
        assert forall|i: int, j: int| 0 <= i <= j < r.len() implies text_le(
            #[trigger] r[i].title,
            #[trigger] r[j].title,
        ) by {
            lemma_le_total(s.last().title, s.last().title);
            if j == q.len() && i < j {
                assert(q[i] == x || t.contains(q[i]));
                if q[i] != x {
                    let k = t.index_of(q[i]);
                    assert(s[k] == q[i]);
                    assert(text_le(s[k].title, s[s.len() - 1].title));
                }
            } else if j < q.len() {
                assert(q[i] == r[i] && q[j] == r[j]);
            }
        }
        assert(s =~= t.push(s.last()));
        assert(r.to_multiset() == q.to_multiset().insert(s.last()));
        assert(s.to_multiset() == t.to_multiset().insert(s.last()));
        assert(r.to_multiset() =~= s.to_multiset().insert(x));
        assert forall|i: int| 0 <= i < r.len() implies #[trigger] r[i] == x || s.contains(r[i]) by {
            if i < q.len() {
                assert(r[i] == q[i]);
                if q[i] != x {
                    let k = t.index_of(q[i]);
                    assert(s[k] == q[i]);
                }
            } else {
                assert(s[s.len() - 1] == r[i]);
            }
        }
    }
}

/// The list by title holds the same subagents, in the order of their titles.
pub proof fn law_by_title_sorts(s: Seq<SubagentView>)
    ensures
        titles_ordered(by_title(s)),
        by_title(s).to_multiset() == s.to_multiset(),
        by_title(s).len() == s.len(),
    decreases s.len(),
{
    broadcast use vstd::seq_lib::group_to_multiset_ensures;

    if s.len() > 0 {
        law_by_title_sorts(s.drop_last());
        lemma_put_keeps(by_title(s.drop_last()), s.last());
        assert(s =~= s.drop_last().push(s.last()));
    }
}

/// The header that a file's first line writes, where that could be read.
fn header_in(line: &Option<String>) -> (r: Option<SessionHeader>)
    ensures
        crate::transcript::opt_header(r) == file_header(opt_text(*line)),
{
    match line {
        Some(l) => read_session_header(l.as_str()),
        None => None,
    }
}

/// Does the parent that a header names stand for this session?
fn is_named(named: &str, parent_path: &str, parent_id: &Option<String>) -> (r: bool)
    ensures
        r == names_parent(named@, parent_path@, opt_text(*parent_id)),
{
    if str_eq(named, parent_path) || same_path(named, parent_path) {
        return true;
    }
    if let Some(id) = parent_id {
        if contains(named, id.as_str()) {
            return true;
        }
    }
    match file_stem(parent_path) {
        Some(stem) => !is_empty(stem.as_str()) && contains(named, stem.as_str()),
        None => {
            proof {
                reveal_strlit("");
            }
            false
        },
    }
}

/// The header of a file that is a child session of the given parent.
fn header_of_child(
    path: &str,
    header_line: &Option<String>,
    parent_path: &str,
    parent_id: &Option<String>,
) -> (r: Option<SessionHeader>)
    ensures
        crate::transcript::opt_header(r) == child_header(
            path@,
            opt_text(*header_line),
            parent_path@,
            opt_text(*parent_id),
        ),
{
    if same_path(path, parent_path) || !is_jsonl(path) {
        return None;
    }
    match header_in(header_line) {
        Some(h) => {
            let named = match &h.parent_session {
                Some(n) => is_named(n.as_str(), parent_path, parent_id),
                None => false,
            };
            if named {
                Some(h)
            } else {
                None
            }
        },
        None => None,
    }
}

/// Is the file with this first line a child session of the given parent?
pub fn is_child_session(
    path: &str,
    header_line: &Option<String>,
    parent_path: &str,
    parent_id: &Option<String>,
) -> (r: bool)
    ensures
        r == child_header(path@, opt_text(*header_line), parent_path@, opt_text(*parent_id))
            is Some,
{
    header_of_child(path, header_line, parent_path, parent_id).is_some()
}

/// How a child session fares, given what it does, also in lower case: one that
/// waits or idles is done, and one that speaks of a failure or an error failed.
pub fn child_status(activity: &Option<String>, low: &str, ended: bool) -> (r: SubagentStatus)
    ensures
        r == status_given(opt_text(*activity), low@, ended),
{
    if let Some(a) = activity {
        if str_eq(a.as_str(), "Idle") || str_eq(a.as_str(), "Waiting for input") {
            return SubagentStatus::Done;
        }
        if contains(low, "fail") || contains(low, "error") {
            return SubagentStatus::Failed;
        }
    }
    if ended {
        SubagentStatus::Done
    } else {
        SubagentStatus::Running
    }
}

/// A child session as a subagent.
pub fn child_subagent(path: &str, header: SessionHeader, child: ParsedSession) -> (r: Subagent)
    ensures
        r@ == subagent_of(path@, header@, child@),
{
    let id = match header.id {
        Some(id) => id,
        None => match file_stem(path) {
            Some(stem) => stem,
            None => path.to_owned(),
        },
    };
    let low = match &child.activity {
        Some(a) => to_lower(a.as_str()),
        None => "".to_owned(),
    };
    let status = child_status(&child.activity, low.as_str(), child.ended);
    let title = match child.name {
        Some(t) => t,
        None => match child.first_user_goal {
            Some(t) => t,
            None => "Subagent".to_owned(),
        },
    };
    Subagent {
        id: id.clone(),
        title: truncate(title.as_str(), 64),
        kind: Some("rlm".to_owned()),
        status,
        chat_id: Some(id),
    }
}

/// The lines of a file, where they could be read.
fn lines_in(f: &SessionFile) -> (r: Option<&Vec<String>>)
    ensures
        opt_lines(r) == f@.lines,
{
    match &f.lines {
        Some(v) => Some(v),
        None => None,
    }
}

/// The child sessions of a session among the files of the sessions' directory,
/// in the order of their titles. Only the lines of child sessions are looked at.
pub fn list_child_sessions(
    parent_path: &str,
    parent_id: &Option<String>,
    files: &Vec<SessionFile>,
) -> (r: Vec<Subagent>)
    ensures
        subagents_view(r@) == by_title(
            children_in(files_view(files@), parent_path@, opt_text(*parent_id)),
        ),
{
    let mut out: Vec<Subagent> = Vec::new();
    let mut i: usize = 0;
    let ghost all = files_view(files@);
    let ghost pid = opt_text(*parent_id);
    assert(subagents_view(out@) =~= by_title(children_in(all.take(0), parent_path@, pid)));
    while i < files.len()
        invariant
            i <= files@.len(),
            all == files_view(files@),
            pid == opt_text(*parent_id),
            subagents_view(out@) == by_title(
                children_in(all.take(i as int), parent_path@, pid),
            ),
        decreases files.len() - i,
    {
        let f = &files[i];
        let ghost before = children_in(all.take(i as int), parent_path@, pid);
        proof {
            assert(all.take(i + 1).drop_last() =~= all.take(i as int));
            assert(all.take(i + 1).last() == f@);
        }
        match header_of_child(f.path.as_str(), &f.header_line, parent_path, parent_id) {
            Some(h) => {
                let child = parse_session_file(lines_in(f), f.mtime_ms);
                let x = child_subagent(f.path.as_str(), h, child);
                proof {
                    assert(before.push(x@).drop_last() =~= before);
                }
                put(&mut out, x);
            },
            None => {},
        }
        i += 1;
    }
    assert(all.take(i as int) =~= all);
    out
}

/// The summary of a session: its goal and a sentence on how far it is. Without
/// a goal, a tool call or a word of the agent there is none, unless it ended.
pub open spec fn summary_of(p: ParsedView) -> Option<SummaryView> {
    let goal = or_else(p.last_user_goal, p.first_user_goal);
    let topic = match goal {
        Some(g) => topic_of(g),
        None => "this session"@,
    };
    if p.ended {
        Some(SummaryView { goal, prose: "Wrapped up on "@ + topic + "."@ })
    } else if p.tool_events > 0 {
        Some(SummaryView { goal, prose: "Working through "@ + topic + " — tools in motion."@ })
    } else if p.assistant_chars > 0 {
        Some(SummaryView { goal, prose: "Talking through "@ + topic + "."@ })
    } else if goal is Some {
        Some(SummaryView { goal, prose: "Looking at "@ + topic + "."@ })
    } else {
        None
    }
}

/// The summary of a session.
pub fn build_summary(parsed: &ParsedSession) -> (r: Option<SessionSummary>)
    ensures
        opt_summary(r) == summary_of(parsed@),
{
    let goal = match &parsed.last_user_goal {
        Some(g) => Some(g.clone()),
        None => copy_opt(&parsed.first_user_goal),
    };
    let topic = match &goal {
        Some(g) => casual_topic(g.as_str()),
        None => "this session".to_owned(),
    };
    if parsed.ended {
        Some(SessionSummary { goal, prose: concat3("Wrapped up on ", topic.as_str(), ".") })
    } else if parsed.tool_events > 0 {
        Some(
            SessionSummary {
                goal,
                prose: concat3("Working through ", topic.as_str(), " — tools in motion."),
            },
        )
    } else if parsed.assistant_chars > 0 {
        Some(SessionSummary { goal, prose: concat3("Talking through ", topic.as_str(), ".") })
    } else if goal.is_some() {
        Some(SessionSummary { goal, prose: concat3("Looking at ", topic.as_str(), ".") })
    } else {
        None
    }
}

/// What is known of a session, given its file and the files of the sessions' directory.
pub open spec fn snapshot_of(
    chat_id: Seq<char>,
    file: Option<FileView>,
    files: Seq<FileView>,
) -> SnapshotView {
    match file {
        Some(f) => if trimmed(chat_id).len() == 0 {
            blank_snapshot()
        } else {
            let p = session_of(f.lines, f.mtime_ms);
            SnapshotView {
                title: or_else(p.name, p.first_user_goal),
                updated_at_ms: or_else(p.updated_at_ms, f.mtime_ms),
                subagents: by_title(children_in(files, f.path, p.id)),
                activity: p.activity,
                summary: summary_of(p),
            }
        },
        None => blank_snapshot(),
    }
}

/// What an optional session file holds.
pub open spec fn opt_file(f: Option<&SessionFile>) -> Option<FileView> {
    match f {
        Some(x) => Some(x@),
        None => None,
    }
}

/// What is known of the session `chat_id` and of the subagents under it, given
/// its file, where it has one, and the files of the sessions' directory.
pub fn poll_chat(chat_id: &str, file: Option<&SessionFile>, files: &Vec<SessionFile>) -> (r:
    ChatSnapshot)
    ensures
        r@ == snapshot_of(chat_id@, opt_file(file), files_view(files@)),
{
    if is_empty(trim(chat_id)) {
        return ChatSnapshot::default();
    }
    match file {
        Some(f) => {
            let parsed = parse_session_file(lines_in(f), f.mtime_ms);
            let title = match &parsed.name {
                Some(n) => Some(n.clone()),
                None => copy_opt(&parsed.first_user_goal),
            };
            let updated_at_ms = match parsed.updated_at_ms {
                Some(ms) => Some(ms),
                None => f.mtime_ms,
            };
            let activity = copy_opt(&parsed.activity);
            let summary = build_summary(&parsed);
            let subagents = list_child_sessions(f.path.as_str(), &parsed.id, files);
            ChatSnapshot { title, updated_at_ms, subagents, activity, summary }
        },
        None => ChatSnapshot::default(),
    }
}

/// A file of the sessions' directory that may be the session of a new terminal.
/// `cwd` is the working directory that its header names, resolved.
pub struct Candidate {
    pub path: String,
    pub header_line: Option<String>,
    pub mtime_ms: u64,
    pub cwd: Option<String>,
}

/// What a candidate holds.
pub struct CandidateView {
    pub path: Seq<char>,
    pub header_line: Option<Seq<char>>,
    pub mtime_ms: u64,
    pub cwd: Option<Seq<char>>,
}

impl View for Candidate {
    type V = CandidateView;

    open spec fn view(&self) -> CandidateView {
        CandidateView {
            path: self.path@,
            header_line: opt_text(self.header_line),
            mtime_ms: self.mtime_ms,
            cwd: opt_text(self.cwd),
        }
    }
}

/// What the candidates of a list hold.
pub open spec fn candidates_view(v: Seq<Candidate>) -> Seq<CandidateView> {
    v.map_values(|x: Candidate| x@)
}

/// The earliest time at which a file counts as written after `not_before_ms`.
pub open spec fn earliest(not_before_ms: u64) -> int {
    if not_before_ms < 2000 {
        0
    } else {
        not_before_ms - 2000
    }
}

/// The id of a candidate that may be the session of a new terminal: a session
/// file, written late enough, without a parent, that works in the workspace.
pub open spec fn eligible(c: CandidateView, workspace: Seq<char>, not_before_ms: u64) -> Option<
    Seq<char>,
> {
    if extension_of(c.path) != Some("jsonl"@) || c.mtime_ms < earliest(not_before_ms) {
        None
    } else {
        match file_header(c.header_line) {
            Some(h) => match (h.parent_session, h.cwd, c.cwd) {
                (None, Some(_), Some(cwd)) => if same(cwd, workspace) {
                    or_else(h.id, stem_of(c.path))
                } else {
                    None
                },
                _ => None,
            },
            None => None,
        }
    }
}

/// The eligible candidate written last, with its time; the first of several.
pub open spec fn newest(cs: Seq<CandidateView>, workspace: Seq<char>, not_before_ms: u64) -> Option<
    (u64, Seq<char>),
>
    decreases cs.len(),
{
    if cs.len() == 0 {
        None
    } else {
        let best = newest(cs.drop_last(), workspace, not_before_ms);
        match eligible(cs.last(), workspace, not_before_ms) {
            Some(id) => match best {
                Some((ms, _)) => if ms >= cs.last().mtime_ms {
                    best
                } else {
                    Some((cs.last().mtime_ms, id))
                },
                None => Some((cs.last().mtime_ms, id)),
            },
            None => best,
        }
    }
}

/// The session that is found is eligible, and no eligible one was written later;
/// none is found only where there is none.
pub proof fn law_newest_is_newest(cs: Seq<CandidateView>, workspace: Seq<char>, not_before_ms: u64)
    ensures
        match newest(cs, workspace, not_before_ms) {
            Some((ms, id)) => (exists|i: int|
                0 <= i < cs.len() && #[trigger] cs[i].mtime_ms == ms && eligible(
                    cs[i],
                    workspace,
                    not_before_ms,
                ) == Some(id)) && (forall|i: int|
                0 <= i < cs.len() && eligible(#[trigger] cs[i], workspace, not_before_ms) is Some
                    ==> cs[i].mtime_ms <= ms),
            None => forall|i: int|
                0 <= i < cs.len() ==> eligible(#[trigger] cs[i], workspace, not_before_ms) is None,
        },
    decreases cs.len(),
{
    if cs.len() > 0 {
        let before = cs.drop_last();
        law_newest_is_newest(before, workspace, not_before_ms);
        assert forall|i: int| 0 <= i < before.len() implies before[i] == #[trigger] cs[i] by {}
        match newest(before, workspace, not_before_ms) {
            Some((ms, id)) => {
                let k = choose|i: int|
                    0 <= i < before.len() && #[trigger] before[i].mtime_ms == ms && eligible(
                        before[i],
                        workspace,
                        not_before_ms,
                    ) == Some(id);
                assert(cs[k].mtime_ms == ms);
            },
            None => {},
        }
        assert(cs[cs.len() - 1] == cs.last());
    }
}

/// The id of a candidate that may be the session of a new terminal.
fn eligible_id(c: &Candidate, workspace: &str, not_before_ms: u64) -> (r: Option<String>)
    ensures
        opt_text(r) == eligible(c@, workspace@, not_before_ms),
{
    let from: u64 = if not_before_ms < 2000 {
        0
    } else {
        not_before_ms - 2000
    };
    if !is_jsonl(c.path.as_str()) || c.mtime_ms < from {
        return None;
    }
    match header_in(&c.header_line) {
        Some(h) => {
            if h.parent_session.is_some() || h.cwd.is_none() {
                return None;
            }
            match &c.cwd {
                Some(cwd) => if same_path(cwd.as_str(), workspace) {
                    match h.id {
                        Some(id) => Some(id),
                        None => file_stem(c.path.as_str()),
                    }
                } else {
                    None
                },
                None => None,
            }
        },
        None => None,
    }
}

/// The session of a terminal that was started at `not_before_ms` in `workspace`,
/// which has been resolved: the eligible file that was written last.
pub fn discover_newest_session(
    candidates: &Vec<Candidate>,
    workspace: &str,
    not_before_ms: u64,
) -> (r: Option<String>)
    ensures
        match newest(candidates_view(candidates@), workspace@, not_before_ms) {
            Some((_, id)) => opt_text(r) == Some(id),
            None => r is None,
        },
{
    let mut best: Option<(u64, String)> = None;
    let mut i: usize = 0;
    let ghost all = candidates_view(candidates@);
    while i < candidates.len()
        invariant
            i <= candidates@.len(),
            all == candidates_view(candidates@),
            match best {
                Some((ms, id)) => newest(all.take(i as int), workspace@, not_before_ms) == Some(
                    (ms, id@),
                ),
                None => newest(all.take(i as int), workspace@, not_before_ms) is None,
            },
        decreases candidates.len() - i,
    {
        let c = &candidates[i];
        proof {
            assert(all.take(i + 1).drop_last() =~= all.take(i as int));
            assert(all.take(i + 1).last() == c@);
        }
        if let Some(id) = eligible_id(c, workspace, not_before_ms) {
            let keep = match &best {
                Some((ms, _)) => *ms >= c.mtime_ms,
                None => false,
            };
            if !keep {
                best = Some((c.mtime_ms, id));
            }
        }
        i += 1;
    }
    assert(all.take(i as int) =~= all);
    match best {
        Some((_, id)) => Some(id),
        None => None,
    }
}

/// The JSON value that the first line of a session file writes, where it is the
/// header of a session.
pub open spec fn first_entry(line: Option<Seq<char>>) -> Option<JsonView> {
    match line {
        Some(l) => match json_parsed(trimmed(l)) {
            Ok(v) => if member_str(v, "type"@) == Some("session"@) {
                Some(v)
            } else {
                None
            },
            Err(_) => None,
        },
        None => None,
    }
}

/// Does the file belong to a child of the session with this path and id? Its header
/// names a parent that is the path, or that holds the id or the path's stem.
#[verifier::opaque]
pub open spec fn is_child_of(g: FileView, path: Seq<char>, id: Option<Seq<char>>) -> bool {
    &&& extension_of(g.path) == Some("jsonl"@)
    &&& !same(g.path, path)
    &&& first_entry(g.header_line) matches Some(v) && member_str(v, "parentSession"@) matches Some(
        named,
    ) && (same(named, path) || (id is Some && occurs(named, id->0)) || (stem_of(path) is Some
        && stem_of(path)->0.len() > 0 && occurs(named, stem_of(path)->0)))
}

/// The id under which a child session is listed: that of its header, or else the
/// stem of its file.
pub open spec fn listed_id(g: FileView) -> Option<Seq<char>> {
    match member_str(first_entry(g.header_line)->0, "id"@) {
        Some(id) => Some(id),
        None => stem_of(g.path),
    }
}

/// Does the subagent tell what the child's file tells?
#[verifier::opaque]
pub open spec fn tells_of(x: SubagentView, g: FileView) -> bool {
    let p = session_of(g.lines, g.mtime_ms);
    &&& listed_id(g) is Some ==> x.id == listed_id(g)->0
    &&& x.chat_id == Some(x.id)
    &&& x.kind == Some("rlm"@)
    &&& match (p.name, p.first_user_goal) {
        (Some(name), _) => x.title == brief(name, 64),
        (None, Some(goal)) => x.title == brief(goal, 64),
        (None, None) => x.title == "Subagent"@,
    }
    &&& p.activity == Some("Idle"@) || p.activity == Some("Waiting for input"@) ==> x.status
        == SubagentStatus::Done
    &&& (p.activity matches Some(a) && a != "Idle"@ && a != "Waiting for input"@ && (occurs(
        lowercase(a),
        "fail"@,
    ) || occurs(lowercase(a), "error"@))) ==> x.status == SubagentStatus::Failed
    &&& (p.activity matches Some(a) && a != "Idle"@ && a != "Waiting for input"@ && !occurs(
        lowercase(a),
        "fail"@,
    ) && !occurs(lowercase(a), "error"@) && !p.ended) ==> x.status == SubagentStatus::Running
    &&& (p.activity matches Some(a) && !occurs(lowercase(a), "fail"@) && !occurs(
        lowercase(a),
        "error"@,
    ) && p.ended) ==> x.status == SubagentStatus::Done
}

/// A file counts as a child exactly where its header names the parent, and is then
/// listed with what it tells.
pub proof fn law_child_names_its_parent(g: FileView, path: Seq<char>, id: Option<Seq<char>>)
    ensures
        child_header(g.path, g.header_line, path, id) is Some <==> is_child_of(g, path, id),
        is_child_of(g, path, id) ==> tells_of(
            subagent_of(
                g.path,
                child_header(g.path, g.header_line, path, id)->0,
                session_of(g.lines, g.mtime_ms),
            ),
            g,
        ),
{
    reveal(is_child_of);
    reveal(tells_of);
    reveal_strlit("");
    reveal_strlit("Subagent");
    assert(""@.len() == 0);
    let s = "Subagent"@;
    crate::text::lemma_drop_leading_none(s, crate::text::CharClass::Whitespace);
    crate::text::lemma_drop_trailing_none(s, crate::text::CharClass::Whitespace);
    assert(brief(s, 64) == s);
}

/// Is the subagent told of by one of the session's children among the files?
pub open spec fn told_by(
    x: SubagentView,
    files: Seq<FileView>,
    path: Seq<char>,
    id: Option<Seq<char>>,
) -> bool {
    exists|i: int|
        0 <= i < files.len() && is_child_of(#[trigger] files[i], path, id) && tells_of(x, files[i])
}

/// Does one of the subagents tell of the file?
pub open spec fn listed_among(g: FileView, subs: Seq<SubagentView>) -> bool {
    exists|k: int| 0 <= k < subs.len() && tells_of(#[trigger] subs[k], g)
}

/// The subagents among the files are their children.
proof fn lemma_children(files: Seq<FileView>, path: Seq<char>, id: Option<Seq<char>>)
    ensures
        forall|k: int|
            0 <= k < children_in(files, path, id).len() ==> told_by(
                #[trigger] children_in(files, path, id)[k],
                files,
                path,
                id,
            ),
        forall|i: int|
            0 <= i < files.len() && is_child_of(#[trigger] files[i], path, id) ==> listed_among(
                files[i],
                children_in(files, path, id),
            ),
        children_in(files, path, id).len() == files.filter(
            |g: FileView| is_child_of(g, path, id),
        ).len(),
    decreases files.len(),
{
    reveal(Seq::filter);
    if files.len() > 0 {
        let t = files.drop_last();
        let g = files.last();
        let before = children_in(t, path, id);
        let all = children_in(files, path, id);
        lemma_children(t, path, id);
        law_child_names_its_parent(g, path, id);
        assert forall|k: int| 0 <= k < all.len() implies told_by(
            #[trigger] all[k],
            files,
            path,
            id,
        ) by {
            if k < before.len() {
                assert(all[k] == before[k]);
                assert(told_by(before[k], t, path, id));
                let i = choose|i: int|
                    0 <= i < t.len() && is_child_of(#[trigger] t[i], path, id) && tells_of(
                        before[k],
                        t[i],
                    );
                assert(files[i] == t[i]);
            } else {
                assert(is_child_of(files[files.len() - 1], path, id));
            }
        }
        assert forall|i: int|
            0 <= i < files.len() && is_child_of(#[trigger] files[i], path, id) implies listed_among(
            files[i],
            all,
        ) by {
            if i < t.len() {
                assert(is_child_of(t[i], path, id));
                assert(listed_among(t[i], before));
                let k = choose|k: int|
                    0 <= k < before.len() && tells_of(#[trigger] before[k], t[i]);
                assert(all[k] == before[k]);
            } else {
                assert(tells_of(all[all.len() - 1], files[i]));
            }
        }
    }
}

/// What stands in a list stands in it by title, and the other way round.
proof fn lemma_by_title_has(s: Seq<SubagentView>)
    ensures
        forall|k: int| 0 <= k < s.len() ==> by_title(s).contains(#[trigger] s[k]),
        forall|k: int| 0 <= k < by_title(s).len() ==> s.contains(#[trigger] by_title(s)[k]),
{
    broadcast use vstd::seq_lib::group_to_multiset_ensures;

    law_by_title_sorts(s);
    let b = by_title(s);
    assert forall|k: int| 0 <= k < s.len() implies b.contains(#[trigger] s[k]) by {
        assert(s.contains(s[k]));
        assert(s.to_multiset().count(s[k]) > 0);
        assert(b.to_multiset().count(s[k]) > 0);
    }
    assert forall|k: int| 0 <= k < b.len() implies s.contains(#[trigger] b[k]) by {
        assert(b.contains(b[k]));
        assert(b.to_multiset().count(b[k]) > 0);
        assert(s.to_multiset().count(b[k]) > 0);
    }
}

/// The subagents of a session are its children: each is told of by a file whose
/// header names the session as its parent, each such file is listed, and none twice.
pub proof fn law_subagents_name_their_parent(
    chat_id: Seq<char>,
    f: FileView,
    files: Seq<FileView>,
)
    requires
        trimmed(chat_id).len() > 0,
    ensures
        ({
            let id = session_of(f.lines, f.mtime_ms).id;
            let subs = snapshot_of(chat_id, Some(f), files).subagents;
            &&& forall|k: int|
                0 <= k < subs.len() ==> told_by(#[trigger] subs[k], files, f.path, id)
            &&& forall|i: int|
                0 <= i < files.len() && is_child_of(#[trigger] files[i], f.path, id)
                    ==> listed_among(files[i], subs)
            &&& subs.len() == files.filter(|g: FileView| is_child_of(g, f.path, id)).len()
            &&& titles_ordered(subs)
        }),
{
    let id = session_of(f.lines, f.mtime_ms).id;
    let found = children_in(files, f.path, id);
    let subs = snapshot_of(chat_id, Some(f), files).subagents;
    lemma_children(files, f.path, id);
    lemma_by_title_has(found);
    law_by_title_sorts(found);
    assert forall|k: int| 0 <= k < subs.len() implies told_by(
        #[trigger] subs[k],
        files,
        f.path,
        id,
    ) by {
        assert(found.contains(by_title(found)[k]));
        let j = found.index_of(subs[k]);
        assert(told_by(found[j], files, f.path, id));
    }
    assert forall|i: int|
        0 <= i < files.len() && is_child_of(#[trigger] files[i], f.path, id) implies listed_among(
        files[i],
        subs,
    ) by {
        assert(listed_among(files[i], found));
        let j = choose|j: int| 0 <= j < found.len() && tells_of(#[trigger] found[j], files[i]);
        assert(by_title(found).contains(found[j]));
        let k = subs.index_of(found[j]);
        assert(subs[k] == found[j]);
    }
}

/// A file that belongs to another session, or to none, changes nothing: the same
/// subagents are listed with it and without it.
pub proof fn law_foreign_files_are_not_nested(
    chat_id: Seq<char>,
    f: FileView,
    files: Seq<FileView>,
    g: FileView,
)
    requires
        !is_child_of(g, f.path, session_of(f.lines, f.mtime_ms).id),
    ensures
        snapshot_of(chat_id, Some(f), files.push(g)) == snapshot_of(chat_id, Some(f), files),
{
    assert(files.push(g).drop_last() =~= files);
    law_child_names_its_parent(g, f.path, session_of(f.lines, f.mtime_ms).id);
}

/// A snapshot tells what the session's own file tells: its name, or else what the
/// user asked for first; when it was last active; and what it does. Without a file,
/// or without an id, it tells nothing.
pub proof fn law_snapshot_tells_of_its_file(
    chat_id: Seq<char>,
    file: Option<FileView>,
    files: Seq<FileView>,
)
    ensures
        match file {
            Some(f) => trimmed(chat_id).len() > 0 ==> ({
                let p = session_of(f.lines, f.mtime_ms);
                let snap = snapshot_of(chat_id, file, files);
                &&& p.name is Some ==> snap.title == p.name
                &&& p.name is None ==> snap.title == p.first_user_goal
                &&& p.updated_at_ms is Some ==> snap.updated_at_ms == p.updated_at_ms
                &&& p.updated_at_ms is None ==> snap.updated_at_ms == f.mtime_ms
                &&& snap.activity == p.activity
            }),
            None => true,
        },
        file is None || trimmed(chat_id).len() == 0 ==> ({
            let snap = snapshot_of(chat_id, file, files);
            &&& snap.title is None && snap.updated_at_ms is None && snap.activity is None
            &&& snap.summary is None && snap.subagents.len() == 0
        }),
{
}

/// The summary of a session speaks of what the user asked for last, and says how far
/// the session is: over, using tools, talking, or just begun. A session that has none
/// of these has no summary.
pub proof fn law_summary_says_how_far(p: ParsedView)
    requires
        p.last_user_goal is None ==> p.first_user_goal is None,
    ensures
        ({
            let topic = match p.last_user_goal {
                Some(g) => topic_of(g),
                None => "this session"@,
            };
            match summary_of(p) {
                Some(s) => {
                    &&& s.goal == p.last_user_goal
                    &&& p.ended ==> s.prose == "Wrapped up on "@ + topic + "."@
                    &&& !p.ended && p.tool_events > 0 ==> s.prose == "Working through "@ + topic
                        + " — tools in motion."@
                    &&& !p.ended && p.tool_events == 0 && p.assistant_chars > 0 ==> s.prose
                        == "Talking through "@ + topic + "."@
                    &&& !p.ended && p.tool_events == 0 && p.assistant_chars == 0 ==> s.prose
                        == "Looking at "@ + topic + "."@
                },
                None => !p.ended && p.tool_events == 0 && p.assistant_chars == 0
                    && p.last_user_goal is None,
            }
        }),
        !p.ended && p.tool_events == 0 && p.assistant_chars == 0 && p.last_user_goal is None
            ==> summary_of(p) is None,
{
}

/// The summary in a snapshot is that of the session's file, whose goals come together.
pub proof fn law_snapshot_sums_up_its_file(chat_id: Seq<char>, f: FileView, files: Seq<FileView>)
    requires
        trimmed(chat_id).len() > 0,
    ensures
        snapshot_of(chat_id, Some(f), files).summary == summary_of(
            session_of(f.lines, f.mtime_ms),
        ),
        session_of(f.lines, f.mtime_ms).last_user_goal is None ==> session_of(
            f.lines,
            f.mtime_ms,
        ).first_user_goal is None,
{
    crate::transcript::law_goals_come_together(f.lines, f.mtime_ms);
}

/// The session of a new terminal is one that no other session started: a session
/// file, written at most two seconds before the terminal was started or later, whose
/// header names no parent, and which works in the terminal's workspace. It goes by
/// the id in its header, or else by the stem of its file.
pub open spec fn may_be_new_session(c: CandidateView, workspace: Seq<char>, not_before_ms: u64) -> bool {
    &&& extension_of(c.path) == Some("jsonl"@)
    &&& c.mtime_ms + 2000 >= not_before_ms
    &&& first_entry(c.header_line) matches Some(v) && member_str(v, "parentSession"@) is None
        && member_str(v, "cwd"@) is Some && (member_str(v, "id"@) is Some || stem_of(c.path) is Some)
    &&& c.cwd is Some && same(c.cwd->0, workspace)
}

/// The id by which a candidate goes.
pub open spec fn candidate_id(c: CandidateView) -> Option<Seq<char>> {
    match member_str(first_entry(c.header_line)->0, "id"@) {
        Some(id) => Some(id),
        None => stem_of(c.path),
    }
}

/// A candidate is eligible exactly where it may be the new session.
proof fn lemma_eligible(c: CandidateView, workspace: Seq<char>, not_before_ms: u64)
    ensures
        eligible(c, workspace, not_before_ms) is Some <==> may_be_new_session(
            c,
            workspace,
            not_before_ms,
        ),
        may_be_new_session(c, workspace, not_before_ms) ==> eligible(c, workspace, not_before_ms)
            == candidate_id(c),
{
}

/// The session that is found for a new terminal is one of the candidates that may be
/// it, and none of those was written later; one is found wherever there is one.
pub proof fn law_found_session_is_new(
    cs: Seq<CandidateView>,
    workspace: Seq<char>,
    not_before_ms: u64,
)
    ensures
        match newest(cs, workspace, not_before_ms) {
            Some((ms, id)) => {
                &&& exists|i: int|
                    0 <= i < cs.len() && may_be_new_session(
                        #[trigger] cs[i],
                        workspace,
                        not_before_ms,
                    ) && candidate_id(cs[i]) == Some(id) && cs[i].mtime_ms == ms
                &&& forall|i: int|
                    0 <= i < cs.len() && may_be_new_session(
                        #[trigger] cs[i],
                        workspace,
                        not_before_ms,
                    ) ==> cs[i].mtime_ms <= ms
            },
            None => forall|i: int|
                0 <= i < cs.len() ==> !may_be_new_session(
                    #[trigger] cs[i],
                    workspace,
                    not_before_ms,
                ),
        },
{
    law_newest_is_newest(cs, workspace, not_before_ms);
    assert forall|i: int| 0 <= i < cs.len() implies (eligible(
        #[trigger] cs[i],
        workspace,
        not_before_ms,
    ) is Some <==> may_be_new_session(cs[i], workspace, not_before_ms)) by {
        lemma_eligible(cs[i], workspace, not_before_ms);
    }
    if let Some((ms, id)) = newest(cs, workspace, not_before_ms) {
        let i = choose|i: int|
            0 <= i < cs.len() && #[trigger] cs[i].mtime_ms == ms && eligible(
                cs[i],
                workspace,
                not_before_ms,
            ) == Some(id);
        lemma_eligible(cs[i], workspace, not_before_ms);
        assert(may_be_new_session(cs[i], workspace, not_before_ms));
    }
}

/// A child session is never found for a new terminal, nor does one among the
/// candidates change what is found.
pub proof fn law_child_sessions_are_not_found(
    cs: Seq<CandidateView>,
    c: CandidateView,
    workspace: Seq<char>,
    not_before_ms: u64,
)
    requires
        first_entry(c.header_line) matches Some(v) && member_str(v, "parentSession"@) is Some,
    ensures
        newest(seq![c], workspace, not_before_ms) is None,
        newest(cs.push(c), workspace, not_before_ms) == newest(cs, workspace, not_before_ms),
        newest(seq![c] + cs, workspace, not_before_ms) == newest(cs, workspace, not_before_ms),
    decreases cs.len(),
{
    lemma_eligible(c, workspace, not_before_ms);
    assert(cs.push(c).drop_last() =~= cs);
    assert(seq![c].drop_last() =~= Seq::empty());
    assert(newest(seq![c].drop_last(), workspace, not_before_ms) is None);
    if cs.len() == 0 {
        assert(seq![c] + cs =~= seq![c]);
    } else {
        law_child_sessions_are_not_found(cs.drop_last(), c, workspace, not_before_ms);
        assert((seq![c] + cs).drop_last() =~= seq![c] + cs.drop_last());
        assert((seq![c] + cs).last() == cs.last());
    }
}

/// A session is found by the path of its file, else by its id, else by a part of its
/// id where only one file in the directory matches.
pub proof fn law_session_file_is_found(
    session_id: Seq<char>,
    path_is_file: bool,
    root: Option<Seq<char>>,
    direct_is_file: bool,
    entries: Option<Seq<Seq<char>>>,
)
    ensures
        ({
            let found = found_file(session_id, path_is_file, root, direct_is_file, entries);
            let id = trimmed(session_id);
            &&& id.len() == 0 ==> found is None
            &&& id.len() > 0 && path_is_file ==> found == Some(id)
            &&& id.len() > 0 && !path_is_file && root is None ==> found is None
            &&& id.len() > 0 && !path_is_file && direct_is_file && root is Some ==> found == Some(
                below(root->0, id + ".jsonl"@),
            )
            &&& id.len() > 0 && !path_is_file && !direct_is_file && found is Some ==> ({
                &&& entries is Some && entries->0.contains(found->0)
                &&& extension_of(found->0) == Some("jsonl"@)
                &&& stem_of(found->0) is Some && occurs(stem_of(found->0)->0, id)
            })
        }),
{
    let id = trimmed(session_id);
    let found = found_file(session_id, path_is_file, root, direct_is_file, entries);
    if id.len() > 0 && !path_is_file && !direct_is_file && found is Some {
        let paths = entries->0;
        let m = matching(paths, id);
        let keep = |p: Seq<char>| path_matches(p, id);
        assert(m.contains(m[0]));
        lemma_matching_has(paths, id, m[0]);
    }
}

/// What is among the matching paths is among the paths, and matches.
proof fn lemma_matching_has(paths: Seq<Seq<char>>, id: Seq<char>, p: Seq<char>)
    requires
        matching(paths, id).contains(p),
    ensures
        paths.contains(p),
        path_matches(p, id),
    decreases paths.len(),
{
    reveal(Seq::filter);
    let m = matching(paths, id);
    let i = m.index_of(p);
    if paths.len() > 0 {
        let t = paths.drop_last();
        if path_matches(paths.last(), id) && i == m.len() - 1 {
            assert(paths[paths.len() - 1] == p);
        } else {
            assert(matching(t, id)[i] == p);
            lemma_matching_has(t, id, p);
            let j = t.index_of(p);
            assert(paths[j] == p);
        }
    }
}

/// Where two files match a part of an id, neither is taken.
pub proof fn law_doubtful_id_finds_nothing(
    session_id: Seq<char>,
    root: Option<Seq<char>>,
    paths: Seq<Seq<char>>,
    i: int,
    j: int,
)
    requires
        0 <= i < j < paths.len(),
        extension_of(paths[i]) == Some("jsonl"@),
        extension_of(paths[j]) == Some("jsonl"@),
        stem_of(paths[i]) is Some && occurs(stem_of(paths[i])->0, trimmed(session_id)),
        stem_of(paths[j]) is Some && occurs(stem_of(paths[j])->0, trimmed(session_id)),
    ensures
        found_file(session_id, false, root, false, Some(paths)) is None,
{
    lemma_two_match(paths, trimmed(session_id), i, j);
}

/// Two matching paths are both counted.
proof fn lemma_two_match(paths: Seq<Seq<char>>, id: Seq<char>, i: int, j: int)
    requires
        0 <= i <= j < paths.len(),
        path_matches(paths[i], id),
        path_matches(paths[j], id),
    ensures
        matching(paths, id).len() >= if i < j { 2int } else { 1int },
    decreases paths.len(),
{
    reveal(Seq::filter);
    let t = paths.drop_last();
    if j < t.len() {
        assert(t[i] == paths[i] && t[j] == paths[j]);
        lemma_two_match(t, id, i, j);
    } else if i < j {
        assert(t[i] == paths[i]);
        lemma_two_match(t, id, i, i);
    }
}

/// Where the sessions are: in the directory that the agent's own variable names, else
/// in that which the coding agent's names, else below the home directory.
pub proof fn law_sessions_have_a_root(
    prime: Option<Seq<char>>,
    coding: Option<Seq<char>>,
    home: Option<Seq<char>>,
)
    ensures
        prime is Some && trimmed(prime->0).len() > 0 ==> root_of(prime, coding, home) == Some(
            trimmed(prime->0),
        ),
        (prime is None || trimmed(prime->0).len() == 0) && coding is Some && trimmed(
            coding->0,
        ).len() > 0 ==> root_of(prime, coding, home) == Some(trimmed(coding->0)),
        prime is None && coding is None && home is Some ==> root_of(prime, coding, home) == Some(
            below(below(below(home->0, ".prime"@), "agent"@), "sessions"@),
        ),
        prime is None && coding is None && home is None ==> root_of(prime, coding, home) is None,
{
}

/// A session is named by its goal, or else by its summary's prose without the white space
/// around it.
pub proof fn law_hint_is_goal_or_prose(s: SummaryView)
    ensures
        s.goal is Some && s.goal->0.len() > 0 ==> hint_of(s) == s.goal,
        (s.goal is None || s.goal->0.len() == 0) && trimmed(s.prose).len() > 0 ==> hint_of(s)
            == Some(trimmed(s.prose)),
        (s.goal is None || s.goal->0.len() == 0) && trimmed(s.prose).len() == 0 ==> hint_of(s)
            is None,
{
}

} // verus!
