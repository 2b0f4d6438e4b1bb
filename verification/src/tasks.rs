//! Labels for subagents and snippets.
use crate::digits::{decimal, to_decimal};
use crate::split::{join, joined, lines, lines_of, shorten, shortened, texts, lemma_texts_push};
use crate::subagents::{SessionSummary, Subagent, SubagentStatus, SubagentView, SummaryView};
use crate::text::{concat, concat3, is_empty, opt_view, str_eq, trim, trimmed};
use vstd::prelude::*;
use vstd::string::*;

verus! {

/// A title, where there is one and it says anything.
pub open spec fn said(title: Option<Seq<char>>) -> Option<Seq<char>> {
    match title {
        Some(t) => if t.len() > 0 {
            Some(t)
        } else {
            None
        },
        None => None,
    }
}

/// A number and what it counts, where it is not zero.
pub open spec fn tally_if(n: usize, what: Seq<char>) -> Seq<Seq<char>> {
    if n > 0 {
        seq![decimal(n as nat) + what]
    } else {
        Seq::empty()
    }
}

/// The heading of a list of subagents: the title of the only one, or how many
/// there are of each kind.
pub open spec fn header_of_tasks(
    running: usize,
    failed: usize,
    done: usize,
    title: Option<Seq<char>>,
) -> Seq<char> {
    if running == 1 && said(title) is Some {
        shortened(title->0, 36)
    } else if running > 0 || failed > 0 {
        joined(
            tally_if(running, " running"@) + tally_if(failed, " failed"@) + tally_if(
                done,
                " done"@,
            ),
            " · "@,
        )
    } else if done == 1 && said(title) is Some {
        shortened(title->0, 36)
    } else {
        decimal(done as nat) + " done"@
    }
}

/// Adds a number and what it counts to a list, where it is not zero.
fn add_tally(parts: &mut Vec<String>, n: usize, what: &str)
    ensures
        texts(final(parts)@) == texts(old(parts)@) + tally_if(n, what@),
{
    broadcast use lemma_texts_push;

    if n > 0 {
        parts.push(concat(to_decimal(n as u64).as_str(), what));
    }
    assert(texts(parts@) =~= texts(old(parts)@) + tally_if(n, what@));
}

/// A title, where there is one and it says anything.
fn said_title<'a>(title: Option<&'a str>) -> (r: Option<&'a str>)
    ensures
        opt_view(r) == said(opt_view(title)),
{
    match title {
        Some(t) => if is_empty(t) {
            None
        } else {
            Some(t)
        },
        None => None,
    }
}

/// The heading of a list of subagents, given how many there are of each kind
/// and the title of the first.
pub fn task_header_label(running: usize, failed: usize, done: usize, first_title: Option<&str>) -> (r:
    String)
    ensures
        r@ == header_of_tasks(running, failed, done, opt_view(first_title)),
{
    if running == 1 {
        if let Some(t) = said_title(first_title) {
            return shorten(t, 36);
        }
    }
    if running > 0 || failed > 0 {
        let mut parts: Vec<String> = Vec::new();
        assert(texts(parts@) =~= Seq::empty());
        add_tally(&mut parts, running, " running");
        add_tally(&mut parts, failed, " failed");
        add_tally(&mut parts, done, " done");
        assert(texts(parts@) =~= tally_if(running, " running"@) + tally_if(failed, " failed"@)
            + tally_if(done, " done"@));
        return join(&parts, " · ");
    }
    if done == 1 {
        if let Some(t) = said_title(first_title) {
            return shorten(t, 36);
        }
    }
    concat(to_decimal(done as u64).as_str(), " done")
}

/// A short name for a kind of subagent.
pub open spec fn short_kind_of(kind: Seq<char>) -> Seq<char> {
    if kind == "best-of-n-runner"@ {
        "best-of-n"@
    } else if kind == "security-review"@ {
        "security"@
    } else if kind == "cursor-guide"@ {
        "guide"@
    } else if kind == "generalPurpose"@ {
        "agent"@
    } else {
        kind
    }
}

/// A short name for a kind of subagent.
pub fn short_kind<'a>(kind: &'a str) -> (r: &'a str)
    ensures
        r@ == short_kind_of(kind@),
{
    if str_eq(kind, "best-of-n-runner") {
        "best-of-n"
    } else if str_eq(kind, "security-review") {
        "security"
    } else if str_eq(kind, "cursor-guide") {
        "guide"
    } else if str_eq(kind, "generalPurpose") {
        "agent"
    } else {
        kind
    }
}

/// The row of a subagent: its title, and its kind where that tells something.
pub open spec fn label_of_task(s: SubagentView) -> Seq<char> {
    match s.kind {
        Some(k) => if k.len() > 0 && k != "generalPurpose"@ {
            s.title + " · "@ + short_kind_of(k)
        } else {
            s.title
        },
        None => s.title,
    }
}

/// The row of a subagent.
pub fn task_label(sub: &Subagent) -> (r: String)
    ensures
        r@ == label_of_task(sub@),
{
    match &sub.kind {
        Some(k) => if !is_empty(k.as_str()) && !str_eq(k.as_str(), "generalPurpose") {
            concat3(sub.title.as_str(), " · ", short_kind(k.as_str()))
        } else {
            sub.title.clone()
        },
        None => sub.title.clone(),
    }
}

/// How a subagent fares, in a word.
pub open spec fn status_word(s: SubagentStatus) -> Seq<char> {
    match s {
        SubagentStatus::Running => "running"@,
        SubagentStatus::Done => "done"@,
        SubagentStatus::Failed => "failed"@,
    }
}

/// What is shown when the pointer rests on the row of a subagent.
pub open spec fn hover_of_task(s: SubagentView) -> Seq<char> {
    let head = match s.kind {
        Some(k) => if k.len() > 0 {
            status_word(s.status) + " · "@ + k
        } else {
            status_word(s.status)
        },
        None => status_word(s.status),
    };
    if s.chat_id is Some {
        head + "\n"@ + s.title + "\nClick to open"@
    } else {
        head + "\n"@ + s.title
    }
}

/// What is shown when the pointer rests on the row of a subagent.
pub fn task_hover(sub: &Subagent) -> (r: String)
    ensures
        r@ == hover_of_task(sub@),
{
    let word = match sub.status {
        SubagentStatus::Running => "running",
        SubagentStatus::Done => "done",
        SubagentStatus::Failed => "failed",
    };
    let mut out = word.to_owned();
    if let Some(k) = &sub.kind {
        if !is_empty(k.as_str()) {
            out.append(" · ");
            out.append(k.as_str());
        }
    }
    out.append("\n");
    out.append(sub.title.as_str());
    if sub.chat_id.is_some() {
        out.append("\nClick to open");
    }
    out
}

/// The first line that is not blank, trimmed; nothing where there is none.
pub open spec fn first_said(ls: Seq<Seq<char>>) -> Seq<char>
    decreases ls.len(),
{
    if ls.len() == 0 {
        ""@
    } else if trimmed(ls[0]).len() > 0 {
        trimmed(ls[0])
    } else {
        first_said(ls.drop_first())
    }
}

/// The first line of a snippet that is not blank, in at most `max` characters.
pub open spec fn preview_of(s: Seq<char>, max: usize) -> Seq<char> {
    shortened(first_said(lines_of(s)), max as int)
}

/// The first line of a snippet that is not blank, in at most `max` characters.
pub fn first_line_preview(s: &str, max: usize) -> (r: String)
    ensures
        r@ == preview_of(s@, max),
{
    let ls = lines(s);
    let ghost all = texts(ls@);
    let mut i: usize = 0;
    assert(all.skip(0) =~= all);
    while i < ls.len()
        invariant
            i <= ls@.len(),
            all == texts(ls@),
            all == lines_of(s@),
            first_said(all.skip(i as int)) == first_said(all),
        decreases ls.len() - i,
    {
        proof {
            assert(all.skip(i as int)[0] == ls@[i as int]@);
            assert(all.skip(i as int).drop_first() =~= all.skip(i + 1));
        }
        let t = trim(ls[i].as_str());
        if !is_empty(t) {
            return shorten(t, max);
        }
        i += 1;
    }
    shorten("", max)
}

/// Does a summary have anything to show?
pub open spec fn has_prose(s: Option<SummaryView>) -> bool {
    s matches Some(x) && trimmed(x.prose).len() > 0
}

/// The text of the summary panel.
pub open spec fn panel_text(s: Option<SummaryView>, alive: bool) -> Seq<char> {
    if has_prose(s) {
        s->0.prose
    } else if alive {
        "quiet so far — nothing cooking yet."@
    } else {
        "nothing happened in this session."@
    }
}

/// The text of the summary panel, and whether it only fills an empty one.
pub fn summary_panel(summary: &Option<SessionSummary>, alive: bool) -> (r: (String, bool))
    ensures
        r.0@ == panel_text(crate::subagents::opt_summary(*summary), alive),
        r.1 == !has_prose(crate::subagents::opt_summary(*summary)),
{
    if let Some(s) = summary {
        if !is_empty(trim(s.prose.as_str())) {
            return (s.prose.clone(), false);
        }
    }
    if alive {
        ("quiet so far — nothing cooking yet.".to_owned(), true)
    } else {
        ("nothing happened in this session.".to_owned(), true)
    }
}

/// The heading of a list of subagents names the only one at work, or else the only one
/// done where nothing else is; otherwise it tells how many are at work, failed and done,
/// leaving out what there is none of.
pub proof fn law_heading_tells_numbers(
    running: usize,
    failed: usize,
    done: usize,
    title: Option<Seq<char>>,
)
    ensures
        ({
            let h = header_of_tasks(running, failed, done, title);
            let named = title is Some && title->0.len() > 0;
            &&& running == 1 && named ==> h == shortened(title->0, 36)
            &&& running == 0 && failed == 0 && done == 1 && named ==> h == shortened(title->0, 36)
            &&& running == 0 && failed == 0 && done != 1 ==> h == decimal(done as nat) + " done"@
            &&& running > 1 && failed == 0 && done == 0 ==> h == decimal(running as nat)
                + " running"@
            &&& running == 0 && failed > 0 && done == 0 ==> h == decimal(failed as nat)
                + " failed"@
            &&& running > 1 && failed > 0 && done == 0 ==> h == decimal(running as nat)
                + " running"@ + " · "@ + (decimal(failed as nat) + " failed"@)
            &&& running > 1 && failed == 0 && done > 0 ==> h == decimal(running as nat)
                + " running"@ + " · "@ + (decimal(done as nat) + " done"@)
            &&& running == 0 && failed > 0 && done > 0 ==> h == decimal(failed as nat)
                + " failed"@ + " · "@ + (decimal(done as nat) + " done"@)
            &&& running > 1 && failed > 0 && done > 0 ==> h == decimal(running as nat)
                + " running"@ + " · "@ + (decimal(failed as nat) + " failed"@) + " · "@ + (decimal(
                done as nat,
            ) + " done"@)
        }),
{
    let r = tally_if(running, " running"@);
    let f = tally_if(failed, " failed"@);
    let d = tally_if(done, " done"@);
    let all = r + f + d;
    reveal_with_fuel(joined, 4);
    if running > 1 && failed > 0 && done > 0 {
        assert(all.drop_last() =~= r + f);
        assert(all.drop_last().drop_last() =~= r);
        assert((r + f).last() == f[0]);
    } else if running > 1 && failed > 0 {
        assert(all =~= r + f);
        assert(all.drop_last() =~= r);
    } else if running > 1 && done > 0 {
        assert(all =~= r + d);
        assert(all.drop_last() =~= r);
    } else if failed > 0 && done > 0 && running == 0 {
        assert(all =~= f + d);
        assert(all.drop_last() =~= f);
    }
}

/// The row of a subagent shows its title, and behind it a short name of its kind where
/// that says more than that it is an agent.
pub proof fn law_task_label_begins_with_title(s: SubagentView)
    ensures
        crate::text::begins(label_of_task(s), s.title),
        s.kind is None ==> label_of_task(s) == s.title,
        s.kind == Some("generalPurpose"@) ==> label_of_task(s) == s.title,
        s.kind == Some("rlm"@) ==> label_of_task(s) == s.title + " · "@ + "rlm"@,
        s.kind == Some("security-review"@) ==> label_of_task(s) == s.title + " · "@ + "security"@,
        s.kind == Some("cursor-guide"@) ==> label_of_task(s) == s.title + " · "@ + "guide"@,
        s.kind == Some("best-of-n-runner"@) ==> label_of_task(s) == s.title + " · "@
            + "best-of-n"@,
{
    reveal_strlit("generalPurpose");
    reveal_strlit("rlm");
    reveal_strlit("security-review");
    reveal_strlit("cursor-guide");
    reveal_strlit("best-of-n-runner");
    assert("generalPurpose"@.len() == 14 && "rlm"@.len() == 3 && "security-review"@.len() == 15
        && "cursor-guide"@.len() == 12 && "best-of-n-runner"@.len() == 16);
    assert(label_of_task(s).take(s.title.len() as int) =~= s.title);
}

/// The pointer is told how a subagent fares, its kind, its title, and that a click opens
/// it where it has a session.
pub proof fn law_task_hover_tells_status(s: SubagentView)
    ensures
        ({
            let word = match s.status {
                SubagentStatus::Running => "running"@,
                SubagentStatus::Failed => "failed"@,
                SubagentStatus::Done => "done"@,
            };
            let end = if s.chat_id is Some {
                "\n"@ + s.title + "\nClick to open"@
            } else {
                "\n"@ + s.title
            };
            &&& s.kind is None || s.kind->0.len() == 0 ==> hover_of_task(s) == word + end
            &&& s.kind is Some && s.kind->0.len() > 0 ==> hover_of_task(s) == word + " · "@
                + s.kind->0 + end
        }),
{
    let word = status_word(s.status);
    if s.kind is Some && s.kind->0.len() > 0 {
        let h = word + " · "@ + s.kind->0;
        assert(h + "\n"@ + s.title + "\nClick to open"@ =~= h + ("\n"@ + s.title
            + "\nClick to open"@));
        assert(h + "\n"@ + s.title =~= h + ("\n"@ + s.title));
    } else {
        assert(word + "\n"@ + s.title + "\nClick to open"@ =~= word + ("\n"@ + s.title
            + "\nClick to open"@));
        assert(word + "\n"@ + s.title =~= word + ("\n"@ + s.title));
    }
}

/// A preview is the first line of a snippet that says anything, without the white space
/// around it.
pub proof fn law_preview_is_first_said_line(s: Seq<char>, max: usize, i: int)
    requires
        0 <= i < lines_of(s).len(),
        trimmed(lines_of(s)[i]).len() > 0,
        forall|j: int| 0 <= j < i ==> trimmed(#[trigger] lines_of(s)[j]).len() == 0,
    ensures
        preview_of(s, max) == shortened(trimmed(lines_of(s)[i]), max as int),
{
    lemma_first_said(lines_of(s), i);
}

/// The first line that says anything.
proof fn lemma_first_said(ls: Seq<Seq<char>>, i: int)
    requires
        0 <= i < ls.len(),
        trimmed(ls[i]).len() > 0,
        forall|j: int| 0 <= j < i ==> trimmed(#[trigger] ls[j]).len() == 0,
    ensures
        first_said(ls) == trimmed(ls[i]),
    decreases ls.len(),
{
    if i > 0 {
        let t = ls.drop_first();
        assert(trimmed(ls[0]).len() == 0);
        assert forall|j: int| 0 <= j < i - 1 implies trimmed(#[trigger] t[j]).len() == 0 by {
            assert(trimmed(ls[j + 1]).len() == 0);
        }
        lemma_first_said(t, i - 1);
    }
}

/// The panel shows the summary's prose as it is, wherever there is any.
pub proof fn law_panel_shows_prose(s: Option<SummaryView>, alive: bool)
    ensures
        s is Some && trimmed(s->0.prose).len() > 0 ==> panel_text(s, alive) == s->0.prose
            && has_prose(s),
        s is None || trimmed(s->0.prose).len() == 0 ==> !has_prose(s) && panel_text(s, alive)
            == if alive {
            "quiet so far — nothing cooking yet."@
        } else {
            "nothing happened in this session."@
        },
{
}

} // verus!
