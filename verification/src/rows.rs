//! The rows of the sidebar: what a session and its subagents look like there.
use crate::digits::{decimal, to_decimal};
use crate::path::{file_name, name_of};
use crate::subagents::{subagents_view, Subagent, SubagentStatus, SubagentView};
use crate::tasks::{
    header_of_tasks, hover_of_task, label_of_task, task_header_label, task_hover, task_label,
};
use crate::text::{concat, concat3, opt_text, opt_view, or_else};
use vstd::prelude::*;
use vstd::string::*;

verus! {

/// The heading of a workspace in the sidebar, and what is shown when the
/// pointer rests on it.
pub struct WorkspaceHeader {
    pub label: String,
    pub hover: String,
}

/// A mark that says whether a list is folded.
pub open spec fn chevron_of(folded: bool) -> Seq<char> {
    if folded {
        "▶"@
    } else {
        "▼"@
    }
}

/// A mark that says whether a list is folded.
fn chevron(folded: bool) -> (r: &'static str)
    ensures
        r@ == chevron_of(folded),
{
    if folded {
        "▶"
    } else {
        "▼"
    }
}

/// The heading of a workspace: its name, and its whole path for the pointer.
pub fn workspace_header(workspace: &str, folded: bool) -> (r: WorkspaceHeader)
    ensures
        r.label@ == chevron_of(folded) + " "@ + match name_of(workspace@) {
            Some(n) => n,
            None => "workspace"@,
        },
        r.hover@ == if folded {
            "Expand sessions\n"@ + workspace@
        } else {
            "Fold sessions\n"@ + workspace@
        },
{
    let name = match file_name(workspace) {
        Some(n) => n,
        None => "workspace".to_owned(),
    };
    let hover = if folded {
        concat("Expand sessions\n", workspace)
    } else {
        concat("Fold sessions\n", workspace)
    };
    WorkspaceHeader { label: concat3(chevron(folded), " ", name.as_str()), hover }
}

/// The mark before the title of a session.
pub enum RowMark {
    /// The agent waits for an answer.
    Question(String),
    /// The agent is at work.
    Spinner(String),
    /// The agent has exited.
    Exited,
    Nothing,
}

/// What a mark holds.
pub enum MarkView {
    Question(Seq<char>),
    Spinner(Seq<char>),
    Exited,
    Nothing,
}

impl View for RowMark {
    type V = MarkView;

    open spec fn view(&self) -> MarkView {
        match self {
            RowMark::Question(t) => MarkView::Question(t@),
            RowMark::Spinner(t) => MarkView::Spinner(t@),
            RowMark::Exited => MarkView::Exited,
            RowMark::Nothing => MarkView::Nothing,
        }
    }
}

/// The mark before the title of a session.
pub open spec fn mark_of(
    needs_input: bool,
    has_activity: bool,
    alive: bool,
    activity: Option<Seq<char>>,
) -> MarkView {
    if needs_input {
        MarkView::Question(
            match activity {
                Some(a) => a,
                None => "Waiting for answer"@,
            },
        )
    } else if has_activity {
        MarkView::Spinner(
            match activity {
                Some(a) => a,
                None => "Working…"@,
            },
        )
    } else if !alive {
        MarkView::Exited
    } else {
        MarkView::Nothing
    }
}

/// The mark before the title of a session.
pub fn row_mark(needs_input: bool, has_activity: bool, alive: bool, activity: &Option<String>) -> (r:
    RowMark)
    ensures
        r@ == mark_of(needs_input, has_activity, alive, opt_text(*activity)),
{
    if needs_input {
        match activity {
            Some(a) => RowMark::Question(a.clone()),
            None => RowMark::Question("Waiting for answer".to_owned()),
        }
    } else if has_activity {
        match activity {
            Some(a) => RowMark::Spinner(a.clone()),
            None => RowMark::Spinner("Working…".to_owned()),
        }
    } else if !alive {
        RowMark::Exited
    } else {
        RowMark::Nothing
    }
}

/// How many subagents fare like this.
pub open spec fn count_of(subs: Seq<SubagentView>, status: SubagentStatus) -> nat
    decreases subs.len(),
{
    if subs.len() == 0 {
        0
    } else {
        count_of(subs.drop_last(), status) + if subs.last().status == status {
            1nat
        } else {
            0nat
        }
    }
}

/// How many subagents fare like this.
pub fn count_status(subs: &Vec<Subagent>, status: SubagentStatus) -> (r: usize)
    ensures
        r == count_of(subagents_view(subs@), status),
        r <= subs@.len(),
{
    let ghost all = subagents_view(subs@);
    let mut n: usize = 0;
    let mut i: usize = 0;
    while i < subs.len()
        invariant
            i <= subs@.len(),
            n <= i,
            all == subagents_view(subs@),
            n == count_of(all.take(i as int), status),
        decreases subs.len() - i,
    {
        assert(all.take(i + 1).drop_last() =~= all.take(i as int));
        assert(all.take(i + 1).last() == subs@[i as int]@);
        if subs[i].status == status {
            n += 1;
        }
        i += 1;
    }
    assert(all.take(i as int) =~= all);
    n
}

/// The title of the first subagent that fares like this.
pub open spec fn first_with(subs: Seq<SubagentView>, status: SubagentStatus) -> Option<Seq<char>>
    decreases subs.len(),
{
    if subs.len() == 0 {
        None
    } else if subs[0].status == status {
        Some(subs[0].title)
    } else {
        first_with(subs.drop_first(), status)
    }
}

/// The title that stands for a list of subagents: that of the first at work,
/// else of the first that failed, else of the first.
pub open spec fn highlight_of(subs: Seq<SubagentView>) -> Option<Seq<char>> {
    or_else(
        first_with(subs, SubagentStatus::Running),
        or_else(
            first_with(subs, SubagentStatus::Failed),
            if subs.len() > 0 {
                Some(subs[0].title)
            } else {
                None
            },
        ),
    )
}

/// The title of the first subagent that fares like this.
fn find_with(subs: &Vec<Subagent>, status: SubagentStatus) -> (r: Option<&str>)
    ensures
        opt_view(r) == first_with(subagents_view(subs@), status),
{
    let ghost all = subagents_view(subs@);
    let mut i: usize = 0;
    assert(all.skip(0) =~= all);
    while i < subs.len()
        invariant
            i <= subs@.len(),
            all == subagents_view(subs@),
            first_with(all.skip(i as int), status) == first_with(all, status),
        decreases subs.len() - i,
    {
        proof {
            assert(all.skip(i as int)[0] == subs@[i as int]@);
            assert(all.skip(i as int).drop_first() =~= all.skip(i + 1));
        }
        if subs[i].status == status {
            return Some(subs[i].title.as_str());
        }
        i += 1;
    }
    None
}

/// The title that stands for a list of subagents.
fn highlight(subs: &Vec<Subagent>) -> (r: Option<&str>)
    ensures
        opt_view(r) == highlight_of(subagents_view(subs@)),
{
    assert(subagents_view(subs@).len() == subs@.len());
    if let Some(t) = find_with(subs, SubagentStatus::Running) {
        return Some(t);
    }
    if let Some(t) = find_with(subs, SubagentStatus::Failed) {
        return Some(t);
    }
    if subs.len() > 0 {
        assert(subagents_view(subs@)[0] == subs@[0]@);
        Some(subs[0].title.as_str())
    } else {
        None
    }
}

/// The line above the subagents of a session; none where it has none.
pub open spec fn note_of(subs: Seq<SubagentView>, folded: bool) -> Option<Seq<char>> {
    if subs.len() == 0 {
        None
    } else {
        Some(
            chevron_of(folded) + " "@ + header_of_tasks(
                count_of(subs, SubagentStatus::Running) as usize,
                count_of(subs, SubagentStatus::Failed) as usize,
                count_of(subs, SubagentStatus::Done) as usize,
                highlight_of(subs),
            ),
        )
    }
}

/// The line above the subagents of a session.
pub fn task_note(subs: &Vec<Subagent>, folded: bool) -> (r: Option<String>)
    ensures
        opt_text(r) == note_of(subagents_view(subs@), folded),
{
    assert(subagents_view(subs@).len() == subs@.len());
    if subs.len() == 0 {
        return None;
    }
    let running = count_status(subs, SubagentStatus::Running);
    let failed = count_status(subs, SubagentStatus::Failed);
    let done = count_status(subs, SubagentStatus::Done);
    let body = task_header_label(running, failed, done, highlight(subs));
    Some(concat3(chevron(folded), " ", body.as_str()))
}

/// The row of a subagent.
pub struct TaskRow {
    pub label: String,
    pub hover: String,
    pub live: bool,
    /// The session to open when the row is clicked, and its title.
    pub opens: Option<(String, String)>,
}

/// What the row of a subagent holds.
pub struct TaskRowView {
    pub label: Seq<char>,
    pub hover: Seq<char>,
    pub live: bool,
    pub opens: Option<(Seq<char>, Seq<char>)>,
}

impl View for TaskRow {
    type V = TaskRowView;

    open spec fn view(&self) -> TaskRowView {
        TaskRowView {
            label: self.label@,
            hover: self.hover@,
            live: self.live,
            opens: match self.opens {
                Some((id, title)) => Some((id@, title@)),
                None => None,
            },
        }
    }
}

/// What the rows of a list hold.
pub open spec fn task_rows_view(v: Seq<TaskRow>) -> Seq<TaskRowView> {
    v.map_values(|r: TaskRow| r@)
}

/// The row of a subagent.
pub open spec fn row_of_task(s: SubagentView) -> TaskRowView {
    TaskRowView {
        label: label_of_task(s),
        hover: hover_of_task(s),
        live: s.status == SubagentStatus::Running,
        opens: match s.chat_id {
            Some(id) => Some((id, s.title)),
            None => None,
        },
    }
}

/// The row of a subagent.
pub fn task_row(sub: &Subagent) -> (r: TaskRow)
    ensures
        r@ == row_of_task(sub@),
{
    let opens = match &sub.chat_id {
        Some(id) => Some((id.clone(), sub.title.clone())),
        None => None,
    };
    TaskRow { label: task_label(sub), hover: task_hover(sub), live: sub.status.is_live(), opens }
}

/// The subagents that are shown: all but those done after the first three.
pub open spec fn shown_of(subs: Seq<SubagentView>) -> Seq<SubagentView>
    decreases subs.len(),
{
    if subs.len() == 0 {
        Seq::empty()
    } else {
        let before = shown_of(subs.drop_last());
        if subs.last().status == SubagentStatus::Done && count_of(
            subs.drop_last(),
            SubagentStatus::Done,
        ) >= 3 {
            before
        } else {
            before.push(subs.last())
        }
    }
}

/// The row of each subagent.
pub open spec fn rows_of_tasks(subs: Seq<SubagentView>) -> Seq<TaskRowView> {
    subs.map_values(|s: SubagentView| row_of_task(s))
}

/// The rows of the subagents that are shown.
pub fn task_rows(subs: &Vec<Subagent>) -> (r: Vec<TaskRow>)
    ensures
        task_rows_view(r@) == rows_of_tasks(shown_of(subagents_view(subs@))),
{
    let ghost all = subagents_view(subs@);
    let mut out: Vec<TaskRow> = Vec::new();
    let mut done: usize = 0;
    let mut i: usize = 0;
    assert(task_rows_view(out@) =~= rows_of_tasks(shown_of(all.take(0))));
    while i < subs.len()
        invariant
            i <= subs@.len(),
            done <= i,
            all == subagents_view(subs@),
            done == count_of(all.take(i as int), SubagentStatus::Done),
            task_rows_view(out@) == rows_of_tasks(shown_of(all.take(i as int))),
        decreases subs.len() - i,
    {
        let ghost before = shown_of(all.take(i as int));
        let ghost rows = task_rows_view(out@);
        proof {
            assert(all.take(i + 1).drop_last() =~= all.take(i as int));
            assert(all.take(i + 1).last() == subs@[i as int]@);
        }
        let is_done = subs[i].status == SubagentStatus::Done;
        if !(is_done && done >= 3) {
            let row = task_row(&subs[i]);
            out.push(row);
            proof {
                assert(task_rows_view(out@) =~= rows.push(row@));
                assert(rows_of_tasks(before.push(subs@[i as int]@)) =~= rows_of_tasks(before).push(
                    row@,
                ));
            }
        }
        if is_done {
            done += 1;
        }
        i += 1;
    }
    assert(all.take(i as int) =~= all);
    out
}

/// How many subagents are not shown, in words.
pub open spec fn more_of(subs: Seq<SubagentView>) -> Option<Seq<char>> {
    let done = count_of(subs, SubagentStatus::Done);
    if done > 3 {
        Some("    +"@ + decimal((done - 3) as nat) + " more completed"@)
    } else {
        None
    }
}

/// How many subagents are not shown, in words.
pub fn more_completed(subs: &Vec<Subagent>) -> (r: Option<String>)
    ensures
        opt_text(r) == more_of(subagents_view(subs@)),
{
    let done = count_status(subs, SubagentStatus::Done);
    if done > 3 {
        Some(concat3("    +", to_decimal((done - 3) as u64).as_str(), " more completed"))
    } else {
        None
    }
}

/// Every subagent that is at work or failed is shown, at most three that are
/// done, and those not shown are as many as the last line says.
pub proof fn law_shown_tasks(subs: Seq<SubagentView>)
    ensures
        count_of(shown_of(subs), SubagentStatus::Running) == count_of(
            subs,
            SubagentStatus::Running,
        ),
        count_of(shown_of(subs), SubagentStatus::Failed) == count_of(subs, SubagentStatus::Failed),
        count_of(shown_of(subs), SubagentStatus::Done) == if count_of(subs, SubagentStatus::Done)
            > 3 {
            3
        } else {
            count_of(subs, SubagentStatus::Done)
        },
        subs.len() - shown_of(subs).len() == if count_of(subs, SubagentStatus::Done) > 3 {
            count_of(subs, SubagentStatus::Done) - 3
        } else {
            0
        },
    decreases subs.len(),
{
    if subs.len() > 0 {
        let t = subs.drop_last();
        law_shown_tasks(t);
        let before = shown_of(t);
        assert(before.push(subs.last()).drop_last() =~= before);
    }
}

/// The mark of a session: one that waits for an answer asks, one at work spins, one that
/// has exited says so. The mark tells what the agent does, where that is known.
pub proof fn law_mark_shows_state(
    needs_input: bool,
    has_activity: bool,
    alive: bool,
    activity: Option<Seq<char>>,
)
    ensures
        ({
            let m = mark_of(needs_input, has_activity, alive, activity);
            &&& m is Question <==> needs_input
            &&& m is Spinner <==> has_activity && !needs_input
            &&& m is Exited <==> !alive && !has_activity && !needs_input
            &&& activity is Some && m is Question ==> m == MarkView::Question(activity->0)
            &&& activity is Some && m is Spinner ==> m == MarkView::Spinner(activity->0)
            &&& activity is None && m is Question ==> m == MarkView::Question(
                "Waiting for answer"@,
            )
            &&& activity is None && m is Spinner ==> m == MarkView::Spinner("Working…"@)
        }),
{
}

/// The number of subagents that fare in one way is the number of those in the list.
pub proof fn law_counts_are_those_of_list(subs: Seq<SubagentView>, status: SubagentStatus)
    ensures
        count_of(subs, status) == subs.filter(|s: SubagentView| s.status == status).len(),
        count_of(subs, SubagentStatus::Running) + count_of(subs, SubagentStatus::Failed) + count_of(
            subs,
            SubagentStatus::Done,
        ) == subs.len(),
    decreases subs.len(),
{
    reveal(Seq::filter);
    if subs.len() > 0 {
        law_counts_are_those_of_list(subs.drop_last(), status);
    }
}

/// The title that stands for a list is that of a subagent in it: of one at work where
/// there is one, else of one that failed where there is one.
pub proof fn law_highlight_is_most_urgent(subs: Seq<SubagentView>)
    ensures
        highlight_of(subs) is Some <==> subs.len() > 0,
        highlight_of(subs) matches Some(t) ==> exists|i: int|
            0 <= i < subs.len() && (#[trigger] subs[i]).title == t && (count_of(
                subs,
                SubagentStatus::Running,
            ) > 0 ==> subs[i].status == SubagentStatus::Running) && (count_of(
                subs,
                SubagentStatus::Running,
            ) == 0 && count_of(subs, SubagentStatus::Failed) > 0 ==> subs[i].status
                == SubagentStatus::Failed),
{
    lemma_first_with(subs, SubagentStatus::Running);
    lemma_first_with(subs, SubagentStatus::Failed);
    if subs.len() > 0 && count_of(subs, SubagentStatus::Running) == 0 && count_of(
        subs,
        SubagentStatus::Failed,
    ) == 0 {
        assert(subs[0].title == highlight_of(subs)->0);
    }
}

/// What is found first fares as was asked, and something is found where anything does.
proof fn lemma_first_with(subs: Seq<SubagentView>, status: SubagentStatus)
    ensures
        first_with(subs, status) is Some <==> count_of(subs, status) > 0,
        first_with(subs, status) matches Some(t) ==> exists|i: int|
            0 <= i < subs.len() && (#[trigger] subs[i]).title == t && subs[i].status == status,
    decreases subs.len(),
{
    if subs.len() > 0 {
        let rest = subs.drop_first();
        lemma_first_with(rest, status);
        lemma_count_first(subs, status);
        if subs[0].status != status {
            if let Some(t) = first_with(rest, status) {
                let i = choose|i: int|
                    0 <= i < rest.len() && (#[trigger] rest[i]).title == t && rest[i].status
                        == status;
                assert(subs[i + 1] == rest[i]);
            }
        }
    }
}

/// The first of a list counts on top of the rest.
proof fn lemma_count_first(subs: Seq<SubagentView>, status: SubagentStatus)
    requires
        subs.len() > 0,
    ensures
        count_of(subs, status) == count_of(subs.drop_first(), status) + if subs[0].status
            == status {
            1nat
        } else {
            0nat
        },
    decreases subs.len(),
{
    if subs.len() == 1 {
        assert(subs.drop_last() =~= Seq::empty());
        assert(subs.drop_first() =~= Seq::empty());
        assert(subs.last() == subs[0]);
    } else {
        lemma_count_first(subs.drop_last(), status);
        assert(subs.drop_last().drop_first() =~= subs.drop_first().drop_last());
        assert(subs.drop_first().last() == subs.last());
    }
}

/// A subagent that is shown is one of the session's, in the same order, and every one
/// that is not done is shown.
pub proof fn law_shown_tasks_are_the_sessions(subs: Seq<SubagentView>)
    ensures
        shown_of(subs).filter(|s: SubagentView| s.status != SubagentStatus::Done) == subs.filter(
            |s: SubagentView| s.status != SubagentStatus::Done,
        ),
        forall|i: int| 0 <= i < shown_of(subs).len() ==> subs.contains(#[trigger] shown_of(subs)[i]),
    decreases subs.len(),
{
    reveal(Seq::filter);
    if subs.len() > 0 {
        let t = subs.drop_last();
        let before = shown_of(t);
        law_shown_tasks_are_the_sessions(t);
        assert(before.push(subs.last()).drop_last() =~= before);
        assert forall|i: int| 0 <= i < shown_of(subs).len() implies subs.contains(
            #[trigger] shown_of(subs)[i],
        ) by {
            if i < before.len() {
                assert(t.contains(before[i]));
                let j = t.index_of(before[i]);
                assert(subs[j] == before[i]);
            } else {
                assert(subs[subs.len() - 1] == subs.last());
            }
        }
    }
}

/// The row of a subagent opens its session, under its title, where it has one, and is
/// live while it runs.
pub proof fn law_row_opens_its_session(s: SubagentView)
    ensures
        row_of_task(s).opens is Some <==> s.chat_id is Some,
        s.chat_id is Some ==> row_of_task(s).opens == Some((s.chat_id->0, s.title)),
        row_of_task(s).live <==> s.status == SubagentStatus::Running,
        row_of_task(s).label == label_of_task(s),
        row_of_task(s).hover == hover_of_task(s),
{
}

/// The line above the subagents is there where there are any, and speaks of the numbers
/// of those at work, failed and done, in this order.
pub proof fn law_note_counts_tasks(subs: Seq<SubagentView>, folded: bool)
    requires
        subs.len() <= usize::MAX,
    ensures
        note_of(subs, folded) is None <==> subs.len() == 0,
        subs.len() > 0 ==> note_of(subs, folded) == Some(
            (if folded {
                "▶ "@
            } else {
                "▼ "@
            }) + header_of_tasks(
                subs.filter(|s: SubagentView| s.status == SubagentStatus::Running).len() as usize,
                subs.filter(|s: SubagentView| s.status == SubagentStatus::Failed).len() as usize,
                subs.filter(|s: SubagentView| s.status == SubagentStatus::Done).len() as usize,
                highlight_of(subs),
            ),
        ),
{
    law_counts_are_those_of_list(subs, SubagentStatus::Running);
    law_counts_are_those_of_list(subs, SubagentStatus::Failed);
    law_counts_are_those_of_list(subs, SubagentStatus::Done);
    reveal_strlit("▶ ");
    reveal_strlit("▼ ");
    reveal_strlit("▶");
    reveal_strlit("▼");
    reveal_strlit(" ");
    assert("▶"@ + " "@ =~= "▶ "@);
    assert("▼"@ + " "@ =~= "▼ "@);
}

/// Where more than three subagents are done, the last line tells how many of them are not
/// shown; else there is none.
pub proof fn law_rest_of_done_is_told(subs: Seq<SubagentView>)
    ensures
        ({
            let done = subs.filter(|s: SubagentView| s.status == SubagentStatus::Done).len();
            &&& done <= 3 ==> more_of(subs) is None
            &&& done > 3 ==> more_of(subs) == Some(
                "    +"@ + decimal((done - 3) as nat) + " more completed"@,
            )
        }),
{
    law_counts_are_those_of_list(subs, SubagentStatus::Done);
}

/// The heading of a workspace shows its name behind a mark for its fold, and the pointer is
/// told what a click does, and the whole path.
pub proof fn law_workspace_heading(workspace: &str, folded: bool, r: WorkspaceHeader)
    requires
        call_ensures(workspace_header, (workspace, folded), r),
    ensures
        name_of(workspace@) is Some ==> crate::text::ends(r.label@, name_of(workspace@)->0),
        crate::text::ends(r.hover@, workspace@),
        folded ==> r.hover@ == "Expand sessions\n"@ + workspace@,
        !folded ==> r.hover@ == "Fold sessions\n"@ + workspace@,
        folded && name_of(workspace@) is Some ==> r.label@ == "▶"@ + " "@ + name_of(
            workspace@,
        )->0,
        !folded && name_of(workspace@) is Some ==> r.label@ == "▼"@ + " "@ + name_of(
            workspace@,
        )->0,
        name_of(workspace@) is None ==> crate::text::ends(r.label@, "workspace"@),
{
    let w = workspace@;
    let h = r.hover@;
    assert(h.skip(h.len() - w.len()) =~= w);
    let n = match name_of(w) {
        Some(n) => n,
        None => "workspace"@,
    };
    let l = r.label@;
    assert(l.skip(l.len() - n.len()) =~= n);
}

} // verus!
