//! The scripts that were converted, newest first.
use crate::dialogs::ConvertDialog;
use crate::tasks::{first_line_preview, preview_of};
use crate::text::{concat, concat3, is_empty, law_trim_idempotent, str_eq, trim, trimmed};
use vstd::prelude::*;
use vstd::string::*;

verus! {

/// How many converted scripts are kept.
pub const CONVERT_HISTORY_MAX: usize = 40;

/// A script that was converted.
#[derive(Debug, Clone)]
pub struct ConvertSnippet {
    pub bash: String,
    pub nushell: String,
}

/// What a converted script holds.
pub struct SnippetView {
    pub bash: Seq<char>,
    pub nushell: Seq<char>,
}

impl View for ConvertSnippet {
    type V = SnippetView;

    open spec fn view(&self) -> SnippetView {
        SnippetView { bash: self.bash@, nushell: self.nushell@ }
    }
}

/// What the converted scripts of a list hold.
pub open spec fn snippets_view(v: Seq<ConvertSnippet>) -> Seq<SnippetView> {
    v.map_values(|s: ConvertSnippet| s@)
}

/// Does the dialog show this converted script?
pub fn shows_snippet(d: &ConvertDialog, s: &ConvertSnippet) -> (r: bool)
    ensures
        r == (trimmed(d@.bash) == trimmed(s@.bash) && trimmed(d@.nushell) == trimmed(s@.nushell)),
{
    str_eq(trim(d.bash.as_str()), trim(s.bash.as_str())) && str_eq(
        trim(d.nushell.as_str()),
        trim(s.nushell.as_str()),
    )
}

/// What the list of converted scripts says of one.
pub open spec fn snippet_label_of(s: SnippetView) -> Seq<char> {
    preview_of(s.bash, 48) + "  →  "@ + preview_of(s.nushell, 48)
}

/// What the list of converted scripts says of one.
pub fn snippet_label(s: &ConvertSnippet) -> (r: String)
    ensures
        r@ == snippet_label_of(s@),
{
    let bash = first_line_preview(s.bash.as_str(), 48);
    let nushell = first_line_preview(s.nushell.as_str(), 48);
    concat3(bash.as_str(), "  →  ", nushell.as_str())
}

/// The whole of a converted script, both ways.
pub fn snippet_hover(s: &ConvertSnippet) -> (r: String)
    ensures
        r@ == "Bash:\n"@ + s@.bash + "\n\nNushell:\n"@ + s@.nushell,
{
    let head = concat3("Bash:\n", s.bash.as_str(), "\n\nNushell:\n");
    concat(head.as_str(), s.nushell.as_str())
}

/// Are two converted scripts the same but for blanks around them?
pub open spec fn same_snippet(a: SnippetView, b: SnippetView) -> bool {
    trimmed(a.bash) == trimmed(b.bash) && trimmed(a.nushell) == trimmed(b.nushell)
}

/// The converted scripts but those that are the same as `x`.
pub open spec fn without(h: Seq<SnippetView>, x: SnippetView) -> Seq<SnippetView>
    decreases h.len(),
{
    if h.len() == 0 {
        Seq::empty()
    } else {
        let before = without(h.drop_last(), x);
        if same_snippet(h.last(), x) {
            before
        } else {
            before.push(h.last())
        }
    }
}

/// The history after a script was converted: the script comes first, once, and
/// the oldest goes where there are too many. Nothing blank is kept.
pub open spec fn remembered(h: Seq<SnippetView>, bash: Seq<char>, nushell: Seq<char>) -> Seq<
    SnippetView,
> {
    let x = SnippetView { bash: trimmed(bash), nushell: trimmed(nushell) };
    if x.bash.len() == 0 || x.nushell.len() == 0 {
        h
    } else {
        let all = seq![x] + without(h, x);
        if all.len() > CONVERT_HISTORY_MAX {
            all.take(CONVERT_HISTORY_MAX as int)
        } else {
            all
        }
    }
}

/// Does the history hold at most as many scripts as it may, each trimmed, not
/// empty and only once?
pub open spec fn history_holds(h: Seq<SnippetView>) -> bool {
    &&& h.len() <= CONVERT_HISTORY_MAX
    &&& forall|i: int|
        0 <= i < h.len() ==> trimmed((#[trigger] h[i]).bash) == h[i].bash && trimmed(h[i].nushell)
            == h[i].nushell && h[i].bash.len() > 0 && h[i].nushell.len() > 0
    &&& forall|i: int, j: int| 0 <= i < j < h.len() ==> #[trigger] h[i] != #[trigger] h[j]
}

/// Remembers a script that was converted.
pub fn push_convert_history(history: &mut Vec<ConvertSnippet>, bash: &str, nushell: &str)
    ensures
        snippets_view(final(history)@) == remembered(
            snippets_view(old(history)@),
            bash@,
            nushell@,
        ),
{
    let b = trim(bash);
    let n = trim(nushell);
    if is_empty(b) || is_empty(n) {
        return;
    }
    let ghost all = snippets_view(history@);
    let first = ConvertSnippet { bash: b.to_owned(), nushell: n.to_owned() };
    let ghost x = SnippetView { bash: trimmed(bash@), nushell: trimmed(nushell@) };
    assert(first@ == x);
    proof {
        law_trim_idempotent(bash@);
        law_trim_idempotent(nushell@);
    }
    let mut old_ones: Vec<ConvertSnippet> = Vec::new();
    std::mem::swap(history, &mut old_ones);
    history.push(first);
    let mut i: usize = 0;
    assert(snippets_view(history@) =~= seq![x] + without(all.take(0), x));
    while i < old_ones.len()
        invariant
            i <= old_ones@.len(),
            all == snippets_view(old_ones@),
            snippets_view(history@) == seq![x] + without(all.take(i as int), x),
            b@ == trimmed(bash@),
            n@ == trimmed(nushell@),
            x == (SnippetView { bash: trimmed(bash@), nushell: trimmed(nushell@) }),
            trimmed(x.bash) == x.bash,
            trimmed(x.nushell) == x.nushell,
        decreases old_ones.len() - i,
    {
        let s = &old_ones[i];
        let ghost before = snippets_view(history@);
        proof {
            assert(all.take(i + 1).drop_last() =~= all.take(i as int));
            assert(all.take(i + 1).last() == s@);
        }
        if !str_eq(trim(s.bash.as_str()), b) || !str_eq(trim(s.nushell.as_str()), n) {
            let copy = ConvertSnippet { bash: s.bash.clone(), nushell: s.nushell.clone() };
            history.push(copy);
            assert(snippets_view(history@) =~= before.push(s@));
            assert(before.push(s@) =~= seq![x] + without(all.take(i as int), x).push(s@));
        }
        i += 1;
    }
    assert(all.take(i as int) =~= all);
    if history.len() > CONVERT_HISTORY_MAX {
        let ghost before = snippets_view(history@);
        history.truncate(CONVERT_HISTORY_MAX);
        assert(snippets_view(history@) =~= before.take(CONVERT_HISTORY_MAX as int));
    }
}

/// What stays of the history was in it, in the same order, and is not the same as `x`.
proof fn lemma_without(h: Seq<SnippetView>, x: SnippetView)
    requires
        forall|i: int, j: int| 0 <= i < j < h.len() ==> #[trigger] h[i] != #[trigger] h[j],
    ensures
        forall|i: int|
            0 <= i < without(h, x).len() ==> h.contains(#[trigger] without(h, x)[i])
                && !same_snippet(without(h, x)[i], x),
        forall|i: int, j: int|
            0 <= i < j < without(h, x).len() ==> #[trigger] without(h, x)[i]
                != #[trigger] without(h, x)[j],
    decreases h.len(),
{
    if h.len() > 0 {
        let t = h.drop_last();
        lemma_without(t, x);
        let before = without(t, x);
        let w = without(h, x);
        assert forall|i: int| 0 <= i < w.len() implies h.contains(#[trigger] w[i])
            && !same_snippet(w[i], x) by {
            if i < before.len() {
                assert(w[i] == before[i]);
                let k = t.index_of(w[i]);
                assert(h[k] == w[i]);
            } else {
                assert(h[h.len() - 1] == w[i]);
            }
        }
        assert forall|i: int, j: int| 0 <= i < j < w.len() implies #[trigger] w[i]
            != #[trigger] w[j] by {
            assert(w[i] == before[i]);
            if j < before.len() {
                assert(w[j] == before[j]);
            } else {
                let k = t.index_of(before[i]);
                assert(h[k] == before[i]);
                assert(w[j] == h[h.len() - 1]);
            }
        }
    }
}

/// The history never grows beyond its bound, and never holds a script twice or
/// a blank one.
pub proof fn law_history_is_bounded(h: Seq<SnippetView>, bash: Seq<char>, nushell: Seq<char>)
    requires
        history_holds(h),
    ensures
        history_holds(remembered(h, bash, nushell)),
{
    let x = SnippetView { bash: trimmed(bash), nushell: trimmed(nushell) };
    law_trim_idempotent(bash);
    law_trim_idempotent(nushell);
    lemma_without(h, x);
    let w = without(h, x);
    let r = remembered(h, bash, nushell);
    if x.bash.len() > 0 && x.nushell.len() > 0 {
        assert forall|i: int| 0 <= i < r.len() implies trimmed((#[trigger] r[i]).bash) == r[i].bash
            && trimmed(r[i].nushell) == r[i].nushell && r[i].bash.len() > 0 && r[i].nushell.len()
            > 0 by {
            if i > 0 {
                assert(r[i] == w[i - 1]);
                let k = h.index_of(w[i - 1]);
                assert(h[k] == r[i]);
            }
        }
        assert forall|i: int, j: int| 0 <= i < j < r.len() implies #[trigger] r[i]
            != #[trigger] r[j] by {
            assert(r[j] == w[j - 1]);
            if i == 0 {
                assert(r[0] == x);
                assert(same_snippet(x, x));
            } else {
                assert(r[i] == w[i - 1]);
            }
        }
    }
}

/// A script that was just converted stands first.
pub proof fn law_newest_snippet_first(h: Seq<SnippetView>, bash: Seq<char>, nushell: Seq<char>)
    requires
        trimmed(bash).len() > 0,
        trimmed(nushell).len() > 0,
    ensures
        remembered(h, bash, nushell).len() > 0,
        remembered(h, bash, nushell)[0] == (SnippetView {
            bash: trimmed(bash),
            nushell: trimmed(nushell),
        }),
{
}

/// Remembering a script keeps the others, in their order: all of them where there is room,
/// and else all but the oldest. What is the same but for blanks counts as the same script.
pub proof fn law_history_keeps_the_others(
    h: Seq<SnippetView>,
    bash: Seq<char>,
    nushell: Seq<char>,
)
    requires
        trimmed(bash).len() > 0,
        trimmed(nushell).len() > 0,
    ensures
        ({
            let r = remembered(h, bash, nushell);
            let others = h.filter(
                |s: SnippetView|
                    trimmed(s.bash) != trimmed(bash) || trimmed(s.nushell) != trimmed(nushell),
            );
            &&& others.len() < 40 ==> r.skip(1) == others
            &&& others.len() >= 40 ==> r.skip(1) == others.take(39)
            &&& r.len() > 0 && r[0].bash == trimmed(bash) && r[0].nushell == trimmed(nushell)
        }),
{
    let x = SnippetView { bash: trimmed(bash), nushell: trimmed(nushell) };
    law_trim_idempotent(bash);
    law_trim_idempotent(nushell);
    lemma_without_is_filter(h, bash, nushell);
    let all = seq![x] + without(h, x);
    assert(all.skip(1) =~= without(h, x));
    if without(h, x).len() >= 40 {
        assert(all.take(40).skip(1) =~= without(h, x).take(39));
    }
}

/// The others are those that are not the same.
proof fn lemma_without_is_filter(h: Seq<SnippetView>, bash: Seq<char>, nushell: Seq<char>)
    ensures
        without(h, SnippetView { bash: trimmed(bash), nushell: trimmed(nushell) }) == h.filter(
            |s: SnippetView|
                trimmed(s.bash) != trimmed(bash) || trimmed(s.nushell) != trimmed(nushell),
        ),
    decreases h.len(),
{
    reveal(Seq::filter);
    law_trim_idempotent(bash);
    law_trim_idempotent(nushell);
    if h.len() > 0 {
        lemma_without_is_filter(h.drop_last(), bash, nushell);
    }
}

/// A blank script, or one that was converted to nothing, is not remembered.
pub proof fn law_blank_script_is_not_remembered(
    h: Seq<SnippetView>,
    bash: Seq<char>,
    nushell: Seq<char>,
)
    requires
        trimmed(bash).len() == 0 || trimmed(nushell).len() == 0,
    ensures
        remembered(h, bash, nushell) == h,
{
}

/// The list shows the bash first, and behind an arrow what it was converted to.
pub proof fn law_snippet_shows_bash_then_nushell(s: SnippetView)
    ensures
        snippet_label_of(s) == preview_of(s.bash, 48) + "  →  "@ + preview_of(s.nushell, 48),
        crate::text::begins(snippet_label_of(s), preview_of(s.bash, 48)),
        crate::text::ends(snippet_label_of(s), preview_of(s.nushell, 48)),
{
    let b = preview_of(s.bash, 48);
    let n = preview_of(s.nushell, 48);
    let l = snippet_label_of(s);
    assert(l.take(b.len() as int) =~= b);
    assert(l.skip(l.len() - n.len()) =~= n);
}

/// A script of the history is the one in the dialog where both sides are the same but for
/// blanks around them; the pointer is shown both sides in full, bash first.
pub proof fn law_shown_script_is_recognised(
    d: ConvertDialog,
    s: ConvertSnippet,
    shown: bool,
    hover: String,
)
    requires
        call_ensures(shows_snippet, (&d, &s), shown),
        call_ensures(snippet_hover, (&s,), hover),
    ensures
        shown <==> trimmed(d@.bash) == trimmed(s@.bash) && trimmed(d@.nushell) == trimmed(
            s@.nushell,
        ),
        hover@ == "Bash:\n"@ + s@.bash + "\n\nNushell:\n"@ + s@.nushell,
{
}

} // verus!
