//! The sidebar's order: sessions by workspace, workspaces by path.
use crate::order::{
    lemma_le_antisymmetric, lemma_le_total, lemma_le_transitive, not_after, text_le,
};
use crate::path::{components, components_of, rooted, same, same_path};
use crate::split::texts;
use crate::tab::{AgentSession, TabView};
use crate::text::str_eq;
use vstd::prelude::*;
use vstd::string::*;

verus! {

/// The kind of a path's component, by which different kinds are ordered.
pub open spec fn component_kind(c: Seq<char>) -> int {
    if c == "."@ {
        1
    } else if c == ".."@ {
        2
    } else {
        3
    }
}

/// Does one list of components come before another, or are they the same?
pub open spec fn components_le(a: Seq<Seq<char>>, b: Seq<Seq<char>>) -> bool
    decreases a.len(),
{
    if a.len() == 0 {
        true
    } else if b.len() == 0 {
        false
    } else if a[0] == b[0] {
        components_le(a.drop_first(), b.drop_first())
    } else if component_kind(a[0]) != component_kind(b[0]) {
        component_kind(a[0]) < component_kind(b[0])
    } else {
        text_le(a[0], b[0])
    }
}

/// Does one path come before another, component by component, or are they the
/// same? Paths from the root come before others, but for the empty path.
pub open spec fn path_le(a: Seq<char>, b: Seq<char>) -> bool {
    if rooted(a) && !rooted(b) {
        components_of(b).len() > 0
    } else if !rooted(a) && rooted(b) {
        components_of(a).len() == 0
    } else {
        components_le(components_of(a), components_of(b))
    }
}

/// The kind of a path's component.
fn kind_of_component(c: &str) -> (r: u8)
    ensures
        r == component_kind(c@),
{
    if str_eq(c, ".") {
        1
    } else if str_eq(c, "..") {
        2
    } else {
        3
    }
}

/// Does one path come before another, or are they the same?
pub fn path_not_after(a: &str, b: &str) -> (r: bool)
    ensures
        r == path_le(a@, b@),
{
    let x = components(a);
    let y = components(b);
    let ghost xs = texts(x@);
    let ghost ys = texts(y@);
    assert(xs.len() == x@.len() && ys.len() == y@.len());
    let ra = a.unicode_len() > 0 && a.get_char(0) == '/';
    let rb = b.unicode_len() > 0 && b.get_char(0) == '/';
    if ra && !rb {
        return y.len() > 0;
    }
    if !ra && rb {
        return x.len() == 0;
    }
    let mut i: usize = 0;
    assert(xs.skip(0) =~= xs);
    assert(ys.skip(0) =~= ys);
    loop
        invariant
            xs == texts(x@),
            ys == texts(y@),
            xs.len() == x@.len(),
            ys.len() == y@.len(),
            i <= x@.len(),
            i <= y@.len(),
            components_le(xs.skip(i as int), ys.skip(i as int)) == components_le(xs, ys),
            path_le(a@, b@) == components_le(xs, ys),
        decreases x.len() - i,
    {
        if i == x.len() {
            return true;
        }
        if i == y.len() {
            return false;
        }
        proof {
            assert(xs.skip(i as int)[0] == x@[i as int]@);
            assert(ys.skip(i as int)[0] == y@[i as int]@);
        }
        let p = x[i].as_str();
        let q = y[i].as_str();
        if !str_eq(p, q) {
            let k: u8 = kind_of_component(p);
            let l: u8 = kind_of_component(q);
            if k != l {
                return k < l;
            }
            return not_after(p, q);
        }
        proof {
            assert(xs.skip(i as int).drop_first() =~= xs.skip(i + 1));
            assert(ys.skip(i as int).drop_first() =~= ys.skip(i + 1));
        }
        i += 1;
    }
}

/// The sessions of one workspace.
pub struct Group {
    pub workspace: String,
    pub ids: Vec<u64>,
}

/// What a group holds.
pub struct GroupView {
    pub workspace: Seq<char>,
    pub ids: Seq<u64>,
}

impl View for Group {
    type V = GroupView;

    open spec fn view(&self) -> GroupView {
        GroupView { workspace: self.workspace@, ids: self.ids@ }
    }
}

/// What the groups of a list hold.
pub open spec fn groups_view(v: Seq<Group>) -> Seq<GroupView> {
    v.map_values(|g: Group| g@)
}

/// What the tabs of a list hold.
pub open spec fn tabs_view(v: Seq<AgentSession>) -> Seq<TabView> {
    v.map_values(|s: AgentSession| s@)
}

/// Where a workspace belongs in a list of groups: at its own group, else before
/// the first group that comes after it.
pub open spec fn slot(gs: Seq<GroupView>, workspace: Seq<char>) -> int
    decreases gs.len(),
{
    if gs.len() == 0 || same(gs[0].workspace, workspace) || path_le(workspace, gs[0].workspace) {
        0
    } else {
        1 + slot(gs.drop_first(), workspace)
    }
}

/// The groups with one session more.
pub open spec fn with_session(gs: Seq<GroupView>, workspace: Seq<char>, id: u64) -> Seq<GroupView> {
    let k = slot(gs, workspace);
    if 0 <= k < gs.len() && same(gs[k].workspace, workspace) {
        gs.update(k, GroupView { ids: gs[k].ids.push(id), ..gs[k] })
    } else {
        gs.insert(k, GroupView { workspace, ids: seq![id] })
    }
}

/// The sessions by workspace, in the order of their paths.
pub open spec fn grouped(tabs: Seq<TabView>) -> Seq<GroupView>
    decreases tabs.len(),
{
    if tabs.len() == 0 {
        Seq::empty()
    } else {
        with_session(grouped(tabs.drop_last()), tabs.last().workspace, tabs.last().id)
    }
}

/// Adds a session to the groups.
fn add_session(gs: &mut Vec<Group>, workspace: &str, id: u64)
    ensures
        groups_view(final(gs)@) == with_session(groups_view(old(gs)@), workspace@, id),
{
    let ghost all = groups_view(gs@);
    let mut k: usize = 0;
    assert(all.skip(0) =~= all);
    while k < gs.len() && !same_path(gs[k].workspace.as_str(), workspace) && !path_not_after(
        workspace,
        gs[k].workspace.as_str(),
    )
        invariant
            k <= gs@.len(),
            all == groups_view(gs@),
            slot(all, workspace@) == k + slot(all.skip(k as int), workspace@),
        decreases gs.len() - k,
    {
        proof {
            assert(all.skip(k as int)[0] == gs@[k as int]@);
            assert(all.skip(k as int).drop_first() =~= all.skip(k + 1));
        }
        k += 1;
    }
    proof {
        if k < gs@.len() {
            assert(all.skip(k as int)[0] == gs@[k as int]@);
        }
        assert(slot(all, workspace@) == k);
    }
    if k < gs.len() && same_path(gs[k].workspace.as_str(), workspace) {
        let mut ids: Vec<u64> = Vec::new();
        let mut i: usize = 0;
        while i < gs[k].ids.len()
            invariant
                k < gs@.len(),
                i <= gs@[k as int].ids@.len(),
                ids@ == gs@[k as int].ids@.take(i as int),
            decreases gs@[k as int].ids@.len() - i,
        {
            ids.push(gs[k].ids[i]);
            i += 1;
        }
        assert(ids@ =~= gs@[k as int].ids@);
        ids.push(id);
        let g = Group { workspace: gs[k].workspace.clone(), ids };
        gs.set(k, g);
        assert(groups_view(gs@) =~= with_session(all, workspace@, id));
    } else {
        let mut ids: Vec<u64> = Vec::new();
        ids.push(id);
        let g = Group { workspace: workspace.to_owned(), ids };
        gs.insert(k, g);
        proof {
            assert(g@.ids =~= seq![id]);
            assert(groups_view(gs@) =~= with_session(all, workspace@, id));
        }
    }
}

/// The sessions by workspace, in the order of their paths; those of one
/// workspace are in the order in which they were opened.
pub fn group_sessions(sessions: &Vec<AgentSession>) -> (r: Vec<Group>)
    ensures
        groups_view(r@) == grouped(tabs_view(sessions@)),
{
    let mut out: Vec<Group> = Vec::new();
    let ghost all = tabs_view(sessions@);
    let mut i: usize = 0;
    assert(groups_view(out@) =~= grouped(all.take(0)));
    while i < sessions.len()
        invariant
            i <= sessions@.len(),
            all == tabs_view(sessions@),
            groups_view(out@) == grouped(all.take(i as int)),
        decreases sessions.len() - i,
    {
        proof {
            assert(all.take(i + 1).drop_last() =~= all.take(i as int));
            assert(all.take(i + 1).last() == sessions@[i as int]@);
        }
        add_session(&mut out, sessions[i].workspace.as_str(), sessions[i].id);
        i += 1;
    }
    assert(all.take(i as int) =~= all);
    out
}

/// All ids in the groups, group by group.
pub open spec fn all_ids(gs: Seq<GroupView>) -> Seq<u64>
    decreases gs.len(),
{
    if gs.len() == 0 {
        Seq::empty()
    } else {
        gs[0].ids + all_ids(gs.drop_first())
    }
}

/// The ids of tabs.
pub open spec fn ids_of(tabs: Seq<TabView>) -> Seq<u64> {
    tabs.map_values(|t: TabView| t.id)
}

/// All ids of two lists of groups.
proof fn lemma_all_ids_concat(a: Seq<GroupView>, b: Seq<GroupView>)
    ensures
        all_ids(a + b) == all_ids(a) + all_ids(b),
    decreases a.len(),
{
    if a.len() == 0 {
        assert(a + b =~= b);
        assert(all_ids(a) + all_ids(b) =~= all_ids(b));
    } else {
        lemma_all_ids_concat(a.drop_first(), b);
        assert((a + b).drop_first() =~= a.drop_first() + b);
        assert((a + b)[0] == a[0]);
        assert(all_ids(a + b) =~= all_ids(a) + all_ids(b));
    }
}

/// The ids of one group.
proof fn lemma_all_ids_one(g: GroupView)
    ensures
        all_ids(seq![g]) == g.ids,
{
    assert(seq![g].drop_first() =~= Seq::<GroupView>::empty());
    assert(all_ids(seq![g].drop_first()) =~= Seq::<u64>::empty());
    assert(g.ids + Seq::<u64>::empty() =~= g.ids);
}

/// Adding a session to the groups adds its id, and nothing else.
proof fn lemma_with_session_ids(gs: Seq<GroupView>, workspace: Seq<char>, id: u64)
    ensures
        all_ids(with_session(gs, workspace, id)).to_multiset() == all_ids(gs).to_multiset().insert(
            id,
        ),
{
    broadcast use vstd::seq_lib::group_to_multiset_ensures;

    lemma_slot(gs, workspace);
    let k = slot(gs, workspace);
    let a = gs.take(k);
    let r = with_session(gs, workspace, id);
    if k < gs.len() && same(gs[k].workspace, workspace) {
        let g = gs[k];
        let h = GroupView { ids: g.ids.push(id), ..g };
        let b = gs.skip(k + 1);
        assert(gs =~= a + (seq![g] + b));
        assert(r =~= a + (seq![h] + b));
        lemma_all_ids_concat(a, seq![g] + b);
        lemma_all_ids_concat(a, seq![h] + b);
        lemma_all_ids_concat(seq![g], b);
        lemma_all_ids_concat(seq![h], b);
        lemma_all_ids_one(g);
        lemma_all_ids_one(h);
        let x = all_ids(a);
        let y = all_ids(b);
        lemma_multiset_of_concat(x, g.ids + y);
        lemma_multiset_of_concat(g.ids, y);
        lemma_multiset_of_concat(x, h.ids + y);
        lemma_multiset_of_concat(h.ids, y);
        assert(all_ids(r).to_multiset() =~= all_ids(gs).to_multiset().insert(id));
    } else {
        let h = GroupView { workspace, ids: seq![id] };
        let b = gs.skip(k);
        assert(gs =~= a + b);
        assert(r =~= a + (seq![h] + b));
        lemma_all_ids_concat(a, b);
        lemma_all_ids_concat(a, seq![h] + b);
        lemma_all_ids_concat(seq![h], b);
        lemma_all_ids_one(h);
        let x = all_ids(a);
        let y = all_ids(b);
        lemma_multiset_of_concat(x, y);
        lemma_multiset_of_concat(x, seq![id] + y);
        lemma_multiset_of_concat(seq![id], y);
        assert(seq![id] =~= Seq::<u64>::empty().push(id));
        assert(all_ids(r).to_multiset() =~= all_ids(gs).to_multiset().insert(id));
    }
}

/// What two lists hold together.
proof fn lemma_multiset_of_concat(a: Seq<u64>, b: Seq<u64>)
    ensures
        (a + b).to_multiset() == a.to_multiset().add(b.to_multiset()),
{
    vstd::seq_lib::lemma_multiset_commutative(a, b);
}

/// Every session is listed exactly once.
pub proof fn law_groups_hold_every_session(tabs: Seq<TabView>)
    ensures
        all_ids(grouped(tabs)).to_multiset() == ids_of(tabs).to_multiset(),
    decreases tabs.len(),
{
    broadcast use vstd::seq_lib::group_to_multiset_ensures;

    if tabs.len() == 0 {
        assert(all_ids(grouped(tabs)) =~= ids_of(tabs));
    } else {
        law_groups_hold_every_session(tabs.drop_last());
        lemma_with_session_ids(grouped(tabs.drop_last()), tabs.last().workspace, tabs.last().id);
        assert(ids_of(tabs) =~= ids_of(tabs.drop_last()).push(tabs.last().id));
    }
}

/// Of two lists of components one comes before the other, or they are the same.
proof fn lemma_components_total(a: Seq<Seq<char>>, b: Seq<Seq<char>>)
    ensures
        components_le(a, b) || components_le(b, a),
    decreases a.len(),
{
    if a.len() > 0 && b.len() > 0 {
        if a[0] == b[0] {
            lemma_components_total(a.drop_first(), b.drop_first());
        } else {
            lemma_le_total(a[0], b[0]);
        }
    }
}

/// The order of lists of components is transitive.
proof fn lemma_components_transitive(a: Seq<Seq<char>>, b: Seq<Seq<char>>, c: Seq<Seq<char>>)
    requires
        components_le(a, b),
        components_le(b, c),
    ensures
        components_le(a, c),
    decreases a.len(),
{
    if a.len() > 0 && b.len() > 0 && c.len() > 0 {
        if a[0] == b[0] && b[0] == c[0] {
            lemma_components_transitive(a.drop_first(), b.drop_first(), c.drop_first());
        } else if a[0] == c[0] {
            if component_kind(a[0]) == component_kind(b[0]) {
                lemma_le_antisymmetric(a[0], b[0]);
            }
        } else if component_kind(a[0]) == component_kind(b[0]) && component_kind(b[0])
            == component_kind(c[0]) {
            if a[0] != b[0] && b[0] != c[0] {
                lemma_le_transitive(a[0], b[0], c[0]);
            }
        }
    }
}

/// Two lists of components of which neither comes after the other are the same.
proof fn lemma_components_antisymmetric(a: Seq<Seq<char>>, b: Seq<Seq<char>>)
    requires
        components_le(a, b),
        components_le(b, a),
    ensures
        a == b,
    decreases a.len(),
{
    if a.len() > 0 && b.len() > 0 {
        if a[0] == b[0] {
            lemma_components_antisymmetric(a.drop_first(), b.drop_first());
            assert(a =~= seq![a[0]] + a.drop_first());
            assert(b =~= seq![b[0]] + b.drop_first());
        } else if component_kind(a[0]) == component_kind(b[0]) {
            lemma_le_antisymmetric(a[0], b[0]);
        }
    } else {
        assert(a =~= b);
    }
}

/// Of two paths one comes before the other, or they are the same.
proof fn lemma_path_total(a: Seq<char>, b: Seq<char>)
    ensures
        path_le(a, b) || path_le(b, a),
{
    lemma_components_total(components_of(a), components_of(b));
}

/// The order of paths is transitive.
proof fn lemma_path_transitive(a: Seq<char>, b: Seq<char>, c: Seq<char>)
    requires
        path_le(a, b),
        path_le(b, c),
    ensures
        path_le(a, c),
{
    if rooted(a) == rooted(b) && rooted(b) == rooted(c) {
        lemma_components_transitive(components_of(a), components_of(b), components_of(c));
    }
}

/// Two paths of which neither comes after the other are the same.
proof fn lemma_path_antisymmetric(a: Seq<char>, b: Seq<char>)
    requires
        path_le(a, b),
        path_le(b, a),
    ensures
        same(a, b),
{
    if rooted(a) == rooted(b) {
        lemma_components_antisymmetric(components_of(a), components_of(b));
    }
}

/// Are the groups in the order of their paths, each path once?
pub open spec fn groups_ordered(gs: Seq<GroupView>) -> bool {
    forall|i: int, j: int|
        0 <= i < j < gs.len() ==> path_le(
            (#[trigger] gs[i]).workspace,
            (#[trigger] gs[j]).workspace,
        ) && !same(gs[i].workspace, gs[j].workspace)
}

/// What comes before a slot, and what stands at it.
proof fn lemma_slot(gs: Seq<GroupView>, workspace: Seq<char>)
    ensures
        0 <= slot(gs, workspace) <= gs.len(),
        forall|i: int|
            0 <= i < slot(gs, workspace) ==> !same((#[trigger] gs[i]).workspace, workspace)
                && !path_le(workspace, gs[i].workspace),
        slot(gs, workspace) < gs.len() ==> same(gs[slot(gs, workspace)].workspace, workspace)
            || path_le(workspace, gs[slot(gs, workspace)].workspace),
    decreases gs.len(),
{
    if gs.len() > 0 && !(same(gs[0].workspace, workspace) || path_le(workspace, gs[0].workspace)) {
        let t = gs.drop_first();
        lemma_slot(t, workspace);
        assert forall|i: int| 0 <= i < slot(gs, workspace) implies !same(
            (#[trigger] gs[i]).workspace,
            workspace,
        ) && !path_le(workspace, gs[i].workspace) by {
            if i > 0 {
                assert(t[i - 1] == gs[i]);
            }
        }
    }
}

/// Adding a session keeps the order.
proof fn lemma_with_session_ordered(gs: Seq<GroupView>, workspace: Seq<char>, id: u64)
    requires
        groups_ordered(gs),
    ensures
        groups_ordered(with_session(gs, workspace, id)),
{
    lemma_slot(gs, workspace);
    let k = slot(gs, workspace);
    let r = with_session(gs, workspace, id);
    if k < gs.len() && same(gs[k].workspace, workspace) {
        assert forall|i: int, j: int| 0 <= i < j < r.len() implies path_le(
            (#[trigger] r[i]).workspace,
            (#[trigger] r[j]).workspace,
        ) && !same(r[i].workspace, r[j].workspace) by {
            assert(r[i].workspace == gs[i].workspace && r[j].workspace == gs[j].workspace);
        }
    } else {
        assert forall|i: int, j: int| 0 <= i < j < r.len() implies path_le(
            (#[trigger] r[i]).workspace,
            (#[trigger] r[j]).workspace,
        ) && !same(r[i].workspace, r[j].workspace) by {
            if j < k {
                assert(r[i] == gs[i] && r[j] == gs[j]);
            } else if j == k {
                assert(r[i] == gs[i]);
                lemma_path_total(gs[i].workspace, workspace);
            } else if i == k {
                assert(r[j] == gs[j - 1]);
                if j - 1 > k {
                    assert(path_le(gs[k].workspace, gs[j - 1].workspace));
                    lemma_path_transitive(workspace, gs[k].workspace, gs[j - 1].workspace);
                    if same(workspace, gs[j - 1].workspace) {
                        assert(path_le(gs[j - 1].workspace, gs[k].workspace));
                        lemma_path_antisymmetric(gs[k].workspace, gs[j - 1].workspace);
                    }
                }
            } else if i < k {
                assert(r[i] == gs[i] && r[j] == gs[j - 1]);
            } else {
                assert(r[i] == gs[i - 1] && r[j] == gs[j - 1]);
            }
        }
    }
}

/// The workspaces are listed in the order of their paths, each of them once.
pub proof fn law_groups_are_ordered(tabs: Seq<TabView>)
    ensures
        groups_ordered(grouped(tabs)),
    decreases tabs.len(),
{
    if tabs.len() > 0 {
        law_groups_are_ordered(tabs.drop_last());
        lemma_with_session_ordered(
            grouped(tabs.drop_last()),
            tabs.last().workspace,
            tabs.last().id,
        );
    }
}

/// The tabs that lie in a workspace.
pub open spec fn tabs_in(tabs: Seq<TabView>, workspace: Seq<char>) -> Seq<TabView> {
    tabs.filter(|t: TabView| same(t.workspace, workspace))
}

/// Does the group hold exactly the sessions of its workspace, in their order?
pub open spec fn holds_its_sessions(g: GroupView, tabs: Seq<TabView>) -> bool {
    g.ids == ids_of(tabs_in(tabs, g.workspace))
}

/// Has a workspace a group?
pub open spec fn has_group(gs: Seq<GroupView>, workspace: Seq<char>) -> bool {
    exists|k: int| 0 <= k < gs.len() && same((#[trigger] gs[k]).workspace, workspace)
}

/// The tabs of a workspace, with one tab more.
proof fn lemma_tabs_in_push(tabs: Seq<TabView>, workspace: Seq<char>)
    requires
        tabs.len() > 0,
    ensures
        same(tabs.last().workspace, workspace) ==> ids_of(tabs_in(tabs, workspace)) == ids_of(
            tabs_in(tabs.drop_last(), workspace),
        ).push(tabs.last().id),
        !same(tabs.last().workspace, workspace) ==> ids_of(tabs_in(tabs, workspace)) == ids_of(
            tabs_in(tabs.drop_last(), workspace),
        ),
{
    reveal(Seq::filter);
    if same(tabs.last().workspace, workspace) {
        assert(ids_of(tabs_in(tabs, workspace)) =~= ids_of(
            tabs_in(tabs.drop_last(), workspace),
        ).push(tabs.last().id));
    }
}

/// A workspace without a group has no tabs.
proof fn lemma_no_tabs(tabs: Seq<TabView>, workspace: Seq<char>)
    requires
        forall|i: int| 0 <= i < tabs.len() ==> !same((#[trigger] tabs[i]).workspace, workspace),
    ensures
        tabs_in(tabs, workspace).len() == 0,
    decreases tabs.len(),
{
    reveal(Seq::filter);
    if tabs.len() > 0 {
        assert(!same(tabs[tabs.len() - 1].workspace, workspace));
        assert forall|i: int| 0 <= i < tabs.drop_last().len() implies !same(
            (#[trigger] tabs.drop_last()[i]).workspace,
            workspace,
        ) by {
            assert(!same(tabs[i].workspace, workspace));
        }
        lemma_no_tabs(tabs.drop_last(), workspace);
    }
}

/// Each session stands under its own workspace: a group holds the sessions of its
/// workspace and no others, in the order in which they were opened, and every session's
/// workspace has a group.
pub proof fn law_sessions_stand_under_their_workspace(tabs: Seq<TabView>)
    ensures
        forall|k: int|
            0 <= k < grouped(tabs).len() ==> holds_its_sessions(#[trigger] grouped(tabs)[k], tabs),
        forall|i: int|
            0 <= i < tabs.len() ==> has_group(grouped(tabs), (#[trigger] tabs[i]).workspace),
    decreases tabs.len(),
{
    if tabs.len() > 0 {
        let t = tabs.drop_last();
        let w = tabs.last().workspace;
        let id = tabs.last().id;
        let before = grouped(t);
        let after = grouped(tabs);
        law_sessions_stand_under_their_workspace(t);
        law_groups_are_ordered(t);
        law_groups_are_ordered(tabs);
        lemma_slot(before, w);
        let k = slot(before, w);
        if k < before.len() && same(before[k].workspace, w) {
            assert forall|j: int| 0 <= j < after.len() implies holds_its_sessions(
                #[trigger] after[j],
                tabs,
            ) by {
                assert(holds_its_sessions(before[j], t));
                lemma_tabs_in_push(tabs, after[j].workspace);
                if j != k && same(w, after[j].workspace) {
                    assert(same(before[j].workspace, before[k].workspace));
                    if j < k {
                        assert(!same(before[j].workspace, before[k].workspace));
                    } else {
                        assert(!same(before[k].workspace, before[j].workspace));
                    }
                }
            }
            assert forall|i: int| 0 <= i < tabs.len() implies has_group(
                after,
                (#[trigger] tabs[i]).workspace,
            ) by {
                if i < t.len() {
                    assert(has_group(before, t[i].workspace));
                    let j = choose|j: int|
                        0 <= j < before.len() && same(
                            (#[trigger] before[j]).workspace,
                            t[i].workspace,
                        );
                    assert(after[j].workspace == before[j].workspace);
                } else {
                    assert(after[k].workspace == before[k].workspace);
                }
            }
        } else {
            assert(after == before.insert(k, GroupView { workspace: w, ids: seq![id] }));
            assert forall|j: int| 0 <= j < before.len() implies !same(
                (#[trigger] before[j]).workspace,
                w,
            ) by {
                if same(before[j].workspace, w) && j >= k {
                    assert(after[j + 1] == before[j]);
                    assert(after[k].workspace == w);
                    assert(!same(after[k].workspace, after[j + 1].workspace));
                }
            }
            assert forall|i: int| 0 <= i < t.len() implies !same(
                (#[trigger] t[i]).workspace,
                w,
            ) by {
                assert(has_group(before, t[i].workspace));
                let j = choose|j: int|
                    0 <= j < before.len() && same((#[trigger] before[j]).workspace, t[i].workspace);
                assert(!same(before[j].workspace, w));
            }
            lemma_no_tabs(t, w);
            assert forall|j: int| 0 <= j < after.len() implies holds_its_sessions(
                #[trigger] after[j],
                tabs,
            ) by {
                lemma_tabs_in_push(tabs, after[j].workspace);
                if j == k {
                    assert(ids_of(tabs_in(t, w)) =~= Seq::empty());
                    assert(seq![id] =~= Seq::<u64>::empty().push(id));
                } else {
                    let b = if j < k { j } else { j - 1 };
                    assert(after[j] == before[b]);
                    assert(holds_its_sessions(before[b], t));
                    assert(!same(before[b].workspace, w));
                }
            }
            assert forall|i: int| 0 <= i < tabs.len() implies has_group(
                after,
                (#[trigger] tabs[i]).workspace,
            ) by {
                if i < t.len() {
                    assert(has_group(before, t[i].workspace));
                    let j = choose|j: int|
                        0 <= j < before.len() && same(
                            (#[trigger] before[j]).workspace,
                            t[i].workspace,
                        );
                    let a = if j < k { j } else { j + 1 };
                    assert(after[a] == before[j]);
                } else {
                    assert(after[k].workspace == w);
                }
            }
        }
    }
}

/// A path comes before those below it, and two paths that part at some component come
/// in the order of that component.
pub proof fn law_paths_are_ordered_by_component(a: Seq<char>, b: Seq<char>, n: int)
    requires
        rooted(a) == rooted(b),
        0 <= n <= components_of(a).len(),
        n <= components_of(b).len(),
        forall|i: int| 0 <= i < n ==> components_of(a)[i] == components_of(b)[i],
    ensures
        n == components_of(a).len() ==> path_le(a, b),
        n == components_of(b).len() && n < components_of(a).len() ==> !path_le(a, b),
        n < components_of(a).len() && n < components_of(b).len() && components_of(a)[n]
            != components_of(b)[n] && components_of(a)[n] != "."@ && components_of(a)[n] != ".."@
            && components_of(b)[n] != "."@ && components_of(b)[n] != ".."@ ==> (path_le(a, b)
            <==> text_le(components_of(a)[n], components_of(b)[n])),
{
    lemma_components_part(components_of(a), components_of(b), n);
}

/// Lists of components with a common beginning are ordered by what follows it.
proof fn lemma_components_part(a: Seq<Seq<char>>, b: Seq<Seq<char>>, n: int)
    requires
        0 <= n <= a.len(),
        n <= b.len(),
        forall|i: int| 0 <= i < n ==> a[i] == b[i],
    ensures
        components_le(a, b) == components_le(a.skip(n), b.skip(n)),
    decreases n,
{
    if n == 0 {
        assert(a.skip(0) =~= a);
        assert(b.skip(0) =~= b);
    } else {
        lemma_components_part(a.drop_first(), b.drop_first(), n - 1);
        assert(a.drop_first().skip(n - 1) =~= a.skip(n));
        assert(b.drop_first().skip(n - 1) =~= b.skip(n));
    }
}

} // verus!
