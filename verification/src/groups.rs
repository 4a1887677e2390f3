//! Groups: how a stored group list is put in order, and how groups are
//! created, renamed and deleted.
use vstd::prelude::*;

use crate::records::{
    default_group, default_group_id_text, default_group_created_at, default_group_id, default_group_name,
    default_group_view, group_views, lemma_fixed_texts, unnamed_group, unnamed_group_text,
    GroupInfo, GroupView,
};
use crate::switcher::BattleNetCore;
use crate::stamps::{new_record_id, now_string, utc_rfc3339_text, uuid_simple_text};
use crate::text::{
    eq_ignore_ascii_case, eq_ignoring_ascii_case, is_blank, is_blank_text, lemma_trimmed,
    lemma_trimmed_idempotent, lowered, normalize_name, same_text, trim_text, trimmed,
};

verus! {

// ---------------------------------------------------------------------------
// Specifications
// ---------------------------------------------------------------------------

/// The groups whose id is not blank, in order.
pub open spec fn kept_groups(gs: Seq<GroupView>) -> Seq<GroupView>
    decreases gs.len(),
{
    if gs.len() == 0 {
        Seq::<GroupView>::empty()
    } else {
        let rest = kept_groups(gs.drop_last());
        if is_blank(gs.last().id) {
            rest
        } else {
            rest.push(gs.last())
        }
    }
}

/// The index of the first group at or after `i` whose id is `id`, or the
/// length of `gs` when there is none.
pub open spec fn id_position(gs: Seq<GroupView>, id: Seq<char>, i: int) -> int
    decreases gs.len() - i,
{
    if 0 <= i < gs.len() {
        if gs[i].id == id {
            i
        } else {
            id_position(gs, id, i + 1)
        }
    } else {
        gs.len() as int
    }
}

/// The index of the first group at or after `i` whose id is the default
/// group's id, or the length of `gs` when there is none.
pub open spec fn default_position(gs: Seq<GroupView>, i: int) -> int {
    id_position(gs, default_group_id(), i)
}

/// The default group moved to the front, with its fixed name and creation
/// time; or, when there is no default group, a fresh one put in front.
pub open spec fn default_first(gs: Seq<GroupView>) -> Seq<GroupView> {
    let p = default_position(gs, 0);
    if 0 <= p < gs.len() {
        seq![
            GroupView {
                id: gs[p].id,
                name: default_group_name(),
                created_at: default_group_created_at(),
            },
        ] + gs.remove(p)
    } else {
        seq![default_group_view()] + gs
    }
}

/// The name a group is kept under: trimmed, or the unnamed-group text when
/// it is blank.
pub open spec fn kept_name(name: Seq<char>) -> Seq<char> {
    if is_blank(name) {
        unnamed_group()
    } else {
        trimmed(name)
    }
}

pub open spec fn with_kept_name(g: GroupView) -> GroupView {
    GroupView { id: g.id, name: kept_name(g.name), created_at: g.created_at }
}

/// A stored group list put in order: groups with a blank id dropped, the
/// default group first, every name trimmed and none left blank.
pub open spec fn normalized_groups(gs: Seq<GroupView>) -> Seq<GroupView> {
    let w = default_first(kept_groups(gs));
    Seq::new(w.len(), |i: int| with_kept_name(w[i]))
}

/// A group list in the order that normalization leaves: the default group
/// first, no blank id, every name trimmed and not blank.
pub open spec fn well_ordered_groups(gs: Seq<GroupView>) -> bool {
    &&& gs.len() >= 1
    &&& gs[0] == default_group_view()
    &&& forall|i: int|
        0 <= i < gs.len() ==> {
            &&& !is_blank((#[trigger] gs[i]).id)
            &&& !is_blank(gs[i].name)
            &&& trimmed(gs[i].name) == gs[i].name
        }
}

/// The index of the first group at or after `i` whose name matches `name`
/// regardless of ASCII case, or the length of `gs` when there is none.
pub open spec fn name_position(gs: Seq<GroupView>, name: Seq<char>, i: int) -> int
    decreases gs.len() - i,
{
    if 0 <= i < gs.len() {
        if eq_ignoring_ascii_case(gs[i].name, name) {
            i
        } else {
            name_position(gs, name, i + 1)
        }
    } else {
        gs.len() as int
    }
}

/// Some group other than the one with id `id` already goes by `name`,
/// regardless of ASCII case.
pub open spec fn name_taken_by_other(gs: Seq<GroupView>, id: Seq<char>, name: Seq<char>) -> bool {
    exists|i: int| 0 <= i < gs.len() && gs[i].id != id && eq_ignoring_ascii_case(gs[i].name, name)
}

pub open spec fn has_group(gs: Seq<GroupView>, id: Seq<char>) -> bool {
    exists|i: int| 0 <= i < gs.len() && gs[i].id == id
}

/// The groups whose id is not `id`, in order.
pub open spec fn without_group(gs: Seq<GroupView>, id: Seq<char>) -> Seq<GroupView>
    decreases gs.len(),
{
    if gs.len() == 0 {
        Seq::<GroupView>::empty()
    } else {
        let rest = without_group(gs.drop_last(), id);
        if gs.last().id == id {
            rest
        } else {
            rest.push(gs.last())
        }
    }
}

/// The group id an account is filed under when `group_id` is asked for: the
/// id itself when a group has it, the default group's id otherwise.
pub open spec fn valid_group_id(gs: Seq<GroupView>, group_id: Seq<char>) -> Seq<char> {
    if group_id.len() > 0 && has_group(normalized_groups(gs), group_id) {
        group_id
    } else {
        default_group_id()
    }
}

/// What becomes of a request to create a group.
pub enum CreateGroupOutcome {
    /// The name was blank.
    Rejected,
    /// A group of that name, regardless of ASCII case, already exists.
    Existing(GroupInfo),
    /// A new group was added.
    Created(GroupInfo),
}

// ---------------------------------------------------------------------------
// Lemmas
// ---------------------------------------------------------------------------

pub proof fn lemma_name_position(gs: Seq<GroupView>, name: Seq<char>, i: int)
    requires
        0 <= i <= gs.len(),
    ensures
        i <= name_position(gs, name, i) <= gs.len(),
        name_position(gs, name, i) < gs.len() ==> eq_ignoring_ascii_case(
            gs[name_position(gs, name, i)].name,
            name,
        ),
        forall|k: int|
            i <= k < name_position(gs, name, i) ==> !eq_ignoring_ascii_case(
                (#[trigger] gs[k]).name,
                name,
            ),
    decreases gs.len() - i,
{
    if i < gs.len() && !eq_ignoring_ascii_case(gs[i].name, name) {
        lemma_name_position(gs, name, i + 1);
    }
}

pub proof fn lemma_without_group(gs: Seq<GroupView>, id: Seq<char>)
    ensures
        without_group(gs, id).len() <= gs.len(),
        without_group(gs, id).len() == gs.len() <==> !has_group(gs, id),
        !has_group(gs, id) ==> without_group(gs, id) == gs,
        !has_group(without_group(gs, id), id),
        forall|i: int|
            0 <= i < without_group(gs, id).len() ==> exists|j: int|
                0 <= j < gs.len() && gs[j] == #[trigger] without_group(gs, id)[i],
    decreases gs.len(),
{
    if gs.len() > 0 {
        let d = gs.drop_last();
        lemma_without_group(d, id);
        let rest = without_group(d, id);
        if has_group(d, id) {
            let j = choose|j: int| 0 <= j < d.len() && d[j].id == id;
            assert(gs[j].id == id);
        }
        if has_group(gs, id) && !has_group(d, id) {
            let j = choose|j: int| 0 <= j < gs.len() && gs[j].id == id;
            if j < d.len() {
                assert(d[j].id == id);
            }
        }
        if !has_group(gs, id) {
            assert(gs.last().id != id);
            assert(rest.push(gs.last()) =~= gs);
        }
        if gs.last().id != id {
            let w = rest.push(gs.last());
            if has_group(w, id) {
                let j = choose|j: int| 0 <= j < w.len() && w[j].id == id;
                if j < rest.len() {
                    assert(w[j] == rest[j]);
                }
            }
            assert forall|i: int| 0 <= i < w.len() implies exists|j: int|
                0 <= j < gs.len() && gs[j] == #[trigger] w[i] by {
                if i < rest.len() {
                    assert(w[i] == rest[i]);
                    let j = choose|j: int| 0 <= j < d.len() && d[j] == rest[i];
                    assert(gs[j] == d[j]);
                } else {
                    assert(gs[gs.len() - 1] == w[i]);
                }
            }
        } else {
            assert forall|i: int| 0 <= i < rest.len() implies exists|j: int|
                0 <= j < gs.len() && gs[j] == #[trigger] rest[i] by {
                let j = choose|j: int| 0 <= j < d.len() && d[j] == rest[i];
                assert(gs[j] == d[j]);
            }
        }
    }
}

pub proof fn lemma_group_views_push(v: Seq<GroupInfo>, g: GroupInfo)
    ensures
        group_views(v.push(g)) == group_views(v).push(g@),
{
    assert(group_views(v.push(g)) =~= group_views(v).push(g@));
}

pub proof fn lemma_kept_groups(gs: Seq<GroupView>)
    ensures
        kept_groups(gs).len() <= gs.len(),
        forall|i: int| 0 <= i < kept_groups(gs).len() ==> !is_blank(#[trigger] kept_groups(gs)[i].id),
    decreases gs.len(),
{
    if gs.len() > 0 {
        lemma_kept_groups(gs.drop_last());
        let rest = kept_groups(gs.drop_last());
        if !is_blank(gs.last().id) {
            assert forall|i: int| 0 <= i < rest.push(gs.last()).len() implies !is_blank(
                #[trigger] rest.push(gs.last())[i].id,
            ) by {
                if i < rest.len() {
                    assert(rest.push(gs.last())[i] == rest[i]);
                }
            }
        }
    }
}

pub proof fn lemma_kept_groups_all(gs: Seq<GroupView>)
    requires
        forall|i: int| 0 <= i < gs.len() ==> !is_blank(#[trigger] gs[i].id),
    ensures
        kept_groups(gs) == gs,
    decreases gs.len(),
{
    if gs.len() > 0 {
        let d = gs.drop_last();
        assert forall|i: int| 0 <= i < d.len() implies !is_blank(#[trigger] d[i].id) by {
            assert(d[i] == gs[i]);
        }
        lemma_kept_groups_all(d);
        assert(!is_blank(gs[gs.len() - 1].id));
        assert(d.push(gs.last()) =~= gs);
    }
}

pub proof fn lemma_id_position(gs: Seq<GroupView>, id: Seq<char>, i: int)
    requires
        0 <= i <= gs.len(),
    ensures
        i <= id_position(gs, id, i) <= gs.len(),
        id_position(gs, id, i) < gs.len() ==> gs[id_position(gs, id, i)].id == id,
        forall|k: int| i <= k < id_position(gs, id, i) ==> (#[trigger] gs[k]).id != id,
    decreases gs.len() - i,
{
    if i < gs.len() && gs[i].id != id {
        lemma_id_position(gs, id, i + 1);
    }
}

pub proof fn lemma_default_position(gs: Seq<GroupView>, i: int)
    requires
        0 <= i <= gs.len(),
    ensures
        i <= default_position(gs, i) <= gs.len(),
        default_position(gs, i) < gs.len() ==> gs[default_position(gs, i)].id == default_group_id(),
        forall|k: int| i <= k < default_position(gs, i) ==> (#[trigger] gs[k]).id != default_group_id(),
{
    lemma_id_position(gs, default_group_id(), i);
}

pub proof fn lemma_kept_name(name: Seq<char>)
    ensures
        !is_blank(kept_name(name)),
        trimmed(kept_name(name)) == kept_name(name),
        kept_name(kept_name(name)) == kept_name(name),
{
    lemma_fixed_texts();
    lemma_trimmed_idempotent(name);
}

/// After normalization the default group comes first, no id is blank, and
/// every name is trimmed and not blank.
pub proof fn lemma_normalized_groups_well_ordered(gs: Seq<GroupView>)
    ensures
        well_ordered_groups(normalized_groups(gs)),
{
    let k = kept_groups(gs);
    lemma_kept_groups(gs);
    lemma_default_position(k, 0);
    lemma_fixed_texts();
    let w = default_first(k);
    let n = normalized_groups(gs);
    let p = default_position(k, 0);
    assert forall|i: int| 0 <= i < w.len() implies !is_blank((#[trigger] w[i]).id) by {
        if 0 <= p < k.len() {
            if i > 0 {
                if i - 1 < p {
                    assert(w[i] == k[i - 1]);
                } else {
                    assert(w[i] == k[i]);
                }
            }
        } else {
            if i > 0 {
                assert(w[i] == k[i - 1]);
            }
        }
    }
    assert forall|i: int| 0 <= i < n.len() implies {
        &&& !is_blank((#[trigger] n[i]).id)
        &&& !is_blank(n[i].name)
        &&& trimmed(n[i].name) == n[i].name
    } by {
        lemma_kept_name(w[i].name);
    }
    lemma_kept_name(default_group_name());
    assert(kept_name(default_group_name()) == default_group_name());
}

/// A list that is already in order is left as it is by normalization.
pub proof fn lemma_well_ordered_unchanged(n: Seq<GroupView>)
    requires
        well_ordered_groups(n),
    ensures
        normalized_groups(n) == n,
{
    lemma_kept_groups_all(n);
    lemma_fixed_texts();
    assert(default_position(n, 0) == 0);
    let w = default_first(n);
    assert(w =~= n) by {
        assert forall|i: int| 0 <= i < n.len() implies w[i] == n[i] by {
            if i > 0 {
                assert(w[i] == n.remove(0)[i - 1]);
            }
        }
    }
    assert forall|i: int| 0 <= i < n.len() implies with_kept_name(#[trigger] n[i]) == n[i] by {
        lemma_trimmed(n[i].name);
    }
    assert(normalized_groups(n) =~= n);
}

/// Putting a list in order twice gives what putting it in order once gives.
pub proof fn lemma_normalize_groups_idempotent(gs: Seq<GroupView>)
    ensures
        normalized_groups(normalized_groups(gs)) == normalized_groups(gs),
{
    lemma_normalized_groups_well_ordered(gs);
    lemma_well_ordered_unchanged(normalized_groups(gs));
}

/// Once a group has been created under `name`, a request to create a group
/// under the same name, in any ASCII case and with any white space around
/// it, finds that very group: the list left by the creation is already in
/// order, and the first group in it that goes by the name is the new one.
pub proof fn lemma_created_group_found_again(
    gs: Seq<GroupView>,
    name: Seq<char>,
    again: Seq<char>,
    id: Seq<char>,
    created_at: Seq<char>,
)
    requires
        !is_blank(name),
        name_position(normalized_groups(gs), trimmed(name), 0) == normalized_groups(gs).len(),
        !is_blank(id),
        eq_ignoring_ascii_case(trimmed(again), trimmed(name)),
    ensures
        ({
            let n = normalized_groups(gs);
            let after = n.push(GroupView { id: id, name: trimmed(name), created_at: created_at });
            &&& normalized_groups(after) == after
            &&& !is_blank(again)
            &&& name_position(after, trimmed(again), 0) == n.len()
        }),
{
    let n = normalized_groups(gs);
    let g = GroupView { id: id, name: trimmed(name), created_at: created_at };
    let after = n.push(g);
    let t = trimmed(name);
    let t2 = trimmed(again);
    lemma_normalized_groups_well_ordered(gs);
    lemma_trimmed_idempotent(name);
    assert(lowered(t2).len() == lowered(t).len());
    assert(!is_blank(again));
    assert(well_ordered_groups(after)) by {
        assert forall|i: int| 0 <= i < after.len() implies {
            &&& !is_blank((#[trigger] after[i]).id)
            &&& !is_blank(after[i].name)
            &&& trimmed(after[i].name) == after[i].name
        } by {
            if i < n.len() {
                assert(after[i] == n[i]);
            }
        }
    }
    lemma_well_ordered_unchanged(after);
    lemma_name_position(n, t, 0);
    lemma_name_position(after, t2, 0);
    let p = name_position(after, t2, 0);
    if p < n.len() {
        assert(after[p] == n[p]);
        assert(eq_ignoring_ascii_case(n[p].name, t));
    }
    if p == after.len() {
        assert(!eq_ignoring_ascii_case(after[n.len() as int].name, t2));
    }
}

pub proof fn lemma_without_group_first(gs: Seq<GroupView>, id: Seq<char>)
    requires
        gs.len() > 0,
        gs[0].id != id,
    ensures
        without_group(gs, id).len() > 0,
        without_group(gs, id)[0] == gs[0],
    decreases gs.len(),
{
    if gs.len() > 1 {
        let d = gs.drop_last();
        assert(d[0] == gs[0]);
        lemma_without_group_first(d, id);
        let rest = without_group(d, id);
        if gs.last().id != id {
            assert(rest.push(gs.last())[0] == rest[0]);
        }
    } else {
        assert(gs.drop_last().len() == 0);
        assert(without_group(gs.drop_last(), id).len() == 0);
        assert(without_group(gs, id) =~= seq![gs[0]]);
    }
}

/// Deleting a group other than the default one leaves a list that is still
/// in order, and no group with the deleted id is left in it.
pub proof fn lemma_delete_keeps_order(gs: Seq<GroupView>, id: Seq<char>)
    requires
        id != default_group_id(),
    ensures
        well_ordered_groups(without_group(normalized_groups(gs), id)),
        !has_group(without_group(normalized_groups(gs), id), id),
{
    let n = normalized_groups(gs);
    lemma_normalized_groups_well_ordered(gs);
    lemma_without_group(n, id);
    lemma_without_group_first(n, id);
    let w = without_group(n, id);
    assert forall|i: int| 0 <= i < w.len() implies {
        &&& !is_blank((#[trigger] w[i]).id)
        &&& !is_blank(w[i].name)
        &&& trimmed(w[i].name) == w[i].name
    } by {
        let j = choose|j: int| 0 <= j < n.len() && n[j] == w[i];
        assert(n[j] == w[i]);
    }
}

// ---------------------------------------------------------------------------
// Executable code
// ---------------------------------------------------------------------------

/// The index of the first group of `groups` whose name matches `name`
/// regardless of ASCII case, or the number of groups when there is none.
fn name_index(groups: &Vec<GroupInfo>, name: &str) -> (k: usize)
    ensures
        k == name_position(group_views(groups@), name@, 0),
        k <= groups@.len(),
{
    let ghost n = group_views(groups@);
    proof {
        lemma_name_position(n, name@, 0);
    }
    let m = groups.len();
    let mut k: usize = 0;
    while k < m && !eq_ignore_ascii_case(groups[k].name.as_str(), name)
        invariant
            k <= m,
            m == groups@.len(),
            n == group_views(groups@),
            name_position(n, name@, k as int) == name_position(n, name@, 0),
        decreases m - k,
    {
        k = k + 1;
    }
    k
}

/// The name kept for `name`: trimmed, or the unnamed-group text when blank.
fn kept_group_name(name: &str) -> (r: String)
    ensures
        r@ == kept_name(name@),
{
    let t = trim_text(name);
    if t.as_str().is_empty() {
        unnamed_group_text()
    } else {
        t
    }
}

impl BattleNetCore {
    /// Puts a stored group list in order: groups with a blank id are
    /// dropped, the default group is moved to the front with its fixed
    /// name and creation time (or created there), and every name is trimmed,
    /// a blank one replaced by the unnamed-group text.
    pub fn normalize_groups(&self, groups: &mut Vec<GroupInfo>)
        ensures
            group_views(final(groups)@) == normalized_groups(group_views(old(groups)@)),
            well_ordered_groups(group_views(final(groups)@)),
    {
        let ghost gv = group_views(groups@);
        let n = groups.len();
        let mut kept: Vec<GroupInfo> = Vec::new();
        for i in 0..n
            invariant
                n == groups@.len(),
                gv == group_views(groups@),
                group_views(kept@) == kept_groups(gv.take(i as int)),
        {
            assert(gv.take(i + 1).drop_last() =~= gv.take(i as int));
            assert(gv.take(i + 1).last() == groups@[i as int]@);
            if !is_blank_text(groups[i].id.as_str()) {
                let g = groups[i].clone();
                kept.push(g);
                assert(group_views(kept@) =~= kept_groups(gv.take(i + 1)));
            }
        }
        assert(gv.take(n as int) =~= gv);
        let ghost kv = group_views(kept@);
        let m = kept.len();
        let mut p: usize = 0;
        while p < m && !same_text(kept[p].id.as_str(), "default")
            invariant
                p <= m,
                m == kept@.len(),
                kv == group_views(kept@),
                default_position(kv, p as int) == default_position(kv, 0),
            decreases m - p,
        {
            p = p + 1;
        }
        assert(default_position(kv, p as int) == p);
        let mut ordered: Vec<GroupInfo> = Vec::new();
        if p < m {
            let front = GroupInfo {
                id: kept[p].id.clone(),
                name: "默认分组".to_owned(),
                created_at: "0001-01-01T00:00:00".to_owned(),
            };
            ordered.push(front);
            let ghost head = group_views(ordered@);
            for j in 0..p
                invariant
                    p < m,
                    m == kept@.len(),
                    kv == group_views(kept@),
                    group_views(ordered@) =~= head + kv.subrange(0, j as int),
            {
                let g = kept[j].clone();
                proof {
                    lemma_group_views_push(ordered@, g);
                }
                ordered.push(g);
            }
            for j in p + 1..m
                invariant
                    p < m,
                    m == kept@.len(),
                    kv == group_views(kept@),
                    group_views(ordered@) =~= head + kv.subrange(0, p as int) + kv.subrange(
                        p + 1,
                        j as int,
                    ),
            {
                let g = kept[j].clone();
                proof {
                    lemma_group_views_push(ordered@, g);
                }
                ordered.push(g);
            }
            assert(group_views(ordered@) =~= default_first(kv));
        } else {
            ordered.push(default_group());
            let ghost head = group_views(ordered@);
            for j in 0..m
                invariant
                    m == kept@.len(),
                    kv == group_views(kept@),
                    group_views(ordered@) =~= head + kv.subrange(0, j as int),
            {
                let g = kept[j].clone();
                proof {
                    lemma_group_views_push(ordered@, g);
                }
                ordered.push(g);
            }
            assert(group_views(ordered@) =~= default_first(kv));
        }
        let ghost wv = group_views(ordered@);
        let k = ordered.len();
        let mut result: Vec<GroupInfo> = Vec::new();
        for i in 0..k
            invariant
                k == ordered@.len(),
                wv == group_views(ordered@),
                result@.len() == i,
                forall|q: int| 0 <= q < i ==> (#[trigger] result@[q])@ == with_kept_name(wv[q]),
        {
            let g = GroupInfo {
                id: ordered[i].id.clone(),
                name: kept_group_name(ordered[i].name.as_str()),
                created_at: ordered[i].created_at.clone(),
            };
            result.push(g);
        }
        assert(group_views(result@) =~= normalized_groups(gv));
        *groups = result;
        proof {
            lemma_normalized_groups_well_ordered(gv);
        }
    }

    /// The stored group list as the switcher shows it: put in order.
    pub fn get_groups(&self, stored: Vec<GroupInfo>) -> (r: Vec<GroupInfo>)
        ensures
            group_views(r@) == normalized_groups(group_views(stored@)),
            well_ordered_groups(group_views(r@)),
    {
        let mut groups = stored;
        self.normalize_groups(&mut groups);
        groups
    }

    /// The group id to file an account under when `group_id` is asked for:
    /// `group_id` when a group of the stored list has it, the default
    /// group's id otherwise.
    pub fn ensure_valid_group_id(&self, stored: &Vec<GroupInfo>, group_id: &str) -> (r: String)
        ensures
            r@ == valid_group_id(group_views(stored@), group_id@),
            has_group(normalized_groups(group_views(stored@)), r@),
    {
        let ghost n = normalized_groups(group_views(stored@));
        proof {
            lemma_normalized_groups_well_ordered(group_views(stored@));
            assert(n[0].id == default_group_id());
        }
        if group_id.is_empty() {
            return default_group_id_text();
        }
        let mut groups = copy_groups(stored);
        self.normalize_groups(&mut groups);
        let m = groups.len();
        for i in 0..m
            invariant
                m == groups@.len(),
                group_views(groups@) == n,
                group_id@.len() > 0,
                n == normalized_groups(group_views(stored@)),
                forall|k: int| 0 <= k < i ==> (#[trigger] n[k]).id != group_id@,
        {
            if same_text(groups[i].id.as_str(), group_id) {
                assert(n[i as int].id == group_id@);
                return group_id.to_owned();
            }
        }
        default_group_id_text()
    }

    /// Decides a request to create a group named `name`, with `id` and
    /// `created_at` for the group if a new one is made. A blank name is
    /// rejected and the list left alone. Otherwise the list is put in order;
    /// if a group there already goes by the trimmed name, regardless of
    /// ASCII case, that group is handed back and the list left alone; if
    /// not, a group with the trimmed name is added at the end of the
    /// ordered list.
    pub fn create_group_with(
        &self,
        groups: &mut Vec<GroupInfo>,
        name: &str,
        id: String,
        created_at: String,
    ) -> (r: CreateGroupOutcome)
        ensures
            is_blank(name@) ==> r is Rejected && final(groups)@ == old(groups)@,
            !is_blank(name@) ==> {
                let n = normalized_groups(group_views(old(groups)@));
                let k = name_position(n, trimmed(name@), 0);
                &&& k < n.len() ==> (r matches CreateGroupOutcome::Existing(g) && g@ == n[k]
                    && final(groups)@ == old(groups)@)
                &&& k == n.len() ==> (r matches CreateGroupOutcome::Created(g) && g@ == GroupView {
                    id: id@,
                    name: trimmed(name@),
                    created_at: created_at@,
                } && group_views(final(groups)@) == n.push(g@))
            },
    {
        let name = normalize_name(name);
        if name.as_str().is_empty() {
            return CreateGroupOutcome::Rejected;
        }
        let mut ordered = copy_groups(groups);
        self.normalize_groups(&mut ordered);
        let m = ordered.len();
        let k = name_index(&ordered, name.as_str());
        if k < m {
            return CreateGroupOutcome::Existing(ordered[k].clone());
        }
        let group = GroupInfo { id, name, created_at };
        let made = group.clone();
        proof {
            lemma_group_views_push(ordered@, group);
        }
        ordered.push(group);
        *groups = ordered;
        CreateGroupOutcome::Created(made)
    }

    /// Decides a request to create a group named `name`, as
    /// [`BattleNetCore::create_group_with`] does. A fresh random id and the
    /// current time are drawn only when a group is made.
    pub fn create_group(&self, groups: &mut Vec<GroupInfo>, name: &str) -> (r: CreateGroupOutcome)
        ensures
            is_blank(name@) ==> r is Rejected && final(groups)@ == old(groups)@,
            !is_blank(name@) ==> {
                let n = normalized_groups(group_views(old(groups)@));
                let k = name_position(n, trimmed(name@), 0);
                &&& k < n.len() ==> (r matches CreateGroupOutcome::Existing(g) && g@ == n[k]
                    && final(groups)@ == old(groups)@)
                &&& k == n.len() ==> (r matches CreateGroupOutcome::Created(g) && g@.name
                    == trimmed(name@) && uuid_simple_text(g@.id) && utc_rfc3339_text(
                    g@.created_at,
                ) && group_views(final(groups)@) == n.push(g@))
            },
    {
        let trimmed_name = normalize_name(name);
        if trimmed_name.as_str().is_empty() {
            return CreateGroupOutcome::Rejected;
        }
        let mut ordered = copy_groups(groups);
        self.normalize_groups(&mut ordered);
        let k = name_index(&ordered, trimmed_name.as_str());
        if k < ordered.len() {
            return CreateGroupOutcome::Existing(ordered[k].clone());
        }
        let id = new_record_id();
        let created_at = now_string();
        self.create_group_with(groups, name, id, created_at)
    }

    /// Decides a request to rename the group `id` to `name`. The default
    /// group cannot be renamed, a blank name is refused, and so is a name
    /// that another group already goes by regardless of ASCII case. When the
    /// rename is allowed the list is put in order and the group gets the
    /// trimmed name; otherwise the list is left alone.
    pub fn rename_group(&self, groups: &mut Vec<GroupInfo>, id: &str, name: &str) -> (r: bool)
        ensures
            ({
                let n = normalized_groups(group_views(old(groups)@));
                let t = trimmed(name@);
                let k = id_position(n, id@, 0);
                &&& r == (id@ != default_group_id() && t.len() > 0 && !name_taken_by_other(
                    n,
                    id@,
                    t,
                ) && k < n.len())
                &&& r ==> group_views(final(groups)@) == n.update(
                    k,
                    GroupView { id: n[k].id, name: t, created_at: n[k].created_at },
                )
                &&& !r ==> final(groups)@ == old(groups)@
            }),
    {
        let ghost n = normalized_groups(group_views(groups@));
        if same_text(id, "default") {
            return false;
        }
        let new_name = normalize_name(name);
        if new_name.as_str().is_empty() {
            return false;
        }
        let mut ordered = copy_groups(groups);
        self.normalize_groups(&mut ordered);
        let m = ordered.len();
        for i in 0..m
            invariant
                m == ordered@.len(),
                group_views(ordered@) == n,
                n == normalized_groups(group_views(old(groups)@)),
                new_name@ == trimmed(name@),
                new_name@.len() > 0,
                id@ != default_group_id(),
                forall|j: int|
                    0 <= j < i ==> !((#[trigger] n[j]).id != id@ && eq_ignoring_ascii_case(
                        n[j].name,
                        new_name@,
                    )),
        {
            if !same_text(ordered[i].id.as_str(), id) && eq_ignore_ascii_case(
                ordered[i].name.as_str(),
                new_name.as_str(),
            ) {
                assert(n[i as int].id != id@ && eq_ignoring_ascii_case(n[i as int].name, new_name@));
                return false;
            }
        }
        let mut k: usize = 0;
        while k < m && !same_text(ordered[k].id.as_str(), id)
            invariant
                k <= m,
                m == ordered@.len(),
                n == group_views(ordered@),
                id_position(n, id@, k as int) == id_position(n, id@, 0),
            decreases m - k,
        {
            k = k + 1;
        }
        if k == m {
            return false;
        }
        let renamed = GroupInfo {
            id: ordered[k].id.clone(),
            name: new_name,
            created_at: ordered[k].created_at.clone(),
        };
        let ghost rv = renamed@;
        assert(rv == GroupView { id: n[k as int].id, name: trimmed(name@), created_at: n[k as int].created_at });
        ordered.set(k, renamed);
        assert(group_views(ordered@) =~= n.update(k as int, rv));
        *groups = ordered;
        true
    }

    /// Decides a request to delete the group `id`. The default group and an
    /// empty id are refused; otherwise the list is put in order and every
    /// group with that id is taken out. The request succeeds when some group
    /// had the id; when it fails the list is left alone.
    pub fn delete_group(&self, groups: &mut Vec<GroupInfo>, id: &str) -> (r: bool)
        ensures
            ({
                let n = normalized_groups(group_views(old(groups)@));
                &&& r == (id@.len() > 0 && id@ != default_group_id() && has_group(n, id@))
                &&& r ==> group_views(final(groups)@) == without_group(n, id@)
                &&& !r ==> final(groups)@ == old(groups)@
            }),
    {
        let ghost n = normalized_groups(group_views(groups@));
        if id.is_empty() || same_text(id, "default") {
            return false;
        }
        let mut ordered = copy_groups(groups);
        self.normalize_groups(&mut ordered);
        let m = ordered.len();
        let mut rest: Vec<GroupInfo> = Vec::new();
        for i in 0..m
            invariant
                m == ordered@.len(),
                group_views(ordered@) == n,
                group_views(rest@) == without_group(n.take(i as int), id@),
        {
            assert(n.take(i + 1).drop_last() =~= n.take(i as int));
            assert(n.take(i + 1).last() == n[i as int]);
            if !same_text(ordered[i].id.as_str(), id) {
                let g = ordered[i].clone();
                proof {
                    lemma_group_views_push(rest@, g);
                }
                rest.push(g);
            }
        }
        assert(n.take(m as int) =~= n);
        proof {
            lemma_without_group(n, id@);
        }
        if rest.len() == m {
            return false;
        }
        *groups = rest;
        true
    }
}

/// A copy of a group list.
pub fn copy_groups(v: &Vec<GroupInfo>) -> (r: Vec<GroupInfo>)
    ensures
        r@.len() == v@.len(),
        group_views(r@) == group_views(v@),
{
    let mut r: Vec<GroupInfo> = Vec::new();
    let n = v.len();
    for i in 0..n
        invariant
            n == v@.len(),
            group_views(r@) == group_views(v@).take(i as int),
    {
        let g = v[i].clone();
        proof {
            lemma_group_views_push(r@, g);
        }
        r.push(g);
        assert(group_views(v@).take(i + 1) =~= group_views(v@).take(i as int).push(v@[i as int]@));
    }
    assert(group_views(v@).take(n as int) =~= group_views(v@));
    r
}

impl CreateGroupOutcome {
    /// The group that a request to create one hands back: the existing or
    /// the new group, or none when the name was blank.
    pub fn into_group(self) -> (r: Option<GroupInfo>)
        ensures
            self is Rejected ==> r is None,
            self matches CreateGroupOutcome::Existing(g) ==> r == Some(g),
            self matches CreateGroupOutcome::Created(g) ==> r == Some(g),
    {
        match self {
            CreateGroupOutcome::Rejected => None,
            CreateGroupOutcome::Existing(g) => Some(g),
            CreateGroupOutcome::Created(g) => Some(g),
        }
    }

    /// Whether a new group was made, so that the list has to be stored.
    pub fn is_created(&self) -> (r: bool)
        ensures
            r == (self is Created),
    {
        matches!(self, CreateGroupOutcome::Created(_))
    }
}

} // verus!
