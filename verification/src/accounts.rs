//! Saved accounts: how a stored account list is repaired, which accounts
//! are logged in, and how accounts are moved, renamed, added and removed.
use vstd::prelude::*;

use crate::groups::{
    copy_groups, has_group, lemma_normalized_groups_well_ordered, normalized_groups,
    valid_group_id,
};
use crate::json::{
    battle_net_saved_account_names, config_account_names, first_account_name,
    first_saved_account_name, lemma_config_names_trimmed,
};
use crate::records::{
    account_views, default_group_id, default_group_id_text, fallback_account_name,
    fallback_remark, group_views, lemma_fixed_texts, unnamed_account, unnamed_account_text,
    AccountInfo, AccountView, GroupInfo, GroupView,
};
use crate::stamps::{now_string, utc_rfc3339_text};
use crate::switcher::BattleNetCore;
use crate::text::{account_name_key, is_blank, is_blank_text, lemma_string_views_push,
    normalize_account_name, same_text, string_views};

verus! {

// ---------------------------------------------------------------------------
// Specifications
// ---------------------------------------------------------------------------

/// The name saved with the `i`-th account: the first account name that the
/// configuration text saved with it remembers, if that text is at hand.
pub open spec fn saved_name_at(saved_configs: Seq<Option<String>>, i: int) -> Option<Seq<char>> {
    if 0 <= i < saved_configs.len() {
        match saved_configs[i] {
            Some(c) => first_account_name(c@),
            None => None,
        }
    } else {
        None
    }
}

/// The group an account is filed under must exist among `groups`.
pub open spec fn group_needs_repair(a: AccountView, groups: Seq<GroupView>) -> bool {
    a.group_id.len() == 0 || !has_group(groups, a.group_id)
}

pub open spec fn username_needs_repair(a: AccountView, saved: Option<Seq<char>>) -> bool {
    is_blank(a.username) && saved is Some
}

/// Whether repairing the account changes something.
pub open spec fn account_needs_repair(
    a: AccountView,
    groups: Seq<GroupView>,
    saved: Option<Seq<char>>,
) -> bool {
    group_needs_repair(a, groups) || is_blank(a.remark) || username_needs_repair(a, saved)
}

/// An account repaired against the (ordered) group list: filed under the
/// default group when its group is missing, given the unnamed-account
/// remark when its remark is blank, and given the saved name when its
/// username is blank and a saved name was found.
pub open spec fn repaired_account(
    a: AccountView,
    groups: Seq<GroupView>,
    saved: Option<Seq<char>>,
) -> AccountView {
    AccountView {
        id: a.id,
        remark: if is_blank(a.remark) {
            unnamed_account()
        } else {
            a.remark
        },
        username: if username_needs_repair(a, saved) {
            saved->0
        } else {
            a.username
        },
        last_used: a.last_used,
        group_id: if group_needs_repair(a, groups) {
            default_group_id()
        } else {
            a.group_id
        },
        logged_in: a.logged_in,
    }
}

pub open spec fn repaired_accounts(
    accounts: Seq<AccountView>,
    groups: Seq<GroupView>,
    saved: Seq<Option<String>>,
) -> Seq<AccountView> {
    Seq::new(
        accounts.len(),
        |i: int| repaired_account(accounts[i], groups, saved_name_at(saved, i)),
    )
}

pub open spec fn some_account_needs_repair(
    accounts: Seq<AccountView>,
    groups: Seq<GroupView>,
    saved: Seq<Option<String>>,
) -> bool {
    exists|i: int|
        0 <= i < accounts.len() && account_needs_repair(
            accounts[i],
            groups,
            saved_name_at(saved, i),
        )
}

/// The keys of the names a configuration remembers, by which usernames are
/// matched.
pub open spec fn logged_in_keys(config: Option<Seq<char>>) -> Seq<Seq<char>> {
    match config {
        Some(c) => Seq::new(
            config_account_names(c).len(),
            |i: int| account_name_key(config_account_names(c)[i]),
        ),
        None => Seq::<Seq<char>>::empty(),
    }
}

/// An account marked as logged in exactly when it has a username whose key
/// is among `keys`.
pub open spec fn marked_account(a: AccountView, keys: Seq<Seq<char>>) -> AccountView {
    AccountView {
        logged_in: a.username.len() > 0 && keys.contains(account_name_key(a.username)),
        ..a
    }
}

pub open spec fn marked_accounts(accounts: Seq<AccountView>, keys: Seq<Seq<char>>) -> Seq<
    AccountView,
> {
    Seq::new(accounts.len(), |i: int| marked_account(accounts[i], keys))
}

/// The index of the first account at or after `i` with id `id`, or the
/// length of the list when there is none.
pub open spec fn account_position(accounts: Seq<AccountView>, id: Seq<char>, i: int) -> int
    decreases accounts.len() - i,
{
    if 0 <= i < accounts.len() {
        if accounts[i].id == id {
            i
        } else {
            account_position(accounts, id, i + 1)
        }
    } else {
        accounts.len() as int
    }
}

pub open spec fn has_account(accounts: Seq<AccountView>, id: Seq<char>) -> bool {
    exists|i: int| 0 <= i < accounts.len() && accounts[i].id == id
}

/// The accounts whose id is not `id`, in order.
pub open spec fn without_account(accounts: Seq<AccountView>, id: Seq<char>) -> Seq<AccountView>
    decreases accounts.len(),
{
    if accounts.len() == 0 {
        Seq::<AccountView>::empty()
    } else {
        let rest = without_account(accounts.drop_last(), id);
        if accounts.last().id == id {
            rest
        } else {
            rest.push(accounts.last())
        }
    }
}

/// Accounts filed under group `id` moved to the default group.
pub open spec fn reassigned_accounts(accounts: Seq<AccountView>, id: Seq<char>) -> Seq<
    AccountView,
> {
    Seq::new(
        accounts.len(),
        |i: int|
            if accounts[i].group_id == id {
                AccountView { group_id: default_group_id(), ..accounts[i] }
            } else {
                accounts[i]
            },
    )
}

pub open spec fn some_account_in_group(accounts: Seq<AccountView>, id: Seq<char>) -> bool {
    exists|i: int| 0 <= i < accounts.len() && accounts[i].group_id == id
}

// ---------------------------------------------------------------------------
// Lemmas
// ---------------------------------------------------------------------------

pub proof fn lemma_account_views_push(v: Seq<AccountInfo>, a: AccountInfo)
    ensures
        account_views(v.push(a)) == account_views(v).push(a@),
{
    assert(account_views(v.push(a)) =~= account_views(v).push(a@));
}

pub proof fn lemma_account_position(accounts: Seq<AccountView>, id: Seq<char>, i: int)
    requires
        0 <= i <= accounts.len(),
    ensures
        i <= account_position(accounts, id, i) <= accounts.len(),
        account_position(accounts, id, i) < accounts.len() ==> accounts[account_position(
            accounts,
            id,
            i,
        )].id == id,
        forall|k: int| i <= k < account_position(accounts, id, i) ==> (#[trigger] accounts[k]).id != id,
    decreases accounts.len() - i,
{
    if i < accounts.len() && accounts[i].id != id {
        lemma_account_position(accounts, id, i + 1);
    }
}

pub proof fn lemma_without_account(accounts: Seq<AccountView>, id: Seq<char>)
    ensures
        without_account(accounts, id).len() <= accounts.len(),
        without_account(accounts, id).len() == accounts.len() <==> !has_account(accounts, id),
        !has_account(without_account(accounts, id), id),
    decreases accounts.len(),
{
    if accounts.len() > 0 {
        let d = accounts.drop_last();
        lemma_without_account(d, id);
        let rest = without_account(d, id);
        if has_account(d, id) {
            let j = choose|j: int| 0 <= j < d.len() && d[j].id == id;
            assert(accounts[j].id == id);
        }
        if has_account(accounts, id) && !has_account(d, id) {
            let j = choose|j: int| 0 <= j < accounts.len() && accounts[j].id == id;
            if j < d.len() {
                assert(d[j].id == id);
            }
        }
        if accounts.last().id != id {
            let w = rest.push(accounts.last());
            if has_account(w, id) {
                let j = choose|j: int| 0 <= j < w.len() && w[j].id == id;
                if j < rest.len() {
                    assert(w[j] == rest[j]);
                }
            }
        }
    }
}

/// After repair every account is filed under a group of the list and has a
/// remark that is not blank.
pub proof fn lemma_repaired_accounts_valid(
    accounts: Seq<AccountView>,
    stored_groups: Seq<GroupView>,
    saved: Seq<Option<String>>,
)
    ensures
        ({
            let gs = normalized_groups(stored_groups);
            let r = repaired_accounts(accounts, gs, saved);
            forall|i: int|
                0 <= i < r.len() ==> {
                    &&& has_group(gs, (#[trigger] r[i]).group_id)
                    &&& !is_blank(r[i].remark)
                }
        }),
{
    let gs = normalized_groups(stored_groups);
    lemma_normalized_groups_well_ordered(stored_groups);
    lemma_fixed_texts();
    assert(gs[0].id == default_group_id());
    let r = repaired_accounts(accounts, gs, saved);
    assert forall|i: int| 0 <= i < r.len() implies {
        &&& has_group(gs, (#[trigger] r[i]).group_id)
        &&& !is_blank(r[i].remark)
    } by {
        if !group_needs_repair(accounts[i], gs) {
            assert(has_group(gs, accounts[i].group_id));
        }
    }
}

/// Repairing an account list a second time changes nothing.
pub proof fn lemma_repair_settles(
    accounts: Seq<AccountView>,
    stored_groups: Seq<GroupView>,
    saved: Seq<Option<String>>,
)
    ensures
        ({
            let gs = normalized_groups(stored_groups);
            let r = repaired_accounts(accounts, gs, saved);
            &&& !some_account_needs_repair(r, gs, saved)
            &&& repaired_accounts(r, gs, saved) == r
        }),
{
    let gs = normalized_groups(stored_groups);
    let r = repaired_accounts(accounts, gs, saved);
    lemma_repaired_accounts_valid(accounts, stored_groups, saved);
    assert forall|i: int| 0 <= i < r.len() implies !account_needs_repair(
        r[i],
        gs,
        saved_name_at(saved, i),
    ) by {
        assert(has_group(gs, r[i].group_id));
        if gs.len() > 0 && r[i].group_id.len() == 0 {
            let j = choose|j: int| 0 <= j < gs.len() && gs[j].id == r[i].group_id;
            lemma_normalized_groups_well_ordered(stored_groups);
            assert(!is_blank(gs[j].id));
            assert(is_blank(gs[j].id)) by {
                assert(gs[j].id.len() == 0);
                crate::text::lemma_trimmed(gs[j].id);
            }
        }
        if username_needs_repair(accounts[i], saved_name_at(saved, i)) {
            let c = saved[i]->0@;
            lemma_config_names_trimmed(c);
            assert(!is_blank(config_account_names(c)[0]));
        }
    }
    assert(repaired_accounts(r, gs, saved) =~= r);
}

/// Once the accounts of a deleted group are reassigned, none is filed under
/// it any more, and every other account keeps its group.
pub proof fn lemma_reassigned_leaves_none(accounts: Seq<AccountView>, id: Seq<char>)
    requires
        id != default_group_id(),
    ensures
        !some_account_in_group(reassigned_accounts(accounts, id), id),
        forall|i: int|
            0 <= i < accounts.len() && accounts[i].group_id != id ==> (#[trigger] reassigned_accounts(
                accounts,
                id,
            )[i]) == accounts[i],
{
}

// ---------------------------------------------------------------------------
// Executable code
// ---------------------------------------------------------------------------

/// A copy of an account list.
pub fn copy_accounts(v: &Vec<AccountInfo>) -> (r: Vec<AccountInfo>)
    ensures
        account_views(r@) == account_views(v@),
{
    let mut r: Vec<AccountInfo> = Vec::new();
    let n = v.len();
    for i in 0..n
        invariant
            n == v@.len(),
            account_views(r@) == account_views(v@).take(i as int),
    {
        let a = v[i].clone();
        proof {
            lemma_account_views_push(r@, a);
        }
        r.push(a);
        assert(account_views(v@).take(i + 1) =~= account_views(v@).take(i as int).push(
            v@[i as int]@,
        ));
    }
    assert(account_views(v@).take(n as int) =~= account_views(v@));
    r
}

fn has_group_id(groups: &Vec<GroupInfo>, id: &str) -> (r: bool)
    ensures
        r == has_group(group_views(groups@), id@),
{
    let n = groups.len();
    for i in 0..n
        invariant
            n == groups@.len(),
            forall|k: int| 0 <= k < i ==> (#[trigger] groups@[k])@.id != id@,
    {
        if same_text(groups[i].id.as_str(), id) {
            assert(group_views(groups@)[i as int].id == id@);
            return true;
        }
    }
    assert forall|k: int| 0 <= k < group_views(groups@).len() implies (
    #[trigger] group_views(groups@)[k]).id != id@ by {
        assert(group_views(groups@)[k] == groups@[k]@);
    }
    false
}

fn contains_text(keys: &Vec<String>, key: &str) -> (r: bool)
    ensures
        r == string_views(keys@).contains(key@),
{
    let n = keys.len();
    for i in 0..n
        invariant
            n == keys@.len(),
            forall|k: int| 0 <= k < i ==> (#[trigger] keys@[k])@ != key@,
    {
        if same_text(keys[i].as_str(), key) {
            assert(string_views(keys@)[i as int] == key@);
            return true;
        }
    }
    assert forall|k: int| 0 <= k < string_views(keys@).len() implies string_views(keys@)[k]
        != key@ by {
        assert(string_views(keys@)[k] == keys@[k]@);
    }
    false
}

impl BattleNetCore {
    /// Whether the account's username is blank, so that its saved
    /// configuration is worth reading for a name.
    pub fn needs_saved_username(&self, account: &AccountInfo) -> (r: bool)
        ensures
            r == is_blank(account@.username),
    {
        is_blank_text(account.username.as_str())
    }

    /// Repairs a stored account list against the stored group list (put in
    /// order first): an account whose group is empty or missing is filed
    /// under the default group, a blank remark becomes the unnamed-account
    /// text, and a blank username becomes the first name that the
    /// configuration saved with the account remembers, when there is one.
    /// `saved_configs` holds, at each account's position, the text of that
    /// saved configuration (nothing where it could not be read). Tells
    /// whether anything was changed, so that the list has to be stored again.
    pub fn normalize_accounts(
        &self,
        accounts: &mut Vec<AccountInfo>,
        groups: &Vec<GroupInfo>,
        saved_configs: &Vec<Option<String>>,
    ) -> (changed: bool)
        ensures
            account_views(final(accounts)@) == repaired_accounts(
                account_views(old(accounts)@),
                normalized_groups(group_views(groups@)),
                saved_configs@,
            ),
            changed == some_account_needs_repair(
                account_views(old(accounts)@),
                normalized_groups(group_views(groups@)),
                saved_configs@,
            ),
    {
        let mut ordered = copy_groups(groups);
        self.normalize_groups(&mut ordered);
        let ghost gs = group_views(ordered@);
        let ghost old_views = account_views(accounts@);
        let n = accounts.len();
        let mut result: Vec<AccountInfo> = Vec::new();
        let mut changed = false;
        for i in 0..n
            invariant
                n == accounts@.len(),
                old_views == account_views(accounts@),
                gs == group_views(ordered@),
                result@.len() == i,
                forall|k: int|
                    0 <= k < i ==> (#[trigger] result@[k])@ == repaired_account(
                        old_views[k],
                        gs,
                        saved_name_at(saved_configs@, k),
                    ),
                changed == exists|k: int|
                    0 <= k < i && account_needs_repair(
                        old_views[k],
                        gs,
                        saved_name_at(saved_configs@, k),
                    ),
        {
            let a = &accounts[i];
            let ghost av = old_views[i as int];
            assert(av == a@);
            let mut fixed = a.clone();
            let mut this_changed = false;
            if a.group_id.as_str().is_empty() || !has_group_id(&ordered, a.group_id.as_str()) {
                fixed.group_id = default_group_id_text();
                this_changed = true;
            }
            if is_blank_text(a.remark.as_str()) {
                fixed.remark = unnamed_account_text();
                this_changed = true;
            }
            if is_blank_text(a.username.as_str()) && i < saved_configs.len() {
                match &saved_configs[i] {
                    Some(content) => match first_saved_account_name(content.as_str()) {
                        Some(name) => {
                            fixed.username = name;
                            this_changed = true;
                        },
                        None => {},
                    },
                    None => {},
                }
            }
            assert(fixed@ == repaired_account(av, gs, saved_name_at(saved_configs@, i as int)));
            assert(this_changed == account_needs_repair(
                av,
                gs,
                saved_name_at(saved_configs@, i as int),
            ));
            result.push(fixed);
            changed = changed || this_changed;
        }
        assert(account_views(result@) =~= repaired_accounts(old_views, gs, saved_configs@));
        *accounts = result;
        changed
    }

    /// Marks each account as logged in when it has a username whose key is
    /// among the keys of the names the active configuration remembers
    /// (`config` is its text, or nothing when it could not be read).
    pub fn mark_logged_in_accounts(&self, accounts: &mut Vec<AccountInfo>, config: Option<&str>)
        ensures
            account_views(final(accounts)@) == marked_accounts(
                account_views(old(accounts)@),
                logged_in_keys(opt_str_view(config)),
            ),
    {
        let mut keys: Vec<String> = Vec::new();
        let ghost target = logged_in_keys(opt_str_view(config));
        match config {
            Some(content) => {
                let names = battle_net_saved_account_names(content);
                let ghost nv = config_account_names(content@);
                let m = names.len();
                for j in 0..m
                    invariant
                        m == names@.len(),
                        string_views(names@) == nv,
                        string_views(keys@) == Seq::new(j as nat, |q: int| account_name_key(nv[q])),
                {
                    assert(string_views(names@)[j as int] == names@[j as int]@);
                    let key = normalize_account_name(names[j].as_str());
                    proof {
                        lemma_string_views_push(keys@, key);
                    }
                    keys.push(key);
                    assert(string_views(keys@) =~= Seq::new(
                        (j + 1) as nat,
                        |q: int| account_name_key(nv[q]),
                    ));
                }
                assert(string_views(keys@) =~= target);
            },
            None => {
                assert(string_views(keys@) =~= target);
            },
        }
        let ghost old_views = account_views(accounts@);
        let n = accounts.len();
        let mut result: Vec<AccountInfo> = Vec::new();
        for i in 0..n
            invariant
                n == accounts@.len(),
                old_views == account_views(accounts@),
                string_views(keys@) == target,
                result@.len() == i,
                forall|k: int|
                    0 <= k < i ==> (#[trigger] result@[k])@ == marked_account(old_views[k], target),
        {
            let mut a = accounts[i].clone();
            let logged_in = !a.username.as_str().is_empty() && contains_text(
                &keys,
                normalize_account_name(a.username.as_str()).as_str(),
            );
            a.logged_in = logged_in;
            result.push(a);
        }
        assert(account_views(result@) =~= marked_accounts(old_views, target));
        *accounts = result;
    }

    /// Files every account of group `id` under the default group; tells
    /// whether any account was moved.
    pub fn reassign_group_accounts(&self, accounts: &mut Vec<AccountInfo>, id: &str) -> (changed:
        bool)
        ensures
            account_views(final(accounts)@) == reassigned_accounts(
                account_views(old(accounts)@),
                id@,
            ),
            changed == some_account_in_group(account_views(old(accounts)@), id@),
    {
        let ghost old_views = account_views(accounts@);
        let n = accounts.len();
        let mut result: Vec<AccountInfo> = Vec::new();
        let mut changed = false;
        for i in 0..n
            invariant
                n == accounts@.len(),
                old_views == account_views(accounts@),
                result@.len() == i,
                forall|k: int|
                    0 <= k < i ==> (#[trigger] result@[k])@ == reassigned_accounts(old_views, id@)[k],
                changed == exists|k: int| 0 <= k < i && old_views[k].group_id == id@,
        {
            let mut a = accounts[i].clone();
            assert(a@ == old_views[i as int]);
            if same_text(a.group_id.as_str(), id) {
                a.group_id = default_group_id_text();
                changed = true;
            } else {
                assert(old_views[i as int].group_id != id@);
            }
            result.push(a);
        }
        assert(account_views(result@) =~= reassigned_accounts(old_views, id@));
        *accounts = result;
        changed
    }
}

/// The first account name the active configuration remembers, or the
/// empty text when there is none or it could not be read.
pub open spec fn current_name_or_empty(config: Option<Seq<char>>) -> Seq<char> {
    match config {
        Some(c) => match first_account_name(c) {
            Some(n) => n,
            None => Seq::<char>::empty(),
        },
        None => Seq::<char>::empty(),
    }
}

/// The record kept for the account that is being saved.
pub open spec fn new_account_view(
    stored_groups: Seq<GroupView>,
    account_id: Seq<char>,
    remark: Seq<char>,
    group_id: Seq<char>,
    config: Option<Seq<char>>,
    now: Seq<char>,
) -> AccountView {
    AccountView {
        id: account_id,
        remark: fallback_remark(remark),
        username: current_name_or_empty(config),
        last_used: now,
        group_id: valid_group_id(stored_groups, group_id),
        logged_in: false,
    }
}

pub open spec fn opt_str_view(s: Option<&str>) -> Option<Seq<char>> {
    match s {
        Some(s) => Some(s@),
        None => None,
    }
}

impl BattleNetCore {
    fn find_account(&self, accounts: &Vec<AccountInfo>, id: &str) -> (r: usize)
        ensures
            r == account_position(account_views(accounts@), id@, 0),
            r <= accounts@.len(),
            r < accounts@.len() ==> accounts@[r as int]@.id == id@,
    {
        let ghost v = account_views(accounts@);
        proof {
            lemma_account_position(v, id@, 0);
        }
        let n = accounts.len();
        let mut k: usize = 0;
        while k < n && !same_text(accounts[k].id.as_str(), id)
            invariant
                k <= n,
                n == accounts@.len(),
                v == account_views(accounts@),
                account_position(v, id@, k as int) == account_position(v, id@, 0),
            decreases n - k,
        {
            assert(v[k as int] == accounts@[k as int]@);
            k = k + 1;
        }
        if k < n {
            assert(v[k as int] == accounts@[k as int]@);
        }
        k
    }

    /// Files the account `account_id` under the group that
    /// [`BattleNetCore::ensure_valid_group_id`] gives for `group_id`; tells
    /// whether there was such an account (the list is left alone otherwise).
    pub fn move_account_to_group(
        &self,
        accounts: &mut Vec<AccountInfo>,
        groups: &Vec<GroupInfo>,
        account_id: &str,
        group_id: &str,
    ) -> (r: bool)
        ensures
            ({
                let v = account_views(old(accounts)@);
                let k = account_position(v, account_id@, 0);
                &&& r == (k < v.len())
                &&& r ==> account_views(final(accounts)@) == v.update(
                    k,
                    AccountView {
                        group_id: valid_group_id(group_views(groups@), group_id@),
                        ..v[k]
                    },
                )
                &&& !r ==> final(accounts)@ == old(accounts)@
            }),
    {
        let target = self.ensure_valid_group_id(groups, group_id);
        let k = self.find_account(accounts, account_id);
        if k == accounts.len() {
            return false;
        }
        let mut a = accounts[k].clone();
        a.group_id = target;
        let ghost av = a@;
        accounts.set(k, a);
        assert(account_views(accounts@) =~= account_views(old(accounts)@).update(k as int, av));
        true
    }

    /// Gives the account `account_id` the remark kept for `remark` (see
    /// [`fallback_account_name`]); tells whether there was such an account
    /// (the list is left alone otherwise).
    pub fn update_account_info(&self, accounts: &mut Vec<AccountInfo>, account_id: &str, remark: &str) -> (r: bool)
        ensures
            ({
                let v = account_views(old(accounts)@);
                let k = account_position(v, account_id@, 0);
                &&& r == (k < v.len())
                &&& r ==> account_views(final(accounts)@) == v.update(
                    k,
                    AccountView { remark: fallback_remark(remark@), ..v[k] },
                )
                &&& !r ==> final(accounts)@ == old(accounts)@
            }),
    {
        let k = self.find_account(accounts, account_id);
        if k == accounts.len() {
            return false;
        }
        let mut a = accounts[k].clone();
        a.remark = fallback_account_name(remark);
        let ghost av = a@;
        accounts.set(k, a);
        assert(account_views(accounts@) =~= account_views(old(accounts)@).update(k as int, av));
        true
    }

    /// Takes every account with id `id` out of the list; tells whether
    /// there was one (the list is left alone otherwise).
    pub fn remove_account(&self, accounts: &mut Vec<AccountInfo>, id: &str) -> (r: bool)
        ensures
            r == has_account(account_views(old(accounts)@), id@),
            r ==> account_views(final(accounts)@) == without_account(
                account_views(old(accounts)@),
                id@,
            ),
            !r ==> final(accounts)@ == old(accounts)@,
    {
        let ghost v = account_views(accounts@);
        let n = accounts.len();
        let mut rest: Vec<AccountInfo> = Vec::new();
        for i in 0..n
            invariant
                n == accounts@.len(),
                v == account_views(accounts@),
                account_views(rest@) == without_account(v.take(i as int), id@),
        {
            assert(v.take(i + 1).drop_last() =~= v.take(i as int));
            assert(v.take(i + 1).last() == accounts@[i as int]@);
            if !same_text(accounts[i].id.as_str(), id) {
                let a = accounts[i].clone();
                proof {
                    lemma_account_views_push(rest@, a);
                }
                rest.push(a);
            }
        }
        assert(v.take(n as int) =~= v);
        proof {
            lemma_without_account(v, id@);
        }
        if rest.len() == n {
            return false;
        }
        *accounts = rest;
        true
    }

    /// Stamps the account `id` as used at `when`; tells whether there was
    /// such an account (the list is left alone otherwise).
    pub fn set_last_used(&self, accounts: &mut Vec<AccountInfo>, id: &str, when: String) -> (r: bool)
        ensures
            ({
                let v = account_views(old(accounts)@);
                let k = account_position(v, id@, 0);
                &&& r == (k < v.len())
                &&& r ==> account_views(final(accounts)@) == v.update(
                    k,
                    AccountView { last_used: when@, ..v[k] },
                )
                &&& !r ==> final(accounts)@ == old(accounts)@
            }),
    {
        let k = self.find_account(accounts, id);
        if k == accounts.len() {
            return false;
        }
        let mut a = accounts[k].clone();
        a.last_used = when;
        let ghost av = a@;
        accounts.set(k, a);
        assert(account_views(accounts@) =~= account_views(old(accounts)@).update(k as int, av));
        true
    }

    /// Stamps the account `id` as used now; tells whether there was such an
    /// account (the list is left alone otherwise, and the clock is not
    /// read).
    pub fn record_account_use(&self, accounts: &mut Vec<AccountInfo>, id: &str) -> (r: bool)
        ensures
            ({
                let v = account_views(old(accounts)@);
                let k = account_position(v, id@, 0);
                &&& r == (k < v.len())
                &&& r ==> account_views(final(accounts)@).len() == v.len() && utc_rfc3339_text(
                    account_views(final(accounts)@)[k].last_used,
                ) && account_views(final(accounts)@) == v.update(
                    k,
                    AccountView {
                        last_used: account_views(final(accounts)@)[k].last_used,
                        ..v[k]
                    },
                )
                &&& !r ==> final(accounts)@ == old(accounts)@
            }),
    {
        if self.find_account(accounts, id) == accounts.len() {
            return false;
        }
        let now = now_string();
        let ghost stamp = now@;
        let ghost v = account_views(accounts@);
        let r = self.set_last_used(accounts, id, now);
        proof {
            if r {
                let k = account_position(v, id@, 0);
                let w = account_views(accounts@);
                lemma_account_position(v, id@, 0);
                assert(w[k] == AccountView { last_used: stamp, ..v[k] });
                assert(w =~= v.update(k, AccountView { last_used: w[k].last_used, ..v[k] }));
            }
        }
        r
    }

    /// Adds the record of the account being saved: id `account_id`, the
    /// remark kept for `remark`, the first name the active configuration
    /// remembers (`config`, when it could be read) as username, `now` as
    /// time of last use, and the group [`BattleNetCore::ensure_valid_group_id`]
    /// gives for `group_id`.
    pub fn add_account_with(
        &self,
        accounts: &mut Vec<AccountInfo>,
        groups: &Vec<GroupInfo>,
        account_id: String,
        remark: &str,
        group_id: &str,
        config: Option<&str>,
        now: String,
    )
        ensures
            account_views(final(accounts)@) == account_views(old(accounts)@).push(
                new_account_view(
                    group_views(groups@),
                    account_id@,
                    remark@,
                    group_id@,
                    opt_str_view(config),
                    now@,
                ),
            ),
    {
        let username = match config {
            Some(content) => match first_saved_account_name(content) {
                Some(name) => name,
                None => String::new(),
            },
            None => String::new(),
        };
        let account = AccountInfo {
            id: account_id,
            remark: fallback_account_name(remark),
            username,
            last_used: now,
            group_id: self.ensure_valid_group_id(groups, group_id),
            logged_in: false,
        };
        proof {
            lemma_account_views_push(accounts@, account);
        }
        accounts.push(account);
    }

    /// Adds the record of the account being saved, as
    /// [`BattleNetCore::add_account_with`] does, stamped with the current
    /// time.
    pub fn save_current_account_to_group(
        &self,
        accounts: &mut Vec<AccountInfo>,
        groups: &Vec<GroupInfo>,
        account_id: String,
        remark: &str,
        group_id: &str,
        config: Option<&str>,
    )
        ensures
            account_views(final(accounts)@).len() == old(accounts)@.len() + 1,
            utc_rfc3339_text(account_views(final(accounts)@).last().last_used),
            account_views(final(accounts)@) == account_views(old(accounts)@).push(
                new_account_view(
                    group_views(groups@),
                    account_id@,
                    remark@,
                    group_id@,
                    opt_str_view(config),
                    account_views(final(accounts)@).last().last_used,
                ),
            ),
    {
        let now = now_string();
        self.add_account_with(accounts, groups, account_id, remark, group_id, config, now);
    }
}

} // verus!
