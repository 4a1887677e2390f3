//! The records the switcher keeps: saved accounts and the groups they are
//! filed under.
use vstd::prelude::*;

use crate::text::{is_blank, lemma_trimmed_idempotent, lemma_trimmed_unchanged, trim_text, trimmed};

verus! {

/// A saved Battle.net login.
#[derive(Debug, Default)]
pub struct AccountInfo {
    pub id: String,
    pub remark: String,
    pub username: String,
    pub last_used: String,
    pub group_id: String,
    pub logged_in: bool,
}

/// A named group of saved accounts.
#[derive(Debug, Default)]
pub struct GroupInfo {
    pub id: String,
    pub name: String,
    pub created_at: String,
}

/// What an [`AccountInfo`] holds.
pub struct AccountView {
    pub id: Seq<char>,
    pub remark: Seq<char>,
    pub username: Seq<char>,
    pub last_used: Seq<char>,
    pub group_id: Seq<char>,
    pub logged_in: bool,
}

/// What a [`GroupInfo`] holds.
pub struct GroupView {
    pub id: Seq<char>,
    pub name: Seq<char>,
    pub created_at: Seq<char>,
}

impl View for AccountInfo {
    type V = AccountView;

    open spec fn view(&self) -> AccountView {
        AccountView {
            id: self.id@,
            remark: self.remark@,
            username: self.username@,
            last_used: self.last_used@,
            group_id: self.group_id@,
            logged_in: self.logged_in,
        }
    }
}

impl View for GroupInfo {
    type V = GroupView;

    open spec fn view(&self) -> GroupView {
        GroupView { id: self.id@, name: self.name@, created_at: self.created_at@ }
    }
}

impl Clone for AccountInfo {
    fn clone(&self) -> (r: Self)
        ensures
            r@ == self@,
    {
        AccountInfo {
            id: self.id.clone(),
            remark: self.remark.clone(),
            username: self.username.clone(),
            last_used: self.last_used.clone(),
            group_id: self.group_id.clone(),
            logged_in: self.logged_in,
        }
    }
}

impl Clone for GroupInfo {
    fn clone(&self) -> (r: Self)
        ensures
            r@ == self@,
    {
        GroupInfo {
            id: self.id.clone(),
            name: self.name.clone(),
            created_at: self.created_at.clone(),
        }
    }
}

pub open spec fn account_views(v: Seq<AccountInfo>) -> Seq<AccountView> {
    Seq::new(v.len(), |i: int| v[i]@)
}

pub open spec fn group_views(v: Seq<GroupInfo>) -> Seq<GroupView> {
    Seq::new(v.len(), |i: int| v[i]@)
}

/// The id of the group that always exists.
pub open spec fn default_group_id() -> Seq<char> {
    "default"@
}

pub open spec fn default_group_name() -> Seq<char> {
    "默认分组"@
}

pub open spec fn default_group_created_at() -> Seq<char> {
    "0001-01-01T00:00:00"@
}

/// The name a group gets when its own name is blank.
pub open spec fn unnamed_group() -> Seq<char> {
    "未命名分组"@
}

/// The remark an account gets when its own remark is blank.
pub open spec fn unnamed_account() -> Seq<char> {
    "未命名账号"@
}

pub open spec fn default_group_view() -> GroupView {
    GroupView {
        id: default_group_id(),
        name: default_group_name(),
        created_at: default_group_created_at(),
    }
}

/// A remark as it is kept: trimmed, with blank remarks replaced by the
/// unnamed-account text.
pub open spec fn fallback_remark(value: Seq<char>) -> Seq<char> {
    if is_blank(value) {
        unnamed_account()
    } else {
        trimmed(value)
    }
}

pub fn default_group_id_text() -> (r: String)
    ensures
        r@ == default_group_id(),
{
    "default".to_owned()
}

pub fn unnamed_group_text() -> (r: String)
    ensures
        r@ == unnamed_group(),
{
    "未命名分组".to_owned()
}

pub fn unnamed_account_text() -> (r: String)
    ensures
        r@ == unnamed_account(),
{
    "未命名账号".to_owned()
}

/// The group that always exists and always comes first.
pub fn default_group() -> (g: GroupInfo)
    ensures
        g@ == default_group_view(),
{
    GroupInfo {
        id: default_group_id_text(),
        name: "默认分组".to_owned(),
        created_at: "0001-01-01T00:00:00".to_owned(),
    }
}

/// The remark kept for `value`: trimmed, or the unnamed-account text when
/// `value` is blank.
pub fn fallback_account_name(value: &str) -> (r: String)
    ensures
        r@ == fallback_remark(value@),
        !is_blank(r@),
{
    let trimmed_value = trim_text(value);
    proof {
        lemma_remark_never_blank(value@);
    }
    if trimmed_value.as_str().is_empty() {
        unnamed_account_text()
    } else {
        trimmed_value
    }
}

/// The fixed texts are not blank, and have no white space at their ends.
pub proof fn lemma_fixed_texts()
    ensures
        trimmed(unnamed_account()) == unnamed_account(),
        trimmed(unnamed_group()) == unnamed_group(),
        trimmed(default_group_name()) == default_group_name(),
        trimmed(default_group_id()) == default_group_id(),
        unnamed_account().len() > 0,
        unnamed_group().len() > 0,
        default_group_name().len() > 0,
        default_group_id().len() > 0,
{
    reveal_strlit("未命名账号");
    reveal_strlit("未命名分组");
    reveal_strlit("默认分组");
    reveal_strlit("default");
    lemma_trimmed_unchanged(unnamed_account());
    lemma_trimmed_unchanged(unnamed_group());
    lemma_trimmed_unchanged(default_group_name());
    lemma_trimmed_unchanged(default_group_id());
}

/// A kept remark is never blank.
pub proof fn lemma_remark_never_blank(value: Seq<char>)
    ensures
        !is_blank(fallback_remark(value)),
        trimmed(fallback_remark(value)) == fallback_remark(value),
{
    lemma_fixed_texts();
    lemma_trimmed_idempotent(value);
}

} // verus!
