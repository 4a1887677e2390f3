//! The tray menu: which accounts it lists, in which order and under which
//! labels, and what a click on one of its items asks for.
use vstd::prelude::*;

use crate::records::{account_views, unnamed_account, unnamed_account_text, AccountInfo, AccountView};
use crate::text::{chars_of, is_blank, is_blank_text, same_text, string_from_chars};

verus! {

// ---------------------------------------------------------------------------
// Specifications
// ---------------------------------------------------------------------------

/// `a` comes before `b` in the order of strings: character by character,
/// a proper prefix first.
pub open spec fn text_less(a: Seq<char>, b: Seq<char>) -> bool
    decreases a.len(),
{
    if a.len() == 0 {
        b.len() > 0
    } else if b.len() == 0 {
        false
    } else if a[0] != b[0] {
        a[0] < b[0]
    } else {
        text_less(a.drop_first(), b.drop_first())
    }
}

/// `a` inserted into `sorted` (most recently used first) after every account
/// used at the same time or later.
pub open spec fn insert_by_recency(sorted: Seq<AccountView>, a: AccountView) -> Seq<AccountView>
    decreases sorted.len(),
{
    if sorted.len() == 0 {
        seq![a]
    } else if text_less(sorted[0].last_used, a.last_used) {
        seq![a] + sorted
    } else {
        seq![sorted[0]] + insert_by_recency(sorted.drop_first(), a)
    }
}

/// The accounts ordered by time of last use, most recent first; accounts
/// used at the same time keep their order.
pub open spec fn by_recency(accounts: Seq<AccountView>) -> Seq<AccountView>
    decreases accounts.len(),
{
    if accounts.len() == 0 {
        Seq::<AccountView>::empty()
    } else {
        insert_by_recency(by_recency(accounts.drop_last()), accounts.last())
    }
}

/// Every account is used no later than the one before it.
pub open spec fn sorted_by_recency(s: Seq<AccountView>) -> bool {
    forall|i: int, j: int| 0 <= i < j < s.len() ==> !text_less(#[trigger] s[i].last_used, #[trigger] s[j].last_used)
}

/// The first index at or after `i` whose account was used before `a`.
pub open spec fn recency_slot(sorted: Seq<AccountView>, a: AccountView, i: int) -> int
    decreases sorted.len() - i,
{
    if 0 <= i < sorted.len() {
        if text_less(sorted[i].last_used, a.last_used) {
            i
        } else {
            recency_slot(sorted, a, i + 1)
        }
    } else {
        sorted.len() as int
    }
}

/// The prefix of the menu ids of account items.
pub open spec fn account_item_prefix() -> Seq<char> {
    "switch-account:"@
}

pub open spec fn starts_with(s: Seq<char>, p: Seq<char>) -> bool {
    p.len() <= s.len() && s.subrange(0, p.len() as int) == p
}

/// `s` with every leading repetition of `p` taken off.
pub open spec fn strip_prefixes(s: Seq<char>, p: Seq<char>) -> Seq<char>
    decreases s.len(),
{
    if p.len() > 0 && starts_with(s, p) {
        strip_prefixes(s.subrange(p.len() as int, s.len() as int), p)
    } else {
        s
    }
}

/// What a click on a tray menu item asks for.
pub enum TrayCommand {
    ShowWindow,
    Quit,
    SwitchAccount(String),
    Ignore,
}

/// An item of the tray's account menu: the id it reports when clicked, and
/// its label.
pub struct TrayItem {
    pub id: String,
    pub label: String,
}

/// The label an account is listed under: its remark, or the unnamed-account
/// text when the remark is blank.
pub open spec fn account_label(a: AccountView) -> Seq<char> {
    if is_blank(a.remark) {
        unnamed_account()
    } else {
        a.remark
    }
}

pub open spec fn tray_command_for(id: Seq<char>) -> TrayCommandView {
    if id == "show"@ {
        TrayCommandView::ShowWindow
    } else if id == "quit"@ {
        TrayCommandView::Quit
    } else if starts_with(id, account_item_prefix()) {
        TrayCommandView::SwitchAccount(strip_prefixes(id, account_item_prefix()))
    } else {
        TrayCommandView::Ignore
    }
}

/// What a [`TrayCommand`] asks for.
pub enum TrayCommandView {
    ShowWindow,
    Quit,
    SwitchAccount(Seq<char>),
    Ignore,
}

impl View for TrayCommand {
    type V = TrayCommandView;

    open spec fn view(&self) -> TrayCommandView {
        match self {
            TrayCommand::ShowWindow => TrayCommandView::ShowWindow,
            TrayCommand::Quit => TrayCommandView::Quit,
            TrayCommand::SwitchAccount(id) => TrayCommandView::SwitchAccount(id@),
            TrayCommand::Ignore => TrayCommandView::Ignore,
        }
    }
}

pub open spec fn item_views(items: Seq<TrayItem>) -> Seq<(Seq<char>, Seq<char>)> {
    Seq::new(items.len(), |i: int| (items[i].id@, items[i].label@))
}

/// The tray's account menu: a placeholder item when there is no account,
/// otherwise one item per account, most recently used first.
pub open spec fn tray_items_for(accounts: Seq<AccountView>) -> Seq<(Seq<char>, Seq<char>)> {
    if accounts.len() == 0 {
        seq![("accounts-empty"@, "暂无账号"@)]
    } else {
        let sorted = by_recency(accounts);
        Seq::new(
            sorted.len(),
            |i: int| (account_item_prefix() + sorted[i].id, account_label(sorted[i])),
        )
    }
}

// ---------------------------------------------------------------------------
// Lemmas
// ---------------------------------------------------------------------------

pub proof fn lemma_recency_slot(sorted: Seq<AccountView>, a: AccountView, i: int)
    requires
        0 <= i <= sorted.len(),
    ensures
        i <= recency_slot(sorted, a, i) <= sorted.len(),
        insert_by_recency(sorted.subrange(i, sorted.len() as int), a) == sorted.subrange(
            i,
            recency_slot(sorted, a, i),
        ).push(a) + sorted.subrange(recency_slot(sorted, a, i), sorted.len() as int),
    decreases sorted.len() - i,
{
    let tail = sorted.subrange(i, sorted.len() as int);
    if i < sorted.len() {
        assert(tail[0] == sorted[i]);
        if text_less(sorted[i].last_used, a.last_used) {
            assert(insert_by_recency(tail, a) =~= sorted.subrange(i, i).push(a) + tail);
        } else {
            lemma_recency_slot(sorted, a, i + 1);
            assert(tail.drop_first() =~= sorted.subrange(i + 1, sorted.len() as int));
            let p = recency_slot(sorted, a, i);
            assert(insert_by_recency(tail, a) =~= sorted.subrange(i, p).push(a)
                + sorted.subrange(p, sorted.len() as int));
        }
    } else {
        assert(insert_by_recency(tail, a) =~= sorted.subrange(i, i).push(a) + sorted.subrange(
            i,
            i,
        ));
    }
}

pub proof fn lemma_text_less_irreflexive(a: Seq<char>)
    ensures
        !text_less(a, a),
    decreases a.len(),
{
    if a.len() > 0 {
        lemma_text_less_irreflexive(a.drop_first());
    }
}

pub proof fn lemma_text_less_transitive(a: Seq<char>, b: Seq<char>, c: Seq<char>)
    requires
        text_less(a, b),
        text_less(b, c),
    ensures
        text_less(a, c),
    decreases a.len(),
{
    if a.len() > 0 && b.len() > 0 && c.len() > 0 && a[0] == b[0] && b[0] == c[0] {
        lemma_text_less_transitive(a.drop_first(), b.drop_first(), c.drop_first());
    }
}

/// Of two different texts one comes before the other.
pub proof fn lemma_text_less_total(a: Seq<char>, b: Seq<char>)
    ensures
        a == b || text_less(a, b) || text_less(b, a),
    decreases a.len(),
{
    if a.len() > 0 && b.len() > 0 && a[0] == b[0] {
        lemma_text_less_total(a.drop_first(), b.drop_first());
        if a.drop_first() == b.drop_first() {
            assert(a =~= seq![a[0]] + a.drop_first());
            assert(b =~= seq![b[0]] + b.drop_first());
        }
    } else if a.len() == 0 && b.len() == 0 {
        assert(a =~= b);
    }
}

/// Inserting into a sorted list keeps it sorted.
pub proof fn lemma_insert_sorted(sorted: Seq<AccountView>, a: AccountView)
    requires
        sorted_by_recency(sorted),
    ensures
        sorted_by_recency(insert_by_recency(sorted, a)),
        insert_by_recency(sorted, a).to_multiset() == sorted.to_multiset().insert(a),
{
    lemma_recency_slot(sorted, a, 0);
    assert(sorted.subrange(0, sorted.len() as int) =~= sorted);
    let p = recency_slot(sorted, a, 0);
    let r = insert_by_recency(sorted, a);
    lemma_recency_slot_props(sorted, a, 0);
    assert(r =~= sorted.insert(p, a));
    assert forall|i: int, j: int| 0 <= i < j < r.len() implies !text_less(
        #[trigger] r[i].last_used,
        #[trigger] r[j].last_used,
    ) by {
        if i < p && j < p {
            assert(r[i] == sorted[i] && r[j] == sorted[j]);
        } else if i < p && j == p {
            assert(r[i] == sorted[i]);
        } else if i < p && j > p {
            assert(r[i] == sorted[i] && r[j] == sorted[j - 1]);
        } else if i == p {
            assert(r[j] == sorted[j - 1]);
            if text_less(a.last_used, sorted[j - 1].last_used) {
                // sorted[p] was used before a, and sorted[j - 1] no later than sorted[p]
                assert(text_less(sorted[p].last_used, a.last_used));
                lemma_text_less_transitive(sorted[p].last_used, a.last_used, sorted[j - 1].last_used);
                if j - 1 > p {
                    assert(!text_less(sorted[p].last_used, sorted[j - 1].last_used));
                } else {
                    lemma_text_less_irreflexive(sorted[p].last_used);
                }
            }
        } else {
            assert(r[i] == sorted[i - 1] && r[j] == sorted[j - 1]);
        }
    }
    vstd::seq_lib::to_multiset_insert(sorted, p, a);
}

pub proof fn lemma_recency_slot_props(sorted: Seq<AccountView>, a: AccountView, i: int)
    requires
        0 <= i <= sorted.len(),
    ensures
        recency_slot(sorted, a, i) < sorted.len() ==> text_less(
            sorted[recency_slot(sorted, a, i)].last_used,
            a.last_used,
        ),
        forall|k: int|
            i <= k < recency_slot(sorted, a, i) ==> !text_less(
                (#[trigger] sorted[k]).last_used,
                a.last_used,
            ),
    decreases sorted.len() - i,
{
    if i < sorted.len() && !text_less(sorted[i].last_used, a.last_used) {
        lemma_recency_slot_props(sorted, a, i + 1);
    }
}

/// Ordering by recency keeps every account, and leaves the list sorted.
pub proof fn lemma_by_recency(accounts: Seq<AccountView>)
    ensures
        sorted_by_recency(by_recency(accounts)),
        by_recency(accounts).to_multiset() == accounts.to_multiset(),
        by_recency(accounts).len() == accounts.len(),
    decreases accounts.len(),
{
    if accounts.len() > 0 {
        let d = accounts.drop_last();
        lemma_by_recency(d);
        lemma_insert_sorted(by_recency(d), accounts.last());
        assert(accounts =~= d.push(accounts.last()));
        vstd::seq_lib::to_multiset_build(d, accounts.last());
        vstd::seq_lib::to_multiset_len(by_recency(accounts));
        vstd::seq_lib::to_multiset_len(accounts);
    } else {
        assert(by_recency(accounts) =~= accounts);
    }
}

/// A click on an account item asks to switch to that very account, as long
/// as the account's id does not itself start with the item prefix.
pub proof fn lemma_tray_item_round_trip(id: Seq<char>)
    requires
        !starts_with(id, account_item_prefix()),
    ensures
        tray_command_for(account_item_prefix() + id) == TrayCommandView::SwitchAccount(id),
{
    reveal_strlit("switch-account:");
    reveal_strlit("show");
    reveal_strlit("quit");
    let p = account_item_prefix();
    let s = p + id;
    assert(s.subrange(0, p.len() as int) =~= p);
    assert(s.subrange(p.len() as int, s.len() as int) =~= id);
    assert(s != "show"@) by {
        assert(s.len() != "show"@.len());
    }
    assert(s != "quit"@) by {
        assert(s.len() != "quit"@.len());
    }
    assert(strip_prefixes(id, p) == id);
    assert(strip_prefixes(s, p) == strip_prefixes(id, p));
}

/// The menu lists the accounts themselves: one item per account, each item
/// reporting the item prefix followed by its account's id, and labelled
/// with that account's remark, or with the unnamed-account text when the
/// remark is blank.
pub proof fn lemma_tray_items_label_remarks(accounts: Seq<AccountView>)
    requires
        accounts.len() > 0,
    ensures
        tray_items_for(accounts).len() == accounts.len(),
        forall|i: int|
            0 <= i < accounts.len() ==> exists|j: int|
                0 <= j < accounts.len() && #[trigger] tray_items_for(accounts)[i] == (
                    account_item_prefix() + accounts[j].id,
                    if is_blank(accounts[j].remark) {
                        unnamed_account()
                    } else {
                        accounts[j].remark
                    },
                ),
        forall|j: int|
            0 <= j < accounts.len() ==> exists|i: int|
                0 <= i < accounts.len() && tray_items_for(accounts)[i] == (
                    account_item_prefix() + (#[trigger] accounts[j]).id,
                    if is_blank(accounts[j].remark) {
                        unnamed_account()
                    } else {
                        accounts[j].remark
                    },
                ),
{
    broadcast use vstd::seq_lib::group_to_multiset_ensures;

    let sorted = by_recency(accounts);
    let items = tray_items_for(accounts);
    lemma_by_recency(accounts);
    assert forall|i: int| 0 <= i < accounts.len() implies exists|j: int|
        0 <= j < accounts.len() && #[trigger] items[i] == (
            account_item_prefix() + accounts[j].id,
            if is_blank(accounts[j].remark) {
                unnamed_account()
            } else {
                accounts[j].remark
            },
        ) by {
        assert(sorted.contains(sorted[i]));
        assert(sorted.to_multiset().count(sorted[i]) > 0);
        assert(accounts.contains(sorted[i]));
        let j = choose|j: int| 0 <= j < accounts.len() && accounts[j] == sorted[i];
        assert(items[i] == (account_item_prefix() + accounts[j].id, account_label(accounts[j])));
    }
    assert forall|j: int| 0 <= j < accounts.len() implies exists|i: int|
        0 <= i < accounts.len() && items[i] == (
            account_item_prefix() + (#[trigger] accounts[j]).id,
            if is_blank(accounts[j].remark) {
                unnamed_account()
            } else {
                accounts[j].remark
            },
        ) by {
        assert(accounts.contains(accounts[j]));
        assert(accounts.to_multiset().count(accounts[j]) > 0);
        assert(sorted.contains(accounts[j]));
        let i = choose|i: int| 0 <= i < sorted.len() && sorted[i] == accounts[j];
        assert(items[i] == (account_item_prefix() + sorted[i].id, account_label(sorted[i])));
    }
}

/// Two accounts that agree on all the menu may show: id, remark and time of
/// last use.
pub open spec fn same_listing(a: AccountView, b: AccountView) -> bool {
    a.id == b.id && a.remark == b.remark && a.last_used == b.last_used
}

pub open spec fn same_listings(xs: Seq<AccountView>, ys: Seq<AccountView>) -> bool {
    xs.len() == ys.len() && forall|i: int| 0 <= i < xs.len() ==> same_listing(#[trigger] xs[i], ys[i])
}

proof fn lemma_insert_same_listings(xs: Seq<AccountView>, ys: Seq<AccountView>, a: AccountView, b: AccountView)
    requires
        same_listings(xs, ys),
        same_listing(a, b),
    ensures
        same_listings(insert_by_recency(xs, a), insert_by_recency(ys, b)),
    decreases xs.len(),
{
    if xs.len() > 0 {
        assert(same_listing(xs[0], ys[0]));
        let xd = xs.drop_first();
        let yd = ys.drop_first();
        assert(same_listings(xd, yd)) by {
            assert forall|i: int| 0 <= i < xd.len() implies same_listing(#[trigger] xd[i], yd[i]) by {
                assert(same_listing(xs[i + 1], ys[i + 1]));
            }
        }
        if text_less(xs[0].last_used, a.last_used) {
            let rx = seq![a] + xs;
            let ry = seq![b] + ys;
            assert forall|i: int| 0 <= i < rx.len() implies same_listing(#[trigger] rx[i], ry[i]) by {
                if i > 0 {
                    assert(rx[i] == xs[i - 1] && ry[i] == ys[i - 1]);
                }
            }
        } else {
            lemma_insert_same_listings(xd, yd, a, b);
            let ix = insert_by_recency(xd, a);
            let iy = insert_by_recency(yd, b);
            let rx = seq![xs[0]] + ix;
            let ry = seq![ys[0]] + iy;
            assert forall|i: int| 0 <= i < rx.len() implies same_listing(#[trigger] rx[i], ry[i]) by {
                if i > 0 {
                    assert(rx[i] == ix[i - 1] && ry[i] == iy[i - 1]);
                }
            }
        }
    }
}

proof fn lemma_by_recency_same_listings(xs: Seq<AccountView>, ys: Seq<AccountView>)
    requires
        same_listings(xs, ys),
    ensures
        same_listings(by_recency(xs), by_recency(ys)),
    decreases xs.len(),
{
    if xs.len() > 0 {
        let xd = xs.drop_last();
        let yd = ys.drop_last();
        assert(same_listings(xd, yd)) by {
            assert forall|i: int| 0 <= i < xd.len() implies same_listing(#[trigger] xd[i], yd[i]) by {
                assert(same_listing(xs[i], ys[i]));
            }
        }
        lemma_by_recency_same_listings(xd, yd);
        assert(same_listing(xs[xs.len() - 1], ys[ys.len() - 1]));
        lemma_insert_same_listings(by_recency(xd), by_recency(yd), xs.last(), ys.last());
    }
}

/// The menu does not depend on usernames, nor on whether an account is
/// logged in or which group holds it: two account lists that agree, account
/// by account, on id, remark and time of last use give the same menu.
pub proof fn lemma_tray_ignores_usernames(xs: Seq<AccountView>, ys: Seq<AccountView>)
    requires
        xs.len() == ys.len(),
        forall|i: int|
            0 <= i < xs.len() ==> (#[trigger] xs[i]).id == ys[i].id && xs[i].remark == ys[i].remark
                && xs[i].last_used == ys[i].last_used,
    ensures
        tray_items_for(xs) == tray_items_for(ys),
{
    assert(same_listings(xs, ys)) by {
        assert forall|i: int| 0 <= i < xs.len() implies same_listing(#[trigger] xs[i], ys[i]) by {}
    }
    lemma_by_recency_same_listings(xs, ys);
    lemma_by_recency(xs);
    lemma_by_recency(ys);
    let sx = by_recency(xs);
    let sy = by_recency(ys);
    if xs.len() > 0 {
        assert forall|i: int| 0 <= i < sx.len() implies #[trigger] tray_items_for(xs)[i] == tray_items_for(
            ys,
        )[i] by {
            assert(same_listing(sx[i], sy[i]));
        }
        assert(tray_items_for(xs) =~= tray_items_for(ys));
    } else {
        assert(tray_items_for(xs) =~= tray_items_for(ys));
    }
}

// ---------------------------------------------------------------------------
// Executable code
// ---------------------------------------------------------------------------

/// Whether `a` comes before `b` in the order of strings.
pub fn text_before(a: &str, b: &str) -> (r: bool)
    ensures
        r == text_less(a@, b@),
{
    let x = chars_of(a);
    let y = chars_of(b);
    let mut i: usize = 0;
    assert(x@.subrange(0, x@.len() as int) =~= x@);
    assert(y@.subrange(0, y@.len() as int) =~= y@);
    while i < x.len() && i < y.len() && x[i] == y[i]
        invariant
            i <= x@.len(),
            i <= y@.len(),
            x@ == a@,
            y@ == b@,
            text_less(a@, b@) == text_less(x@.subrange(i as int, x@.len() as int), y@.subrange(i as int, y@.len() as int)),
        decreases x@.len() - i,
    {
        let ghost xs = x@.subrange(i as int, x@.len() as int);
        let ghost ys = y@.subrange(i as int, y@.len() as int);
        assert(xs.drop_first() =~= x@.subrange(i + 1, x@.len() as int));
        assert(ys.drop_first() =~= y@.subrange(i + 1, y@.len() as int));
        i = i + 1;
    }
    let ghost xs = x@.subrange(i as int, x@.len() as int);
    let ghost ys = y@.subrange(i as int, y@.len() as int);
    if i == x.len() {
        i < y.len()
    } else if i == y.len() {
        false
    } else {
        assert(xs[0] == x@[i as int] && ys[0] == y@[i as int]);
        x[i] < y[i]
    }
}

/// The accounts ordered by time of last use, most recent first; accounts
/// used at the same time keep their order.
pub fn accounts_by_recency(accounts: &Vec<AccountInfo>) -> (r: Vec<AccountInfo>)
    ensures
        account_views(r@) == by_recency(account_views(accounts@)),
{
    let ghost v = account_views(accounts@);
    let n = accounts.len();
    let mut sorted: Vec<AccountInfo> = Vec::new();
    for i in 0..n
        invariant
            n == accounts@.len(),
            v == account_views(accounts@),
            account_views(sorted@) == by_recency(v.take(i as int)),
    {
        let a = accounts[i].clone();
        let ghost sv = account_views(sorted@);
        let m = sorted.len();
        let mut p: usize = 0;
        while p < m && !text_before(sorted[p].last_used.as_str(), a.last_used.as_str())
            invariant
                p <= m,
                m == sorted@.len(),
                sv == account_views(sorted@),
                recency_slot(sv, a@, p as int) == recency_slot(sv, a@, 0),
            decreases m - p,
        {
            assert(sv[p as int] == sorted@[p as int]@);
            p = p + 1;
        }
        if p < m {
            assert(sv[p as int] == sorted@[p as int]@);
        }
        proof {
            lemma_recency_slot(sv, a@, 0);
            assert(sv.subrange(0, sv.len() as int) =~= sv);
            assert(v.take(i + 1).drop_last() =~= v.take(i as int));
            assert(v.take(i + 1).last() == a@);
        }
        sorted.insert(p, a);
        assert(account_views(sorted@) =~= sv.subrange(0, p as int).push(a@) + sv.subrange(
            p as int,
            sv.len() as int,
        ));
    }
    assert(v.take(n as int) =~= v);
    sorted
}

/// The menu id of the item for account `account_id`: the item prefix
/// followed by the id.
pub fn tray_item_id(account_id: &str) -> (r: String)
    ensures
        r@ == account_item_prefix() + account_id@,
{
    let mut cs = chars_of("switch-account:");
    let mut rest = chars_of(account_id);
    cs.append(&mut rest);
    string_from_chars(&cs)
}

/// The items of the tray's account menu: a placeholder when there is no
/// account, otherwise one item per account, most recently used first,
/// labelled with the account's remark (or the unnamed-account text when the
/// remark is blank).
pub fn tray_menu_items(accounts: &Vec<AccountInfo>) -> (r: Vec<TrayItem>)
    ensures
        item_views(r@) == tray_items_for(account_views(accounts@)),
{
    let mut items: Vec<TrayItem> = Vec::new();
    if accounts.len() == 0 {
        items.push(TrayItem { id: "accounts-empty".to_owned(), label: "暂无账号".to_owned() });
        assert(item_views(items@) =~= tray_items_for(account_views(accounts@)));
        return items;
    }
    let sorted = accounts_by_recency(accounts);
    let ghost sv = account_views(sorted@);
    proof {
        lemma_by_recency(account_views(accounts@));
    }
    let n = sorted.len();
    for i in 0..n
        invariant
            n == sorted@.len(),
            sv == account_views(sorted@),
            items@.len() == i,
            forall|k: int|
                0 <= k < i ==> (#[trigger] items@[k]).id@ == account_item_prefix() + sv[k].id
                    && items@[k].label@ == account_label(sv[k]),
    {
        let a = &sorted[i];
        assert(sv[i as int] == a@);
        let label = if is_blank_text(a.remark.as_str()) {
            unnamed_account_text()
        } else {
            a.remark.clone()
        };
        items.push(TrayItem { id: tray_item_id(a.id.as_str()), label });
    }
    assert(item_views(items@) =~= tray_items_for(account_views(accounts@)));
    items
}

/// Whether `s` starts with `p` at position `at`.
fn starts_with_at(s: &Vec<char>, p: &Vec<char>, at: usize) -> (r: bool)
    requires
        at <= s@.len(),
    ensures
        r == starts_with(s@.subrange(at as int, s@.len() as int), p@),
{
    let ghost rest = s@.subrange(at as int, s@.len() as int);
    if p.len() > s.len() - at {
        return false;
    }
    let n = p.len();
    let m = s.len();
    for k in 0..n
        invariant
            n == p@.len(),
            m == s@.len(),
            at + n <= m,
            rest == s@.subrange(at as int, s@.len() as int),
            forall|q: int| 0 <= q < k ==> s@[at + q] == p@[q],
    {
        if s[at + k] != p[k] {
            assert(rest.subrange(0, n as int)[k as int] != p@[k as int]);
            return false;
        }
    }
    assert(rest.subrange(0, n as int) =~= p@);
    true
}

/// What a click on the tray menu item `event_id` asks for: `show` shows
/// the window, `quit` quits, an account item switches to the account whose
/// id follows the item prefix (every leading repetition of the prefix taken
/// off), and anything else is ignored.
pub fn tray_command(event_id: &str) -> (r: TrayCommand)
    ensures
        r@ == tray_command_for(event_id@),
{
    if same_text(event_id, "show") {
        return TrayCommand::ShowWindow;
    }
    if same_text(event_id, "quit") {
        return TrayCommand::Quit;
    }
    let s = chars_of(event_id);
    let p = chars_of("switch-account:");
    proof {
        reveal_strlit("switch-account:");
    }
    if !starts_with_at(&s, &p, 0) {
        assert(s@.subrange(0, s@.len() as int) =~= s@);
        return TrayCommand::Ignore;
    }
    assert(s@.subrange(0, s@.len() as int) =~= s@);
    let n = s.len();
    let mut at: usize = 0;
    while starts_with_at(&s, &p, at)
        invariant
            at <= n,
            n == s@.len(),
            p@ == account_item_prefix(),
            p@.len() > 0,
            strip_prefixes(s@.subrange(at as int, n as int), p@) == strip_prefixes(s@, p@),
        decreases n - at,
    {
        let ghost rest = s@.subrange(at as int, n as int);
        assert(rest.subrange(p@.len() as int, rest.len() as int) =~= s@.subrange(
            at + p@.len(),
            n as int,
        ));
        at = at + p.len();
    }
    let mut id: Vec<char> = Vec::new();
    for k in at..n
        invariant
            at <= n,
            n == s@.len(),
            id@ == s@.subrange(at as int, k as int),
    {
        id.push(s[k]);
    }
    TrayCommand::SwitchAccount(string_from_chars(&id))
}

} // verus!
