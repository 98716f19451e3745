//! Notifications about background work: what they say, which ones the
//! notification menu keeps, how old they look, and how quickly the menu
//! reconnects to the host.
use vstd::prelude::*;
use crate::text::{decimal, format_decimal, string_from_chars};

verus! {

/// Most notifications the menu keeps.
pub const MAX_VISIBLE_NOTIFICATIONS: usize = 100;

/// Longest wait before reconnecting, in milliseconds.
pub const MAX_RECONNECT_DELAY_MS: u64 = 10000;

#[derive(Clone, Copy, Debug, PartialEq, Eq, Structural)]
pub enum NotificationKind {
    Completed,
    Failed,
    Attention,
}

/// What a notification is about: an agent session or a terminal session.
#[derive(Debug, PartialEq, Eq)]
pub enum NotificationTarget {
    Agent { session_id: String },
    Terminal { session_id: String },
}

#[derive(Debug, PartialEq, Eq)]
pub struct AppNotification {
    pub workspace_id: String,
    pub workspace_slug: String,
    pub workspace_name: String,
    pub target: NotificationTarget,
    pub title: String,
    pub kind: NotificationKind,
    pub message: String,
    pub created_at_ms: u64,
}

pub ghost enum TargetView {
    Agent(Seq<char>),
    Terminal(Seq<char>),
}

pub ghost struct NotificationView {
    pub workspace_id: Seq<char>,
    pub workspace_slug: Seq<char>,
    pub workspace_name: Seq<char>,
    pub target: TargetView,
    pub title: Seq<char>,
    pub kind: NotificationKind,
    pub message: Seq<char>,
    pub created_at_ms: u64,
}

pub open spec fn target_view(t: NotificationTarget) -> TargetView {
    match t {
        NotificationTarget::Agent { session_id } => TargetView::Agent(session_id@),
        NotificationTarget::Terminal { session_id } => TargetView::Terminal(session_id@),
    }
}

pub open spec fn notification_view(n: AppNotification) -> NotificationView {
    NotificationView {
        workspace_id: n.workspace_id@,
        workspace_slug: n.workspace_slug@,
        workspace_name: n.workspace_name@,
        target: target_view(n.target),
        title: n.title@,
        kind: n.kind,
        message: n.message@,
        created_at_ms: n.created_at_ms,
    }
}

pub open spec fn notifications_view(v: Seq<AppNotification>) -> Seq<NotificationView> {
    v.map_values(|n: AppNotification| notification_view(n))
}

/// `2^n`.
pub open spec fn doubling(n: nat) -> nat
    decreases n,
{
    if n == 0 {
        1
    } else {
        2 * doubling((n - 1) as nat)
    }
}

/// The wait before reconnect attempt `attempt`: half a second, doubled for
/// each earlier failed attempt up to five times, and never more than ten
/// seconds.
pub open spec fn reconnect_delay(attempt: u8) -> nat {
    let shift: nat = if attempt == 0 {
        0
    } else if attempt - 1 > 5 {
        5
    } else {
        (attempt - 1) as nat
    };
    let delay = 500 * doubling(shift);
    if delay > MAX_RECONNECT_DELAY_MS {
        MAX_RECONNECT_DELAY_MS as nat
    } else {
        delay
    }
}

/// The wait before reconnect attempt `attempt` (`reconnect_delay_ms`).
pub fn reconnect_delay_ms(attempt: u8) -> (r: u64)
    ensures
        r == reconnect_delay(attempt),
{
    let shift: u8 = if attempt == 0 {
        0
    } else if attempt - 1 > 5 {
        5
    } else {
        attempt - 1
    };
    let mut factor: u64 = 1;
    let mut k: u8 = 0;
    while k < shift
        invariant
            k <= shift <= 5,
            factor == doubling(k as nat),
            factor <= 32,
        decreases shift - k,
    {
        proof {
            assert(doubling((k + 1) as nat) == 2 * doubling(k as nat));
            assert(k < 5);
            lemma_doubling_bound(k as nat);
        }
        factor = factor * 2;
        k = k + 1;
    }
    let delay = 500 * factor;
    if delay > MAX_RECONNECT_DELAY_MS {
        MAX_RECONNECT_DELAY_MS
    } else {
        delay
    }
}

proof fn lemma_doubling_bound(n: nat)
    requires
        n < 5,
    ensures
        doubling(n) <= 16,
{
    reveal_with_fuel(doubling, 6);
}

proof fn lemma_doubling_mono(a: nat, b: nat)
    requires
        a <= b,
    ensures
        doubling(a) <= doubling(b),
    decreases b,
{
    if b > a {
        lemma_doubling_mono(a, (b - 1) as nat);
    }
}

/// Reconnecting never waits less than half a second or more than ten
/// seconds, and a later attempt never waits less than an earlier one.
pub proof fn reconnect_delays_grow_within_bounds(a: u8, b: u8)
    requires
        a <= b,
    ensures
        500 <= reconnect_delay(a) <= MAX_RECONNECT_DELAY_MS,
        reconnect_delay(a) <= reconnect_delay(b),
{
    let sa: nat = if a == 0 { 0 } else if a - 1 > 5 { 5 } else { (a - 1) as nat };
    let sb: nat = if b == 0 { 0 } else if b - 1 > 5 { 5 } else { (b - 1) as nat };
    lemma_doubling_mono(sa, sb);
    lemma_doubling_mono(0, sa);
}

/// How long ago `created_at_ms` was at `now_ms`: `now` under a minute,
/// then minutes, hours and days.
pub open spec fn age_label(now_ms: u64, created_at_ms: u64) -> Seq<char> {
    let minutes = (if now_ms > created_at_ms { now_ms - created_at_ms } else { 0 }) / 60000;
    if minutes == 0 {
        "now"@
    } else if minutes <= 59 {
        decimal(minutes as nat) + "m"@
    } else if minutes <= 1439 {
        decimal((minutes / 60) as nat) + "h"@
    } else {
        decimal((minutes / 1440) as nat) + "d"@
    }
}

/// How long ago a notification came, as the menu shows it.
pub fn format_age(now_ms: u64, created_at_ms: u64) -> (r: String)
    ensures
        r@ == age_label(now_ms, created_at_ms),
{
    let elapsed = if now_ms > created_at_ms {
        now_ms - created_at_ms
    } else {
        0
    };
    let minutes = elapsed / 60000;
    if minutes == 0 {
        return "now".to_owned();
    }
    let (count, unit) = if minutes <= 59 {
        (minutes, 'm')
    } else if minutes <= 1439 {
        (minutes / 60, 'h')
    } else {
        (minutes / 1440, 'd')
    };
    let mut text = format_decimal(count);
    text.push(unit);
    proof {
        reveal_strlit("m");
        reveal_strlit("h");
        reveal_strlit("d");
        assert(text@ =~= age_label(now_ms, created_at_ms));
    }
    string_from_chars(&text)
}

/// `SystemTime::now()` as milliseconds since the Unix epoch, or `None`
/// before the epoch or past the `u64` range. It reads the clock: nothing
/// is claimed of the value.
#[verifier::external_body]
pub(crate) fn clock_ms() -> Option<u64> {
    std::time::SystemTime::now().duration_since(std::time::UNIX_EPOCH).ok().and_then(|d| u64::try_from(d.as_millis()).ok())
}

/// How long ago a notification came, by the clock (`notification_age`); a
/// clock it cannot read counts as no time passed.
pub fn notification_age(created_at_ms: u64) -> (r: String)
    ensures
        exists|now: u64| r@ == age_label(now, created_at_ms),
{
    let now = match clock_ms() {
        Some(n) => n,
        None => created_at_ms,
    };
    format_age(now, created_at_ms)
}

/// Whether `n` is about what the user is looking at.
pub open spec fn viewed(n: NotificationView, viewing: Option<(Seq<char>, TargetView)>) -> bool {
    match viewing {
        Some((workspace_id, target)) => n.workspace_id == workspace_id && n.target == target,
        None => false,
    }
}

fn same_target(a: &NotificationTarget, b: &NotificationTarget) -> (r: bool)
    ensures
        r == (target_view(*a) == target_view(*b)),
{
    match (a, b) {
        (NotificationTarget::Agent { session_id: x }, NotificationTarget::Agent { session_id: y }) => *x == *y,
        (NotificationTarget::Terminal { session_id: x }, NotificationTarget::Terminal { session_id: y }) => *x == *y,
        _ => false,
    }
}

/// Whether a notification is about what the user is looking at
/// (`is_viewed`).
pub fn is_viewed(notification: &AppNotification, viewing: Option<(&String, &NotificationTarget)>) -> (r: bool)
    ensures
        r == viewed(notification_view(*notification), match viewing {
            Some((w, t)) => Some((w@, target_view(*t))),
            None => None,
        }),
{
    match viewing {
        Some((workspace_id, target)) => notification.workspace_id == *workspace_id && same_target(
            &notification.target,
            target,
        ),
        None => false,
    }
}


/// Whether two notifications are about the same thing.
pub open spec fn same_subject(a: NotificationView, b: NotificationView) -> bool {
    a.workspace_id == b.workspace_id && a.target == b.target
}

/// `items` without those about the same thing as `n`.
pub open spec fn without_subject(items: Seq<NotificationView>, n: NotificationView) -> Seq<NotificationView>
    decreases items.len(),
{
    if items.len() == 0 {
        Seq::empty()
    } else {
        let rest = without_subject(items.drop_last(), n);
        if same_subject(items.last(), n) {
            rest
        } else {
            rest.push(items.last())
        }
    }
}

/// The first position at or after `k` whose notification is older than
/// `created_at_ms`, or the length.
pub open spec fn first_older(items: Seq<NotificationView>, created_at_ms: u64, k: int) -> int
    decreases items.len() - k,
{
    if k < 0 || k >= items.len() {
        items.len() as int
    } else if items[k].created_at_ms < created_at_ms {
        k
    } else {
        first_older(items, created_at_ms, k + 1)
    }
}

/// `items` newest first; notifications of the same time keep their order
/// (a stable sort by descending time).
pub open spec fn newest_first(items: Seq<NotificationView>) -> Seq<NotificationView>
    decreases items.len(),
{
    if items.len() == 0 {
        Seq::empty()
    } else {
        let sorted = newest_first(items.drop_last());
        sorted.insert(first_older(sorted, items.last().created_at_ms, 0), items.last())
    }
}

/// The notifications after `n` arrives: it replaces any about the same
/// thing, the list is ordered newest first, and only the newest are kept.
pub open spec fn upserted(items: Seq<NotificationView>, n: NotificationView) -> Seq<NotificationView> {
    let all = newest_first(without_subject(items, n).push(n));
    if all.len() > MAX_VISIBLE_NOTIFICATIONS {
        all.take(MAX_VISIBLE_NOTIFICATIONS as int)
    } else {
        all
    }
}

proof fn lemma_newest_first_len(items: Seq<NotificationView>)
    ensures
        newest_first(items).len() == items.len(),
    decreases items.len(),
{
    if items.len() > 0 {
        lemma_newest_first_len(items.drop_last());
        let sorted = newest_first(items.drop_last());
        lemma_first_older(sorted, items.last().created_at_ms, 0);
    }
}

proof fn lemma_first_older(items: Seq<NotificationView>, created_at_ms: u64, k: int)
    requires
        0 <= k <= items.len(),
    ensures
        k <= first_older(items, created_at_ms, k) <= items.len(),
        forall|i: int| k <= i < first_older(items, created_at_ms, k) ==> #[trigger] items[i].created_at_ms >= created_at_ms,
        first_older(items, created_at_ms, k) < items.len() ==> items[first_older(items, created_at_ms, k)].created_at_ms
            < created_at_ms,
    decreases items.len() - k,
{
    if k < items.len() && items[k].created_at_ms >= created_at_ms {
        lemma_first_older(items, created_at_ms, k + 1);
    }
}

fn copy_notification(n: &AppNotification) -> (r: AppNotification)
    ensures
        notification_view(r) == notification_view(*n),
{
    AppNotification {
        workspace_id: n.workspace_id.clone(),
        workspace_slug: n.workspace_slug.clone(),
        workspace_name: n.workspace_name.clone(),
        target: match &n.target {
            NotificationTarget::Agent { session_id } => NotificationTarget::Agent { session_id: session_id.clone() },
            NotificationTarget::Terminal { session_id } => NotificationTarget::Terminal { session_id: session_id.clone() },
        },
        title: n.title.clone(),
        kind: n.kind,
        message: n.message.clone(),
        created_at_ms: n.created_at_ms,
    }
}

/// `kept` newest first, notifications of the same time in their order.
pub fn sorted_newest_first(kept: &Vec<AppNotification>) -> (sorted: Vec<AppNotification>)
    ensures
        notifications_view(sorted@) == newest_first(notifications_view(kept@)),
{
    let ghost all = notifications_view(kept@);
    let mut sorted: Vec<AppNotification> = Vec::new();
    let mut j: usize = 0;
    proof {
        assert(all.take(0) =~= Seq::<NotificationView>::empty());
        assert(notifications_view(sorted@) =~= Seq::<NotificationView>::empty());
    }
    while j < kept.len()
        invariant
            j <= kept@.len(),
            all == notifications_view(kept@),
            notifications_view(sorted@) == newest_first(all.take(j as int)),
            sorted@.len() == j,
        decreases kept@.len() - j,
    {
        proof {
            assert(all.take(j + 1).drop_last() =~= all.take(j as int));
            assert(all.take(j + 1).last() == notification_view(kept@[j as int]));
        }
        let ghost sv = notifications_view(sorted@);
        let time = kept[j].created_at_ms;
        let mut p: usize = 0;
        while p < sorted.len() && !(sorted[p].created_at_ms < time)
            invariant
                p <= sorted@.len(),
                sv == notifications_view(sorted@),
                first_older(sv, time, 0) == first_older(sv, time, p as int),
            decreases sorted@.len() - p,
        {
            proof {
                assert(sv[p as int] == notification_view(sorted@[p as int]));
            }
            p = p + 1;
        }
        proof {
            if p < sorted@.len() {
                assert(sv[p as int] == notification_view(sorted@[p as int]));
            }
            assert(first_older(sv, time, p as int) == p);
        }
        sorted.insert(p, copy_notification(&kept[j]));
        proof {
            assert(notifications_view(sorted@) =~= sv.insert(p as int, notification_view(kept@[j as int])));
        }
        j = j + 1;
    }
    proof {
        assert(all.take(kept@.len() as int) =~= all);
    }
    sorted
}

/// Takes a new notification into the menu's list (`upsert`).
pub fn upsert(items: &mut Vec<AppNotification>, notification: AppNotification)
    ensures
        notifications_view(final(items)@) == upserted(notifications_view(old(items)@), notification_view(notification)),
{
    let ghost iv = notifications_view(items@);
    let ghost nv = notification_view(notification);
    let mut kept: Vec<AppNotification> = Vec::new();
    let mut k: usize = 0;
    proof {
        assert(iv.take(0) =~= Seq::<NotificationView>::empty());
        assert(notifications_view(kept@) =~= Seq::<NotificationView>::empty());
    }
    while k < items.len()
        invariant
            k <= items@.len(),
            iv == notifications_view(items@),
            nv == notification_view(notification),
            notifications_view(kept@) == without_subject(iv.take(k as int), nv),
        decreases items@.len() - k,
    {
        proof {
            assert(iv.take(k + 1).drop_last() =~= iv.take(k as int));
            assert(iv.take(k + 1).last() == notification_view(items@[k as int]));
        }
        let same = items[k].workspace_id == notification.workspace_id && same_target(&items[k].target, &notification.target);
        if !same {
            let ghost before = notifications_view(kept@);
            kept.push(copy_notification(&items[k]));
            proof {
                assert(notifications_view(kept@) =~= before.push(notification_view(items@[k as int])));
            }
        }
        k = k + 1;
    }
    proof {
        assert(iv.take(items@.len() as int) =~= iv);
    }
    let ghost before_push = notifications_view(kept@);
    kept.push(notification);
    let ghost all = notifications_view(kept@);
    proof {
        assert(all =~= before_push.push(nv));
    }
    let mut sorted = sorted_newest_first(&kept);
    if sorted.len() > MAX_VISIBLE_NOTIFICATIONS {
        sorted.truncate(MAX_VISIBLE_NOTIFICATIONS);
        proof {
            assert(notifications_view(sorted@) =~= newest_first(all).take(MAX_VISIBLE_NOTIFICATIONS as int));
        }
    }
    *items = sorted;
}

/// Newest first: no notification comes before a newer one.
pub open spec fn newest_before_older(items: Seq<NotificationView>) -> bool {
    forall|i: int, j: int| 0 <= i < j < items.len() ==> items[i].created_at_ms >= items[j].created_at_ms
}

proof fn lemma_newest_first(items: Seq<NotificationView>)
    ensures
        newest_before_older(newest_first(items)),
        forall|x: NotificationView| newest_first(items).contains(x) ==> items.contains(x),
    decreases items.len(),
{
    if items.len() > 0 {
        let init = items.drop_last();
        let x = items.last();
        lemma_newest_first(init);
        let sorted = newest_first(init);
        let k = first_older(sorted, x.created_at_ms, 0);
        lemma_first_older(sorted, x.created_at_ms, 0);
        let r = sorted.insert(k, x);
        assert forall|i: int, j: int| 0 <= i < j < r.len() implies r[i].created_at_ms >= r[j].created_at_ms by {
            if j < k {
                assert(r[i] == sorted[i] && r[j] == sorted[j]);
            } else if j == k {
                assert(r[i] == sorted[i]);
            } else if i < k {
                assert(r[i] == sorted[i] && r[j] == sorted[j - 1]);
                assert(sorted[i].created_at_ms >= sorted[j - 1].created_at_ms);
            } else if i == k {
                assert(r[j] == sorted[j - 1]);
                assert(sorted[k].created_at_ms < x.created_at_ms);
                if j - 1 > k {
                    assert(sorted[k].created_at_ms >= sorted[j - 1].created_at_ms);
                }
            } else {
                assert(r[i] == sorted[i - 1] && r[j] == sorted[j - 1]);
            }
        }
        assert forall|y: NotificationView| r.contains(y) implies items.contains(y) by {
            let i = choose|i: int| 0 <= i < r.len() && r[i] == y;
            if i == k {
                assert(items[items.len() - 1] == y);
            } else {
                let si = if i < k { i } else { i - 1 };
                assert(r[i] == sorted[si]);
                assert(sorted.contains(y));
                assert(init.contains(y));
                let ii = choose|ii: int| 0 <= ii < init.len() && init[ii] == y;
                assert(init[ii] == items[ii]);
                assert(items[ii] == y);
            }
        }
    }
}

proof fn lemma_without_subject(items: Seq<NotificationView>, n: NotificationView)
    ensures
        forall|x: NotificationView| without_subject(items, n).contains(x) ==> !same_subject(x, n),
    decreases items.len(),
{
    if items.len() > 0 {
        lemma_without_subject(items.drop_last(), n);
        let rest = without_subject(items.drop_last(), n);
        if !same_subject(items.last(), n) {
            assert forall|x: NotificationView| rest.push(items.last()).contains(x) implies !same_subject(x, n) by {
                let i = choose|i: int| 0 <= i < rest.push(items.last()).len() && rest.push(items.last())[i] == x;
                if i < rest.len() {
                    assert(rest.contains(x));
                }
            }
        }
    }
}

/// The menu keeps at most its limit, newest first, and never two
/// notifications about what a new one is about: the new one replaces them.
pub proof fn menu_keeps_one_notification_per_subject(items: Seq<NotificationView>, n: NotificationView)
    ensures
        upserted(items, n).len() <= MAX_VISIBLE_NOTIFICATIONS,
        newest_before_older(upserted(items, n)),
        forall|x: NotificationView| upserted(items, n).contains(x) && same_subject(x, n) ==> x == n,
{
    let base = without_subject(items, n).push(n);
    lemma_newest_first(base);
    lemma_without_subject(items, n);
    let all = newest_first(base);
    assert forall|x: NotificationView| upserted(items, n).contains(x) && same_subject(x, n) implies x == n by {
        let i = choose|i: int| 0 <= i < upserted(items, n).len() && upserted(items, n)[i] == x;
        assert(all[i] == x);
        assert(all.contains(x));
        assert(base.contains(x));
        let b = choose|b: int| 0 <= b < base.len() && base[b] == x;
        if b < base.len() - 1 {
            assert(without_subject(items, n).contains(x));
        }
    }
}

fn copy_target(t: &NotificationTarget) -> (r: NotificationTarget)
    ensures
        target_view(r) == target_view(*t),
{
    match t {
        NotificationTarget::Agent { session_id } => NotificationTarget::Agent { session_id: session_id.clone() },
        NotificationTarget::Terminal { session_id } => NotificationTarget::Terminal { session_id: session_id.clone() },
    }
}

/// A request to the host to clear the notifications about a target of a
/// workspace.
#[derive(Debug, PartialEq, Eq)]
pub struct ClearRequest {
    pub workspace_id: String,
    pub target: NotificationTarget,
}

pub open spec fn clear_view(c: ClearRequest) -> (Seq<char>, TargetView) {
    (c.workspace_id@, target_view(c.target))
}

pub open spec fn clears_view(v: Seq<ClearRequest>) -> Seq<(Seq<char>, TargetView)> {
    v.map_values(|c: ClearRequest| clear_view(c))
}

/// `items` without the notifications about `target` of `workspace_id`.
pub open spec fn not_about(items: Seq<NotificationView>, workspace_id: Seq<char>, target: TargetView) -> Seq<NotificationView>
    decreases items.len(),
{
    if items.len() == 0 {
        Seq::empty()
    } else {
        let rest = not_about(items.drop_last(), workspace_id, target);
        if items.last().workspace_id == workspace_id && items.last().target == target {
            rest
        } else {
            rest.push(items.last())
        }
    }
}

/// How a snapshot from the host is taken in: the notifications about what
/// is being viewed are cleared with the host, and of the others the first
/// `MAX_VISIBLE_NOTIFICATIONS` are shown.
pub open spec fn snapshot_split(
    ns: Seq<NotificationView>,
    viewing: Option<(Seq<char>, TargetView)>,
) -> (Seq<(Seq<char>, TargetView)>, Seq<NotificationView>)
    decreases ns.len(),
{
    if ns.len() == 0 {
        (Seq::empty(), Seq::empty())
    } else {
        let (cleared, visible) = snapshot_split(ns.drop_last(), viewing);
        let n = ns.last();
        if viewed(n, viewing) {
            (cleared.push((n.workspace_id, n.target)), visible)
        } else if visible.len() < MAX_VISIBLE_NOTIFICATIONS {
            (cleared, visible.push(n))
        } else {
            (cleared, visible)
        }
    }
}

/// The notification menu's state: the notifications it shows and what the
/// user is looking at.
#[derive(Debug)]
pub struct NotificationCenterState {
    pub items: Vec<AppNotification>,
    pub viewing: Option<(String, NotificationTarget)>,
}

pub open spec fn viewing_view(v: Option<(String, NotificationTarget)>) -> Option<(Seq<char>, TargetView)> {
    match v {
        Some((w, t)) => Some((w@, target_view(t))),
        None => None,
    }
}

/// The next reconnect attempt's number after a failure: one more, at most
/// eight.
pub fn next_attempt(attempt: u8) -> (r: u8)
    ensures
        r == if attempt >= 7 { 8 } else { attempt + 1 },
{
    let n = attempt.saturating_add(1);
    if n > 8 {
        8
    } else {
        n
    }
}

impl NotificationCenterState {
    /// Nothing shown, nothing viewed.
    pub fn new() -> (r: Self)
        ensures
            r.items@.len() == 0,
            r.viewing is None,
    {
        NotificationCenterState { items: Vec::new(), viewing: None }
    }

    fn remove_about(&mut self, workspace_id: &String, target: &NotificationTarget)
        ensures
            notifications_view(final(self).items@) == not_about(
                notifications_view(old(self).items@),
                workspace_id@,
                target_view(*target),
            ),
            final(self).viewing == old(self).viewing,
    {
        let ghost iv = notifications_view(self.items@);
        let mut kept: Vec<AppNotification> = Vec::new();
        let mut k: usize = 0;
        while k < self.items.len()
            invariant
                k <= self.items@.len(),
                iv == notifications_view(self.items@),
                notifications_view(kept@) == not_about(iv.take(k as int), workspace_id@, target_view(*target)),
            decreases self.items@.len() - k,
        {
            proof {
                assert(iv.take(k + 1).drop_last() =~= iv.take(k as int));
                assert(iv.take(k + 1).last() == notification_view(self.items@[k as int]));
            }
            let same = self.items[k].workspace_id == *workspace_id && same_target(&self.items[k].target, target);
            if !same {
                let ghost before = notifications_view(kept@);
                kept.push(copy_notification(&self.items[k]));
                proof {
                    assert(notifications_view(kept@) =~= before.push(notification_view(self.items@[k as int])));
                }
            }
            k = k + 1;
        }
        proof {
            assert(iv.take(self.items@.len() as int) =~= iv);
        }
        self.items = kept;
    }

    /// Drops the notifications about `target` of `workspace_id` and asks
    /// the host to clear them too.
    pub fn clear(&mut self, workspace_id: String, target: NotificationTarget) -> (r: ClearRequest)
        ensures
            notifications_view(final(self).items@) == not_about(
                notifications_view(old(self).items@),
                workspace_id@,
                target_view(target),
            ),
            final(self).viewing == old(self).viewing,
            clear_view(r) == (workspace_id@, target_view(target)),
    {
        self.remove_about(&workspace_id, &target);
        ClearRequest { workspace_id, target }
    }

    /// Starts viewing `target` of `workspace_id` (or nothing there): what
    /// is viewed is cleared.
    pub fn view(&mut self, workspace_id: String, target: Option<NotificationTarget>) -> (r: Option<ClearRequest>)
        ensures
            match target {
                Some(t) => viewing_view(final(self).viewing) == Some((workspace_id@, target_view(t))) && (r matches Some(c)
                    && clear_view(c) == (workspace_id@, target_view(t))) && notifications_view(final(self).items@)
                    == not_about(notifications_view(old(self).items@), workspace_id@, target_view(t)),
                None => final(self).viewing is None && r is None && final(self).items == old(self).items,
            },
    {
        match target {
            Some(t) => {
                self.viewing = Some((workspace_id.clone(), copy_target(&t)));
                Some(self.clear(workspace_id, t))
            },
            None => {
                self.viewing = None;
                None
            },
        }
    }

    /// Stops viewing anything of `workspace_id`.
    pub fn stop_viewing(&mut self, workspace_id: &str)
        ensures
            final(self).items == old(self).items,
            (old(self).viewing matches Some((w, _)) && w@ == workspace_id@) ==> final(self).viewing is None,
            !(old(self).viewing matches Some((w, _)) && w@ == workspace_id@) ==> final(self).viewing == old(self).viewing,
    {
        let current = match &self.viewing {
            Some((w, _)) => crate::text::seq_eq(&crate::text::chars_of(w.as_str()), &crate::text::chars_of(workspace_id)),
            None => false,
        };
        if current {
            self.viewing = None;
        }
    }

    /// Drops every notification and asks the host to clear each.
    pub fn clear_all(&mut self) -> (r: Vec<ClearRequest>)
        ensures
            final(self).items@.len() == 0,
            final(self).viewing == old(self).viewing,
            clears_view(r@) == notifications_view(old(self).items@).map_values(
                |n: NotificationView| (n.workspace_id, n.target),
            ),
    {
        let mut r: Vec<ClearRequest> = Vec::new();
        let mut k: usize = 0;
        while k < self.items.len()
            invariant
                k <= self.items@.len(),
                clears_view(r@) == notifications_view(self.items@).take(k as int).map_values(
                    |n: NotificationView| (n.workspace_id, n.target),
                ),
            decreases self.items@.len() - k,
        {
            let ghost before = clears_view(r@);
            let n = &self.items[k];
            r.push(ClearRequest { workspace_id: n.workspace_id.clone(), target: copy_target(&n.target) });
            proof {
                assert(clears_view(r@) =~= before.push((n.workspace_id@, target_view(n.target))));
                assert(notifications_view(self.items@).take(k + 1).map_values(
                    |n: NotificationView| (n.workspace_id, n.target),
                ) =~= notifications_view(self.items@).take(k as int).map_values(
                    |n: NotificationView| (n.workspace_id, n.target),
                ).push((n.workspace_id@, target_view(n.target))));
            }
            k = k + 1;
        }
        proof {
            assert(notifications_view(self.items@).take(self.items@.len() as int) =~= notifications_view(self.items@));
        }
        self.items = Vec::new();
        r
    }

    /// Takes in the host's snapshot: what is being viewed is cleared with
    /// the host, the first `MAX_VISIBLE_NOTIFICATIONS` others are shown
    /// newest first.
    pub fn receive_snapshot(&mut self, notifications: Vec<AppNotification>) -> (r: Vec<ClearRequest>)
        ensures
            final(self).viewing == old(self).viewing,
            clears_view(r@) == snapshot_split(notifications_view(notifications@), viewing_view(old(self).viewing)).0,
            notifications_view(final(self).items@) == newest_first(
                snapshot_split(notifications_view(notifications@), viewing_view(old(self).viewing)).1,
            ),
    {
        let ghost nv = notifications_view(notifications@);
        let ghost vw = viewing_view(self.viewing);
        let mut cleared: Vec<ClearRequest> = Vec::new();
        let mut visible: Vec<AppNotification> = Vec::new();
        let mut k: usize = 0;
        while k < notifications.len()
            invariant
                k <= notifications@.len(),
                nv == notifications_view(notifications@),
                vw == viewing_view(self.viewing),
                (clears_view(cleared@), notifications_view(visible@)) == snapshot_split(nv.take(k as int), vw),
            decreases notifications@.len() - k,
        {
            proof {
                assert(nv.take(k + 1).drop_last() =~= nv.take(k as int));
                assert(nv.take(k + 1).last() == notification_view(notifications@[k as int]));
            }
            let n = &notifications[k];
            let seen = match &self.viewing {
                Some((w, t)) => is_viewed(n, Some((w, t))),
                None => is_viewed(n, None),
            };
            if seen {
                let ghost before = clears_view(cleared@);
                cleared.push(ClearRequest { workspace_id: n.workspace_id.clone(), target: copy_target(&n.target) });
                proof {
                    assert(clears_view(cleared@) =~= before.push((n.workspace_id@, target_view(n.target))));
                }
            } else if visible.len() < MAX_VISIBLE_NOTIFICATIONS {
                let ghost before = notifications_view(visible@);
                visible.push(copy_notification(n));
                proof {
                    assert(notifications_view(visible@) =~= before.push(notification_view(*n)));
                }
            }
            k = k + 1;
        }
        proof {
            assert(nv.take(notifications@.len() as int) =~= nv);
        }
        self.items = sorted_newest_first(&visible);
        cleared
    }

    /// Takes in a notification the host sends: one about what is viewed is
    /// cleared with the host, any other joins the list.
    pub fn receive_upsert(&mut self, notification: AppNotification) -> (r: Option<ClearRequest>)
        ensures
            final(self).viewing == old(self).viewing,
            viewed(notification_view(notification), viewing_view(old(self).viewing)) ==> (r matches Some(c) && clear_view(c)
                == (notification.workspace_id@, target_view(notification.target))) && final(self).items == old(self).items,
            !viewed(notification_view(notification), viewing_view(old(self).viewing)) ==> r is None && notifications_view(
                final(self).items@,
            ) == upserted(notifications_view(old(self).items@), notification_view(notification)),
    {
        let seen = match &self.viewing {
            Some((w, t)) => is_viewed(&notification, Some((w, t))),
            None => is_viewed(&notification, None),
        };
        if seen {
            Some(ClearRequest { workspace_id: notification.workspace_id, target: notification.target })
        } else {
            upsert(&mut self.items, notification);
            None
        }
    }

    /// The host removed the notifications about `target` of
    /// `workspace_id`.
    pub fn receive_removed(&mut self, workspace_id: &String, target: &NotificationTarget)
        ensures
            notifications_view(final(self).items@) == not_about(
                notifications_view(old(self).items@),
                workspace_id@,
                target_view(*target),
            ),
            final(self).viewing == old(self).viewing,
    {
        self.remove_about(workspace_id, target);
    }
}

} // verus!
