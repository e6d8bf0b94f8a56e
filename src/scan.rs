//! The invite check of one guild as a state machine.
//!
//! The scan walks the categories of a snapshot in order and, within each, its
//! channels in order. The caller performs what `next_action` asks for (reading
//! the cache and fetching messages, looking an invite up, posting a report)
//! and hands the outcome back. Codes already checked are classified from the
//! records read when the scan started; the others wait for a lookup.

use vstd::prelude::*;
use crate::extract::{extract_codes_from_messages, message_codes, views};
use crate::invite::{invite_views, Invite, InviteLookup, InviteView, Validation};
use crate::setting::Rejection;
use crate::topology::{sorted_by_position, CachedChannel, CategoryPlan, ChannelKind};

verus! {

/// How many of a channel's most recent messages a scan reads.
pub const MESSAGE_WINDOW: usize = 15;

/// Whether the messages a cache holds for a channel are enough for a scan,
/// so that no fetch is needed.
pub fn cache_satisfies(cached_messages: usize) -> (r: bool)
    ensures
        r == (cached_messages >= MESSAGE_WINDOW),
{
    cached_messages >= MESSAGE_WINDOW
}

/// Good and bad invites counted in one channel.
#[derive(Clone, Copy, Debug, PartialEq, Eq)]
pub struct ChannelResult {
    pub bad: u64,
    pub channel_id: u64,
    pub good: u64,
}

impl ChannelResult {
    pub fn new(channel_id: u64) -> (r: ChannelResult)
        ensures
            r == (ChannelResult { bad: 0, channel_id, good: 0 }),
    {
        ChannelResult { bad: 0, channel_id, good: 0 }
    }
}

/// The outcome of one category: a result per scanned channel, the number of
/// channels that had vanished, and the channels that need a manual check.
#[derive(Debug)]
pub struct CategoryResult {
    pub category_id: u64,
    pub channel_results: Vec<ChannelResult>,
    pub issues: u64,
    pub manual: Vec<u64>,
}

impl CategoryResult {
    pub fn new(category_id: u64) -> (r: CategoryResult)
        ensures
            r.category_id == category_id,
            r.channel_results@.len() == 0,
            r.issues == 0,
            r.manual@.len() == 0,
    {
        CategoryResult { category_id, channel_results: Vec::new(), issues: 0, manual: Vec::new() }
    }
}

/// The category results of a scan so far, and when it started (ms).
#[derive(Debug)]
pub struct InviteCheck {
    pub category_results: Vec<CategoryResult>,
    pub start_time: u64,
}

impl InviteCheck {
    pub fn new(start_time: u64) -> (r: InviteCheck)
        ensures
            r.category_results@.len() == 0,
            r.start_time == start_time,
    {
        InviteCheck { category_results: Vec::new(), start_time }
    }
}

/// What the cache says of a channel when the scan reaches it.
#[derive(Clone, Copy, Debug, PartialEq, Eq)]
pub enum ChannelAccess {
    /// The channel is no longer in the cache.
    Missing,
    /// The bot may not view the channel or read its history.
    NoPermission,
    /// The channel can be read.
    Readable,
}

/// What the scan needs done next.
#[derive(Debug)]
pub enum Action {
    /// Report the access to a channel and, when `fetch` is set and the channel
    /// is readable, its most recent messages.
    Probe { channel_id: u64, fetch: bool },
    /// Look this code up and store the outcome.
    Validate { code: String },
    /// The current category is complete: finish it and post its report.
    EmitCategory,
    /// Every category is done: post the summary.
    Finish,
}

/// Totals of a finished scan. Percentages are in hundredths of a percent,
/// rounded to the nearest.
#[derive(Clone, Copy, Debug, PartialEq, Eq)]
pub struct Summary {
    pub elapsed_ms: u64,
    pub total_channels: u64,
    pub total_invites: u64,
    pub total_bad: u64,
    pub total_good: u64,
    pub bad_basis_points: u64,
    pub good_basis_points: u64,
}

/// `part` out of `total`, in hundredths of a percent, rounded to the nearest.
pub open spec fn basis_points(part: u64, total: u64) -> u64 {
    ((part * 20000 + total) / (2 * total)) as u64
}

/// A text channel that has a message to read.
pub open spec fn has_history(c: CachedChannel) -> bool {
    c.kind is Text && c.kind->last_message_id is Some
}

pub open spec fn find_known_from(known: Seq<InviteView>, code: Seq<char>, i: int) -> Option<
    InviteView,
>
    decreases known.len() - i,
{
    if i < 0 || i >= known.len() {
        None
    } else if known[i].code == code {
        Some(known[i])
    } else {
        find_known_from(known, code, i + 1)
    }
}

/// The first record of `known` for `code`.
pub open spec fn find_known(known: Seq<InviteView>, code: Seq<char>) -> Option<InviteView> {
    find_known_from(known, code, 0)
}

/// Codes whose record is checked and good at `now`.
pub open spec fn known_good(known: Seq<InviteView>, now: u64) -> spec_fn(Seq<char>) -> bool {
    |c: Seq<char>|
        match find_known(known, c) {
            Some(r) => r.is_checked && r.good_at(now),
            None => false,
        }
}

/// Codes whose record is checked and not good at `now`.
pub open spec fn known_bad(known: Seq<InviteView>, now: u64) -> spec_fn(Seq<char>) -> bool {
    |c: Seq<char>|
        match find_known(known, c) {
            Some(r) => r.is_checked && !r.good_at(now),
            None => false,
        }
}

/// Codes without a checked record: they must be looked up.
pub open spec fn needs_lookup(known: Seq<InviteView>) -> spec_fn(Seq<char>) -> bool {
    |c: Seq<char>|
        match find_known(known, c) {
            Some(r) => !r.is_checked,
            None => true,
        }
}

fn basis_points_exec(part: u64, total: u64) -> (r: u64)
    requires
        1 <= total,
        part <= total,
    ensures
        r == basis_points(part, total),
        r <= 10000,
{
    let num: u128 = part as u128 * 20000 + total as u128;
    let den: u128 = 2 * total as u128;
    let q: u128 = num / den;
    assert(q <= 10000) by (nonlinear_arith)
        requires
            q == num / den,
            num == part * 20000 + total,
            den == 2 * total,
            part <= total,
            total >= 1,
    ;
    q as u64
}

/// Some record known to be validated was last written before `last_check`.
pub open spec fn refreshed_before(known: Seq<InviteView>, last_check: u64) -> bool {
    exists|i: int|
        0 <= i < known.len() && (#[trigger] known[i]).is_valid is Some && known[i].updated_at
            < last_check
}

/// Decides, from the guild's records (`None` when the store could not be
/// read) and the time of the last scan, whether the scan may use them.
pub fn check_known_codes(known: Option<&Vec<Invite>>, last_check: Option<u64>) -> (r: Result<
    (),
    Rejection,
>)
    ensures
        r == match known {
            None => Err(Rejection::NoCodes),
            Some(k) => if last_check is Some && refreshed_before(
                invite_views(k@),
                last_check->0,
            ) {
                Err(Rejection::StillRefreshing)
            } else {
                Ok(())
            },
        },
{
    let k = match known {
        None => {
            return Err(Rejection::NoCodes);
        },
        Some(k) => k,
    };
    let lc = match last_check {
        None => {
            return Ok(());
        },
        Some(lc) => lc,
    };
    let ghost kv = invite_views(k@);
    let mut i: usize = 0;
    while i < k.len()
        invariant
            i <= k@.len(),
            kv == invite_views(k@),
            known == Some(k),
            last_check == Some(lc),
            forall|t: int| 0 <= t < i ==> !((#[trigger] kv[t]).is_valid is Some && kv[t].updated_at < lc),
        decreases k@.len() - i,
    {
        assert(kv[i as int] == k@[i as int]@);
        if k[i].is_valid.is_some() && k[i].updated_at < lc {
            assert(kv[i as int].is_valid is Some && kv[i as int].updated_at < lc);
            return Err(Rejection::StillRefreshing);
        }
        i = i + 1;
    }
    Ok(())
}

/// The parts of a scan that a step over one channel leaves alone.
pub open spec fn same_frame(a: &Scan, b: &Scan) -> bool {
    &&& b.plans == a.plans
    &&& b.known == a.known
    &&& b.now == a.now
    &&& b.category == a.category
    &&& b.check == a.check
}

/// The step closed the current channel and moved to the next one.
pub open spec fn moved_on(a: &Scan, b: &Scan) -> bool {
    &&& b.channel == a.channel + 1
    &&& b.pending@.len() == 0
    &&& b.total_channels == a.total_channels.saturating_add(1)
}

pub open spec fn result_pushed(a: &CategoryResult, b: &CategoryResult, r: ChannelResult) -> bool {
    &&& b.category_id == a.category_id
    &&& b.channel_results@ == a.channel_results@.push(r)
    &&& b.issues == a.issues
    &&& b.manual@ == a.manual@
}

pub open spec fn manual_pushed(a: &CategoryResult, b: &CategoryResult, channel_id: u64) -> bool {
    &&& b.category_id == a.category_id
    &&& b.channel_results@ == a.channel_results@
    &&& b.issues == a.issues
    &&& b.manual@ == a.manual@.push(channel_id)
}

pub open spec fn issue_added(a: &CategoryResult, b: &CategoryResult) -> bool {
    &&& b.category_id == a.category_id
    &&& b.channel_results@ == a.channel_results@
    &&& b.issues == a.issues.saturating_add(1)
    &&& b.manual@ == a.manual@
}

/// A channel closed without counting any invite.
pub open spec fn closed_uncounted(a: &Scan, b: &Scan) -> bool {
    &&& moved_on(a, b)
    &&& b.total_good == a.total_good
    &&& b.total_bad == a.total_bad
}

/// A channel whose counts are final is added to the category and the totals.
pub open spec fn closed_counted(a: &Scan, b: &Scan, r: ChannelResult) -> bool {
    &&& result_pushed(&a.current, &b.current, r)
    &&& moved_on(a, b)
    &&& b.total_good == a.total_good.saturating_add(r.good)
    &&& b.total_bad == a.total_bad.saturating_add(r.bad)
}

/// The channel stays open: its counts so far are `r`, and lookups remain.
pub open spec fn kept_open(a: &Scan, b: &Scan, r: ChannelResult) -> bool {
    &&& b.counting == r
    &&& b.channel == a.channel
    &&& b.current == a.current
    &&& b.total_channels == a.total_channels
    &&& b.total_good == a.total_good
    &&& b.total_bad == a.total_bad
}

/// The messages `texts` of the current channel were read: known codes are
/// counted, the others wait for a lookup.
pub open spec fn read_messages(a: &Scan, b: &Scan, texts: Seq<Seq<char>>) -> bool {
    let cs = message_codes(texts);
    let kv = a.known_views();
    let counted = ChannelResult {
        bad: cs.filter(known_bad(kv, a.now)).len() as u64,
        channel_id: a.channel_plan().id,
        good: cs.filter(known_good(kv, a.now)).len() as u64,
    };
    &&& views(b.pending@) == cs.filter(needs_lookup(kv))
    &&& if b.pending@.len() == 0 {
        closed_counted(a, b, counted)
    } else {
        kept_open(a, b, counted)
    }
}

/// The scan of one guild.
pub struct Scan {
    /// The snapshot, in report order.
    pub plans: Vec<CategoryPlan>,
    /// The guild's records as read when the scan started.
    pub known: Vec<Invite>,
    /// When the scan started (ms); expiry is judged against it.
    pub now: u64,
    /// Index of the category being scanned.
    pub category: usize,
    /// Index, in the current category, of the channel being scanned.
    pub channel: usize,
    /// The result of the current category so far.
    pub current: CategoryResult,
    /// The finished categories.
    pub check: InviteCheck,
    /// Codes of the current channel that still await a lookup.
    pub pending: Vec<String>,
    /// The counts of the channel whose codes await a lookup.
    pub counting: ChannelResult,
    pub total_channels: u64,
    pub total_good: u64,
    pub total_bad: u64,
    /// For each result of the current category, the index of its channel.
    pub result_slots: Ghost<Seq<int>>,
    /// The same indices for each finished category.
    pub finished_slots: Ghost<Seq<Seq<int>>>,
}

/// `slots` picks, in increasing order, channels of `channels` below `bound`,
/// and the results carry those channels' ids.
pub open spec fn follows_plan(
    results: Seq<ChannelResult>,
    slots: Seq<int>,
    channels: Seq<CachedChannel>,
    bound: int,
) -> bool {
    &&& slots.len() == results.len()
    &&& bound <= channels.len()
    &&& forall|i: int| 0 <= i < slots.len() ==> 0 <= #[trigger] slots[i] < bound
    &&& forall|i: int, j: int| 0 <= i < j < slots.len() ==> slots[i] < slots[j]
    &&& forall|i: int|
        0 <= i < slots.len() ==> (#[trigger] results[i]).channel_id == channels[slots[i]].id
}

/// The reports of a scan follow its plan: the `i`-th finished category is the
/// `i`-th planned one, and two channel lines of a category appear in the order
/// of their channels in the plan, so by position when the plan is sorted.
pub proof fn lemma_reports_follow_plan(scan: &Scan, i: int, a: int, b: int)
    requires
        scan.wf(),
        0 <= i < scan.category,
        0 <= a < b < scan.check.category_results@[i].channel_results@.len(),
    ensures
        scan.check.category_results@[i].category_id == scan.plans@[i].category.id,
        exists|j: int, k: int|
            0 <= j < k < scan.plans@[i].channels@.len() && scan.check.category_results@[i].channel_results@[a].channel_id
                == scan.plans@[i].channels@[j].id
                && scan.check.category_results@[i].channel_results@[b].channel_id
                == scan.plans@[i].channels@[k].id && (sorted_by_position(scan.plans@[i].channels@)
                ==> scan.plans@[i].channels@[j].position <= scan.plans@[i].channels@[k].position),
{
    let slots = scan.finished_slots@[i];
    let results = scan.check.category_results@[i].channel_results@;
    assert(follows_plan(results, slots, scan.plans@[i].channels@, scan.plans@[i].channels@.len() as int));
    let j = slots[a];
    let k = slots[b];
    assert(results[a].channel_id == scan.plans@[i].channels@[j].id);
    assert(results[b].channel_id == scan.plans@[i].channels@[k].id);
}

impl Scan {
    pub open spec fn is_done(&self) -> bool {
        self.category == self.plans@.len()
    }

    pub open spec fn is_validating(&self) -> bool {
        self.pending@.len() > 0
    }

    pub open spec fn channels_of(&self) -> Seq<CachedChannel> {
        self.plans@[self.category as int].channels@
    }

    pub open spec fn channel_plan(&self) -> CachedChannel {
        self.channels_of()[self.channel as int]
    }

    pub open spec fn awaits_probe(&self) -> bool {
        !self.is_done() && !self.is_validating() && self.channel < self.channels_of().len()
    }

    pub open spec fn awaits_emit(&self) -> bool {
        !self.is_done() && !self.is_validating() && self.channel == self.channels_of().len()
    }

    pub open spec fn known_views(&self) -> Seq<InviteView> {
        invite_views(self.known@)
    }

    pub open spec fn wf(&self) -> bool {
        &&& self.category <= self.plans@.len()
        &&& self.check.category_results@.len() == self.category
        &&& forall|i: int|
            0 <= i < self.category ==> (#[trigger] self.check.category_results@[i]).category_id
                == self.plans@[i].category.id
        &&& !self.is_done() ==> {
            &&& self.channel <= self.channels_of().len()
            &&& self.current.category_id == self.plans@[self.category as int].category.id
            &&& follows_plan(
                self.current.channel_results@,
                self.result_slots@,
                self.channels_of(),
                self.channel as int,
            )
        }
        &&& self.finished_slots@.len() == self.category
        &&& forall|i: int|
            0 <= i < self.category ==> follows_plan(
                (#[trigger] self.check.category_results@[i]).channel_results@,
                self.finished_slots@[i],
                self.plans@[i].channels@,
                self.plans@[i].channels@.len() as int,
            )
        &&& self.is_validating() ==> {
            &&& !self.is_done()
            &&& self.channel < self.channels_of().len()
            &&& self.counting.channel_id == self.channel_plan().id
        }
    }

    /// A scan of `plans` that starts at `now`, with the guild's known records.
    pub fn new(plans: Vec<CategoryPlan>, known: Vec<Invite>, now: u64) -> (r: Scan)
        ensures
            r.wf(),
            r.plans == plans,
            r.known == known,
            r.now == now,
            r.category == 0,
            r.channel == 0,
            r.pending@.len() == 0,
            r.check.category_results@.len() == 0,
            r.check.start_time == now,
            r.current.channel_results@.len() == 0,
            r.current.issues == 0,
            r.current.manual@.len() == 0,
            r.total_channels == 0,
            r.total_good == 0,
            r.total_bad == 0,
    {
        let first = if plans.len() > 0 {
            plans[0].category.id
        } else {
            0
        };
        Scan {
            plans,
            known,
            now,
            category: 0,
            channel: 0,
            current: CategoryResult::new(first),
            check: InviteCheck::new(now),
            pending: Vec::new(),
            counting: ChannelResult::new(0),
            total_channels: 0,
            total_good: 0,
            total_bad: 0,
            result_slots: Ghost(Seq::empty()),
            finished_slots: Ghost(Seq::empty()),
        }
    }

    /// What the scan needs next.
    pub fn next_action(&self) -> (r: Action)
        requires
            self.wf(),
        ensures
            match r {
                Action::Finish => self.is_done(),
                Action::Validate { code } => self.is_validating() && code@ == self.pending@[0]@,
                Action::Probe { channel_id, fetch } => {
                    &&& self.awaits_probe()
                    &&& channel_id == self.channel_plan().id
                    &&& fetch == has_history(self.channel_plan())
                },
                Action::EmitCategory => self.awaits_emit(),
            },
    {
        if self.category == self.plans.len() {
            Action::Finish
        } else if self.pending.len() > 0 {
            Action::Validate { code: self.pending[0].clone() }
        } else if self.channel < self.plans[self.category].channels.len() {
            let ch = self.plans[self.category].channels[self.channel];
            let fetch = match ch.kind {
                ChannelKind::Text { last_message_id, .. } => last_message_id.is_some(),
                _ => false,
            };
            Action::Probe { channel_id: ch.id, fetch }
        } else {
            Action::EmitCategory
        }
    }

    /// Hands over what the cache said of the current channel and, for a
    /// readable channel with history, its messages (`None` when fetching them
    /// failed).
    pub fn probed(&mut self, access: ChannelAccess, messages: Option<Vec<String>>)
        requires
            old(self).wf(),
            old(self).awaits_probe(),
        ensures
            final(self).wf(),
            same_frame(old(self), final(self)),
            match access {
                ChannelAccess::Missing => issue_added(&old(self).current, &final(self).current)
                    && closed_uncounted(old(self), final(self)),
                ChannelAccess::NoPermission => manual_pushed(
                    &old(self).current,
                    &final(self).current,
                    old(self).channel_plan().id,
                ) && closed_uncounted(old(self), final(self)),
                ChannelAccess::Readable => if !has_history(old(self).channel_plan()) {
                    closed_counted(
                        old(self),
                        final(self),
                        ChannelResult { bad: 0, channel_id: old(self).channel_plan().id, good: 0 },
                    )
                } else {
                    match messages {
                        None => manual_pushed(
                            &old(self).current,
                            &final(self).current,
                            old(self).channel_plan().id,
                        ) && closed_uncounted(old(self), final(self)),
                        Some(ms) => read_messages(old(self), final(self), views(ms@)),
                    }
                },
            },
    {
        let ch = self.plans[self.category].channels[self.channel];
        let _n = self.plans[self.category].channels.len();
        let has_history = match ch.kind {
            ChannelKind::Text { last_message_id, .. } => last_message_id.is_some(),
            _ => false,
        };
        match access {
            ChannelAccess::Missing => {
                self.current.issues = self.current.issues.saturating_add(1);
                self.end_channel();
            },
            ChannelAccess::NoPermission => {
                self.current.manual.push(ch.id);
                self.end_channel();
            },
            ChannelAccess::Readable => {
                if !has_history {
                    self.current.channel_results.push(ChannelResult::new(ch.id));
                    self.result_slots = Ghost(self.result_slots@.push(self.channel as int));
                    self.end_channel();
                } else {
                    match messages {
                        None => {
                            self.current.manual.push(ch.id);
                            self.end_channel();
                        },
                        Some(ms) => {
                            self.read_codes(&ms);
                        },
                    }
                }
            },
        }
    }

    fn read_codes(&mut self, ms: &Vec<String>)
        requires
            old(self).wf(),
            old(self).awaits_probe(),
            has_history(old(self).channel_plan()),
        ensures
            final(self).wf(),
            same_frame(old(self), final(self)),
            read_messages(old(self), final(self), views(ms@)),
    {
        let ch = self.plans[self.category].channels[self.channel];
        let _n = self.plans[self.category].channels.len();
        let codes = extract_codes_from_messages(ms);
        let ghost cs = views(codes@);
        let ghost kv = self.known_views();
        let ghost pg = known_good(kv, self.now);
        let ghost pb = known_bad(kv, self.now);
        let ghost pl = needs_lookup(kv);
        let mut good: u64 = 0;
        let mut bad: u64 = 0;
        let mut pending: Vec<String> = Vec::new();
        let mut i: usize = 0;
        proof {
            assert(cs.subrange(0, 0) =~= Seq::<Seq<char>>::empty());
            assert(views(pending@) =~= Seq::<Seq<char>>::empty());
        }
        while i < codes.len()
            invariant
                i <= codes@.len(),
                cs == views(codes@),
                kv == self.known_views(),
                pg == known_good(kv, self.now),
                pb == known_bad(kv, self.now),
                pl == needs_lookup(kv),
                good <= i,
                bad <= i,
                good as int == cs.subrange(0, i as int).filter(pg).len(),
                bad as int == cs.subrange(0, i as int).filter(pb).len(),
                views(pending@) == cs.subrange(0, i as int).filter(pl),
            decreases codes@.len() - i,
        {
            let ghost c = cs[i as int];
            proof {
                assert(cs.subrange(0, i + 1) =~= cs.subrange(0, i as int).push(c));
                cs.subrange(0, i as int).lemma_filter_push(c, pg);
                cs.subrange(0, i as int).lemma_filter_push(c, pb);
                cs.subrange(0, i as int).lemma_filter_push(c, pl);
                assert(codes@[i as int]@ == c);
            }
            match self.find_known(&codes[i]) {
                Some(k) => {
                    if self.known[k].is_checked {
                        if self.known[k].is_good(self.now) {
                            good = good + 1;
                        } else {
                            bad = bad + 1;
                        }
                    } else {
                        let ghost before = pending@;
                        pending.push(codes[i].clone());
                        assert(views(pending@) =~= views(before).push(c));
                    }
                },
                None => {
                    let ghost before = pending@;
                    pending.push(codes[i].clone());
                    assert(views(pending@) =~= views(before).push(c));
                },
            }
            i = i + 1;
        }
        proof {
            assert(cs.subrange(0, codes@.len() as int) =~= cs);
        }
        let counted = ChannelResult { bad, channel_id: ch.id, good };
        if pending.len() == 0 {
            assert(views(self.pending@) =~= views(pending@));
            self.current.channel_results.push(counted);
            self.result_slots = Ghost(self.result_slots@.push(self.channel as int));
            self.total_good = self.total_good.saturating_add(good);
            self.total_bad = self.total_bad.saturating_add(bad);
            self.end_channel();
        } else {
            self.pending = pending;
            self.counting = counted;
        }
    }

    /// Hands over the lookup of the code named by `Action::Validate`
    /// (`None` when the lookup failed) and returns what to store for it.
    pub fn validated(&mut self, lookup: Option<InviteLookup>) -> (v: Validation)
        requires
            old(self).wf(),
            old(self).is_validating(),
        ensures
            final(self).wf(),
            same_frame(old(self), final(self)),
            v == Validation::from_lookup_spec(lookup),
            views(final(self).pending@) == views(old(self).pending@).drop_first(),
            ({
                let counted = if v.is_valid {
                    ChannelResult { good: old(self).counting.good.saturating_add(1), ..old(self).counting }
                } else {
                    ChannelResult { bad: old(self).counting.bad.saturating_add(1), ..old(self).counting }
                };
                if old(self).pending@.len() == 1 {
                    closed_counted(old(self), final(self), counted)
                } else {
                    kept_open(old(self), final(self), counted)
                }
            }),
    {
        let v = Validation::from_lookup(&lookup);
        let _n = self.plans[self.category].channels.len();
        let mut counted = self.counting;
        if v.is_valid {
            counted.good = counted.good.saturating_add(1);
        } else {
            counted.bad = counted.bad.saturating_add(1);
        }
        let ghost before = self.pending@;
        let _code = self.pending.remove(0);
        proof {
            assert(views(self.pending@) =~= views(before).drop_first());
        }
        if self.pending.len() == 0 {
            self.current.channel_results.push(counted);
            self.result_slots = Ghost(self.result_slots@.push(self.channel as int));
            self.total_good = self.total_good.saturating_add(counted.good);
            self.total_bad = self.total_bad.saturating_add(counted.bad);
            self.end_channel();
        } else {
            self.counting = counted;
        }
        v
    }

    /// Closes the current category; its result is then the last of
    /// `check.category_results`, ready to be reported.
    pub fn finish_category(&mut self)
        requires
            old(self).wf(),
            old(self).awaits_emit(),
        ensures
            final(self).wf(),
            final(self).plans == old(self).plans,
            final(self).known == old(self).known,
            final(self).now == old(self).now,
            final(self).category == old(self).category + 1,
            final(self).channel == 0,
            final(self).check.category_results@ == old(self).check.category_results@.push(
                old(self).current,
            ),
            final(self).check.start_time == old(self).check.start_time,
            final(self).current.channel_results@.len() == 0,
            final(self).current.issues == 0,
            final(self).current.manual@.len() == 0,
            final(self).pending@.len() == 0,
            final(self).total_channels == old(self).total_channels,
            final(self).total_good == old(self).total_good,
            final(self).total_bad == old(self).total_bad,
    {
        let _n = self.plans.len();
        let next = self.category + 1;
        let next_id = if next < self.plans.len() {
            self.plans[next].category.id
        } else {
            0
        };
        let mut done = CategoryResult::new(next_id);
        std::mem::swap(&mut self.current, &mut done);
        let ghost before = self.check.category_results@;
        self.check.category_results.push(done);
        assert(forall|i: int|
            0 <= i < before.len() ==> self.check.category_results@[i] == before[i]);
        self.finished_slots = Ghost(self.finished_slots@.push(self.result_slots@));
        self.result_slots = Ghost(Seq::empty());
        self.category = next;
        self.channel = 0;
    }

    /// The totals of the scan, `end_time` being when it ended (ms). The
    /// number of invites used for percentages is never zero.
    pub fn summary(&self, end_time: u64) -> (r: Summary)
        ensures
            r.elapsed_ms == (if end_time >= self.check.start_time {
                end_time - self.check.start_time
            } else {
                0
            }),
            r.total_channels == self.total_channels,
            r.total_good == self.total_good,
            r.total_bad == self.total_bad,
            r.total_invites == (if self.total_bad.saturating_add(self.total_good) == 0 {
                1
            } else {
                self.total_bad.saturating_add(self.total_good)
            }),
            r.total_invites >= 1,
            r.bad_basis_points == basis_points(self.total_bad, r.total_invites),
            r.good_basis_points == basis_points(self.total_good, r.total_invites),
            r.bad_basis_points <= 10000,
            r.good_basis_points <= 10000,
    {
        let sum = self.total_bad.saturating_add(self.total_good);
        let total_invites: u64 = if sum == 0 {
            1
        } else {
            sum
        };
        let elapsed_ms: u64 = if end_time >= self.check.start_time {
            end_time - self.check.start_time
        } else {
            0
        };
        Summary {
            elapsed_ms,
            total_channels: self.total_channels,
            total_invites,
            total_bad: self.total_bad,
            total_good: self.total_good,
            bad_basis_points: basis_points_exec(self.total_bad, total_invites),
            good_basis_points: basis_points_exec(self.total_good, total_invites),
        }
    }

    fn find_known(&self, code: &String) -> (r: Option<usize>)
        ensures
            match r {
                Some(i) => i < self.known@.len() && find_known(self.known_views(), code@) == Some(
                    self.known@[i as int]@,
                ),
                None => find_known(self.known_views(), code@) is None,
            },
    {
        let ghost kv = self.known_views();
        let mut i: usize = 0;
        while i < self.known.len()
            invariant
                i <= self.known@.len(),
                kv == self.known_views(),
                kv.len() == self.known@.len(),
                find_known_from(kv, code@, 0) == find_known_from(kv, code@, i as int),
            decreases self.known@.len() - i,
        {
            assert(kv[i as int] == self.known@[i as int]@);
            if self.known[i].code == *code {
                return Some(i);
            }
            i = i + 1;
        }
        None
    }

    fn end_channel(&mut self)
        requires
            old(self).channel < usize::MAX,
        ensures
            *final(self) == (Scan {
                channel: (old(self).channel + 1) as usize,
                total_channels: old(self).total_channels.saturating_add(1),
                ..*old(self)
            }),
    {
        self.channel = self.channel + 1;
        self.total_channels = self.total_channels.saturating_add(1);
    }
}

} // verus!
