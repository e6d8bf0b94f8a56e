//! Per-guild configuration and the rules that decide whether a scan may start.

use vstd::prelude::*;
use crate::extract::{chars_of, string_from_chars};

verus! {

/// Time that must pass between two scans of a guild, in milliseconds.
pub const CHECK_COOLDOWN_MS: u64 = 86_400_000;

/// Report color of a guild that never chose one (`#F8F8FF`).
pub const DEFAULT_EMBED_COLOR: u32 = 16316671;

/// The configuration of one guild. Channel lists hold each id at most once;
/// timestamps are milliseconds since the Unix epoch.
#[derive(Debug)]
pub struct Setting {
    pub guild_id: u64,
    pub results_channel_id: Option<u64>,
    pub category_channel_ids: Vec<u64>,
    pub ignored_channel_ids: Vec<u64>,
    pub embed_color: u32,
    pub last_check: Option<u64>,
    pub in_check: bool,
}

/// Why a scan request was turned down.
#[derive(Clone, Copy, Debug, PartialEq, Eq)]
pub enum Rejection {
    /// No settings are stored for the guild.
    NoSettings,
    /// The cooldown has not elapsed; a scan may run at this time, in seconds
    /// since the Unix epoch.
    Cooldown { next_check_s: u64 },
    /// No results channel is configured.
    NoResultsChannel,
    /// The results channel is no longer in the cache.
    ResultsChannelUnreachable,
    /// The command was run outside the results channel, given here.
    WrongChannel { results_channel_id: u64 },
    /// No category is configured.
    NoCategories,
    /// A scan of this guild is running.
    InProgress,
    /// The store could not return the guild's codes.
    NoCodes,
    /// Some known code has not been revalidated since the last scan.
    StillRefreshing,
}

/// Why a change to a channel list was not made.
#[derive(Clone, Copy, Debug, PartialEq, Eq)]
pub enum ListError {
    AlreadyListed,
    NotListed,
}

impl Setting {
    pub open spec fn wf(&self) -> bool {
        &&& self.category_channel_ids@.no_duplicates()
        &&& self.ignored_channel_ids@.no_duplicates()
    }

    /// The settings of a guild that has just been joined.
    pub fn new(guild_id: u64) -> (r: Setting)
        ensures
            r.wf(),
            r.guild_id == guild_id,
            r.results_channel_id is None,
            r.category_channel_ids@.len() == 0,
            r.ignored_channel_ids@.len() == 0,
            r.embed_color == DEFAULT_EMBED_COLOR,
            r.last_check is None,
            !r.in_check,
    {
        Setting {
            guild_id,
            results_channel_id: None,
            category_channel_ids: Vec::new(),
            ignored_channel_ids: Vec::new(),
            embed_color: DEFAULT_EMBED_COLOR,
            last_check: None,
            in_check: false,
        }
    }

    /// Adds a category to scan.
    pub fn add_category(&mut self, category_id: u64) -> (r: Result<(), ListError>)
        requires
            old(self).wf(),
        ensures
            final(self).wf(),
            r is Err <==> old(self).category_channel_ids@.contains(category_id),
            r is Err ==> r == Err::<(), ListError>(ListError::AlreadyListed),
            final(self).category_channel_ids@ == if r is Ok {
                old(self).category_channel_ids@.push(category_id)
            } else {
                old(self).category_channel_ids@
            },
            final(self).ignored_channel_ids == old(self).ignored_channel_ids,
            final(self).results_channel_id == old(self).results_channel_id,
            final(self).embed_color == old(self).embed_color,
            final(self).last_check == old(self).last_check,
            final(self).in_check == old(self).in_check,
            final(self).guild_id == old(self).guild_id,
    {
        add_id(&mut self.category_channel_ids, category_id)
    }

    /// Stops scanning a category.
    pub fn remove_category(&mut self, category_id: u64) -> (r: Result<(), ListError>)
        requires
            old(self).wf(),
        ensures
            final(self).wf(),
            r is Err <==> !old(self).category_channel_ids@.contains(category_id),
            r is Err ==> r == Err::<(), ListError>(ListError::NotListed),
            final(self).category_channel_ids@ == old(self).category_channel_ids@.remove_value(
                category_id,
            ),
            final(self).ignored_channel_ids == old(self).ignored_channel_ids,
            final(self).results_channel_id == old(self).results_channel_id,
            final(self).embed_color == old(self).embed_color,
            final(self).last_check == old(self).last_check,
            final(self).in_check == old(self).in_check,
            final(self).guild_id == old(self).guild_id,
    {
        remove_id(&mut self.category_channel_ids, category_id)
    }

    /// Adds a channel to the ignore list.
    pub fn add_ignored(&mut self, channel_id: u64) -> (r: Result<(), ListError>)
        requires
            old(self).wf(),
        ensures
            final(self).wf(),
            r is Err <==> old(self).ignored_channel_ids@.contains(channel_id),
            r is Err ==> r == Err::<(), ListError>(ListError::AlreadyListed),
            final(self).ignored_channel_ids@ == if r is Ok {
                old(self).ignored_channel_ids@.push(channel_id)
            } else {
                old(self).ignored_channel_ids@
            },
            final(self).category_channel_ids == old(self).category_channel_ids,
            final(self).results_channel_id == old(self).results_channel_id,
            final(self).embed_color == old(self).embed_color,
            final(self).last_check == old(self).last_check,
            final(self).in_check == old(self).in_check,
            final(self).guild_id == old(self).guild_id,
    {
        add_id(&mut self.ignored_channel_ids, channel_id)
    }

    /// Takes a channel off the ignore list.
    pub fn remove_ignored(&mut self, channel_id: u64) -> (r: Result<(), ListError>)
        requires
            old(self).wf(),
        ensures
            final(self).wf(),
            r is Err <==> !old(self).ignored_channel_ids@.contains(channel_id),
            r is Err ==> r == Err::<(), ListError>(ListError::NotListed),
            final(self).ignored_channel_ids@ == old(self).ignored_channel_ids@.remove_value(
                channel_id,
            ),
            final(self).category_channel_ids == old(self).category_channel_ids,
            final(self).results_channel_id == old(self).results_channel_id,
            final(self).embed_color == old(self).embed_color,
            final(self).last_check == old(self).last_check,
            final(self).in_check == old(self).in_check,
            final(self).guild_id == old(self).guild_id,
    {
        remove_id(&mut self.ignored_channel_ids, channel_id)
    }

    /// Forgets a deleted channel: it leaves both lists in one update, and the
    /// results channel is cleared when it was that channel.
    pub fn delete_channel(&mut self, channel_id: u64)
        requires
            old(self).wf(),
        ensures
            final(self).wf(),
            final(self).category_channel_ids@ == old(self).category_channel_ids@.remove_value(
                channel_id,
            ),
            final(self).ignored_channel_ids@ == old(self).ignored_channel_ids@.remove_value(
                channel_id,
            ),
            final(self).results_channel_id == (if old(self).results_channel_id == Some(
                channel_id,
            ) {
                None
            } else {
                old(self).results_channel_id
            }),
            final(self).embed_color == old(self).embed_color,
            final(self).last_check == old(self).last_check,
            final(self).in_check == old(self).in_check,
            final(self).guild_id == old(self).guild_id,
    {
        let _ = remove_id(&mut self.category_channel_ids, channel_id);
        let _ = remove_id(&mut self.ignored_channel_ids, channel_id);
        if self.results_channel_id == Some(channel_id) {
            self.results_channel_id = None;
        }
    }
}

/// What a scan request gets, given the guild's settings, the time now (ms),
/// whether the results channel is still in the cache and the channel the
/// command was run in. The first failing condition decides.
pub open spec fn eligibility(
    s: &Setting,
    now: u64,
    results_channel_cached: bool,
    invoked_channel_id: u64,
) -> Result<(), Rejection> {
    if s.last_check is Some && s.last_check->0 + CHECK_COOLDOWN_MS >= now + 1000 {
        Err(
            Rejection::Cooldown {
                next_check_s: (now / 1000 + (s.last_check->0 + CHECK_COOLDOWN_MS - now) / 1000) as u64,
            },
        )
    } else if s.results_channel_id is None {
        Err(Rejection::NoResultsChannel)
    } else if !results_channel_cached {
        Err(Rejection::ResultsChannelUnreachable)
    } else if s.results_channel_id->0 != invoked_channel_id {
        Err(Rejection::WrongChannel { results_channel_id: s.results_channel_id->0 })
    } else if s.category_channel_ids@.len() == 0 {
        Err(Rejection::NoCategories)
    } else if s.in_check {
        Err(Rejection::InProgress)
    } else {
        Ok(())
    }
}

/// Decides whether a scan may start. `None` stands for a guild without settings.
pub fn check_eligibility(
    setting: Option<&Setting>,
    now: u64,
    results_channel_cached: bool,
    invoked_channel_id: u64,
) -> (r: Result<(), Rejection>)
    ensures
        r == match setting {
            Some(s) => eligibility(s, now, results_channel_cached, invoked_channel_id),
            None => Err(Rejection::NoSettings),
        },
{
    let s = match setting {
        Some(s) => s,
        None => {
            return Err(Rejection::NoSettings);
        },
    };
    if let Some(last) = s.last_check {
        let deadline: u128 = last as u128 + CHECK_COOLDOWN_MS as u128;
        if deadline >= now as u128 + 1000 {
            let remaining: u128 = (deadline - now as u128) / 1000;
            assert(remaining <= deadline / 1000) by (nonlinear_arith)
                requires
                    remaining == (deadline - now as u128) / 1000,
                    deadline >= now,
            ;
            let next: u128 = now as u128 / 1000 + remaining;
            assert(next <= u64::MAX);
            return Err(Rejection::Cooldown { next_check_s: next as u64 });
        }
    }
    match s.results_channel_id {
        None => Err(Rejection::NoResultsChannel),
        Some(results) => {
            if !results_channel_cached {
                Err(Rejection::ResultsChannelUnreachable)
            } else if results != invoked_channel_id {
                Err(Rejection::WrongChannel { results_channel_id: results })
            } else if s.category_channel_ids.len() == 0 {
                Err(Rejection::NoCategories)
            } else if s.in_check {
                Err(Rejection::InProgress)
            } else {
                Ok(())
            }
        },
    }
}

impl Setting {
    /// Starts a scan: on success the guild is marked as being scanned; on a
    /// rejection nothing changes.
    pub fn start_check(&mut self, now: u64, results_channel_cached: bool, invoked_channel_id: u64) -> (r:
        Result<(), Rejection>)
        requires
            old(self).wf(),
        ensures
            r == eligibility(old(self), now, results_channel_cached, invoked_channel_id),
            r is Err ==> *final(self) == *old(self),
            r is Ok ==> *final(self) == (Setting { in_check: true, ..*old(self) }),
    {
        let r = check_eligibility(Some(&*self), now, results_channel_cached, invoked_channel_id);
        if r.is_ok() {
            self.in_check = true;
        }
        r
    }

    /// Ends a scan: records when it ran and lets the next one start.
    pub fn finish_check(&mut self, now: u64)
        ensures
            *final(self) == (Setting { last_check: Some(now), in_check: false, ..*old(self) }),
    {
        self.last_check = Some(now);
        self.in_check = false;
    }
}

/// A scan requested while another one runs is refused; when every earlier
/// condition holds, the reason given is that a scan is in progress.
pub proof fn lemma_running_scan_refused(
    s: &Setting,
    now: u64,
    results_channel_cached: bool,
    invoked_channel_id: u64,
)
    requires
        s.in_check,
    ensures
        eligibility(s, now, results_channel_cached, invoked_channel_id) is Err,
        (eligibility(s, now, results_channel_cached, invoked_channel_id) != Err::<(), Rejection>(
            Rejection::InProgress)) ==> eligibility(s, now, results_channel_cached, invoked_channel_id)
            == eligibility(
            &Setting { in_check: false, ..*s },
            now,
            results_channel_cached,
            invoked_channel_id,
        ),
{
}

/// Name for what `str::to_uppercase` returns.
pub uninterp spec fn upper_of(s: Seq<char>) -> Seq<char>;

/// Relies on `str::to_uppercase`: the result depends on the characters alone.
#[verifier::external_body]
fn to_uppercase(s: &str) -> (r: String)
    ensures
        r@ == upper_of(s@),
{
    s.to_uppercase()
}

pub open spec fn strip_hash(s: Seq<char>) -> Seq<char> {
    if s.len() > 0 && s[0] == '#' {
        s.drop_first()
    } else {
        s
    }
}

/// The text without one leading `#`.
pub fn remove_leading_hashtag(s: &str) -> (r: String)
    ensures
        r@ == strip_hash(s@),
{
    let chars = chars_of(s);
    let mut out: Vec<char> = Vec::new();
    let start: usize = if chars.len() > 0 && chars[0] == '#' {
        1
    } else {
        0
    };
    let mut i: usize = start;
    while i < chars.len()
        invariant
            start <= i <= chars@.len(),
            out@ == chars@.subrange(start as int, i as int),
        decreases chars@.len() - i,
    {
        out.push(chars[i]);
        assert(out@ =~= chars@.subrange(start as int, i + 1));
        i = i + 1;
    }
    proof {
        assert(out@ =~= strip_hash(s@));
    }
    string_from_chars(out.as_slice())
}

pub open spec fn hex_digit(c: char) -> Option<u32> {
    if '0' <= c && c <= '9' {
        Some((c as u32 - '0' as u32) as u32)
    } else if 'A' <= c && c <= 'F' {
        Some((c as u32 - 'A' as u32 + 10) as u32)
    } else if 'a' <= c && c <= 'f' {
        Some((c as u32 - 'a' as u32 + 10) as u32)
    } else {
        None
    }
}

/// A three-digit color stands for the six-digit one with each digit doubled.
pub open spec fn expand_short(s: Seq<char>) -> Seq<char> {
    if s.len() == 3 {
        seq![s[0], s[0], s[1], s[1], s[2], s[2]]
    } else {
        s
    }
}

pub open spec fn six_hex_value(s: Seq<char>) -> u32 {
    (((((hex_digit(s[0])->0 * 16 + hex_digit(s[1])->0) * 16 + hex_digit(s[2])->0) * 16
        + hex_digit(s[3])->0) * 16 + hex_digit(s[4])->0) * 16 + hex_digit(s[5])->0) as u32
}

/// The color written by a string of three or six hexadecimal digits.
pub open spec fn color_spec(s: Seq<char>) -> Option<u32> {
    let e = expand_short(s);
    if e.len() == 6 && forall|i: int| 0 <= i < 6 ==> (#[trigger] hex_digit(e[i])) is Some {
        Some(six_hex_value(e))
    } else {
        None
    }
}

fn hex_digit_exec(c: char) -> (r: Option<u32>)
    ensures
        r == hex_digit(c),
{
    if '0' <= c && c <= '9' {
        Some(c as u32 - '0' as u32)
    } else if 'A' <= c && c <= 'F' {
        Some(c as u32 - 'A' as u32 + 10)
    } else if 'a' <= c && c <= 'f' {
        Some(c as u32 - 'a' as u32 + 10)
    } else {
        None
    }
}

/// Reads a color from (uppercased) text of three or six hexadecimal digits.
pub fn color_from_hex(s: &str) -> (r: Option<u32>)
    ensures
        r == color_spec(s@),
{
    let chars = chars_of(s);
    let e: Vec<char> = if chars.len() == 3 {
        vec![chars[0], chars[0], chars[1], chars[1], chars[2], chars[2]]
    } else {
        chars
    };
    assert(e@ =~= expand_short(s@));
    if e.len() != 6 {
        return None;
    }
    let mut value: u32 = 0;
    let mut i: usize = 0;
    while i < 6
        invariant
            e@ == expand_short(s@),
            e@.len() == 6,
            i <= 6,
            forall|t: int| 0 <= t < i ==> (#[trigger] hex_digit(e@[t])) is Some,
            value < 0x1000000,
            i == 6 ==> value == six_hex_value(e@),
            i == 1 ==> value == hex_digit(e@[0])->0,
            i == 2 ==> value == hex_digit(e@[0])->0 * 16 + hex_digit(e@[1])->0,
            i == 3 ==> value == (hex_digit(e@[0])->0 * 16 + hex_digit(e@[1])->0) * 16 + hex_digit(
                e@[2],
            )->0,
            i == 4 ==> value == ((hex_digit(e@[0])->0 * 16 + hex_digit(e@[1])->0) * 16
                + hex_digit(e@[2])->0) * 16 + hex_digit(e@[3])->0,
            i == 5 ==> value == (((hex_digit(e@[0])->0 * 16 + hex_digit(e@[1])->0) * 16
                + hex_digit(e@[2])->0) * 16 + hex_digit(e@[3])->0) * 16 + hex_digit(e@[4])->0,
            i == 0 ==> value == 0,
            i <= 5 ==> value < 0x100000,
            i <= 4 ==> value < 0x10000,
            i <= 3 ==> value < 0x1000,
            i <= 2 ==> value < 0x100,
            i <= 1 ==> value < 0x10,
        decreases 6 - i,
    {
        match hex_digit_exec(e[i]) {
            Some(d) => {
                value = value * 16 + d;
            },
            None => {
                return None;
            },
        }
        i = i + 1;
    }
    Some(value)
}

/// Whether the text is three or six hexadecimal digits, in either case.
pub fn validate_hex_code(hex_code: &str) -> (r: bool)
    ensures
        r == color_spec(hex_code@) is Some,
{
    color_from_hex(hex_code).is_some()
}

/// Reads the color that a user typed: an optional `#`, then three or six
/// hexadecimal digits in either case.
pub fn parse_embed_color(input: &str) -> (r: Option<u32>)
    ensures
        r == color_spec(upper_of(strip_hash(input@))),
{
    let bare = remove_leading_hashtag(input);
    let upper = to_uppercase(bare.as_str());
    color_from_hex(upper.as_str())
}

fn find_id(ids: &Vec<u64>, id: u64) -> (r: Option<usize>)
    ensures
        match r {
            Some(i) => i < ids@.len() && ids@[i as int] == id && forall|t: int|
                0 <= t < i ==> ids@[t] != id,
            None => !ids@.contains(id),
        },
{
    let mut i: usize = 0;
    while i < ids.len()
        invariant
            i <= ids@.len(),
            forall|t: int| 0 <= t < i ==> ids@[t] != id,
        decreases ids@.len() - i,
    {
        if ids[i] == id {
            return Some(i);
        }
        i = i + 1;
    }
    None
}

fn add_id(ids: &mut Vec<u64>, id: u64) -> (r: Result<(), ListError>)
    requires
        old(ids)@.no_duplicates(),
    ensures
        final(ids)@.no_duplicates(),
        r is Err <==> old(ids)@.contains(id),
        r is Err ==> r == Err::<(), ListError>(ListError::AlreadyListed),
        final(ids)@ == if r is Ok {
            old(ids)@.push(id)
        } else {
            old(ids)@
        },
{
    match find_id(ids, id) {
        Some(_) => Err(ListError::AlreadyListed),
        None => {
            ids.push(id);
            Ok(())
        },
    }
}

fn remove_id(ids: &mut Vec<u64>, id: u64) -> (r: Result<(), ListError>)
    requires
        old(ids)@.no_duplicates(),
    ensures
        final(ids)@.no_duplicates(),
        r is Err <==> !old(ids)@.contains(id),
        r is Err ==> r == Err::<(), ListError>(ListError::NotListed),
        final(ids)@ == old(ids)@.remove_value(id),
        !final(ids)@.contains(id),
{
    match find_id(ids, id) {
        Some(i) => {
            let ghost before = ids@;
            proof {
                before.index_of_first_ensures(id);
            }
            ids.remove(i);
            proof {
                assert(before.index_of_first(id) == Some(i as int)) by {
                    before.index_of_first_ensures(id);
                }
                assert forall|a: int, b: int| 0 <= a < b < ids@.len() implies ids@[a] != ids@[b] by {
                    let a2 = if a < i { a } else { a + 1 };
                    let b2 = if b < i { b } else { b + 1 };
                    assert(ids@[a] == before[a2]);
                    assert(ids@[b] == before[b2]);
                }
                assert forall|t: int| 0 <= t < ids@.len() implies ids@[t] != id by {
                    let t2 = if t < i { t } else { t + 1 };
                    assert(ids@[t] == before[t2]);
                }
            }
            Ok(())
        },
        None => {
            proof {
                ids@.index_of_first_ensures(id);
            }
            Err(ListError::NotListed)
        },
    }
}

} // verus!
