//! The channel layout of a guild as the scan sees it: the configured
//! categories in display order, each with its eligible text channels in
//! display order.

use vstd::prelude::*;
use vstd::seq_lib::lemma_multiset_commutative;

verus! {

/// What kind of guild channel a cache entry describes.
#[derive(Clone, Copy, Debug, PartialEq, Eq)]
pub enum ChannelKind {
    Category,
    Text { parent_id: Option<u64>, last_message_id: Option<u64> },
    Other,
}

/// One guild channel as read from the live cache.
#[derive(Clone, Copy, Debug, PartialEq, Eq)]
pub struct CachedChannel {
    pub id: u64,
    pub position: i64,
    pub kind: ChannelKind,
}

/// A configured category and the text channels that the scan will visit in it.
#[derive(Debug)]
pub struct CategoryPlan {
    pub category: CachedChannel,
    pub channels: Vec<CachedChannel>,
}

/// A category channel whose id is configured for scanning.
pub open spec fn is_scanned_category(c: CachedChannel, category_ids: Seq<u64>) -> bool {
    c.kind is Category && category_ids.contains(c.id)
}

/// A text channel under category `category_id` that is not ignored.
pub open spec fn is_member(c: CachedChannel, category_id: u64, ignored_ids: Seq<u64>) -> bool {
    &&& c.kind is Text
    &&& c.kind->parent_id == Some(category_id)
    &&& !ignored_ids.contains(c.id)
}

pub open spec fn sorted_by_position(s: Seq<CachedChannel>) -> bool {
    forall|i: int, j: int| 0 <= i < j < s.len() ==> s[i].position <= s[j].position
}

/// Index of the first entry of `s`, from `i` on, placed after `position`.
pub open spec fn first_after(s: Seq<CachedChannel>, position: i64, i: int) -> int
    decreases s.len() - i,
{
    if i < 0 || i >= s.len() {
        s.len() as int
    } else if s[i].position > position {
        i
    } else {
        first_after(s, position, i + 1)
    }
}

/// `s` sorted by position, each entry placed after every earlier one whose
/// position is not greater: equal positions keep their order in `s`.
pub open spec fn sort_by_position(s: Seq<CachedChannel>) -> Seq<CachedChannel>
    decreases s.len(),
{
    if s.len() == 0 {
        s
    } else {
        let t = sort_by_position(s.drop_last());
        t.insert(first_after(t, s.last().position, 0), s.last())
    }
}

pub open spec fn plan_categories(plans: Seq<CategoryPlan>) -> Seq<CachedChannel> {
    plans.map_values(|p: CategoryPlan| p.category)
}

fn contains_id(ids: &Vec<u64>, id: u64) -> (r: bool)
    ensures
        r == ids@.contains(id),
{
    let mut i: usize = 0;
    while i < ids.len()
        invariant
            i <= ids@.len(),
            forall|t: int| 0 <= t < i ==> ids@[t] != id,
        decreases ids@.len() - i,
    {
        if ids[i] == id {
            return true;
        }
        i = i + 1;
    }
    false
}

/// Inserts `c` after every entry whose position is not greater than its own.
fn insert_sorted(v: &mut Vec<CachedChannel>, c: CachedChannel)
    requires
        sorted_by_position(old(v)@),
    ensures
        sorted_by_position(final(v)@),
        final(v)@.to_multiset() == old(v)@.to_multiset().insert(c),
        final(v)@ == old(v)@.insert(first_after(old(v)@, c.position, 0), c),
{
    let mut k: usize = 0;
    while k < v.len() && v[k].position <= c.position
        invariant
            k <= v@.len(),
            forall|t: int| 0 <= t < k ==> v@[t].position <= c.position,
            first_after(v@, c.position, 0) == first_after(v@, c.position, k as int),
        decreases v@.len() - k,
    {
        k = k + 1;
    }
    let ghost before = v@;
    v.insert(k, c);
    proof {
        let a = before.subrange(0, k as int);
        let b = before.subrange(k as int, before.len() as int);
        assert(before =~= a + b);
        assert(v@ =~= a.push(c) + b);
        lemma_multiset_commutative(a, b);
        lemma_multiset_commutative(a.push(c), b);
        broadcast use vstd::seq_lib::group_to_multiset_ensures;
        assert(a.push(c).to_multiset() =~= a.to_multiset().insert(c));
        assert forall|i: int, j: int| 0 <= i < j < v@.len() implies v@[i].position
            <= v@[j].position by {
            if j < k {
            } else if j == k {
            } else if i < k {
                assert(v@[j] == before[j - 1]);
            } else if i == k {
                assert(v@[j] == before[j - 1]);
            } else {
                assert(v@[j] == before[j - 1]);
                assert(v@[i] == before[i - 1]);
            }
        }
    }
}

/// The configured categories of a guild, by display position.
fn scanned_categories(channels: &Vec<CachedChannel>, category_ids: &Vec<u64>) -> (r: Vec<
    CachedChannel,
>)
    ensures
        sorted_by_position(r@),
        r@.to_multiset() == channels@.filter(
            |c: CachedChannel| is_scanned_category(c, category_ids@),
        ).to_multiset(),
        r@ == sort_by_position(
            channels@.filter(|c: CachedChannel| is_scanned_category(c, category_ids@)),
        ),
{
    let ghost pred = |c: CachedChannel| is_scanned_category(c, category_ids@);
    let mut out: Vec<CachedChannel> = Vec::new();
    let mut i: usize = 0;
    proof {
        assert(channels@.subrange(0, 0) =~= Seq::<CachedChannel>::empty());
        broadcast use vstd::seq_lib::group_to_multiset_ensures;
    }
    while i < channels.len()
        invariant
            i <= channels@.len(),
            pred == (|c: CachedChannel| is_scanned_category(c, category_ids@)),
            sorted_by_position(out@),
            out@.to_multiset() == channels@.subrange(0, i as int).filter(pred).to_multiset(),
            out@ == sort_by_position(channels@.subrange(0, i as int).filter(pred)),
        decreases channels@.len() - i,
    {
        let c = channels[i];
        proof {
            assert(channels@.subrange(0, i + 1) =~= channels@.subrange(0, i as int).push(c));
            channels@.subrange(0, i as int).lemma_filter_push(c, pred);
            assert(channels@.subrange(0, i as int).filter(pred).push(c).drop_last()
                =~= channels@.subrange(0, i as int).filter(pred));
        }
        let selected = match c.kind {
            ChannelKind::Category => contains_id(category_ids, c.id),
            _ => false,
        };
        if selected {
            insert_sorted(&mut out, c);
            proof {
                broadcast use vstd::seq_lib::group_to_multiset_ensures;
            }
        }
        i = i + 1;
    }
    proof {
        assert(channels@.subrange(0, channels@.len() as int) =~= channels@);
    }
    out
}

/// The eligible text channels of one category, by display position.
fn member_channels(
    channels: &Vec<CachedChannel>,
    category_id: u64,
    ignored_ids: &Vec<u64>,
) -> (r: Vec<CachedChannel>)
    ensures
        sorted_by_position(r@),
        r@.to_multiset() == channels@.filter(
            |c: CachedChannel| is_member(c, category_id, ignored_ids@),
        ).to_multiset(),
        r@ == sort_by_position(
            channels@.filter(|c: CachedChannel| is_member(c, category_id, ignored_ids@)),
        ),
{
    let ghost pred = |c: CachedChannel| is_member(c, category_id, ignored_ids@);
    let mut out: Vec<CachedChannel> = Vec::new();
    let mut i: usize = 0;
    proof {
        assert(channels@.subrange(0, 0) =~= Seq::<CachedChannel>::empty());
        broadcast use vstd::seq_lib::group_to_multiset_ensures;
    }
    while i < channels.len()
        invariant
            i <= channels@.len(),
            pred == (|c: CachedChannel| is_member(c, category_id, ignored_ids@)),
            sorted_by_position(out@),
            out@.to_multiset() == channels@.subrange(0, i as int).filter(pred).to_multiset(),
            out@ == sort_by_position(channels@.subrange(0, i as int).filter(pred)),
        decreases channels@.len() - i,
    {
        let c = channels[i];
        proof {
            assert(channels@.subrange(0, i + 1) =~= channels@.subrange(0, i as int).push(c));
            channels@.subrange(0, i as int).lemma_filter_push(c, pred);
            assert(channels@.subrange(0, i as int).filter(pred).push(c).drop_last()
                =~= channels@.subrange(0, i as int).filter(pred));
        }
        let selected = match c.kind {
            ChannelKind::Text { parent_id, .. } => match parent_id {
                Some(p) => p == category_id && !contains_id(ignored_ids, c.id),
                None => false,
            },
            _ => false,
        };
        if selected {
            insert_sorted(&mut out, c);
            proof {
                broadcast use vstd::seq_lib::group_to_multiset_ensures;
            }
        }
        i = i + 1;
    }
    proof {
        assert(channels@.subrange(0, channels@.len() as int) =~= channels@);
    }
    out
}

/// The scan's view of a guild: each configured category present among
/// `channels`, in display order, with its text channels that are not ignored,
/// in display order. Equal positions keep the order of `channels`.
pub fn build_snapshot(
    channels: &Vec<CachedChannel>,
    category_ids: &Vec<u64>,
    ignored_ids: &Vec<u64>,
) -> (r: Vec<CategoryPlan>)
    ensures
        sorted_by_position(plan_categories(r@)),
        plan_categories(r@).to_multiset() == channels@.filter(
            |c: CachedChannel| is_scanned_category(c, category_ids@),
        ).to_multiset(),
        plan_categories(r@) == sort_by_position(
            channels@.filter(|c: CachedChannel| is_scanned_category(c, category_ids@)),
        ),
        forall|i: int|
            0 <= i < r@.len() ==> {
                &&& sorted_by_position(#[trigger] r@[i].channels@)
                &&& r@[i].channels@.to_multiset() == channels@.filter(
                    |c: CachedChannel| is_member(c, r@[i].category.id, ignored_ids@),
                ).to_multiset()
                &&& r@[i].channels@ == sort_by_position(
                    channels@.filter(|c: CachedChannel| is_member(c, r@[i].category.id, ignored_ids@)),
                )
            },
{
    let categories = scanned_categories(channels, category_ids);
    let mut plans: Vec<CategoryPlan> = Vec::new();
    let mut i: usize = 0;
    while i < categories.len()
        invariant
            i <= categories@.len(),
            plans@.len() == i,
            forall|t: int| 0 <= t < i ==> (#[trigger] plans@[t]).category == categories@[t],
            forall|t: int|
                0 <= t < i ==> {
                    &&& sorted_by_position(#[trigger] plans@[t].channels@)
                    &&& plans@[t].channels@.to_multiset() == channels@.filter(
                        |c: CachedChannel| is_member(c, plans@[t].category.id, ignored_ids@),
                    ).to_multiset()
                    &&& plans@[t].channels@ == sort_by_position(
                        channels@.filter(|c: CachedChannel| is_member(c, plans@[t].category.id, ignored_ids@)),
                    )
                },
        decreases categories@.len() - i,
    {
        let category = categories[i];
        let members = member_channels(channels, category.id, ignored_ids);
        plans.push(CategoryPlan { category, channels: members });
        i = i + 1;
    }
    proof {
        assert(plan_categories(plans@) =~= categories@);
    }
    plans
}

/// A text channel of category `category_id` that has a message to read.
pub open spec fn is_searchable(c: CachedChannel, category_id: u64) -> bool {
    &&& c.kind is Text
    &&& c.kind->parent_id == Some(category_id)
    &&& c.kind->last_message_id is Some
}

/// The ids of the text channels of a category whose messages are worth
/// reading for codes, in the order of `channels`.
pub fn channels_to_search(channels: &Vec<CachedChannel>, category_id: u64) -> (r: Vec<u64>)
    ensures
        r@ == channels@.filter(|c: CachedChannel| is_searchable(c, category_id)).map_values(
            |c: CachedChannel| c.id,
        ),
{
    let ghost pred = |c: CachedChannel| is_searchable(c, category_id);
    let mut out: Vec<u64> = Vec::new();
    let mut i: usize = 0;
    proof {
        assert(channels@.subrange(0, 0) =~= Seq::<CachedChannel>::empty());
        assert(out@ =~= channels@.subrange(0, 0).filter(pred).map_values(|c: CachedChannel| c.id));
    }
    while i < channels.len()
        invariant
            i <= channels@.len(),
            pred == (|c: CachedChannel| is_searchable(c, category_id)),
            out@ == channels@.subrange(0, i as int).filter(pred).map_values(|c: CachedChannel| c.id),
        decreases channels@.len() - i,
    {
        let c = channels[i];
        proof {
            assert(channels@.subrange(0, i + 1) =~= channels@.subrange(0, i as int).push(c));
            channels@.subrange(0, i as int).lemma_filter_push(c, pred);
        }
        let selected = match c.kind {
            ChannelKind::Text { parent_id, last_message_id } => parent_id == Some(category_id)
                && last_message_id.is_some(),
            _ => false,
        };
        if selected {
            let ghost before = out@;
            out.push(c.id);
            assert(out@ =~= channels@.subrange(0, i + 1).filter(pred).map_values(
                |c: CachedChannel| c.id,
            ));
        } else {
            assert(out@ =~= channels@.subrange(0, i + 1).filter(pred).map_values(
                |c: CachedChannel| c.id,
            ));
        }
        i = i + 1;
    }
    proof {
        assert(channels@.subrange(0, channels@.len() as int) =~= channels@);
    }
    out
}

} // verus!
