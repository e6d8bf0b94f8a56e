//! An in-memory invite store: one record per (guild, code), written only
//! through insert-if-absent and upsert, with a clock that makes every write
//! newer than the one before. A durable store keeps the same rules.
//!
//! Records are kept in the order of their last write, so the oldest
//! unchecked and the least recently validated records come first.

use vstd::prelude::*;
use crate::extract::views;
use crate::invite::{Code, Invite, InviteView, Validation};

verus! {

pub type Key = (u64, Seq<char>);

pub open spec fn key_of(r: InviteView) -> Key {
    (r.guild_id, r.code)
}

/// The records of a sequence, by key; a later record of a key wins.
pub open spec fn to_map(s: Seq<InviteView>) -> Map<Key, InviteView>
    decreases s.len(),
{
    if s.len() == 0 {
        Map::empty()
    } else {
        to_map(s.drop_last()).insert(key_of(s.last()), s.last())
    }
}

pub open spec fn unique_keys(s: Seq<InviteView>) -> bool {
    forall|i: int, j: int| 0 <= i < j < s.len() ==> key_of(s[i]) != key_of(s[j])
}

/// The timestamp of a write made at `now` after the last write at `clock`.
pub open spec fn next_stamp(clock: u64, now: u64) -> u64 {
    if now > clock {
        now
    } else {
        (clock + 1) as u64
    }
}

/// The record that an upsert writes, over the record `prev` held before.
pub open spec fn upserted(
    prev: Option<InviteView>,
    guild_id: u64,
    code: Seq<char>,
    v: Validation,
    stamp: u64,
) -> InviteView {
    InviteView {
        guild_id,
        code,
        expires_at: v.expires_at,
        is_permanent: Some(v.is_permanent),
        is_valid: Some(v.is_valid),
        is_checked: true,
        created_at: match prev {
            Some(p) => p.created_at,
            None => stamp,
        },
        updated_at: stamp,
    }
}

/// A record created for a code seen in a message: nothing is known of it yet.
pub open spec fn placeholder(guild_id: u64, code: Seq<char>, stamp: u64) -> InviteView {
    InviteView {
        guild_id,
        code,
        expires_at: None,
        is_permanent: None,
        is_valid: None,
        is_checked: false,
        created_at: stamp,
        updated_at: stamp,
    }
}

pub open spec fn code_views(codes: Seq<Code>) -> Seq<Key> {
    codes.map_values(|c: Code| (c.guild_id, c.code@))
}

pub open spec fn record_keys(s: Seq<InviteView>) -> Seq<Key> {
    s.map_values(|r: InviteView| key_of(r))
}

pub open spec fn is_unchecked(r: InviteView) -> bool {
    !r.is_checked
}

pub open spec fn is_checked_valid(r: InviteView) -> bool {
    r.is_checked && r.is_valid == Some(true)
}

/// The record held for key `k`, if any.
pub open spec fn lookup(m: Map<Key, InviteView>, k: Key) -> Option<InviteView> {
    if m.dom().contains(k) {
        Some(m[k])
    } else {
        None
    }
}

proof fn lemma_to_map_dom(s: Seq<InviteView>)
    requires
        unique_keys(s),
    ensures
        forall|j: int|
            0 <= j < s.len() ==> to_map(s).dom().contains(key_of(#[trigger] s[j])) && to_map(
                s,
            )[key_of(s[j])] == s[j],
        forall|k: Key|
            #[trigger] to_map(s).dom().contains(k) ==> exists|j: int|
                0 <= j < s.len() && key_of(s[j]) == k,
    decreases s.len(),
{
    if s.len() > 0 {
        let d = s.drop_last();
        lemma_to_map_dom(d);
        assert forall|j: int| 0 <= j < s.len() implies to_map(s).dom().contains(
            key_of(#[trigger] s[j]),
        ) && to_map(s)[key_of(s[j])] == s[j] by {
            if j < s.len() - 1 {
                assert(d[j] == s[j]);
                assert(key_of(s[j]) != key_of(s.last()));
            }
        }
        assert forall|k: Key| #[trigger] to_map(s).dom().contains(k) implies exists|j: int|
            0 <= j < s.len() && key_of(s[j]) == k by {
            if k != key_of(s.last()) {
                assert(to_map(d).dom().contains(k));
                let j = choose|j: int| 0 <= j < d.len() && key_of(d[j]) == k;
                assert(s[j] == d[j]);
            } else {
                assert(key_of(s[s.len() - 1]) == k);
            }
        }
    }
}

proof fn lemma_to_map_remove(s: Seq<InviteView>, i: int)
    requires
        unique_keys(s),
        0 <= i < s.len(),
    ensures
        to_map(s.remove(i)) == to_map(s).remove(key_of(s[i])),
    decreases s.len(),
{
    let d = s.drop_last();
    if i == s.len() - 1 {
        assert(s.remove(i) =~= d);
        lemma_to_map_dom(d);
        if to_map(d).dom().contains(key_of(s[i])) {
            let j = choose|j: int| 0 <= j < d.len() && key_of(d[j]) == key_of(s[i]);
            assert(d[j] == s[j]);
        }
        assert(to_map(d) =~= to_map(s).remove(key_of(s[i])));
    } else {
        assert(s.remove(i) =~= d.remove(i).push(s.last()));
        assert(s.remove(i).drop_last() =~= d.remove(i));
        assert(d[i] == s[i]);
        lemma_to_map_remove(d, i);
        assert(key_of(s[i]) != key_of(s.last()));
        assert(to_map(s.remove(i)) =~= to_map(s).remove(key_of(s[i])));
    }
}

/// Keys are unique, records well formed, written no later than `clock` and
/// in order of their last write; an unchecked record was never rewritten.
pub open spec fn well_ordered(s: Seq<InviteView>, clock: u64) -> bool {
    &&& unique_keys(s)
    &&& forall|i: int| 0 <= i < s.len() ==> (#[trigger] s[i]).wf()
    &&& forall|i: int| 0 <= i < s.len() ==> (#[trigger] s[i]).updated_at <= clock
    &&& forall|i: int, j: int| 0 <= i < j < s.len() ==> s[i].updated_at <= s[j].updated_at
    &&& forall|i: int|
        0 <= i < s.len() && !(#[trigger] s[i]).is_checked ==> s[i].created_at == s[i].updated_at
}

proof fn lemma_remove_well_ordered(s: Seq<InviteView>, clock: u64, i: int)
    requires
        well_ordered(s, clock),
        0 <= i < s.len(),
    ensures
        well_ordered(s.remove(i), clock),
        forall|j: int| 0 <= j < s.remove(i).len() ==> key_of(#[trigger] s.remove(i)[j]) != key_of(s[i]),
{
    let r = s.remove(i);
    assert forall|j: int| 0 <= j < r.len() implies r[j] == s[if j < i { j } else { j + 1 }] by {}
    assert forall|a: int, b: int| 0 <= a < b < r.len() implies key_of(r[a]) != key_of(r[b]) by {
        assert(r[a] == s[if a < i { a } else { a + 1 }]);
        assert(r[b] == s[if b < i { b } else { b + 1 }]);
    }
    assert forall|a: int, b: int| 0 <= a < b < r.len() implies r[a].updated_at <= r[b].updated_at by {
        assert(r[a] == s[if a < i { a } else { a + 1 }]);
        assert(r[b] == s[if b < i { b } else { b + 1 }]);
    }
    assert forall|j: int| 0 <= j < r.len() implies key_of(#[trigger] r[j]) != key_of(s[i]) by {
        assert(r[j] == s[if j < i { j } else { j + 1 }]);
    }
    assert forall|j: int| 0 <= j < r.len() implies (#[trigger] r[j]).wf() by {
        assert(r[j] == s[if j < i { j } else { j + 1 }]);
    }
    assert forall|j: int| 0 <= j < r.len() implies (#[trigger] r[j]).updated_at <= clock by {
        assert(r[j] == s[if j < i { j } else { j + 1 }]);
    }
    assert forall|j: int| 0 <= j < r.len() && !(#[trigger] r[j]).is_checked implies r[j].created_at == r[j].updated_at by {
        assert(r[j] == s[if j < i { j } else { j + 1 }]);
    }
}

proof fn lemma_push_well_ordered(s: Seq<InviteView>, clock: u64, x: InviteView)
    requires
        well_ordered(s, clock),
        clock <= x.updated_at,
        x.wf(),
        !x.is_checked ==> x.created_at == x.updated_at,
        forall|j: int| 0 <= j < s.len() ==> key_of(#[trigger] s[j]) != key_of(x),
    ensures
        well_ordered(s.push(x), x.updated_at),
        to_map(s.push(x)) == to_map(s).insert(key_of(x), x),
{
    let r = s.push(x);
    assert(r.drop_last() =~= s);
    assert forall|j: int| 0 <= j < s.len() implies r[j] == s[j] by {}
}

/// `m` with a placeholder, written at `stamp`, for each code of `codes`
/// that `guild_id` has no record of.
pub open spec fn added(m: Map<Key, InviteView>, guild_id: u64, codes: Seq<Seq<char>>, stamp: u64) -> Map<
    Key,
    InviteView,
> {
    Map::new(
        |k: Key| m.dom().contains(k) || (k.0 == guild_id && codes.contains(k.1)),
        |k: Key|
            if m.dom().contains(k) {
                m[k]
            } else {
                placeholder(guild_id, k.1, stamp)
            },
    )
}

/// Upserting the same outcome twice leaves the same record but for its write
/// time, which strictly grows; no other record changes.
pub proof fn lemma_upsert_twice(
    m: Map<Key, InviteView>,
    clock: u64,
    guild_id: u64,
    code: Seq<char>,
    v: Validation,
    now1: u64,
    now2: u64,
)
    requires
        clock < u64::MAX,
        next_stamp(clock, now1) < u64::MAX,
    ensures
        ({
            let k = (guild_id, code);
            let t1 = next_stamp(clock, now1);
            let m1 = m.insert(k, upserted(lookup(m, k), guild_id, code, v, t1));
            let t2 = next_stamp(t1, now2);
            let m2 = m1.insert(k, upserted(lookup(m1, k), guild_id, code, v, t2));
            &&& m2[k] == InviteView { updated_at: m2[k].updated_at, ..m1[k] }
            &&& m2[k].updated_at > m1[k].updated_at
            &&& m2.remove(k) == m1.remove(k)
        }),
{
    let k = (guild_id, code);
    let t1 = next_stamp(clock, now1);
    let m1 = m.insert(k, upserted(lookup(m, k), guild_id, code, v, t1));
    let t2 = next_stamp(t1, now2);
    let m2 = m1.insert(k, upserted(lookup(m1, k), guild_id, code, v, t2));
    assert(lookup(m1, k) == Some(m1[k]));
    assert(m2.remove(k) =~= m1.remove(k));
}

/// The invite records of every guild.
#[derive(Debug)]
pub struct InviteStore {
    records: Vec<Invite>,
    clock: u64,
}

impl InviteStore {
    /// The records, in order of their last write.
    pub closed spec fn records(&self) -> Seq<InviteView> {
        self.records@.map_values(|r: Invite| r@)
    }

    /// The time of the last write.
    pub closed spec fn clock(&self) -> u64 {
        self.clock
    }

    pub open spec fn view(&self) -> Map<Key, InviteView> {
        to_map(self.records())
    }

    pub open spec fn wf(&self) -> bool {
        well_ordered(self.records(), self.clock())
    }

    pub fn new() -> (r: InviteStore)
        ensures
            r.wf(),
            r.view() == Map::<Key, InviteView>::empty(),
            r.clock() == 0,
    {
        let r = InviteStore { records: Vec::new(), clock: 0 };
        assert(r.records() =~= Seq::<InviteView>::empty());
        r
    }

    fn find(&self, guild_id: u64, code: &String) -> (r: Option<usize>)
        ensures
            match r {
                Some(i) => i < self.records().len() && key_of(self.records()[i as int]) == (
                    guild_id,
                    code@,
                ),
                None => forall|i: int|
                    0 <= i < self.records().len() ==> key_of(#[trigger] self.records()[i]) != (
                        guild_id,
                        code@,
                    ),
            },
    {
        let mut i: usize = 0;
        while i < self.records.len()
            invariant
                i <= self.records@.len(),
                self.records().len() == self.records@.len(),
                forall|t: int|
                    0 <= t < i ==> key_of(#[trigger] self.records()[t]) != (guild_id, code@),
            decreases self.records@.len() - i,
        {
            assert(self.records()[i as int] == self.records@[i as int]@);
            if self.records[i].guild_id == guild_id && self.records[i].code == *code {
                return Some(i);
            }
            i = i + 1;
        }
        None
    }

    /// Inserts or overwrites the record of `code` in `guild_id` with a lookup
    /// outcome. The record is then checked and newer than every other write;
    /// it keeps its creation time.
    pub fn upsert_code(&mut self, guild_id: u64, code: &String, v: Validation, now: u64)
        requires
            old(self).wf(),
            old(self).clock() < u64::MAX,
        ensures
            final(self).wf(),
            final(self).clock() == next_stamp(old(self).clock(), now),
            final(self).view() == old(self).view().insert(
                (guild_id, code@),
                upserted(
                    lookup(old(self).view(), (guild_id, code@)),
                    guild_id,
                    code@,
                    v,
                    final(self).clock(),
                ),
            ),
    {
        let ghost k: Key = (guild_id, code@);
        let ghost s0 = self.records();
        proof {
            lemma_to_map_dom(s0);
        }
        let t = self.stamp(now);
        let found = self.find(guild_id, code);
        let created = match found {
            Some(i) => self.records[i].created_at,
            None => t,
        };
        let ghost prev = lookup(to_map(s0), k);
        proof {
            match found {
                Some(i) => {
                    assert(to_map(s0)[k] == s0[i as int]);
                },
                None => {
                    if to_map(s0).dom().contains(k) {
                        let j = choose|j: int| 0 <= j < s0.len() && key_of(s0[j]) == k;
                    }
                },
            }
        }
        let record = Invite {
            guild_id,
            code: code.clone(),
            expires_at: v.expires_at,
            is_permanent: Some(v.is_permanent),
            is_valid: Some(v.is_valid),
            is_checked: true,
            created_at: created,
            updated_at: t,
        };
        assert(record@ == upserted(prev, guild_id, code@, v, t));
        match found {
            Some(i) => {
                let _old = self.records.remove(i);
                proof {
                    assert(self.records() =~= s0.remove(i as int));
                    lemma_to_map_remove(s0, i as int);
                    lemma_remove_well_ordered(s0, old(self).clock, i as int);
                }
            },
            None => {
                proof {
                    assert(to_map(s0).remove(k) =~= to_map(s0));
                }
            },
        }
        let ghost s1 = self.records();
        let ghost r = record@;
        self.records.push(record);
        proof {
            assert(self.records() =~= s1.push(r));
            lemma_push_well_ordered(s1, old(self).clock, r);
            assert(to_map(s1.push(r)) =~= to_map(s0).insert(k, r));
        }
    }

    /// Adds an unchecked record for each code that `guild_id` has none of;
    /// records already there are left alone.
    pub fn create_invites(&mut self, guild_id: u64, codes: &Vec<String>, now: u64)
        requires
            old(self).wf(),
            old(self).clock() < u64::MAX,
        ensures
            final(self).wf(),
            final(self).clock() == next_stamp(old(self).clock(), now),
            final(self).view() == added(old(self).view(), guild_id, views(codes@), final(self).clock()),
    {
        let ghost m0 = self.view();
        let ghost cs = views(codes@);
        let t = self.stamp(now);
        proof {
            assert(added(m0, guild_id, cs.subrange(0, 0), t) =~= m0);
        }
        let mut i: usize = 0;
        while i < codes.len()
            invariant
                i <= codes@.len(),
                cs == views(codes@),
                self.clock == t,
                well_ordered(self.records(), t),
                self.view() == added(m0, guild_id, cs.subrange(0, i as int), t),
            decreases codes@.len() - i,
        {
            let ghost s0 = self.records();
            let ghost c = cs[i as int];
            assert(codes@[i as int]@ == c);
            proof {
                lemma_to_map_dom(s0);
            }
            match self.find(guild_id, &codes[i]) {
                Some(_) => {
                    proof {
                        assert(added(m0, guild_id, cs.subrange(0, i + 1), t) =~= added(
                            m0,
                            guild_id,
                            cs.subrange(0, i as int),
                            t,
                        )) by {
                            assert(cs.subrange(0, i + 1) =~= cs.subrange(0, i as int).push(c));
                        }
                    }
                },
                None => {
                    let record = Invite {
                        guild_id,
                        code: codes[i].clone(),
                        expires_at: None,
                        is_permanent: None,
                        is_valid: None,
                        is_checked: false,
                        created_at: t,
                        updated_at: t,
                    };
                    let ghost r = record@;
                    self.records.push(record);
                    proof {
                        assert(self.records() =~= s0.push(r));
                        lemma_push_well_ordered(s0, t, r);
                        assert(cs.subrange(0, i + 1) =~= cs.subrange(0, i as int).push(c));
                        assert(!to_map(s0).dom().contains((guild_id, c)));
                        let pre = cs.subrange(0, i as int);
                        let p1 = cs.subrange(0, i + 1);
                        assert forall|x: Seq<char>| p1.contains(x) <==> (pre.contains(x) || x == c) by {
                            if p1.contains(x) {
                                let j = choose|j: int| 0 <= j < p1.len() && p1[j] == x;
                                if j < pre.len() {
                                    assert(pre[j] == x);
                                }
                            }
                            if pre.contains(x) {
                                let j = choose|j: int| 0 <= j < pre.len() && pre[j] == x;
                                assert(p1[j] == x);
                            }
                            if x == c {
                                assert(p1[i as int] == x);
                            }
                        }
                        assert(to_map(s0.push(r)) =~= added(m0, guild_id, p1, t));
                    }
                },
            }
            i = i + 1;
        }
        proof {
            assert(cs.subrange(0, codes@.len() as int) =~= cs);
        }
    }

    /// The records of one guild, in order of their last write.
    pub fn read_guild_invites(&self, guild_id: u64) -> (r: Vec<Invite>)
        ensures
            r@.map_values(|x: Invite| x@) == self.records().filter(
                |x: InviteView| x.guild_id == guild_id,
            ),
    {
        let ghost p = |x: InviteView| x.guild_id == guild_id;
        let ghost s = self.records();
        let mut out: Vec<Invite> = Vec::new();
        let mut i: usize = 0;
        proof {
            assert(s.subrange(0, 0) =~= Seq::<InviteView>::empty());
            assert(out@.map_values(|x: Invite| x@) =~= Seq::<InviteView>::empty());
        }
        while i < self.records.len()
            invariant
                i <= self.records@.len(),
                s == self.records(),
                s.len() == self.records@.len(),
                p == (|x: InviteView| x.guild_id == guild_id),
                out@.map_values(|x: Invite| x@) == s.subrange(0, i as int).filter(p),
            decreases self.records@.len() - i,
        {
            proof {
                assert(s.subrange(0, i + 1) =~= s.subrange(0, i as int).push(s[i as int]));
                s.subrange(0, i as int).lemma_filter_push(s[i as int], p);
            }
            if self.records[i].guild_id == guild_id {
                let ghost before = out@;
                out.push(self.records[i].copy());
                assert(out@.map_values(|x: Invite| x@) =~= before.map_values(|x: Invite| x@).push(
                    s[i as int],
                ));
            }
            i = i + 1;
        }
        proof {
            assert(s.subrange(0, s.len() as int) =~= s);
        }
        out
    }

    /// Up to `amount` unchecked codes of any guild, oldest first.
    pub fn read_unchecked_codes(&self, amount: u16) -> (r: Vec<Code>)
        ensures
            r@.len() == if amount as int <= self.records().filter(|x: InviteView| is_unchecked(x)).len() {
                amount as int
            } else {
                self.records().filter(|x: InviteView| is_unchecked(x)).len() as int
            },
            code_views(r@) == record_keys(self.records().filter(|x: InviteView| is_unchecked(x))).take(
                r@.len() as int,
            ),
    {
        self.first_codes(amount, false)
    }

    /// Up to `amount` checked, valid codes of any guild, least recently
    /// validated first.
    pub fn read_checked_codes(&self, amount: u16) -> (r: Vec<Code>)
        ensures
            r@.len() == if amount as int <= self.records().filter(|x: InviteView| is_checked_valid(x)).len() {
                amount as int
            } else {
                self.records().filter(|x: InviteView| is_checked_valid(x)).len() as int
            },
            code_views(r@) == record_keys(self.records().filter(|x: InviteView| is_checked_valid(x))).take(
                r@.len() as int,
            ),
    {
        self.first_codes(amount, true)
    }

    fn first_codes(&self, amount: u16, checked: bool) -> (r: Vec<Code>)
        ensures
            ({
                let p = if checked {
                    |x: InviteView| is_checked_valid(x)
                } else {
                    |x: InviteView| is_unchecked(x)
                };
                let f = self.records().filter(p);
                &&& r@.len() == if amount as int <= f.len() {
                    amount as int
                } else {
                    f.len() as int
                }
                &&& code_views(r@) == record_keys(f).take(r@.len() as int)
            }),
    {
        let ghost p = if checked {
            |x: InviteView| is_checked_valid(x)
        } else {
            |x: InviteView| is_unchecked(x)
        };
        let ghost s = self.records();
        let mut out: Vec<Code> = Vec::new();
        let mut i: usize = 0;
        proof {
            assert(s.subrange(0, 0) =~= Seq::<InviteView>::empty());
            assert(code_views(out@) =~= Seq::<Key>::empty());
        }
        while i < self.records.len() && out.len() < amount as usize
            invariant
                i <= self.records@.len(),
                s == self.records(),
                s.len() == self.records@.len(),
                p == (if checked {
                    |x: InviteView| is_checked_valid(x)
                } else {
                    |x: InviteView| is_unchecked(x)
                }),
                out@.len() <= amount,
                code_views(out@) == record_keys(s.subrange(0, i as int).filter(p)),
            decreases self.records@.len() - i,
        {
            let ghost x = s[i as int];
            proof {
                assert(s.subrange(0, i + 1) =~= s.subrange(0, i as int).push(x));
                s.subrange(0, i as int).lemma_filter_push(x, p);
                assert(self.records@[i as int]@ == x);
            }
            let rec = &self.records[i];
            let wanted = if checked {
                rec.is_checked && rec.is_valid == Some(true)
            } else {
                !rec.is_checked
            };
            if wanted {
                let ghost before = out@;
                out.push(Code { guild_id: rec.guild_id, code: rec.code.clone() });
                assert(code_views(out@) =~= code_views(before).push(key_of(x)));
                assert(record_keys(s.subrange(0, i + 1).filter(p)) =~= record_keys(
                    s.subrange(0, i as int).filter(p),
                ).push(key_of(x)));
            }
            i = i + 1;
        }
        proof {
            let a = s.subrange(0, i as int);
            let b = s.subrange(i as int, s.len() as int);
            assert(s =~= a + b);
            Seq::filter_distributes_over_add(a, b, p);
            let f = s.filter(p);
            assert(f == a.filter(p) + b.filter(p));
            assert(record_keys(f) =~= record_keys(a.filter(p)) + record_keys(b.filter(p)));
            if i == s.len() {
                assert(b =~= Seq::<InviteView>::empty());
                assert(b.filter(p) =~= Seq::<InviteView>::empty()) by {
                    reveal(Seq::filter);
                }
                assert(record_keys(f).take(out@.len() as int) =~= record_keys(f));
            } else {
                assert(record_keys(f).take(out@.len() as int) =~= record_keys(a.filter(p)));
            }
        }
        out
    }

    fn stamp(&mut self, now: u64) -> (t: u64)
        requires
            old(self).clock < u64::MAX,
        ensures
            t == next_stamp(old(self).clock, now),
            t > old(self).clock,
            final(self).clock == t,
            final(self).records == old(self).records,
    {
        let t = if now > self.clock {
            now
        } else {
            self.clock + 1
        };
        self.clock = t;
        t
    }
}

} // verus!
