//! Small helpers: durations in words and snowflake arithmetic.

use vstd::prelude::*;
use crate::extract::string_from_chars;

verus! {

/// Milliseconds since the Unix epoch at which snowflake time starts.
pub const SNOWFLAKE_EPOCH_MS: u64 = 1420070400000;

pub open spec fn digit_char(d: nat) -> char {
    if d == 0 {
        '0'
    } else if d == 1 {
        '1'
    } else if d == 2 {
        '2'
    } else if d == 3 {
        '3'
    } else if d == 4 {
        '4'
    } else if d == 5 {
        '5'
    } else if d == 6 {
        '6'
    } else if d == 7 {
        '7'
    } else if d == 8 {
        '8'
    } else {
        '9'
    }
}

/// The decimal digits of `n`.
pub open spec fn decimal(n: nat) -> Seq<char>
    decreases n,
{
    if n < 10 {
        seq![digit_char(n)]
    } else {
        decimal(n / 10).push(digit_char(n % 10))
    }
}

/// The parts joined by single spaces.
pub open spec fn join_spaces(parts: Seq<Seq<char>>) -> Seq<char>
    decreases parts.len(),
{
    if parts.len() == 0 {
        Seq::empty()
    } else if parts.len() == 1 {
        parts[0]
    } else {
        join_spaces(parts.drop_last()) + seq![' '] + parts.last()
    }
}

/// `value` followed by `unit`, or nothing when `value` is zero.
pub open spec fn unit_part(value: nat, unit: Seq<char>) -> Seq<Seq<char>> {
    if value > 0 {
        seq![decimal(value) + unit]
    } else {
        Seq::empty()
    }
}

/// A duration as days, hours, minutes, seconds and, when `show_ms` is set,
/// milliseconds, leaving out the units that are zero: `1d 2h 3s`.
pub open spec fn humanize_spec(ms: u64, show_ms: bool) -> Seq<char> {
    let days = ms / 86_400_000;
    let hours = (ms % 86_400_000) / 3_600_000;
    let minutes = (ms % 3_600_000) / 60_000;
    let seconds = (ms % 60_000) / 1_000;
    let millis = ms % 1_000;
    join_spaces(
        unit_part(days as nat, seq!['d']) + unit_part(hours as nat, seq!['h']) + unit_part(
            minutes as nat,
            seq!['m'],
        ) + unit_part(seconds as nat, seq!['s']) + if show_ms {
            unit_part(millis as nat, seq!['m', 's'])
        } else {
            Seq::empty()
        },
    )
}

fn digit_exec(d: u64) -> (c: char)
    requires
        d < 10,
    ensures
        c == digit_char(d as nat),
{
    if d == 0 {
        '0'
    } else if d == 1 {
        '1'
    } else if d == 2 {
        '2'
    } else if d == 3 {
        '3'
    } else if d == 4 {
        '4'
    } else if d == 5 {
        '5'
    } else if d == 6 {
        '6'
    } else if d == 7 {
        '7'
    } else if d == 8 {
        '8'
    } else {
        '9'
    }
}

fn push_decimal(out: &mut Vec<char>, n: u64)
    ensures
        final(out)@ == old(out)@ + decimal(n as nat),
    decreases n,
{
    if n >= 10 {
        push_decimal(out, n / 10);
    }
    out.push(digit_exec(n % 10));
    proof {
        if n < 10 {
            assert(decimal(n as nat) == seq![digit_char(n as nat)]);
        } else {
            assert(decimal(n as nat) == decimal((n / 10) as nat).push(digit_char((n % 10) as nat)));
        }
    }
    assert(out@ =~= old(out)@ + decimal(n as nat));
}

/// Appends `value` and `unit` as the next part of a space-joined list.
fn push_part(out: &mut Vec<char>, parts: Ghost<Seq<Seq<char>>>, value: u64, unit: &Vec<char>)
    requires
        old(out)@ == join_spaces(parts@),
        unit@.len() > 0,
        forall|i: int| 0 <= i < parts@.len() ==> (#[trigger] parts@[i]).len() > 0,
    ensures
        final(out)@ == join_spaces(parts@ + unit_part(value as nat, unit@)),
{
    if value > 0 {
        let ghost x = decimal(value as nat) + unit@;
        if out.len() > 0 {
            out.push(' ');
        }
        push_decimal(out, value);
        let mut i: usize = 0;
        let ghost start = out@;
        while i < unit.len()
            invariant
                i <= unit@.len(),
                out@ == start + unit@.subrange(0, i as int),
            decreases unit@.len() - i,
        {
            out.push(unit[i]);
            assert(out@ =~= start + unit@.subrange(0, i + 1));
            i = i + 1;
        }
        proof {
            let ps = parts@ + unit_part(value as nat, unit@);
            assert(ps =~= parts@.push(x));
            assert(ps.drop_last() =~= parts@);
            assert(unit@.subrange(0, unit@.len() as int) =~= unit@);
            lemma_join_empty(parts@);
            lemma_decimal_nonempty(value as nat);
            if parts@.len() == 0 {
                assert(out@ =~= x);
            } else {
                assert(out@ =~= join_spaces(parts@) + seq![' '] + x);
            }
        }
    } else {
        assert(parts@ + unit_part(value as nat, unit@) =~= parts@);
    }
}

/// Every part of a duration list is non-empty.
proof fn lemma_parts_nonempty(a: Seq<Seq<char>>, value: nat, unit: Seq<char>)
    requires
        forall|i: int| 0 <= i < a.len() ==> (#[trigger] a[i]).len() > 0,
        unit.len() > 0,
    ensures
        forall|i: int|
            0 <= i < (a + unit_part(value, unit)).len() ==> (#[trigger] (a + unit_part(
                value,
                unit,
            ))[i]).len() > 0,
{
    let b = a + unit_part(value, unit);
    assert forall|i: int| 0 <= i < b.len() implies (#[trigger] b[i]).len() > 0 by {
        if i >= a.len() {
            assert(b[i] == decimal(value) + unit);
        }
    }
}

/// A duration in words, such as `1d 2h 3s`: days, hours, minutes, seconds and,
/// when `show_ms` is set, milliseconds; units that are zero are left out.
pub fn humanize(milliseconds: u64, show_ms: bool) -> (r: String)
    ensures
        r@ == humanize_spec(milliseconds, show_ms),
{
    let days = milliseconds / 86_400_000;
    let hours = (milliseconds % 86_400_000) / 3_600_000;
    let minutes = (milliseconds % 3_600_000) / 60_000;
    let seconds = (milliseconds % 60_000) / 1_000;
    let millis = milliseconds % 1_000;
    let mut out: Vec<char> = Vec::new();
    let ghost p0: Seq<Seq<char>> = Seq::empty();
    let d = vec!['d'];
    let h = vec!['h'];
    let m = vec!['m'];
    let s = vec!['s'];
    let ms = vec!['m', 's'];
    proof {
        assert(out@ =~= join_spaces(p0));
        assert(d@ =~= seq!['d']);
        assert(h@ =~= seq!['h']);
        assert(m@ =~= seq!['m']);
        assert(s@ =~= seq!['s']);
        assert(ms@ =~= seq!['m', 's']);
    }
    push_part(&mut out, Ghost(p0), days, &d);
    let ghost p1 = p0 + unit_part(days as nat, seq!['d']);
    proof {
        lemma_parts_nonempty(p0, days as nat, seq!['d']);
    }
    push_part(&mut out, Ghost(p1), hours, &h);
    let ghost p2 = p1 + unit_part(hours as nat, seq!['h']);
    proof {
        lemma_parts_nonempty(p1, hours as nat, seq!['h']);
    }
    push_part(&mut out, Ghost(p2), minutes, &m);
    let ghost p3 = p2 + unit_part(minutes as nat, seq!['m']);
    proof {
        lemma_parts_nonempty(p2, minutes as nat, seq!['m']);
    }
    push_part(&mut out, Ghost(p3), seconds, &s);
    let ghost p4 = p3 + unit_part(seconds as nat, seq!['s']);
    proof {
        lemma_parts_nonempty(p3, seconds as nat, seq!['s']);
    }
    if show_ms {
        push_part(&mut out, Ghost(p4), millis, &ms);
    } else {
        assert(p4 + Seq::<Seq<char>>::empty() =~= p4);
    }
    proof {
        assert(p0 + unit_part(days as nat, seq!['d']) + unit_part(hours as nat, seq!['h'])
            + unit_part(minutes as nat, seq!['m']) + unit_part(seconds as nat, seq!['s'])
            =~= unit_part(days as nat, seq!['d']) + unit_part(hours as nat, seq!['h'])
            + unit_part(minutes as nat, seq!['m']) + unit_part(seconds as nat, seq!['s']));
    }
    string_from_chars(out.as_slice())
}

/// The shard that serves a guild among `total_shards`.
pub fn get_shard_id(guild_id: u64, total_shards: u64) -> (r: u64)
    requires
        total_shards > 0,
    ensures
        r == (guild_id >> 22u64) % total_shards,
        r < total_shards,
{
    (guild_id >> 22u64) % total_shards
}

/// The creation time of a snowflake id, in milliseconds since the Unix epoch.
pub fn snowflake_to_ms(snowflake: u64) -> (r: u64)
    ensures
        r == (snowflake >> 22u64) + SNOWFLAKE_EPOCH_MS,
{
    assert((snowflake >> 22u64) <= 0x3ff_ffff_ffff) by (bit_vector);
    (snowflake >> 22u64) + SNOWFLAKE_EPOCH_MS
}

/// How long to wait, from `now_ms`, until `interval_ms` from now with the
/// seconds of the minute set to zero (the fraction of a second is kept).
pub open spec fn threshold_delay_spec(now_ms: u64, interval_ms: u64) -> int {
    let t = now_ms + interval_ms;
    t - (t % 60_000) + (t % 1_000) - now_ms
}

/// The delay until the next run of a periodic task: `interval_ms` from now,
/// rounded down to the start of that minute, or no delay when that lies in
/// the past.
pub fn next_threshold(now_ms: u64, interval_ms: u64) -> (r: u64)
    requires
        now_ms as int + interval_ms as int <= u64::MAX,
    ensures
        r == if threshold_delay_spec(now_ms, interval_ms) > 0 {
            threshold_delay_spec(now_ms, interval_ms)
        } else {
            0
        },
{
    let t = now_ms + interval_ms;
    let at = t - (t % 60_000) + (t % 1_000);
    if at > now_ms {
        at - now_ms
    } else {
        0
    }
}

proof fn lemma_decimal_nonempty(n: nat)
    ensures
        decimal(n).len() > 0,
    decreases n,
{
    if n >= 10 {
        lemma_decimal_nonempty(n / 10);
    }
}

proof fn lemma_join_empty(parts: Seq<Seq<char>>)
    requires
        forall|i: int| 0 <= i < parts.len() ==> (#[trigger] parts[i]).len() > 0,
    ensures
        (join_spaces(parts).len() == 0) == (parts.len() == 0),
    decreases parts.len(),
{
    if parts.len() > 1 {
        lemma_join_empty(parts.drop_last());
    }
}

} // verus!
