//! Speed and accuracy arithmetic.
//!
//! All rates are exact integer formulas in thousandths. A word is five
//! characters for alphabetic languages and one character for the CJK family,
//! the usual convention.

use vstd::prelude::*;

verus! {

/// One keystroke as remembered by the session: when it happened, which
/// character came in, and whether it matched the target.
#[derive(Debug, Clone, Copy)]
pub struct Keystroke {
    pub at_ms: u64,
    pub ch: char,
    pub correct: bool,
}

/// Milliseconds from `ts` to `now`, zero when `ts` lies after `now`.
pub open spec fn age_ms(now: u64, ts: u64) -> int {
    if now >= ts {
        now - ts
    } else {
        0
    }
}

/// `x` capped at `u64::MAX`.
pub open spec fn cap_u64(x: int) -> int {
    if x > u64::MAX as int {
        u64::MAX as int
    } else {
        x
    }
}

/// A keystroke that still counts toward the rolling speed estimate: correct,
/// and at most ten whole seconds old.
pub open spec fn is_recent_correct(k: Keystroke, now: u64) -> bool {
    k.correct && age_ms(now, k.at_ms) / 1000 <= 10
}

/// How many keystrokes of `h` still count toward the rolling speed estimate.
pub open spec fn count_recent(h: Seq<Keystroke>, now: u64) -> nat
    decreases h.len(),
{
    if h.len() == 0 {
        0
    } else {
        (if is_recent_correct(h[0], now) {
            1nat
        } else {
            0nat
        }) + count_recent(h.drop_first(), now)
    }
}

/// The timestamp of the oldest keystroke of `h` that still counts.
pub open spec fn first_recent_ts(h: Seq<Keystroke>, now: u64) -> u64
    decreases h.len(),
{
    if h.len() == 0 {
        0u64
    } else if is_recent_correct(h[0], now) {
        h[0].at_ms
    } else {
        first_recent_ts(h.drop_first(), now)
    }
}

/// Words per minute in thousandths: `count` characters over `elapsed_ms`
/// milliseconds, one word being one character (CJK) or five (otherwise).
pub open spec fn spec_wpm_milli(count: nat, elapsed_ms: nat, cjk: bool) -> int {
    if elapsed_ms == 0 {
        0
    } else {
        let unit: nat = if cjk {
            1
        } else {
            5
        };
        cap_u64((count * 60_000_000) as int / ((elapsed_ms * unit) as int))
    }
}

/// The rolling speed estimate over the keystroke history `h` at time `now`:
/// only correct keystrokes of the last ten seconds count, the window starts at
/// the oldest of them, and windows shorter than a tenth of a second give 0.
pub open spec fn spec_current_wpm_milli(h: Seq<Keystroke>, now: u64, cjk: bool) -> int {
    if h.len() == 0 {
        0
    } else if count_recent(h, now) == 0 {
        0
    } else {
        let elapsed = age_ms(now, first_recent_ts(h, now));
        if elapsed < 100 {
            0
        } else {
            spec_wpm_milli(count_recent(h, now), elapsed as nat, cjk)
        }
    }
}

/// Share of correct keystrokes in thousandths, 0 when nothing was typed.
pub open spec fn spec_accuracy_milli(correct: nat, total: nat) -> nat {
    if total == 0 {
        0
    } else {
        correct * 1000 / total
    }
}

/// The history with every entry older than ten seconds dropped from the
/// front.
pub open spec fn drop_old(h: Seq<Keystroke>, now: u64) -> Seq<Keystroke>
    decreases h.len(),
{
    if h.len() > 0 && age_ms(now, h[0].at_ms) > 10_000 {
        drop_old(h.drop_first(), now)
    } else {
        h
    }
}

/// Count the recent correct keystrokes of `h` and find the oldest of them.
pub fn recent_stats(h: &Vec<Keystroke>, now: u64) -> (r: (usize, u64))
    ensures
        r.0 == count_recent(h@, now),
        count_recent(h@, now) > 0 ==> r.1 == first_recent_ts(h@, now),
{
    let n = h.len();
    let mut i: usize = n;
    let mut count: usize = 0;
    let mut first: u64 = 0;
    while i > 0
        invariant
            i <= n,
            n == h@.len(),
            count == count_recent(h@.skip(i as int), now),
            count <= n - i,
            count > 0 ==> first == first_recent_ts(h@.skip(i as int), now),
        decreases i,
    {
        i = i - 1;
        let k = h[i];
        proof {
            assert(h@.skip(i as int).drop_first() =~= h@.skip(i + 1));
            assert(h@.skip(i as int)[0] == h@[i as int]);
        }
        let recent = k.correct && (if now >= k.at_ms {
            now - k.at_ms
        } else {
            0
        }) / 1000 <= 10;
        if recent {
            count = count + 1;
            first = k.at_ms;
        }
    }
    proof {
        assert(h@.skip(0) =~= h@);
    }
    (count, first)
}

/// Cap a wide intermediate at `u64::MAX`.
fn cap_wide(q: u128) -> (r: u64)
    ensures
        r as int == cap_u64(q as int),
{
    if q > u64::MAX as u128 {
        u64::MAX
    } else {
        q as u64
    }
}

/// Words per minute in thousandths for `count` characters over `elapsed_ms`.
pub fn wpm_milli(count: usize, elapsed_ms: u64, cjk: bool) -> (r: u64)
    ensures
        r as int == spec_wpm_milli(count as nat, elapsed_ms as nat, cjk),
{
    if elapsed_ms == 0 {
        return 0;
    }
    let unit: u128 = if cjk {
        1
    } else {
        5
    };
    let q: u128 = (count as u128) * 60_000_000 / ((elapsed_ms as u128) * unit);
    cap_wide(q)
}

/// The rolling speed estimate at time `now`; see `spec_current_wpm_milli`.
pub fn current_wpm_milli(h: &Vec<Keystroke>, now: u64, cjk: bool) -> (r: u64)
    ensures
        r as int == spec_current_wpm_milli(h@, now, cjk),
{
    if h.len() == 0 {
        return 0;
    }
    let (count, first) = recent_stats(h, now);
    if count == 0 {
        return 0;
    }
    let elapsed: u64 = if now >= first {
        now - first
    } else {
        0
    };
    if elapsed < 100 {
        return 0;
    }
    wpm_milli(count, elapsed, cjk)
}

/// Share of correct keystrokes in thousandths.
pub fn accuracy_milli(correct: usize, total: usize) -> (r: u32)
    requires
        correct <= total,
    ensures
        r == spec_accuracy_milli(correct as nat, total as nat),
{
    if total == 0 {
        return 0;
    }
    let wide: u128 = (correct as u128) * 1000;
    let q: u128 = wide / (total as u128);
    proof {
        vstd::arithmetic::div_mod::lemma_div_is_ordered(
            correct as int * 1000,
            total as int * 1000,
            total as int,
        );
        vstd::arithmetic::div_mod::lemma_div_by_multiple(1000, total as int);
    }
    q as u32
}

/// Characters per minute in thousandths over a whole-second duration.
pub open spec fn spec_cpm_milli_secs(count: nat, secs: nat) -> int {
    if secs == 0 {
        0
    } else {
        cap_u64((count * 60_000) as int / (secs as int))
    }
}

/// Words per minute in thousandths over a whole-second duration.
pub open spec fn spec_wpm_milli_secs(count: nat, secs: nat, cjk: bool) -> int {
    if secs == 0 {
        0
    } else {
        let unit: nat = if cjk {
            1
        } else {
            5
        };
        cap_u64((count * 60_000) as int / ((secs * unit) as int))
    }
}

pub fn cpm_milli_secs(count: usize, secs: u64) -> (r: u64)
    ensures
        r as int == spec_cpm_milli_secs(count as nat, secs as nat),
{
    if secs == 0 {
        return 0;
    }
    let q: u128 = (count as u128) * 60_000 / (secs as u128);
    cap_wide(q)
}

pub fn wpm_milli_secs(count: usize, secs: u64, cjk: bool) -> (r: u64)
    ensures
        r as int == spec_wpm_milli_secs(count as nat, secs as nat, cjk),
{
    if secs == 0 {
        return 0;
    }
    let unit: u128 = if cjk {
        1
    } else {
        5
    };
    let q: u128 = (count as u128) * 60_000 / ((secs as u128) * unit);
    cap_wide(q)
}

/// Drop the entries older than ten seconds from the front of `h`.
pub fn evict_old(h: &mut Vec<Keystroke>, now: u64)
    ensures
        final(h)@ == drop_old(old(h)@, now),
{
    let n = h.len();
    let mut i: usize = 0;
    proof {
        assert(h@.skip(0) =~= h@);
    }
    while i < n && now.saturating_sub(h[i].at_ms) > 10_000
        invariant
            i <= n,
            n == h@.len(),
            drop_old(h@, now) == drop_old(h@.skip(i as int), now),
        decreases n - i,
    {
        proof {
            assert(h@.skip(i as int)[0] == h@[i as int]);
            assert(h@.skip(i as int).drop_first() =~= h@.skip(i + 1));
        }
        i = i + 1;
    }
    proof {
        assert(h@.skip(i as int).len() == n - i);
        if i < n {
            assert(h@.skip(i as int)[0] == h@[i as int]);
        }
        assert(drop_old(h@.skip(i as int), now) == h@.skip(i as int));
    }
    let tail = h.split_off(i);
    *h = tail;
}

} // verus!
