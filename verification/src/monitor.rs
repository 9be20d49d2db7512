//! System monitoring: network rates from interface counters, and the
//! sampling and retention schedule of the metric history.
use vstd::prelude::*;
use crate::table::Table;
use crate::text::chars_of;

verus! {

/// Seconds between two samples.
pub const SAMPLE_INTERVAL_SECS: u64 = 5;

/// Samples between two prunings of the history (about an hour).
pub const PRUNE_EVERY: u32 = 720;

/// How long the history is kept: 7 days, in seconds.
pub const RETENTION_SECS: i64 = 604800;

/// Seconds a disk capacity reading is reused (capacities change slowly).
pub const DISK_REFRESH_SECS: u64 = 30;

/// `a - b`, or 0 when `b` is larger (`saturating_sub`).
pub open spec fn sat_sub(a: u64, b: u64) -> nat {
    if a >= b {
        (a - b) as nat
    } else {
        0
    }
}

/// The counters an interface had at the last sample, 0 when unknown.
pub open spec fn last_of(last: Map<Seq<char>, (u64, u64)>, name: Seq<char>) -> (u64, u64) {
    if last.contains_key(name) {
        last[name]
    } else {
        (0, 0)
    }
}

/// Bytes received and sent by the interfaces `cur` (name, received, sent
/// counters) since the counters `last`.
pub open spec fn net_sums(last: Map<Seq<char>, (u64, u64)>, cur: Seq<(Seq<char>, u64, u64)>) -> (nat, nat)
    decreases cur.len(),
{
    if cur.len() == 0 {
        (0, 0)
    } else {
        let (a, b) = net_sums(last, cur.drop_last());
        let c = cur.last();
        let l = last_of(last, c.0);
        (a + sat_sub(c.1, l.0), b + sat_sub(c.2, l.1))
    }
}

/// The counters kept for the next sample: those of `cur`, a later entry
/// for a name replacing an earlier one.
pub open spec fn next_counters(cur: Seq<(Seq<char>, u64, u64)>) -> Map<Seq<char>, (u64, u64)>
    decreases cur.len(),
{
    if cur.len() == 0 {
        Map::empty()
    } else {
        next_counters(cur.drop_last()).insert(cur.last().0, (cur.last().1, cur.last().2))
    }
}

pub open spec fn counter_views(v: Seq<(String, u64, u64)>) -> Seq<(Seq<char>, u64, u64)> {
    v.map_values(|c: (String, u64, u64)| (c.0@, c.1, c.2))
}

/// Bytes received and sent since the last sample, and the counters to keep
/// for the next one; `None` when a total does not fit in 64 bits.
pub fn net_delta(last: &Table<(u64, u64)>, cur: &Vec<(String, u64, u64)>) -> (r: Option<(u64, u64, Table<(u64, u64)>)>)
    ensures
        match r {
            Some((a, b, t)) => {
                &&& a == net_sums(last@, counter_views(cur@)).0
                &&& b == net_sums(last@, counter_views(cur@)).1
                &&& t@ == next_counters(counter_views(cur@))
            },
            None => net_sums(last@, counter_views(cur@)).0 > u64::MAX || net_sums(last@, counter_views(cur@)).1
                > u64::MAX || exists|k: int|
                0 <= k < cur@.len() && (net_sums(last@, counter_views(cur@).take(k)).0 > u64::MAX || net_sums(
                    last@,
                    counter_views(cur@).take(k),
                ).1 > u64::MAX),
        },
{
    let ghost cv = counter_views(cur@);
    let mut a: u64 = 0;
    let mut b: u64 = 0;
    let mut next: Table<(u64, u64)> = Table::new();
    let mut i: usize = 0;
    assert(cv.take(0) =~= Seq::<(Seq<char>, u64, u64)>::empty());
    assert(next@ =~= next_counters(cv.take(0)));
    while i < cur.len()
        invariant
            i <= cur@.len(),
            cv == counter_views(cur@),
            a == net_sums(last@, cv.take(i as int)).0,
            b == net_sums(last@, cv.take(i as int)).1,
            next@ == next_counters(cv.take(i as int)),
        decreases cur@.len() - i,
    {
        assert(cv.take(i + 1).drop_last() =~= cv.take(i as int));
        assert(cv.take(i + 1).last() == (cur@[i as int].0@, cur@[i as int].1, cur@[i as int].2));
        let (name, rx, tx) = (&cur[i].0, cur[i].1, cur[i].2);
        let key = chars_of(name.as_str());
        let (li, lo) = match last.get(&key) {
            Some(p) => p,
            None => (0u64, 0u64),
        };
        let di = if rx >= li {
            rx - li
        } else {
            0
        };
        let dout = if tx >= lo {
            tx - lo
        } else {
            0
        };
        match a.checked_add(di) {
            Some(x) => {
                a = x;
            },
            None => {
                assert(net_sums(last@, cv.take(i + 1)).0 > u64::MAX);
                return None;
            },
        }
        match b.checked_add(dout) {
            Some(x) => {
                b = x;
            },
            None => {
                assert(net_sums(last@, cv.take(i + 1)).1 > u64::MAX);
                return None;
            },
        }
        next.insert(&key, (rx, tx));
        i = i + 1;
    }
    assert(cv.take(cur@.len() as int) =~= cv);
    Some((a, b, next))
}

/// One sample taken: the sample counter after it, and whether the history
/// is pruned now (every `PRUNE_EVERY` samples, the counter then restarting).
pub fn sample_tick(ticks: u32) -> (r: (u32, bool))
    requires
        ticks < PRUNE_EVERY,
    ensures
        ticks + 1 >= PRUNE_EVERY ==> r == (0u32, true),
        ticks + 1 < PRUNE_EVERY ==> r == ((ticks + 1) as u32, false),
{
    let t = ticks + 1;
    if t >= PRUNE_EVERY {
        (0, true)
    } else {
        (t, false)
    }
}

/// The oldest sample time kept at time `now`.
pub fn prune_cutoff(now: i64) -> (c: i64)
    requires
        now >= i64::MIN + RETENTION_SECS,
    ensures
        c == now - RETENTION_SECS,
{
    now - RETENTION_SECS
}

/// Whether a disk reading taken `age_secs` ago can be reused.
pub fn disk_reading_fresh(age_secs: u64) -> (b: bool)
    ensures
        b == (age_secs < DISK_REFRESH_SECS),
{
    age_secs < DISK_REFRESH_SECS
}

} // verus!
