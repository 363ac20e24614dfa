//! Rates from pairs of monotonic kernel counters, with first-sample
//! bootstrapping, reset handling and clamping.
use vstd::prelude::*;

verus! {

/// The metrics whose rates come from counter deltas.
#[derive(Clone, Copy, PartialEq, Eq, Structural, Debug)]
pub enum Metric {
    /// Aggregate CPU load: counters are total and idle jiffies.
    CpuLoad,
    /// GPU busy share: counters are total and busy cycles.
    GpuBusy,
    /// Disk read throughput: counters are milliseconds and bytes read.
    DiskRead,
    /// Disk write throughput: counters are milliseconds and bytes written.
    DiskWrite,
}

/// How a metric's second counter turns into a rate over the first.
#[derive(Clone, Copy, PartialEq, Eq, Structural, Debug)]
pub enum RateKind {
    /// `(Δtotal − Δidle) / Δtotal`, in hundredths of a percent.
    IdleShare,
    /// `Δbusy / Δtotal`, in whole percent.
    BusyShare,
    /// `Δwork / Δmilliseconds`, per second.
    PerSecond,
}

pub open spec fn kind_of(m: Metric) -> RateKind {
    match m {
        Metric::CpuLoad => RateKind::IdleShare,
        Metric::GpuBusy => RateKind::BusyShare,
        Metric::DiskRead => RateKind::PerSecond,
        Metric::DiskWrite => RateKind::PerSecond,
    }
}

pub fn metric_kind(m: Metric) -> (r: RateKind)
    ensures
        r == kind_of(m),
{
    match m {
        Metric::CpuLoad => RateKind::IdleShare,
        Metric::GpuBusy => RateKind::BusyShare,
        Metric::DiskRead => RateKind::PerSecond,
        Metric::DiskWrite => RateKind::PerSecond,
    }
}

/// The largest rate of each kind: 100% for shares, the `i64` range for
/// throughputs.
pub open spec fn rate_ceiling(k: RateKind) -> int {
    match k {
        RateKind::IdleShare => 10000,
        RateKind::BusyShare => 100,
        RateKind::PerSecond => i64::MAX as int,
    }
}

/// The rate before clamping, for a positive `dt`.
pub open spec fn raw_rate(k: RateKind, dt: int, dw: int) -> int {
    match k {
        RateKind::IdleShare => if dt - dw <= 0 { 0 } else { (dt - dw) * 10000 / dt },
        RateKind::BusyShare => if dw <= 0 { 0 } else { dw * 100 / dt },
        RateKind::PerSecond => if dw <= 0 { 0 } else { dw * 1000 / dt },
    }
}

pub open spec fn clamp(v: int, lo: int, hi: int) -> int {
    if v < lo { lo } else if v > hi { hi } else { v }
}

/// The baseline kept for one metric and index.
#[derive(Clone, Copy, PartialEq, Eq, Structural, Debug)]
pub struct CounterState {
    pub total: i64,
    pub work: i64,
    pub sampled_at: u64,
    pub rate: i64,
}

/// The deltas against a baseline; a counter that went back is a reset, and
/// the current reading is then the delta itself.
pub open spec fn deltas(p: CounterState, total: i64, work: i64) -> (int, int) {
    if total < p.total {
        (total as int, work as int)
    } else {
        (total - p.total, work - p.work)
    }
}

/// The rate that a sample yields after baseline `prev`: zero on the first
/// sample, the last rate when no time passed at the counter's resolution,
/// else the clamped ratio of the deltas.
pub open spec fn next_rate(k: RateKind, prev: Option<CounterState>, total: i64, work: i64) -> int {
    match prev {
        None => 0,
        Some(p) => {
            let (dt, dw) = deltas(p, total, work);
            if dt <= 0 {
                p.rate as int
            } else {
                clamp(raw_rate(k, dt, dw), 0, rate_ceiling(k))
            }
        },
    }
}

pub type CounterKey = (Metric, u32);

pub type CounterModel = Map<CounterKey, CounterState>;

pub open spec fn lookup(m: CounterModel, k: CounterKey) -> Option<CounterState> {
    if m.contains_key(k) {
        Some(m[k])
    } else {
        None
    }
}

/// What one sample does to the table and what it returns.
pub open spec fn sampled(
    old: CounterModel,
    new: CounterModel,
    metric: Metric,
    index: u32,
    total: i64,
    work: i64,
    now: u64,
    r: i64,
) -> bool {
    &&& r as int == next_rate(kind_of(metric), lookup(old, (metric, index)), total, work)
    &&& new == old.insert(
        (metric, index),
        CounterState { total, work, sampled_at: now, rate: r },
    )
}

pub open spec fn rows_model(s: Seq<(CounterKey, CounterState)>) -> CounterModel
    decreases s.len(),
{
    if s.len() == 0 {
        Map::empty()
    } else {
        rows_model(s.drop_last()).insert(s.last().0, s.last().1)
    }
}

pub open spec fn rows_unique(s: Seq<(CounterKey, CounterState)>) -> bool {
    forall|i: int, j: int| 0 <= i < j < s.len() ==> s[i].0 != s[j].0
}

proof fn lemma_rows_index(s: Seq<(CounterKey, CounterState)>, i: int)
    requires
        rows_unique(s),
        0 <= i < s.len(),
    ensures
        rows_model(s).contains_key(s[i].0),
        rows_model(s)[s[i].0] == s[i].1,
    decreases s.len(),
{
    if i < s.len() - 1 {
        lemma_rows_index(s.drop_last(), i);
    }
}

proof fn lemma_rows_absent(s: Seq<(CounterKey, CounterState)>, k: CounterKey)
    requires
        forall|i: int| 0 <= i < s.len() ==> s[i].0 != k,
    ensures
        !rows_model(s).contains_key(k),
    decreases s.len(),
{
    if s.len() > 0 {
        lemma_rows_absent(s.drop_last(), k);
    }
}

proof fn lemma_rows_update(
    s: Seq<(CounterKey, CounterState)>,
    i: int,
    e: (CounterKey, CounterState),
)
    requires
        rows_unique(s),
        0 <= i < s.len(),
        e.0 == s[i].0,
    ensures
        rows_model(s.update(i, e)) == rows_model(s).insert(e.0, e.1),
    decreases s.len(),
{
    let t = s.update(i, e);
    if i == s.len() - 1 {
        assert(t.drop_last() =~= s.drop_last());
        assert(rows_model(s).insert(e.0, e.1) =~= rows_model(t));
    } else {
        assert(t.drop_last() =~= s.drop_last().update(i, e));
        lemma_rows_update(s.drop_last(), i, e);
        assert(rows_model(s).insert(e.0, e.1) =~= rows_model(t));
    }
}

/// The baselines of every metric and index sampled so far.
pub struct CounterTable {
    rows: Vec<(CounterKey, CounterState)>,
}

impl View for CounterTable {
    type V = CounterModel;

    closed spec fn view(&self) -> CounterModel {
        rows_model(self.rows@)
    }
}

/// Computes the rate of a sample against an optional baseline.
pub fn rate_after(k: RateKind, prev: Option<CounterState>, total: i64, work: i64) -> (r: i64)
    ensures
        r as int == next_rate(k, prev, total, work),
        0 <= r || (prev matches Some(p) && r == p.rate),
{
    match prev {
        None => 0,
        Some(p) => {
            let (dt, dw): (i128, i128) = if total < p.total {
                (total as i128, work as i128)
            } else {
                (total as i128 - p.total as i128, work as i128 - p.work as i128)
            };
            if dt <= 0 {
                return p.rate;
            }
            let raw: i128 = match k {
                RateKind::IdleShare => if dt - dw <= 0 { 0 } else { (dt - dw) * 10000 / dt },
                RateKind::BusyShare => if dw <= 0 { 0 } else { dw * 100 / dt },
                RateKind::PerSecond => if dw <= 0 { 0 } else { dw * 1000 / dt },
            };
            let ceiling: i128 = match k {
                RateKind::IdleShare => 10000,
                RateKind::BusyShare => 100,
                RateKind::PerSecond => i64::MAX as i128,
            };
            if raw < 0 {
                0
            } else if raw > ceiling {
                ceiling as i64
            } else {
                raw as i64
            }
        },
    }
}

impl CounterTable {
    pub closed spec fn wf(&self) -> bool {
        rows_unique(self.rows@)
    }

    pub fn new() -> (r: CounterTable)
        ensures
            r.wf(),
            r@ == CounterModel::empty(),
    {
        CounterTable { rows: Vec::new() }
    }

    fn find(&self, metric: Metric, index: u32) -> (r: Option<usize>)
        requires
            self.wf(),
        ensures
            match r {
                Some(i) => i < self.rows@.len() && self.rows@[i as int].0 == (metric, index),
                None => !self@.contains_key((metric, index)),
            },
    {
        let mut i: usize = 0;
        while i < self.rows.len()
            invariant
                i <= self.rows@.len(),
                forall|k: int| 0 <= k < i ==> self.rows@[k].0 != (metric, index),
            decreases self.rows@.len() - i,
        {
            let (m, idx) = self.rows[i].0;
            if m == metric && idx == index {
                return Some(i);
            }
            i = i + 1;
        }
        proof {
            lemma_rows_absent(self.rows@, (metric, index));
        }
        None
    }

    /// The baseline kept for `metric` at `index`, if any.
    pub fn baseline(&self, metric: Metric, index: u32) -> (r: Option<CounterState>)
        requires
            self.wf(),
        ensures
            r == lookup(self@, (metric, index)),
    {
        match self.find(metric, index) {
            Some(i) => {
                proof {
                    lemma_rows_index(self.rows@, i as int);
                }
                Some(self.rows[i].1)
            },
            None => None,
        }
    }

    fn put(&mut self, key: CounterKey, st: CounterState)
        requires
            old(self).wf(),
        ensures
            final(self).wf(),
            final(self)@ == old(self)@.insert(key, st),
    {
        let e = (key, st);
        match self.find(key.0, key.1) {
            Some(i) => {
                proof {
                    lemma_rows_update(self.rows@, i as int, e);
                }
                self.rows.set(i, e);
            },
            None => {
                let ghost before = self.rows@;
                self.rows.push(e);
                assert(self.rows@.drop_last() =~= before);
                proof {
                    assert forall|k: int| 0 <= k < before.len() implies before[k].0 != key by {
                        if before[k].0 == key {
                            lemma_rows_index(before, k);
                        }
                    }
                }
            },
        }
    }

    /// Takes one sample of `metric` at `index`: computes its rate against
    /// the stored baseline, then makes the sample the new baseline.
    pub fn sample(&mut self, metric: Metric, index: u32, total: i64, work: i64, now: u64) -> (r:
        i64)
        requires
            old(self).wf(),
        ensures
            final(self).wf(),
            sampled(old(self)@, final(self)@, metric, index, total, work, now, r),
    {
        let prev = self.baseline(metric, index);
        let r = rate_after(metric_kind(metric), prev, total, work);
        self.put((metric, index), CounterState { total, work, sampled_at: now, rate: r });
        r
    }
}

/// Every rate a table hands out lies between zero and its kind's ceiling,
/// once every baseline it holds does.
pub proof fn lemma_rates_in_range(
    old: CounterModel,
    new: CounterModel,
    metric: Metric,
    index: u32,
    total: i64,
    work: i64,
    now: u64,
    r: i64,
)
    requires
        sampled(old, new, metric, index, total, work, now, r),
        forall|k: CounterKey|
            #![trigger old[k]]
            old.contains_key(k) ==> 0 <= old[k].rate <= rate_ceiling(kind_of(k.0)),
    ensures
        0 <= r <= rate_ceiling(kind_of(metric)),
        forall|k: CounterKey|
            #![trigger new[k]]
            new.contains_key(k) ==> 0 <= new[k].rate <= rate_ceiling(kind_of(k.0)),
{
    let k = (metric, index);
    let (dt, dw) = match lookup(old, k) {
        Some(p) => deltas(p, total, work),
        None => (0, 0),
    };
    if lookup(old, k) is Some && dt > 0 {
        let kind = kind_of(metric);
        if kind == RateKind::IdleShare && dt - dw > 0 {
            assert((dt - dw) * 10000 / dt >= 0) by (nonlinear_arith)
                requires
                    dt > 0,
                    dt - dw > 0,
            ;
        }
        if kind == RateKind::BusyShare && dw > 0 {
            assert(dw * 100 / dt >= 0) by (nonlinear_arith)
                requires
                    dt > 0,
                    dw > 0,
            ;
        }
        if kind == RateKind::PerSecond && dw > 0 {
            assert(dw * 1000 / dt >= 0) by (nonlinear_arith)
                requires
                    dt > 0,
                    dw > 0,
            ;
        }
    }
}

/// A repeated sample with the same counters changes no rate: the second call
/// returns what the first returned.
pub proof fn lemma_repeat_sample_keeps_rate(
    c0: CounterModel,
    c1: CounterModel,
    c2: CounterModel,
    metric: Metric,
    index: u32,
    total: i64,
    work: i64,
    t1: u64,
    t2: u64,
    r1: i64,
    r2: i64,
)
    requires
        sampled(c0, c1, metric, index, total, work, t1, r1),
        sampled(c1, c2, metric, index, total, work, t2, r2),
    ensures
        r2 == r1,
{
}

} // verus!
