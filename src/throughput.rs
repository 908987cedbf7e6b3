//! Throughput estimation from the samples that workers report.
use vstd::prelude::*;

verus! {

/// Rates are kept in thousandths of a key per second.
pub const MILLI_PER_SECOND_PER_MICRO: u128 = 1_000_000_000;

/// The largest rate one sample can give: `u64::MAX` keys in one microsecond.
pub open spec fn max_rate() -> int {
    u64::MAX as int * MILLI_PER_SECOND_PER_MICRO as int
}

/// Rate of a sample of `count` keys in `micros` microseconds, in thousandths
/// of a key per second; an elapsed time of zero counts as one microsecond.
pub open spec fn rate_of(count: int, micros: int) -> int {
    count * MILLI_PER_SECOND_PER_MICRO as int / (if micros == 0 {
        1
    } else {
        micros
    })
}

/// The moving average after one more sample: history weighs twice the sample.
pub open spec fn ewma(avg: int, sample: int) -> int {
    (2 * avg + sample) / 3
}

/// The moving average after `n` samples that all equal `s`, from `a`.
pub open spec fn ewma_iter(a: int, s: int, n: nat) -> int
    decreases n,
{
    if n == 0 {
        a
    } else {
        ewma(ewma_iter(a, s, (n - 1) as nat), s)
    }
}

/// `b` to the power `n`.
pub open spec fn power(b: int, n: nat) -> int
    decreases n,
{
    if n == 0 {
        1
    } else {
        b * power(b, (n - 1) as nat)
    }
}

/// The rate of one sample.
pub fn sample_rate(count: u64, elapsed_micros: u128) -> (r: u128)
    ensures
        r == rate_of(count as int, elapsed_micros as int),
        0 <= r <= max_rate(),
{
    let d: u128 = if elapsed_micros == 0 {
        1
    } else {
        elapsed_micros
    };
    let num: u128 = count as u128 * MILLI_PER_SECOND_PER_MICRO;
    assert(num as int / d as int <= num) by (nonlinear_arith)
        requires d >= 1, num >= 0;
    num / d
}

/// The smoothed throughput of one worker, and the aggregate that is shown at
/// most once per interval.
pub struct SpeedMeter {
    avg: u128,
    workers: u32,
    interval_ms: u64,
    last_show_ms: u64,
}

impl SpeedMeter {
    /// The current per-worker average, in thousandths of a key per second.
    pub closed spec fn spec_avg(&self) -> int {
        self.avg as int
    }

    pub closed spec fn spec_workers(&self) -> int {
        self.workers as int
    }

    pub closed spec fn spec_interval_ms(&self) -> int {
        self.interval_ms as int
    }

    /// When the aggregate was last shown, in milliseconds from the start.
    pub closed spec fn spec_last_show_ms(&self) -> int {
        self.last_show_ms as int
    }

    pub closed spec fn wf(&self) -> bool {
        self.avg <= max_rate()
    }

    /// A meter for `workers` workers, showing at most once per `interval_ms`,
    /// started at time 0 with an average of zero.
    pub fn new(workers: u32, interval_ms: u64) -> (r: SpeedMeter)
        ensures
            r.wf(),
            r.spec_avg() == 0,
            r.spec_workers() == workers,
            r.spec_interval_ms() == interval_ms,
            r.spec_last_show_ms() == 0,
    {
        SpeedMeter { avg: 0, workers, interval_ms, last_show_ms: 0 }
    }

    /// The per-worker average, in thousandths of a key per second.
    pub fn average(&self) -> (r: u128)
        ensures
            r == self.spec_avg(),
    {
        self.avg
    }

    /// The estimate for all workers together: the average times the worker count.
    pub fn aggregate(&self) -> (r: u128)
        requires
            self.wf(),
        ensures
            r == self.spec_avg() * self.spec_workers(),
    {
        proof {
            assert(self.avg as int * self.workers as int <= max_rate() * u32::MAX as int)
                by (nonlinear_arith)
                requires self.avg <= max_rate(), self.workers <= u32::MAX;
        }
        self.avg * self.workers as u128
    }

    /// Takes a sample of `count` keys in `elapsed_micros` microseconds,
    /// arrived at `now_ms`. Returns the aggregate estimate where more than the
    /// interval has passed since it was last shown, and `None` otherwise.
    pub fn on_sample(&mut self, count: u64, elapsed_micros: u128, now_ms: u64) -> (r: Option<u128>)
        requires
            old(self).wf(),
        ensures
            final(self).wf(),
            final(self).spec_avg() == ewma(
                old(self).spec_avg(),
                rate_of(count as int, elapsed_micros as int),
            ),
            final(self).spec_workers() == old(self).spec_workers(),
            final(self).spec_interval_ms() == old(self).spec_interval_ms(),
            now_ms - old(self).spec_last_show_ms() > old(self).spec_interval_ms() ==> {
                &&& r matches Some(v) && v == final(self).spec_avg() * final(self).spec_workers()
                &&& final(self).spec_last_show_ms() == now_ms
            },
            !(now_ms - old(self).spec_last_show_ms() > old(self).spec_interval_ms()) ==> {
                &&& r is None
                &&& final(self).spec_last_show_ms() == old(self).spec_last_show_ms()
            },
    {
        let s = sample_rate(count, elapsed_micros);
        self.avg = (2 * self.avg + s) / 3;
        if now_ms > self.last_show_ms && now_ms - self.last_show_ms > self.interval_ms {
            self.last_show_ms = now_ms;
            Some(self.aggregate())
        } else {
            None
        }
    }
}

/// One sample never moves the average past it, and closes at least a third
/// of the distance, up to rounding.
pub proof fn lemma_ewma_step(a: int, s: int)
    requires
        0 <= a <= s,
    ensures
        a <= ewma(a, s) <= s,
        3 * (s - ewma(a, s)) <= 2 * (s - a) + 2,
{
}

/// The estimate never goes negative, and with every sample equal to `s` it
/// converges to `s` from below: after `n` samples from an average `a <= s`
/// it lies in `[a, s]` and its distance to `s` is at most
/// `(2/3)^n * (s - a) + 2`.
pub proof fn lemma_ewma_converges(a: int, s: int, n: nat)
    requires
        0 <= a <= s,
    ensures
        0 <= a <= ewma_iter(a, s, n) <= s,
        power(3, n) * (s - ewma_iter(a, s, n)) <= power(2, n) * (s - a) + 2 * power(3, n),
    decreases n,
{
    if n > 0 {
        let m = (n - 1) as nat;
        lemma_ewma_converges(a, s, m);
        let e = ewma_iter(a, s, m);
        lemma_ewma_step(e, s);
        let p3 = power(3, m);
        let p2 = power(2, m);
        let e2 = ewma(e, s);
        assert(p3 >= 1) by {
            lemma_power_positive(3, m);
        }
        assert(p3 * (3 * (s - e2)) <= p3 * (2 * (s - e) + 2)) by (nonlinear_arith)
            requires p3 >= 1, 3 * (s - e2) <= 2 * (s - e) + 2;
        assert(power(3, n) * (s - e2) == p3 * (3 * (s - e2))) by (nonlinear_arith)
            requires power(3, n) == 3 * p3;
        assert(power(3, n) * (s - e2) <= power(2, n) * (s - a) + 2 * power(3, n)) by (nonlinear_arith)
            requires
                power(3, n) * (s - e2) <= p3 * (2 * (s - e) + 2),
                p3 * (s - e) <= p2 * (s - a) + 2 * p3,
                power(3, n) == 3 * p3,
                power(2, n) == 2 * p2,
        ;
    }
}

/// The aggregate estimate, the average times the worker count `w`, converges
/// the same way: after `n` samples equal to `s` it lies in `[w * a, w * s]`,
/// at a distance from `w * s` of at most `w * ((2/3)^n * (s - a) + 2)`.
pub proof fn lemma_aggregate_converges(a: int, s: int, w: int, n: nat)
    requires
        0 <= a <= s,
        0 <= w,
    ensures
        0 <= w * a <= w * ewma_iter(a, s, n) <= w * s,
        power(3, n) * (w * s - w * ewma_iter(a, s, n))
            <= w * (power(2, n) * (s - a) + 2 * power(3, n)),
{
    lemma_ewma_converges(a, s, n);
    let e = ewma_iter(a, s, n);
    let p3 = power(3, n);
    let rhs = power(2, n) * (s - a) + 2 * p3;
    assert(0 <= w * a <= w * e <= w * s) by (nonlinear_arith)
        requires 0 <= a <= e <= s, 0 <= w;
    assert(p3 * (w * s - w * e) <= w * rhs) by (nonlinear_arith)
        requires p3 * (s - e) <= rhs, 0 <= w;
}

/// Powers of a positive base are positive.
pub proof fn lemma_power_positive(b: int, n: nat)
    requires
        b >= 1,
    ensures
        power(b, n) >= 1,
    decreases n,
{
    if n > 0 {
        lemma_power_positive(b, (n - 1) as nat);
        assert(b * power(b, (n - 1) as nat) >= 1) by (nonlinear_arith)
            requires b >= 1, power(b, (n - 1) as nat) >= 1;
    }
}

} // verus!
