//! The worker: candidates in, keys synthesized and matched, reports out,
//! until cancelled, exhausted or cut off from the coordinator.
use vstd::prelude::*;
use crate::candidate::{Candidate, Candidates, candidate_count, instant_at};
use crate::error::{is_synthesis_error, ApgpkError};
use crate::keys::{generate_key, key2hex, synthesis_in_range};
use crate::report::{msg_view, Msg, Report, Reporter};
use crate::matcher::matches_any;
use std::sync::atomic::{AtomicBool, Ordering};
use std::sync::Arc;
use std::time::{Duration, Instant, SystemTime, UNIX_EPOCH};

verus! {

/// A monotonic clock reading of std.
#[verifier::external_type_specification]
#[verifier::external_body]
pub struct ExInstant(std::time::Instant);

/// Relies on `std::time::Instant::now`.
#[verifier::external_body]
fn instant_now() -> (r: Instant) {
    Instant::now()
}

/// Relies on `std::time::Instant::elapsed`.
#[verifier::external_body]
fn elapsed(t: &Instant) -> (r: Duration) {
    t.elapsed()
}

/// Relies on `std::time::Duration::as_micros`.
#[verifier::external_body]
fn duration_micros(d: &Duration) -> (r: u128) {
    d.as_micros()
}

/// Relies on `std::time::Duration::as_secs`.
#[verifier::external_body]
fn duration_secs(d: &Duration) -> (r: u64) {
    d.as_secs()
}

/// A wall-clock reading of std.
#[verifier::external_type_specification]
#[verifier::external_body]
pub struct ExSystemTime(std::time::SystemTime);

/// Relies on `std::time::SystemTime::now`.
#[verifier::external_body]
fn system_now() -> (r: SystemTime) {
    SystemTime::now()
}

/// Relies on `std::time::SystemTime::duration_since`, from `UNIX_EPOCH`:
/// `None` for a time before it.
#[verifier::external_body]
fn since_unix_epoch(t: &SystemTime) -> (r: Option<Duration>) {
    t.duration_since(UNIX_EPOCH).ok()
}

/// Candidates between two throughput samples.
pub const SPEED_BLOCK: u64 = 43200;

/// The reports owed for the candidates `processed` (creation instant and
/// fingerprint of each, in order) of a worker for user id `uid`, against
/// patterns `pars`, with samples
/// every `block` candidates and `in_block` candidates already counted in the
/// current block: a key report for each candidate that matches, and a
/// sample after each candidate that completes a block.
pub open spec fn reports_owed(
    processed: Seq<(int, Seq<char>)>,
    uid: Seq<char>,
    pars: Seq<String>,
    block: nat,
    in_block: nat,
) -> Seq<Report>
    decreases processed.len(),
{
    if processed.len() == 0 {
        Seq::empty()
    } else {
        let prev = reports_owed(processed.drop_last(), uid, pars, block, in_block);
        let (t, fp) = processed.last();
        let with_key = if matches_any(fp, pars) {
            prev.push(Report::Key(t, uid, fp))
        } else {
            prev
        };
        if (in_block + processed.len()) as int % (block as int) == 0 {
            with_key.push(Report::Speed(block))
        } else {
            with_key
        }
    }
}

/// Why a worker's pass over its candidates ended without error.
#[derive(PartialEq, Eq, Structural, Clone, Copy, Debug)]
pub enum TaskEnd {
    /// The cancellation flag was seen set.
    Cancelled,
    /// Every candidate was processed.
    Exhausted,
    /// A report could not be sent: the coordinator is gone.
    Disconnected,
}

/// Whether a worker starts a new pass, from a fresh epoch, after a pass that
/// ended with `end` while the cancellation flag reads `cancelled`.
pub fn should_restart(end: TaskEnd, cancelled: bool) -> (r: bool)
    ensures
        r == (end == TaskEnd::Exhausted && !cancelled),
{
    end == TaskEnd::Exhausted && !cancelled
}

/// The decisions of one worker: which candidate comes next, when to stop, and
/// when a throughput sample is due; and, for the current pass, what it has
/// read of the cancellation flag and which candidates it processed.
pub struct Worker {
    candidates: Candidates,
    block_size: u64,
    in_block: u64,
    stopping: bool,
    flags: Ghost<Seq<bool>>,
    processed: Ghost<Seq<(int, Seq<char>)>>,
}

impl Worker {
    pub closed spec fn spec_candidates(&self) -> Candidates {
        self.candidates
    }

    pub closed spec fn spec_block_size(&self) -> int {
        self.block_size as int
    }

    /// Candidates processed since the last throughput sample.
    pub closed spec fn spec_in_block(&self) -> int {
        self.in_block as int
    }

    /// The worker has seen cancellation; this never goes back.
    pub closed spec fn spec_stopping(&self) -> bool {
        self.stopping
    }

    /// The values of the cancellation flag handed to the worker, in order.
    pub closed spec fn spec_flags(&self) -> Seq<bool> {
        self.flags@
    }

    /// Creation instant and fingerprint of each candidate processed in the
    /// current pass, in order.
    pub closed spec fn spec_processed(&self) -> Seq<(int, Seq<char>)> {
        self.processed@
    }


    pub closed spec fn wf(&self) -> bool {
        &&& self.candidates.wf()
        &&& 0 < self.block_size
        &&& self.in_block < self.block_size
    }

    /// A running worker for one label, epoch and maximum backshift, that
    /// samples throughput every `block_size` candidates.
    pub fn new(label: String, epoch: i64, max_backshift: i64, block_size: u64) -> (r: Worker)
        requires
            epoch - max_backshift >= i64::MIN,
            block_size > 0,
        ensures
            r.wf(),
            r.spec_candidates().spec_label() == label@,
            r.spec_candidates().spec_epoch() == epoch,
            r.spec_candidates().spec_max_backshift() == max_backshift,
            r.spec_candidates().spec_next() == 0,
            r.spec_block_size() == block_size,
            r.spec_in_block() == 0,
            !r.spec_stopping(),
            r.spec_flags() == Seq::<bool>::empty(),
            r.spec_processed() == Seq::<(int, Seq<char>)>::empty(),
    {
        Worker {
            candidates: Candidates::new(label, epoch, max_backshift),
            block_size,
            in_block: 0,
            stopping: false,
            flags: Ghost(Seq::empty()),
            processed: Ghost(Seq::empty()),
        }
    }

    /// Whether the worker has seen cancellation.
    pub fn is_stopping(&self) -> (r: bool)
        ensures
            r == self.spec_stopping(),
    {
        self.stopping
    }

    /// The search epoch, in seconds since the Unix epoch.
    pub fn epoch(&self) -> (r: i64)
        requires
            self.wf(),
        ensures
            r == self.spec_candidates().spec_epoch(),
    {
        self.candidates.epoch()
    }

    /// How many candidates have been handed out.
    pub fn candidates_taken(&self) -> (r: u64)
        requires
            self.wf(),
        ensures
            r == self.spec_candidates().spec_next(),
    {
        self.candidates.taken()
    }

    /// The next candidate to process, given whether cancellation is now
    /// requested. Once cancellation is seen the worker is stopping for good
    /// and hands out no candidate again; otherwise the candidates come out in
    /// order, and `None` means they are exhausted.
    pub fn next_candidate(&mut self, cancelled: bool) -> (r: Option<Candidate>)
        requires
            old(self).wf(),
        ensures
            final(self).wf(),
            final(self).spec_stopping() == (old(self).spec_stopping() || cancelled),
            final(self).spec_block_size() == old(self).spec_block_size(),
            final(self).spec_in_block() == old(self).spec_in_block(),
            final(self).spec_flags() == old(self).spec_flags().push(cancelled),
            final(self).spec_processed() == old(self).spec_processed(),
            final(self).spec_candidates().spec_label() == old(self).spec_candidates().spec_label(),
            final(self).spec_candidates().spec_epoch() == old(self).spec_candidates().spec_epoch(),
            final(self).spec_candidates().spec_max_backshift()
                == old(self).spec_candidates().spec_max_backshift(),
            final(self).spec_candidates().spec_count() == old(self).spec_candidates().spec_count(),
            final(self).spec_stopping() ==> {
                &&& r is None
                &&& final(self).spec_candidates().spec_next() == old(self).spec_candidates().spec_next()
            },
            !final(self).spec_stopping() && old(self).spec_candidates().spec_next()
                < old(self).spec_candidates().spec_count() ==> {
                &&& final(self).spec_candidates().spec_next() == old(self).spec_candidates().spec_next() + 1
                &&& r matches Some(c) && c.label@ == old(self).spec_candidates().spec_label()
                    && c.created_at == instant_at(
                    old(self).spec_candidates().spec_epoch(),
                    old(self).spec_candidates().spec_next() as int,
                )
            },
            !final(self).spec_stopping() && old(self).spec_candidates().spec_next()
                >= old(self).spec_candidates().spec_count() ==> {
                &&& r is None
                &&& final(self).spec_candidates().spec_next() == old(self).spec_candidates().spec_next()
            },
    {
        proof {
            self.candidates.lemma_next_in_bounds();
        }
        self.flags = Ghost(self.flags@.push(cancelled));
        if cancelled {
            self.stopping = true;
        }
        if self.stopping {
            return None;
        }
        self.candidates.next()
    }

    /// Counts one processed candidate. Returns the size of the block where it
    /// completes a block, which then starts anew, and `None` otherwise.
    pub fn record_processed(&mut self) -> (r: Option<u64>)
        requires
            old(self).wf(),
        ensures
            final(self).wf(),
            final(self).spec_candidates() == old(self).spec_candidates(),
            final(self).spec_stopping() == old(self).spec_stopping(),
            final(self).spec_block_size() == old(self).spec_block_size(),
            final(self).spec_flags() == old(self).spec_flags(),
            final(self).spec_processed() == old(self).spec_processed(),
            final(self).spec_in_block() == (old(self).spec_in_block() + 1) % old(self).spec_block_size(),
            old(self).spec_in_block() + 1 == old(self).spec_block_size() ==> r == Some(
                old(self).spec_block_size() as u64,
            ),
            old(self).spec_in_block() + 1 < old(self).spec_block_size() ==> r is None,
    {
        proof {
            vstd::arithmetic::div_mod::lemma_mod_self_0(self.block_size as int);
            if self.in_block + 1 < self.block_size {
                vstd::arithmetic::div_mod::lemma_small_mod((self.in_block + 1) as nat, self.block_size as nat);
            }
        }
        if self.in_block + 1 == self.block_size {
            self.in_block = 0;
            Some(self.block_size)
        } else {
            self.in_block = self.in_block + 1;
            None
        }
    }
}

/// The reports sent between a log `before` and a later log `after`.
pub open spec fn sent_since(before: Seq<Report>, after: Seq<Report>) -> Seq<Report> {
    after.subrange(before.len() as int, after.len() as int)
}

/// The log `after` extends the log `before`.
pub open spec fn extends(before: Seq<Report>, after: Seq<Report>) -> bool {
    &&& before.len() <= after.len()
    &&& after.subrange(0, before.len() as int) == before
}

/// A log extended by some reports holds them after the old ones.
pub proof fn lemma_sent_since(before: Seq<Report>, x: Seq<Report>)
    ensures
        extends(before, before + x),
        sent_since(before, before + x) == x,
{
    assert((before + x).subrange(0, before.len() as int) =~= before);
    assert(sent_since(before, before + x) =~= x);
}

/// What a pass of a worker did, from a worker at offset `start`, with
/// `in_block` candidates counted in the current block and stopping or not,
/// to the worker `w`, against patterns `pars`, having sent the reports
/// `sent` on the channel, with result `r`:
/// - the candidates processed are those of offsets `start, start + 1, ...`,
///   each once and in that order, and each was handed out after a read of
///   the cancellation flag that found it clear;
/// - the block count went on by one per candidate processed (but for the
///   last one of a pass cut off by the channel);
/// - a pass that ends with `Cancelled` or `Exhausted` sent every report owed
///   for its candidates, in order, and nothing else; one that ends with
///   `Disconnected` sent all those of the candidates before its last one,
///   and stopped at the first report the channel refused;
/// - `Cancelled` comes after reading the flag set (or from a stopping
///   worker), `Exhausted` after reading it clear with no candidate left;
/// - an error comes from the synthesis of the next candidate, whose instant
///   lies outside the range that keys can be made for.
pub open spec fn pass_done(
    start: int,
    in_block: int,
    was_stopping: bool,
    w: Worker,
    pars: Seq<String>,
    sent: Seq<Report>,
    r: Result<TaskEnd, ApgpkError>,
) -> bool {
    let g = w.spec_candidates();
    let p = w.spec_processed();
    let f = w.spec_flags();
    let b = w.spec_block_size();
    let owed = reports_owed(p, g.spec_label(), pars, b as nat, in_block as nat);
    &&& w.wf()
    &&& start + p.len() <= g.spec_next() <= start + p.len() + 1
    &&& forall|k: int| 0 <= k < p.len() ==> (#[trigger] p[k]).0 == instant_at(g.spec_epoch(), start + k)
    &&& forall|k: int| 0 <= k < p.len() ==> !(#[trigger] f[k])
    &&& p.len() <= f.len() <= p.len() + 1
    &&& r != Ok::<TaskEnd, ApgpkError>(TaskEnd::Disconnected) ==> w.spec_in_block() == (in_block + p.len()) % b
    &&& w.spec_stopping() == (was_stopping || (f.len() > 0 && f.last()))
    &&& was_stopping ==> r == Ok::<TaskEnd, ApgpkError>(TaskEnd::Cancelled) && p.len() == 0
    &&& r is Ok ==> g.spec_next() == start + p.len()
    &&& r == Ok::<TaskEnd, ApgpkError>(TaskEnd::Cancelled) ==> {
        &&& w.spec_stopping()
        &&& f.len() == p.len() + 1
        &&& sent == owed
    }
    &&& r == Ok::<TaskEnd, ApgpkError>(TaskEnd::Exhausted) ==> {
        &&& !w.spec_stopping()
        &&& g.spec_next() == g.spec_count()
        &&& f.len() == p.len() + 1
        &&& sent == owed
    }
    &&& r == Ok::<TaskEnd, ApgpkError>(TaskEnd::Disconnected) ==> {
        let before = reports_owed(p.drop_last(), g.spec_label(), pars, b as nat, in_block as nat);
        &&& p.len() >= 1
        &&& f.len() == p.len()
        &&& before.len() <= sent.len() < owed.len()
        &&& sent == owed.subrange(0, sent.len() as int)
    }
    &&& r is Err ==> {
        &&& f.len() == p.len() + 1
        &&& g.spec_next() == start + p.len() + 1
        &&& !synthesis_in_range(instant_at(g.spec_epoch(), start + p.len()))
        &&& sent == owed
    }
}

/// The reports owed for some candidates begin with those owed for all but
/// the last of them.
pub proof fn lemma_owed_extends(
    p: Seq<(int, Seq<char>)>,
    uid: Seq<char>,
    pars: Seq<String>,
    block: nat,
    in_block: nat,
)
    requires
        p.len() > 0,
    ensures
        reports_owed(p, uid, pars, block, in_block).subrange(
            0,
            reports_owed(p.drop_last(), uid, pars, block, in_block).len() as int,
        ) == reports_owed(p.drop_last(), uid, pars, block, in_block),
        reports_owed(p.drop_last(), uid, pars, block, in_block).len()
            <= reports_owed(p, uid, pars, block, in_block).len(),
{
    let prev = reports_owed(p.drop_last(), uid, pars, block, in_block);
    let all = reports_owed(p, uid, pars, block, in_block);
    assert(all.subrange(0, prev.len() as int) =~= prev);
}

/// Counting one more candidate in a block of `b`: the count after it is
/// `(a + 1) % b`, and it completes the block exactly when that is 0.
pub proof fn lemma_block_step(a: int, b: int)
    requires
        a >= 0,
        b > 0,
    ensures
        (a % b + 1) % b == (a + 1) % b,
        (a % b + 1 == b) == ((a + 1) % b == 0),
{
    vstd::arithmetic::div_mod::lemma_add_mod_noop(a, 1, b);
    vstd::arithmetic::div_mod::lemma_mod_bound(a, b);
    vstd::arithmetic::div_mod::lemma_mod_self_0(b);
    if b > 1 {
        vstd::arithmetic::div_mod::lemma_small_mod(1, b as nat);
    }
    if a % b + 1 < b {
        vstd::arithmetic::div_mod::lemma_small_mod((a % b + 1) as nat, b as nat);
    }
}

/// Drives a worker over its candidates: for each, synthesizes a key, reports
/// it where its fingerprint matches a pattern, and reports a throughput
/// sample at the end of each block. The cancellation flag is read before
/// each candidate, so after it is set at most the candidate under way is
/// finished. The logs of the worker describe this pass alone.
pub fn run(
    worker: &mut Worker,
    pars: &Vec<String>,
    exit_signal: &Arc<AtomicBool>,
    reporter: &mut Reporter,
) -> (r: Result<TaskEnd, ApgpkError>)
    requires
        old(worker).wf(),
    ensures
        final(worker).spec_candidates().spec_label() == old(worker).spec_candidates().spec_label(),
        final(worker).spec_candidates().spec_epoch() == old(worker).spec_candidates().spec_epoch(),
        final(worker).spec_candidates().spec_max_backshift()
            == old(worker).spec_candidates().spec_max_backshift(),
        final(worker).spec_candidates().spec_count() == old(worker).spec_candidates().spec_count(),
        final(worker).spec_block_size() == old(worker).spec_block_size(),
        extends(old(reporter).spec_log(), final(reporter).spec_log()),
        pass_done(
            old(worker).spec_candidates().spec_next() as int,
            old(worker).spec_in_block(),
            old(worker).spec_stopping(),
            *final(worker),
            pars@,
            sent_since(old(reporter).spec_log(), final(reporter).spec_log()),
            r,
        ),
        !old(worker).spec_stopping() && old(worker).spec_candidates().spec_next()
            < old(worker).spec_candidates().spec_count() ==> final(worker).spec_stopping()
            || final(worker).spec_candidates().spec_next() > old(worker).spec_candidates().spec_next(),
        old(worker).spec_candidates().spec_next() == old(worker).spec_candidates().spec_count() ==> {
            ||| r == Ok::<TaskEnd, ApgpkError>(TaskEnd::Exhausted)
            ||| r == Ok::<TaskEnd, ApgpkError>(TaskEnd::Cancelled)
        },
        synthesis_in_range(old(worker).spec_candidates().spec_epoch())
            && synthesis_in_range(
            old(worker).spec_candidates().spec_epoch() - old(worker).spec_candidates().spec_max_backshift(),
        ) ==> r is Ok,
        r matches Err(e) ==> is_synthesis_error(e),
{
    worker.flags = Ghost(Seq::empty());
    worker.processed = Ghost(Seq::empty());
    let ghost log0 = old(reporter).spec_log();
    let ghost start = old(worker).spec_candidates().spec_next() as int;
    let ghost b0 = old(worker).spec_in_block();
    let ghost epoch = old(worker).spec_candidates().spec_epoch();
    let ghost label = old(worker).spec_candidates().spec_label();
    let ghost bs = old(worker).spec_block_size();
    proof {
        vstd::arithmetic::div_mod::lemma_small_mod(b0 as nat, bs as nat);
        assert(log0 + reports_owed(Seq::empty(), label, pars@, bs as nat, b0 as nat) =~= log0);
    }
    let mut block_begin = instant_now();
    loop
        invariant
            worker.wf(),
            worker.spec_candidates().spec_label() == label,
            worker.spec_candidates().spec_epoch() == epoch,
            worker.spec_candidates().spec_max_backshift()
                == old(worker).spec_candidates().spec_max_backshift(),
            worker.spec_candidates().spec_count() == old(worker).spec_candidates().spec_count(),
            worker.spec_block_size() == bs,
            start == old(worker).spec_candidates().spec_next(),
            b0 == old(worker).spec_in_block(),
            epoch == old(worker).spec_candidates().spec_epoch(),
            label == old(worker).spec_candidates().spec_label(),
            bs == old(worker).spec_block_size(),
            log0 == old(reporter).spec_log(),
            old(worker).wf(),
            worker.spec_candidates().spec_next() == start + worker.spec_processed().len(),
            forall|k: int|
                0 <= k < worker.spec_processed().len() ==> (#[trigger] worker.spec_processed()[k]).0
                    == instant_at(epoch, start + k),
            worker.spec_flags().len() == worker.spec_processed().len(),
            forall|k: int| 0 <= k < worker.spec_processed().len() ==> !(#[trigger] worker.spec_flags()[k]),
            worker.spec_in_block() == (b0 + worker.spec_processed().len()) % bs,
            worker.spec_stopping() == old(worker).spec_stopping(),
            old(worker).spec_stopping() ==> worker.spec_processed().len() == 0,
            reporter.spec_log() == log0 + reports_owed(worker.spec_processed(), label, pars@, bs as nat, b0 as nat),
        decreases worker.spec_candidates().spec_count() - worker.spec_candidates().spec_next(),
    {
        let cancelled = exit_signal.load(Ordering::Relaxed);
        proof {
            worker.spec_candidates().lemma_next_in_bounds();
            lemma_sent_since(log0, reports_owed(worker.spec_processed(), label, pars@, bs as nat, b0 as nat));
        }
        match worker.next_candidate(cancelled) {
            None => {
                if worker.is_stopping() {
                    return Ok(TaskEnd::Cancelled);
                }
                return Ok(TaskEnd::Exhausted);
            },
            Some(c) => {
                let key = match generate_key(&c.label, c.created_at) {
                    Ok(k) => k,
                    Err(e) => {
                        proof {
                            let g = worker.spec_candidates();
                            let d = g.spec_max_backshift();
                            g.lemma_next_in_bounds();
                            if synthesis_in_range(epoch) && synthesis_in_range(epoch - d) {
                                assert(synthesis_in_range(c.created_at as int));
                            }
                        }
                        return Err(e);
                    },
                };
                let fp = key2hex(&key);
                let ghost p0 = worker.spec_processed();
                let ghost item = (c.created_at as int, fp@);
                worker.processed = Ghost(worker.processed@.push(item));
                let ghost p = worker.spec_processed();
                assert(p.drop_last() =~= p0);
                let ghost prev = reports_owed(p0, label, pars@, bs as nat, b0 as nat);
                let ghost with_key = if matches_any(fp@, pars@) {
                    prev.push(Report::Key(item.0, label, item.1))
                } else {
                    prev
                };
                proof {
                    lemma_block_step(b0 + p0.len(), bs);
                }
                if crate::matcher::matches(fp.as_str(), pars) {
                    let m = Msg::Key(Box::new(key));
                    let ghost mv = msg_view(m);
                    assert(mv == Report::Key(item.0, label, item.1));
                    if !reporter.send(m) {
                        proof {
                            lemma_owed_extends(p, label, pars@, bs as nat, b0 as nat);
                            lemma_sent_since(log0, prev);
                        }
                        return Ok(TaskEnd::Disconnected);
                    }
                    assert(reporter.spec_log() =~= log0 + with_key);
                }
                assert(reporter.spec_log() == log0 + with_key);
                match worker.record_processed() {
                    Some(n) => {
                        let e = elapsed(&block_begin);
                        let us = duration_micros(&e);
                        if !reporter.send(Msg::Speed(n, us)) {
                            proof {
                                assert((b0 + p.len()) % bs == 0);
                                assert(p.last() == item);
                                assert(reports_owed(p, label, pars@, bs as nat, b0 as nat) == with_key.push(
                                    Report::Speed(bs as nat),
                                ));
                                assert(with_key =~= reports_owed(p, label, pars@, bs as nat, b0 as nat).subrange(
                                    0,
                                    with_key.len() as int,
                                ));
                                lemma_sent_since(log0, with_key);
                            }
                            return Ok(TaskEnd::Disconnected);
                        }
                        assert(reporter.spec_log() =~= log0 + with_key.push(Report::Speed(n as nat)));
                        block_begin = instant_now();
                    },
                    None => {},
                }
                assert(reporter.spec_log() =~= log0 + reports_owed(p, label, pars@, bs as nat, b0 as nat));
            },
        }
    }
}

/// A pass from a fresh worker processes the candidates of offsets
/// `0, 1, ...` in order: every creation instant lies in `[epoch - d, epoch]`,
/// the instants strictly decrease, and a pass that ends with `Exhausted`
/// processed exactly the `d + 1` offsets `0..=d`.
pub proof fn lemma_pass_window(w: Worker, pars: Seq<String>, sent: Seq<Report>, end: TaskEnd)
    requires
        pass_done(0, 0, false, w, pars, sent, Ok(end)),
    ensures
        ({
            let g = w.spec_candidates();
            let p = w.spec_processed();
            &&& forall|k: int| 0 <= k < p.len() ==> (#[trigger] p[k]).0 == g.spec_epoch() - k
            &&& forall|k: int|
                0 <= k < p.len() ==> g.spec_epoch() - g.spec_max_backshift() <= (#[trigger] p[k]).0
                    <= g.spec_epoch()
            &&& forall|j: int, k: int| 0 <= j < k < p.len() ==> (#[trigger] p[k]).0 < (#[trigger] p[j]).0
            &&& end == TaskEnd::Exhausted ==> p.len() == candidate_count(g.spec_max_backshift())
        }),
{
    w.spec_candidates().lemma_next_in_bounds();
}

/// No throughput sample is owed before a whole block of candidates has been
/// processed from the start of a block: every report owed is a key report.
pub proof fn lemma_no_sample_before_block(
    p: Seq<(int, Seq<char>)>,
    uid: Seq<char>,
    pars: Seq<String>,
    block: nat,
)
    requires
        p.len() < block,
    ensures
        forall|i: int|
            0 <= i < reports_owed(p, uid, pars, block, 0).len() ==> (#[trigger] reports_owed(
                p,
                uid,
                pars,
                block,
                0,
            )[i]) is Key,
    decreases p.len(),
{
    if p.len() > 0 {
        lemma_no_sample_before_block(p.drop_last(), uid, pars, block);
        vstd::arithmetic::div_mod::lemma_small_mod(p.len(), block);
    }
}

/// The outcome of one successful pass: how it ended, and the worker with
/// what it did.
pub struct Pass {
    pub end: TaskEnd,
    pub worker: Worker,
}

/// What a pass for user id `uid`, from search epoch `epoch`, with maximum
/// backshift `d`, against patterns `pars`, came to, having sent `sent`:
/// - where `epoch - d` falls before the earliest instant, the pass is
///   refused with `BackshiftOutOfRange`, sends nothing, and only then;
/// - with a negative maximum backshift it succeeds, and it succeeds whenever
///   the epoch and `epoch - d` are instants that keys can be made for;
/// - on success, it is a pass of a fresh worker for that label, epoch and
///   maximum backshift, sampling every `SPEED_BLOCK` candidates.
pub open spec fn pass_outcome(
    uid: Seq<char>,
    epoch: int,
    d: int,
    pars: Seq<String>,
    sent: Seq<Report>,
    r: Result<Pass, ApgpkError>,
) -> bool {
    let too_far = d > 0 && epoch - d < i64::MIN;
    &&& too_far ==> (r matches Err(ApgpkError::BackshiftOutOfRange(e)) && e == epoch && sent.len() == 0)
    &&& (r matches Err(e) ==> ((e is BackshiftOutOfRange) == too_far) && (!too_far ==> is_synthesis_error(e)))
    &&& d < 0 ==> r is Ok
    &&& synthesis_in_range(epoch) && synthesis_in_range(epoch - d) ==> r is Ok
    &&& (r matches Ok(p) ==> {
        let g = p.worker.spec_candidates();
        &&& g.spec_label() == uid
        &&& g.spec_epoch() == epoch
        &&& g.spec_max_backshift() == d
        &&& g.spec_count() == candidate_count(d)
        &&& p.worker.spec_block_size() == SPEED_BLOCK
        &&& pass_done(0, 0, false, p.worker, pars, sent, Ok(p.end))
    })
}

/// One pass of a worker from the search epoch `epoch`: goes through the
/// candidates of offsets `0..=max_backshift` seconds for `uid`, sampling
/// throughput every `SPEED_BLOCK` candidates.
pub fn task_at(
    uid: String,
    epoch: i64,
    max_backshift: i64,
    pars: &Vec<String>,
    exit_signal: &Arc<AtomicBool>,
    reporter: &mut Reporter,
) -> (r: Result<Pass, ApgpkError>)
    ensures
        extends(old(reporter).spec_log(), final(reporter).spec_log()),
        pass_outcome(
            uid@,
            epoch as int,
            max_backshift as int,
            pars@,
            sent_since(old(reporter).spec_log(), final(reporter).spec_log()),
            r,
        ),
{
    if max_backshift > 0 && epoch < i64::MIN + max_backshift {
        proof {
            lemma_sent_since(old(reporter).spec_log(), Seq::empty());
            assert(old(reporter).spec_log() + Seq::<Report>::empty() =~= old(reporter).spec_log());
        }
        return Err(ApgpkError::BackshiftOutOfRange(epoch));
    }
    let mut worker = Worker::new(uid, epoch, max_backshift, SPEED_BLOCK);
    proof {
        worker.spec_candidates().lemma_next_in_bounds();
    }
    match run(&mut worker, pars, exit_signal, reporter) {
        Ok(end) => Ok(Pass { end, worker }),
        Err(e) => Err(e),
    }
}

/// One pass of a worker: fixes the search epoch at the current time, in
/// whole seconds since the Unix epoch, and makes the pass from there. A clock
/// that reads before 1970, or past what an `i64` holds, gives
/// `ClockOutOfRange` and no pass.
pub fn task(
    uid: String,
    max_backshift: i64,
    pars: &Vec<String>,
    exit_signal: &Arc<AtomicBool>,
    reporter: &mut Reporter,
) -> (r: Result<Pass, ApgpkError>)
    ensures
        extends(old(reporter).spec_log(), final(reporter).spec_log()),
        r matches Err(ApgpkError::ClockOutOfRange) ==> final(reporter).spec_log() == old(reporter).spec_log(),
        !(r matches Err(ApgpkError::ClockOutOfRange)) ==> exists|epoch: int|
            0 <= epoch <= i64::MAX && #[trigger] pass_outcome(
                uid@,
                epoch,
                max_backshift as int,
                pars@,
                sent_since(old(reporter).spec_log(), final(reporter).spec_log()),
                r,
            ),
{
    let now = system_now();
    let since = since_unix_epoch(&now);
    let secs: u64 = match since {
        None => 0,
        Some(d) => duration_secs(&d),
    };
    if since.is_none() || secs > i64::MAX as u64 {
        proof {
            assert(old(reporter).spec_log().subrange(0, old(reporter).spec_log().len() as int) =~= old(reporter).spec_log());
        }
        return Err(ApgpkError::ClockOutOfRange);
    }
    let epoch = secs as i64;
    let r = task_at(uid, epoch, max_backshift, pars, exit_signal, reporter);
    assert(pass_outcome(
        uid@,
        epoch as int,
        max_backshift as int,
        pars@,
        sent_since(old(reporter).spec_log(), final(reporter).spec_log()),
        r,
    ));
    r
}

} // verus!
