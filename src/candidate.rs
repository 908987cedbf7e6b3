//! The candidate generator: one creation instant per second of backshift.
use vstd::prelude::*;

verus! {

/// One input to key synthesis: an identity label and a claimed creation
/// instant, in seconds since the Unix epoch.
pub struct Candidate {
    pub label: String,
    pub created_at: i64,
}

/// Number of candidates for a maximum backshift `d`: offsets `0..=d`.
pub open spec fn candidate_count(d: int) -> nat {
    if d < 0 {
        0
    } else {
        (d + 1) as nat
    }
}

/// Creation instant of the candidate at offset `k`.
pub open spec fn instant_at(epoch: int, k: int) -> int {
    epoch - k
}

/// A finite, restartable enumeration of the candidates for one label, one
/// epoch and one maximum backshift, in order of increasing offset.
pub struct Candidates {
    label: String,
    epoch: i64,
    max_backshift: i64,
    count: u64,
    next: u64,
}

impl Candidates {
    pub closed spec fn spec_label(&self) -> Seq<char> {
        self.label@
    }

    pub closed spec fn spec_epoch(&self) -> int {
        self.epoch as int
    }

    pub closed spec fn spec_max_backshift(&self) -> int {
        self.max_backshift as int
    }

    /// How many candidates the whole enumeration holds.
    pub closed spec fn spec_count(&self) -> nat {
        self.count as nat
    }

    /// The offset of the next candidate to come out.
    pub closed spec fn spec_next(&self) -> nat {
        self.next as nat
    }

    pub closed spec fn wf(&self) -> bool {
        &&& self.count == candidate_count(self.max_backshift as int)
        &&& self.next <= self.count
        &&& self.epoch - self.max_backshift >= i64::MIN
    }

    /// A well-formed enumeration never runs past its last offset.
    pub proof fn lemma_next_in_bounds(&self)
        requires
            self.wf(),
        ensures
            self.spec_next() <= self.spec_count(),
            self.spec_count() == candidate_count(self.spec_max_backshift()),
    {
    }

    /// The creation instants of the whole enumeration, in the order they come out.
    pub open spec fn instants(&self) -> Seq<int> {
        Seq::new(self.spec_count(), |k: int| instant_at(self.spec_epoch(), k))
    }

    /// Starts the enumeration at offset 0.
    pub fn new(label: String, epoch: i64, max_backshift: i64) -> (r: Candidates)
        requires
            epoch - max_backshift >= i64::MIN,
        ensures
            r.wf(),
            r.spec_label() == label@,
            r.spec_epoch() == epoch,
            r.spec_max_backshift() == max_backshift,
            r.spec_count() == candidate_count(max_backshift as int),
            r.spec_next() == 0,
    {
        let count: u64 = if max_backshift < 0 {
            0
        } else {
            max_backshift as u64 + 1
        };
        Candidates { label, epoch, max_backshift, count, next: 0 }
    }

    /// The candidate at the current offset, and a step to the next offset;
    /// `None` once every offset has come out.
    pub fn next(&mut self) -> (r: Option<Candidate>)
        requires
            old(self).wf(),
        ensures
            final(self).wf(),
            final(self).spec_label() == old(self).spec_label(),
            final(self).spec_epoch() == old(self).spec_epoch(),
            final(self).spec_max_backshift() == old(self).spec_max_backshift(),
            final(self).spec_count() == old(self).spec_count(),
            old(self).spec_next() < old(self).spec_count() ==> {
                &&& final(self).spec_next() == old(self).spec_next() + 1
                &&& r matches Some(c) && c.label@ == old(self).spec_label()
                    && c.created_at == instant_at(old(self).spec_epoch(), old(self).spec_next() as int)
            },
            old(self).spec_next() == old(self).spec_count() ==> {
                &&& final(self).spec_next() == old(self).spec_next()
                &&& r is None
            },
    {
        if self.next >= self.count {
            return None;
        }
        let created_at: i64 = self.epoch - self.next as i64;
        self.next = self.next + 1;
        Some(Candidate { label: self.label.clone(), created_at })
    }

    /// Goes back to offset 0, keeping label, epoch and maximum backshift.
    pub fn restart(&mut self)
        requires
            old(self).wf(),
        ensures
            final(self).wf(),
            final(self).spec_label() == old(self).spec_label(),
            final(self).spec_epoch() == old(self).spec_epoch(),
            final(self).spec_max_backshift() == old(self).spec_max_backshift(),
            final(self).spec_count() == old(self).spec_count(),
            final(self).spec_next() == 0,
    {
        self.next = 0;
    }

    /// The search epoch, in seconds since the Unix epoch.
    pub fn epoch(&self) -> (r: i64)
        ensures
            r == self.spec_epoch(),
    {
        self.epoch
    }

    /// How many candidates have come out.
    pub fn taken(&self) -> (r: u64)
        ensures
            r == self.spec_next(),
    {
        self.next
    }

    /// Whether every offset has come out.
    pub fn is_exhausted(&self) -> (r: bool)
        requires
            self.wf(),
        ensures
            r == (self.spec_next() == self.spec_count()),
    {
        self.next == self.count
    }
}

/// Every creation instant lies in `[epoch - d, epoch]`, the offsets are
/// `0..=d`, each once, and the instants strictly decrease from one candidate
/// to the next.
pub proof fn lemma_candidates_in_window(g: Candidates)
    requires
        g.wf(),
    ensures
        g.spec_count() == candidate_count(g.spec_max_backshift()),
        forall|k: int| 0 <= k < g.instants().len() ==>
            g.spec_epoch() - g.spec_max_backshift() <= #[trigger] g.instants()[k] <= g.spec_epoch(),
        forall|k: int| 0 <= k < g.instants().len() ==>
            #[trigger] g.instants()[k] == g.spec_epoch() - k,
        forall|j: int, k: int| 0 <= j < k < g.instants().len() ==>
            #[trigger] g.instants()[k] < #[trigger] g.instants()[j],
{
}

} // verus!
