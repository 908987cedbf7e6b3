//! Reports from workers to the coordinator, and the channel end that sends
//! them and keeps a record of what it sent.
use vstd::prelude::*;
use crate::keys::{hex_upper_of, Key};
use std::sync::mpsc::Sender;

verus! {

/// The sending end of a channel of std.
#[verifier::external_type_specification]
#[verifier::external_body]
#[verifier::reject_recursive_types(T)]
pub struct ExSender<T>(std::sync::mpsc::Sender<T>);

/// A report from a worker to the coordinator.
#[derive(Debug)]
pub enum Msg {
    /// A key whose fingerprint matched a pattern.
    Key(Box<Key>),
    /// A throughput sample: candidates processed, and the microseconds they took.
    Speed(u64, u128),
}

/// What a report says: a matched key by its creation instant, user id and
/// fingerprint, or a throughput sample by its candidate count.
pub enum Report {
    Key(int, Seq<char>, Seq<char>),
    Speed(nat),
}

/// The content of a report message.
pub open spec fn msg_view(m: Msg) -> Report {
    match m {
        Msg::Key(k) => Report::Key(k.spec_created_at(), k.spec_uid(), hex_upper_of(k.spec_fingerprint())),
        Msg::Speed(n, _) => Report::Speed(n as nat),
    }
}

/// The sending end of the report channel, with the contents of every report
/// the channel has accepted from it, in order.
pub struct Reporter {
    tx: Sender<Msg>,
    log: Ghost<Seq<Report>>,
}

impl Reporter {
    /// The reports the channel has accepted through this sender, in order.
    pub closed spec fn spec_log(&self) -> Seq<Report> {
        self.log@
    }

    /// A reporter on `tx` that has sent nothing yet.
    pub fn new(tx: Sender<Msg>) -> (r: Reporter)
        ensures
            r.spec_log() == Seq::<Report>::empty(),
    {
        Reporter { tx, log: Ghost(Seq::empty()) }
    }

    /// Relies on `std::sync::mpsc::Sender::send`: the message is queued for
    /// the receiver and `true` comes back, or the receiving end is gone and
    /// `false` comes back with nothing queued.
    #[verifier::external_body]
    pub(crate) fn send(&mut self, m: Msg) -> (r: bool)
        ensures
            r ==> final(self).spec_log() == old(self).spec_log().push(msg_view(m)),
            !r ==> final(self).spec_log() == old(self).spec_log(),
    {
        self.tx.send(m).is_ok()
    }
}

} // verus!
