//! The bookkeeping of a loop that reads replies from several clients until
//! it has the number it waits for: each read either brings a reply, which is
//! recorded for the client it came from, or finds none, which is reported
//! and changes nothing.

use vstd::prelude::*;
use crate::data::{recorded, Data};

verus! {

/// How many replies have been recorded, out of how many are awaited.
pub struct ReplyCounter {
    received: u32,
    expected: u32,
}

/// What one read came to.
#[derive(Debug, Clone, Copy, PartialEq, Eq, Structural)]
pub enum ReadOutcome {
    /// A reply was read and recorded.
    Recorded,
    /// The client with this number had nothing to read.
    NoMessage(u32),
}

impl ReplyCounter {
    /// The number of replies recorded so far.
    pub closed spec fn received_count(&self) -> nat {
        self.received as nat
    }

    /// The number of replies awaited.
    pub closed spec fn expected_count(&self) -> nat {
        self.expected as nat
    }

    /// The loop is over once all awaited replies are in.
    pub open spec fn done(&self) -> bool {
        self.received_count() >= self.expected_count()
    }

    /// A counter that awaits `expected` replies and has none.
    pub fn new(expected: u32) -> (c: ReplyCounter)
        ensures
            c.received_count() == 0,
            c.expected_count() == expected,
    {
        ReplyCounter { received: 0, expected }
    }

    /// Whether all awaited replies are in.
    pub fn is_done(&self) -> (b: bool)
        ensures
            b == self.done(),
            b <==> self.received_count() >= self.expected_count(),
    {
        self.received >= self.expected
    }

    /// The number of replies recorded so far.
    pub fn received(&self) -> (n: u32)
        ensures
            n == self.received_count(),
    {
        self.received
    }

    /// Takes the result of one read from client number `which`, whose
    /// process id is `pid`: a reply is recorded for `pid` and counted; no
    /// reply leaves the store and the count as they were and names the
    /// client.
    pub fn on_read(&mut self, data: &mut Data, which: u32, pid: u32, line: Option<String>) -> (out:
        ReadOutcome)
        requires
            old(self).received_count() < u32::MAX,
        ensures
            final(self).expected_count() == old(self).expected_count(),
            match line {
                Some(l) => {
                    &&& out == ReadOutcome::Recorded
                    &&& final(self).received_count() == old(self).received_count() + 1
                    &&& final(data)@ == recorded(old(data)@, pid, l@)
                },
                None => {
                    &&& out == ReadOutcome::NoMessage(which)
                    &&& final(self).received_count() == old(self).received_count()
                    &&& final(data)@ == old(data)@
                },
            },
    {
        match line {
            Some(l) => {
                self.received = self.received + 1;
                data.record(pid, l);
                ReadOutcome::Recorded
            },
            None => ReadOutcome::NoMessage(which),
        }
    }
}

/// Which client a ready descriptor belongs to: the first client's when it is
/// the first client's descriptor, the second client's otherwise; the result
/// is the client's number and process id.
pub fn client_for_fd(ready: i32, first_fd: i32, first_pid: u32, second_pid: u32) -> (r: (u32, u32))
    ensures
        r == (if ready == first_fd {
            (1u32, first_pid)
        } else {
            (2u32, second_pid)
        }),
{
    if ready == first_fd {
        (1, first_pid)
    } else {
        (2, second_pid)
    }
}


/// The loop is over exactly when the replies recorded reach the number
/// awaited: with fewer it goes on, with that many or more it stops.
pub proof fn lemma_done_exactly_when_all_in(c: ReplyCounter)
    ensures
        c.received_count() < c.expected_count() ==> !c.done(),
        c.received_count() >= c.expected_count() ==> c.done(),
{
}
} // verus!
