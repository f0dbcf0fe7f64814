//! Packet sources with a history of their answers.

use vstd::prelude::*;

use crate::capture::{PacketSource, TcpPacketInfo};
use crate::error::Error;

verus! {

/// Calls a function on a source, and tells that the answer is what it gave.
fn call_on_source<S: PacketSource, F: Fn(&mut S) -> Option<Result<TcpPacketInfo, Error>>>(
    f: F,
    source: &mut S,
) -> (answer: Option<Result<TcpPacketInfo, Error>>)
    requires
        forall|s: &mut S| f.requires((s,)),
    ensures
        exists|s: &mut S| #[trigger]
            f.ensures((s,), answer) && *s == *old(source) && *final(s) == *final(source),
{
    f(source)
}

/// A packet source that is asked through [`AskedSource::ask`] alone, so that what it has answered
/// is on record. The record exists in proofs only.
pub struct AskedSource<S: PacketSource> {
    source: S,
    answers: Ghost<Seq<Option<Result<TcpPacketInfo, Error>>>>,
}

impl<S: PacketSource> AskedSource<S> {
    /// Everything that the source has answered so far.
    pub closed spec fn answers(&self) -> Seq<Option<Result<TcpPacketInfo, Error>>> {
        self.answers@
    }

    /// The source as it is.
    pub closed spec fn source(&self) -> S {
        self.source
    }

    /// Takes a source that has not been asked yet.
    pub fn new(source: S) -> (asked: Self)
        ensures
            asked.source() == source,
            asked.answers() == Seq::<Option<Result<TcpPacketInfo, Error>>>::empty(),
    {
        AskedSource { source, answers: Ghost(Seq::empty()) }
    }

    /// Asks the source once: its next packet is the answer, and leaves it as it then is.
    pub fn ask(&mut self) -> (answer: Option<Result<TcpPacketInfo, Error>>)
        ensures
            final(self).answers() == old(self).answers().push(answer),
            exists|s: &mut S| #[trigger]
                call_ensures(S::next_tcp_packet, (s,), answer) && *s == old(self).source()
                    && *final(s) == final(self).source(),
    {
        let answer = call_on_source(S::next_tcp_packet, &mut self.source);
        proof {
            self.answers@ = self.answers@.push(answer);
        }
        answer
    }
}

} // verus!
