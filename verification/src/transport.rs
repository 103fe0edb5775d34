//! The radio link as the driver sees it.
//!
//! A [`Transport`] finds and selects a tag and moves raw frames. The driver
//! makes no assumption about what a transport answers: everything it proves
//! holds for every transport. What it does record, in ghost state, is each
//! [`Exchange`]: what it handed to the transport and what came back.

use vstd::prelude::*;

verus! {

/// Modulation schemes a reader can speak.
#[derive(Clone, Copy, Debug, PartialEq, Eq, Structural)]
pub enum ModulationType {
    Iso14443a,
    Jewel,
    Iso14443b,
    Iso14443bi,
    Iso14443b2sr,
    Iso14443b2ct,
    Felica,
    Dep,
    Barcode,
    Iso14443biClass,
}

/// Bit rates a reader can speak, in kbit/s.
#[derive(Clone, Copy, Debug, PartialEq, Eq, Structural)]
pub enum BaudRate {
    Baud106,
    Baud212,
    Baud424,
    Baud847,
}

/// A modulation scheme at a bit rate.
#[derive(Clone, Copy, Debug, PartialEq, Eq, Structural)]
pub struct Modulation {
    pub modulation_type: ModulationType,
    pub baud_rate: BaudRate,
}

/// How long a transport waits for the tag.
#[derive(Clone, Copy, Debug, PartialEq, Eq, Structural)]
pub enum Timeout {
    /// Wait until the tag answers or the link fails.
    Never,
    /// Wait as long as the transport does by default.
    Default,
    /// Wait the given number of milliseconds.
    Millis(u64),
}

/// The modulation under which tags are looked for: ISO 14443 B at 106 kbit/s.
pub open spec fn discovery_modulation() -> Modulation {
    Modulation { modulation_type: ModulationType::Iso14443b, baud_rate: BaudRate::Baud106 }
}

/// The modulation under which a tag is selected: ISO 14443 B-2 SR at 106 kbit/s.
pub open spec fn selection_modulation() -> Modulation {
    Modulation { modulation_type: ModulationType::Iso14443b2sr, baud_rate: BaudRate::Baud106 }
}

/// A reader that can find a tag, select it and move frames to and from it.
///
/// Each method is one attempt: the driver never retries.
pub trait Transport {
    /// What the link reports when an operation fails.
    type Error;

    /// Looks for passive targets under `modulation`, at most `max_targets`
    /// of them, and fails unless at least one answers.
    fn list_passive_targets(&mut self, modulation: Modulation, max_targets: usize) -> Result<
        (),
        Self::Error,
    >;

    /// Selects one passive target under `modulation`.
    fn select_passive_target(&mut self, modulation: Modulation) -> Result<(), Self::Error>;

    /// Sends `frame` and returns the reply, for which room for `reply_len`
    /// bytes is offered.
    fn transceive(&mut self, frame: &[u8], reply_len: usize, timeout: Timeout) -> Result<
        Vec<u8>,
        Self::Error,
    >;

    /// Sends `frame` and reads nothing back.
    fn send(&mut self, frame: &[u8], timeout: Timeout) -> Result<(), Self::Error>;
}

/// One call of a transport: what went in and what came out.
pub enum Exchange<E> {
    /// A call of [`Transport::list_passive_targets`].
    Discover { modulation: Modulation, max_targets: usize, outcome: Result<(), E> },
    /// A call of [`Transport::select_passive_target`].
    Select { modulation: Modulation, outcome: Result<(), E> },
    /// A call of [`Transport::transceive`].
    Transceive { frame: Seq<u8>, reply_len: usize, timeout: Timeout, reply: Result<Seq<u8>, E> },
    /// A call of [`Transport::send`].
    Send { frame: Seq<u8>, timeout: Timeout, outcome: Result<(), E> },
}

/// A reply as a transcript records it: the bytes, or the error.
pub open spec fn recorded<E>(reply: Result<Vec<u8>, E>) -> Result<Seq<u8>, E> {
    match reply {
        Ok(bytes) => Ok(bytes@),
        Err(e) => Err(e),
    }
}

/// `after` is `before` and one more exchange.
pub open spec fn one_more<E>(before: Seq<Exchange<E>>, after: Seq<Exchange<E>>) -> bool {
    &&& after.len() == before.len() + 1
    &&& after.drop_last() =~= before
}

/// A transport together with the record of every call made of it.
///
/// The driver reaches its transport through a link only, and each method of
/// a link makes one call and records it, so the record is complete.
pub(crate) struct Link<T: Transport> {
    /// The transport.
    device: T,
    /// Every call made so far, oldest first.
    transcript: Ghost<Seq<Exchange<T::Error>>>,
}

impl<T: Transport> Link<T> {
    /// Every call made so far, oldest first.
    pub(crate) closed spec fn transcript(&self) -> Seq<Exchange<T::Error>> {
        self.transcript@
    }

    /// A link over `device` of which nothing has been asked yet.
    pub(crate) fn new(device: T) -> (link: Link<T>)
        ensures
            link.transcript() == Seq::<Exchange<T::Error>>::empty(),
    {
        Link { device, transcript: Ghost(Seq::empty()) }
    }

    /// Calls [`Transport::list_passive_targets`] and records the call.
    pub(crate) fn list_passive_targets(
        &mut self,
        modulation: Modulation,
        max_targets: usize,
    ) -> (outcome: Result<(), T::Error>)
        ensures
            final(self).transcript() == old(self).transcript().push(
                Exchange::Discover { modulation, max_targets, outcome },
            ),
    {
        let outcome = self.device.list_passive_targets(modulation, max_targets);
        proof {
            self.transcript@ = self.transcript@.push(
                Exchange::Discover { modulation, max_targets, outcome },
            );
        }
        outcome
    }

    /// Calls [`Transport::select_passive_target`] and records the call.
    pub(crate) fn select_passive_target(&mut self, modulation: Modulation) -> (outcome: Result<
        (),
        T::Error,
    >)
        ensures
            final(self).transcript() == old(self).transcript().push(
                Exchange::Select { modulation, outcome },
            ),
    {
        let outcome = self.device.select_passive_target(modulation);
        proof {
            self.transcript@ = self.transcript@.push(Exchange::Select { modulation, outcome });
        }
        outcome
    }

    /// Calls [`Transport::transceive`] and records the call.
    pub(crate) fn transceive(
        &mut self,
        frame: &[u8],
        reply_len: usize,
        timeout: Timeout,
    ) -> (reply: Result<Vec<u8>, T::Error>)
        ensures
            final(self).transcript() == old(self).transcript().push(
                Exchange::Transceive { frame: frame@, reply_len, timeout, reply: recorded(reply) },
            ),
    {
        let reply = self.device.transceive(frame, reply_len, timeout);
        proof {
            self.transcript@ = self.transcript@.push(
                Exchange::Transceive { frame: frame@, reply_len, timeout, reply: recorded(reply) },
            );
        }
        reply
    }

    /// Calls [`Transport::send`] and records the call.
    pub(crate) fn send(&mut self, frame: &[u8], timeout: Timeout) -> (outcome: Result<
        (),
        T::Error,
    >)
        ensures
            final(self).transcript() == old(self).transcript().push(
                Exchange::Send { frame: frame@, timeout, outcome },
            ),
    {
        let outcome = self.device.send(frame, timeout);
        proof {
            self.transcript@ = self.transcript@.push(
                Exchange::Send { frame: frame@, timeout, outcome },
            );
        }
        outcome
    }
}

} // verus!
