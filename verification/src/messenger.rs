use vstd::prelude::*;

use crate::errors::ErrorKind;
use crate::message::{spec_encode, Message, MessageView, B_MESSAGE_TYPE};
use crate::ports::{port_queue, port_valid, PortRegistry, PortView};

verus! {

/// A copyable value addressing one looper's port.  It is a weak
/// reference: an address plus the capability to enqueue there, never
/// ownership of the addressed looper.  Two messengers are equal
/// exactly when they address the same port, and every effect of a
/// send is stated over that address alone, so equal messengers are
/// interchangeable as send targets.
#[derive(Clone, Copy, Debug, PartialEq, Eq, Structural)]
pub struct Messenger {
    port: i32,
}

impl View for Messenger {
    type V = i32;

    closed spec fn view(&self) -> i32 {
        self.port
    }
}

/// Messenger equality is structural on the addressed endpoint: two
/// messengers compare equal exactly when they address the same port.
pub proof fn lemma_messenger_equality(a: Messenger, b: Messenger)
    ensures
        (a == b) <==> (a@ == b@),
{
}

impl Messenger {
    /// An address for the given port.  Fails with an address error
    /// exactly when the identifier does not resolve to an open port.
    pub fn from_port(ports: &PortRegistry, port: i32) -> (r: Result<Messenger, ErrorKind>)
        ensures
            (match r {
                Ok(m) => port_valid(ports@, port) && m@ == port,
                Err(k) => !port_valid(ports@, port) && k == ErrorKind::BadAddress,
            }),
    {
        match ports.count(port) {
            Ok(_) => Ok(Messenger { port }),
            Err(_) => Err(ErrorKind::BadAddress),
        }
    }

    /// An address for a port known to exist; used by the runtime for
    /// a looper's own port.
    pub(crate) fn direct(port: i32) -> (m: Messenger)
        ensures
            m@ == port,
    {
        Messenger { port }
    }

    /// Embeds `reply_to` as the message's reply address, flattens it,
    /// and enqueues the envelope at this messenger's port, behind
    /// everything already pending there.  Fire and forget: any answer
    /// arrives later as an ordinary message addressed to `reply_to`.
    /// Fails with a transport error exactly when the destination does
    /// not resolve or its mailbox is at capacity.
    pub fn send_and_ask_reply(
        &self,
        ports: &mut PortRegistry,
        message: Message,
        reply_to: &Messenger,
    ) -> (r: Result<(), ErrorKind>)
        requires
            message@.wf(),
            reply_to@ >= 0,
        ensures
            (match r {
                Ok(()) => {
                    &&& port_valid(old(ports)@, self@)
                    &&& port_queue(old(ports)@, self@).len() < old(ports)@[self@ as int].capacity
                    &&& final(ports)@ == old(ports)@.update(
                        self@ as int,
                        (PortView {
                            queue: port_queue(old(ports)@, self@).push(
                                (
                                    B_MESSAGE_TYPE,
                                    spec_encode(
                                        (MessageView { reply_to: Some(reply_to@), ..message@ }),
                                    ),
                                ),
                            ),
                            ..old(ports)@[self@ as int]
                        }),
                    )
                },
                Err(k) => {
                    &&& !(port_valid(old(ports)@, self@) && port_queue(old(ports)@, self@).len()
                        < old(ports)@[self@ as int].capacity)
                    &&& k == ErrorKind::Transport
                    &&& final(ports)@ == old(ports)@
                },
            }),
    {
        let mut message = message;
        message.set_reply_port(reply_to.port);
        let bytes = message.flatten();
        ports.write(self.port, B_MESSAGE_TYPE, bytes)
    }
}

impl Message {
    /// The messenger to answer to, when the sender marked one.
    pub fn get_return_address(&self) -> (r: Option<Messenger>)
        ensures
            (match (r, self@.reply_to) {
                (Some(m), Some(p)) => m@ == p,
                (None, None) => true,
                _ => false,
            }),
    {
        match self.reply_port() {
            Some(p) => Some(Messenger { port: p }),
            None => None,
        }
    }
}

} // verus!
