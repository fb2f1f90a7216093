use std::collections::VecDeque;
use vstd::prelude::*;

use crate::errors::ErrorKind;

verus! {

/// The mathematical value of one port: an ordered, capacity-bounded
/// mailbox of `(type code, payload)` envelopes, open until closed.
#[verifier::ext_equal]
pub struct PortView {
    pub capacity: usize,
    pub open: bool,
    pub queue: Seq<(u32, Seq<u8>)>,
}

/// An endpoint identifier resolves while it indexes a slot that is
/// still open.
pub open spec fn port_valid(ports: Seq<PortView>, id: i32) -> bool {
    0 <= id < ports.len() && ports[id as int].open
}

/// The pending envelopes of a port, oldest first.
pub open spec fn port_queue(ports: Seq<PortView>, id: i32) -> Seq<(u32, Seq<u8>)> {
    ports[id as int].queue
}

struct PortSlot {
    #[allow(dead_code)]
    name: String,
    capacity: usize,
    open: bool,
    queue: VecDeque<(u32, Vec<u8>)>,
}

/// The in-process transport: every port of the runtime lives here,
/// keyed by a small integer identifier.  A port is the serialization
/// point of its looper: envelopes leave it in exactly the order they
/// entered, and this is where every ordering guarantee of the runtime
/// is established.
pub struct PortRegistry {
    slots: Vec<PortSlot>,
}

impl View for PortRegistry {
    type V = Seq<PortView>;

    closed spec fn view(&self) -> Seq<PortView> {
        self.slots@.map_values(
            |s: PortSlot|
                PortView {
                    capacity: s.capacity,
                    open: s.open,
                    queue: s.queue@.map_values(|e: (u32, Vec<u8>)| (e.0, e.1@)),
                },
        )
    }
}

impl PortRegistry {
    /// A registry with no ports yet.
    pub fn new() -> (r: PortRegistry)
        ensures
            r@ == Seq::<PortView>::empty(),
    {
        let r = PortRegistry { slots: Vec::new() };
        proof {
            assert(r@ =~~= Seq::<PortView>::empty());
        }
        r
    }

    /// Allocates a fresh open port with the given capacity.  The
    /// identifier handed back is the next free one; it stays bound to
    /// this port forever.  Fails only when every identifier is taken.
    pub fn create(&mut self, name: &str, capacity: usize) -> (r: Result<i32, ErrorKind>)
        ensures
            (match r {
                Ok(id) => {
                    &&& old(self)@.len() < i32::MAX
                    &&& id == old(self)@.len()
                    &&& final(self)@ == old(self)@.push(
                        (PortView { capacity, open: true, queue: Seq::empty() }),
                    )
                },
                Err(k) => {
                    &&& old(self)@.len() >= i32::MAX
                    &&& k == ErrorKind::BadAddress
                    &&& final(self)@ == old(self)@
                },
            }),
    {
        if self.slots.len() >= i32::MAX as usize {
            return Err(ErrorKind::BadAddress);
        }
        let id = self.slots.len() as i32;
        self.slots.push(
            PortSlot { name: name.to_owned(), capacity, open: true, queue: VecDeque::new() },
        );
        proof {
            assert(final(self)@ =~~= old(self)@.push(
                (PortView { capacity, open: true, queue: Seq::empty() }),
            ));
        }
        Ok(id)
    }

    /// Enqueues one envelope at the destination port, behind
    /// everything already pending there.  Fails with a transport
    /// error exactly when the destination does not resolve or its
    /// mailbox is at capacity.
    pub fn write(&mut self, id: i32, type_code: u32, data: Vec<u8>) -> (r: Result<(), ErrorKind>)
        ensures
            (match r {
                Ok(()) => {
                    &&& port_valid(old(self)@, id)
                    &&& port_queue(old(self)@, id).len() < old(self)@[id as int].capacity
                    &&& final(self)@ == old(self)@.update(
                        id as int,
                        (PortView {
                            queue: port_queue(old(self)@, id).push((type_code, data@)),
                            ..old(self)@[id as int]
                        }),
                    )
                },
                Err(k) => {
                    &&& !(port_valid(old(self)@, id) && port_queue(old(self)@, id).len() < old(
                        self,
                    )@[id as int].capacity)
                    &&& k == ErrorKind::Transport
                    &&& final(self)@ == old(self)@
                },
            }),
    {
        if id < 0 || id as usize >= self.slots.len() {
            return Err(ErrorKind::Transport);
        }
        let idx = id as usize;
        if !self.slots[idx].open {
            return Err(ErrorKind::Transport);
        }
        let slot = &mut self.slots[idx];
        if slot.queue.len() >= slot.capacity {
            return Err(ErrorKind::Transport);
        }
        slot.queue.push_back((type_code, data));
        proof {
            assert(final(self)@ =~~= old(self)@.update(
                id as int,
                (PortView {
                    queue: port_queue(old(self)@, id).push((type_code, data@)),
                    ..old(self)@[id as int]
                }),
            ));
        }
        Ok(())
    }

    /// Takes the oldest pending envelope off a port.  `WouldBlock`
    /// reports an empty mailbox — the point where a blocking
    /// transport would suspend the reader.
    pub fn try_read(&mut self, id: i32) -> (r: Result<(u32, Vec<u8>), ErrorKind>)
        ensures
            (match r {
                Ok(e) => {
                    &&& port_valid(old(self)@, id)
                    &&& port_queue(old(self)@, id).len() > 0
                    &&& (e.0, e.1@) == port_queue(old(self)@, id)[0]
                    &&& final(self)@ == old(self)@.update(
                        id as int,
                        (PortView {
                            queue: port_queue(old(self)@, id).drop_first(),
                            ..old(self)@[id as int]
                        }),
                    )
                },
                Err(k) => {
                    &&& final(self)@ == old(self)@
                    &&& if port_valid(old(self)@, id) {
                        k == ErrorKind::WouldBlock && port_queue(old(self)@, id).len() == 0
                    } else {
                        k == ErrorKind::BadAddress
                    }
                },
            }),
    {
        if id < 0 || id as usize >= self.slots.len() {
            return Err(ErrorKind::BadAddress);
        }
        let idx = id as usize;
        if !self.slots[idx].open {
            return Err(ErrorKind::BadAddress);
        }
        let slot = &mut self.slots[idx];
        match slot.queue.pop_front() {
            Some(e) => {
                proof {
                    assert(final(self)@ =~~= old(self)@.update(
                        id as int,
                        (PortView {
                            queue: port_queue(old(self)@, id).drop_first(),
                            ..old(self)@[id as int]
                        }),
                    ));
                }
                Ok(e)
            },
            None => Err(ErrorKind::WouldBlock),
        }
    }

    /// The number of envelopes pending at a port right now.
    pub fn count(&self, id: i32) -> (r: Result<usize, ErrorKind>)
        ensures
            (match r {
                Ok(n) => port_valid(self@, id) && n == port_queue(self@, id).len(),
                Err(k) => !port_valid(self@, id) && k == ErrorKind::BadAddress,
            }),
    {
        if id < 0 || id as usize >= self.slots.len() {
            return Err(ErrorKind::BadAddress);
        }
        let idx = id as usize;
        if !self.slots[idx].open {
            return Err(ErrorKind::BadAddress);
        }
        Ok(self.slots[idx].queue.len())
    }

    /// Closes a port: its identifier stops resolving, pending
    /// envelopes are never delivered, and later sends to it fail.
    pub fn close(&mut self, id: i32) -> (r: Result<(), ErrorKind>)
        ensures
            (match r {
                Ok(()) => {
                    &&& port_valid(old(self)@, id)
                    &&& final(self)@ == old(self)@.update(
                        id as int,
                        (PortView { open: false, ..old(self)@[id as int] }),
                    )
                },
                Err(k) => {
                    &&& !port_valid(old(self)@, id)
                    &&& k == ErrorKind::BadAddress
                    &&& final(self)@ == old(self)@
                },
            }),
    {
        if id < 0 || id as usize >= self.slots.len() {
            return Err(ErrorKind::BadAddress);
        }
        let idx = id as usize;
        if !self.slots[idx].open {
            return Err(ErrorKind::BadAddress);
        }
        let slot = &mut self.slots[idx];
        slot.open = false;
        proof {
            assert(final(self)@ =~~= old(self)@.update(
                id as int,
                (PortView { open: false, ..old(self)@[id as int] }),
            ));
        }
        Ok(())
    }
}

} // verus!
