use std::collections::VecDeque;
use vstd::pervasive::unreached;
use vstd::prelude::*;

use crate::errors::ErrorKind;
use crate::message::{
    spec_parse, Message, MessageView, B_MESSAGE_TYPE, B_QUIT_REQUESTED, QUIT,
};
use crate::messenger::Messenger;
use crate::ports::{port_queue, port_valid, PortRegistry, PortView};

verus! {

/// Per-dispatch bundle handed to a handler: the looper's own address
/// and the application's.  The application state itself is passed to
/// the handler as an exclusive borrow, which is the mutual-exclusion
/// guard of the runtime: while one handler call holds it, no other
/// can observe or mutate it.
#[derive(Clone, Copy)]
pub struct Context {
    pub looper_messenger: Messenger,
    pub application_messenger: Messenger,
}

/// The capability to receive a message given a context.  Supplied per
/// looper by the user of the runtime; the dispatch loop promises to
/// call it for every well-formed non-control message, in arrival
/// order, and never after a terminate message was processed.
pub trait Handler<A> {
    fn message_received(
        &mut self,
        state: &mut A,
        context: &Context,
        ports: &mut PortRegistry,
        message: &Message,
    );
}

/// The message a port envelope decodes to, if any: the envelope must
/// carry the message type code and a well-formed flattened message.
pub open spec fn decode_envelope(e: (u32, Seq<u8>)) -> Option<MessageView> {
    if e.0 == B_MESSAGE_TYPE {
        spec_parse(e.1)
    } else {
        None
    }
}

/// The messages a run of envelopes decodes to, in order; malformed
/// envelopes are dropped and everything else keeps its place.
pub open spec fn decodes_of(entries: Seq<(u32, Seq<u8>)>) -> Seq<MessageView>
    decreases entries.len(),
{
    if entries.len() == 0 {
        Seq::empty()
    } else {
        (match decode_envelope(entries[0]) {
            Some(m) => seq![m],
            None => Seq::empty(),
        }) + decodes_of(entries.drop_first())
    }
}

/// How many of a run of envelopes fail to decode: the discards a
/// drain pass reports.
pub open spec fn discards_of(entries: Seq<(u32, Seq<u8>)>) -> nat
    decreases entries.len(),
{
    if entries.len() == 0 {
        0
    } else {
        (if decode_envelope(entries[0]) is None {
            1nat
        } else {
            0nat
        }) + discards_of(entries.drop_first())
    }
}

/// A tally that pins at the counter's maximum instead of wrapping.
pub open spec fn saturated_tally(base: u64, extra: nat) -> u64 {
    if base + extra > u64::MAX {
        u64::MAX
    } else {
        (base + extra) as u64
    }
}

/// Decoding distributes over concatenation: draining a mailbox in two
/// bursts yields the same messages, in the same order, as draining it
/// in one.
pub proof fn lemma_decodes_of_append(a: Seq<(u32, Seq<u8>)>, b: Seq<(u32, Seq<u8>)>)
    ensures
        decodes_of(a + b) == decodes_of(a) + decodes_of(b),
    decreases a.len(),
{
    if a.len() == 0 {
        assert(a + b =~= b);
        assert(decodes_of(a) + decodes_of(b) =~= decodes_of(b));
    } else {
        assert((a + b)[0] == a[0]);
        assert((a + b).drop_first() =~= a.drop_first() + b);
        lemma_decodes_of_append(a.drop_first(), b);
        let h = match decode_envelope(a[0]) {
            Some(m) => seq![m],
            None => Seq::<MessageView>::empty(),
        };
        assert(decodes_of(a + b) == h + (decodes_of(a.drop_first()) + decodes_of(b)));
        assert(h + (decodes_of(a.drop_first()) + decodes_of(b)) =~= (h + decodes_of(
            a.drop_first(),
        )) + decodes_of(b));
    }
}

/// FIFO order of one endpoint: when an envelope enters a mailbox
/// before another, the messages they decode to come out in that same
/// order, whatever else lies around them.  Together with the dispatch
/// contracts — the local queue is consumed strictly from the front —
/// this is the delivery-order guarantee of a looper.
pub proof fn lemma_fifo(
    pre: Seq<(u32, Seq<u8>)>,
    e1: (u32, Seq<u8>),
    mid: Seq<(u32, Seq<u8>)>,
    e2: (u32, Seq<u8>),
    post: Seq<(u32, Seq<u8>)>,
)
    requires
        decode_envelope(e1) is Some,
        decode_envelope(e2) is Some,
    ensures
        decodes_of(pre + seq![e1] + mid + seq![e2] + post) == decodes_of(pre) + seq![
            decode_envelope(e1).unwrap(),
        ] + decodes_of(mid) + seq![decode_envelope(e2).unwrap()] + decodes_of(post),
{
    let s1 = seq![e1];
    let s2 = seq![e2];
    assert(decodes_of(s1) =~= seq![decode_envelope(e1).unwrap()]) by {
        assert(s1.len() == 1);
        assert(s1[0] == e1);
        assert(s1.drop_first() =~= Seq::<(u32, Seq<u8>)>::empty());
        assert(decodes_of(s1) == seq![decode_envelope(e1).unwrap()] + decodes_of(
            Seq::<(u32, Seq<u8>)>::empty(),
        ));
    }
    assert(decodes_of(s2) =~= seq![decode_envelope(e2).unwrap()]) by {
        assert(s2.len() == 1);
        assert(s2[0] == e2);
        assert(s2.drop_first() =~= Seq::<(u32, Seq<u8>)>::empty());
        assert(decodes_of(s2) == seq![decode_envelope(e2).unwrap()] + decodes_of(
            Seq::<(u32, Seq<u8>)>::empty(),
        ));
    }
    lemma_decodes_of_append(pre + s1 + mid + s2, post);
    lemma_decodes_of_append(pre + s1 + mid, s2);
    lemma_decodes_of_append(pre + s1, mid);
    lemma_decodes_of_append(pre, s1);
}

/// The messages a dispatch pass over `q` delivers to the handler, in
/// order: everything up to, and not including, the first terminate
/// message, with the two reserved control codes filtered out.
pub open spec fn deliverable_prefix(q: Seq<MessageView>) -> Seq<MessageView>
    decreases q.len(),
{
    if q.len() == 0 {
        Seq::empty()
    } else if q[0].what == QUIT {
        Seq::empty()
    } else if q[0].what == B_QUIT_REQUESTED {
        deliverable_prefix(q.drop_first())
    } else {
        seq![q[0]] + deliverable_prefix(q.drop_first())
    }
}

/// Whether a dispatch pass over `q` processes a terminate message.
pub open spec fn queue_terminates(q: Seq<MessageView>) -> bool
    decreases q.len(),
{
    q.len() != 0 && (q[0].what == QUIT || queue_terminates(q.drop_first()))
}

/// A pass over a queue free of control codes delivers every message,
/// in order, and does not terminate the looper.
pub proof fn lemma_deliverable_prefix_all(q: Seq<MessageView>)
    requires
        forall|i: int|
            0 <= i < q.len() ==> (#[trigger] q[i]).what != QUIT && q[i].what != B_QUIT_REQUESTED,
    ensures
        deliverable_prefix(q) == q,
        !queue_terminates(q),
    decreases q.len(),
{
    if q.len() == 0 {
    } else {
        lemma_deliverable_prefix_all(q.drop_first());
        assert(deliverable_prefix(q) == seq![q[0]] + q.drop_first());
        assert(seq![q[0]] + q.drop_first() =~= q);
    }
}

/// An actor: one port, a local pending queue drained strictly in
/// arrival order, one handler, and a termination flag.  `spec_history`
/// is the sequence of messages ever delivered to the handler; every
/// dispatch contract is stated over it.
pub struct Looper<H> {
    name: String,
    port: i32,
    message_queue: VecDeque<Message>,
    context: Context,
    state: H,
    terminating: bool,
    discarded: u64,
    history: Ghost<Seq<MessageView>>,
}

impl<H> Looper<H> {
    /// The identifier of the port this looper owns, fixed for its
    /// whole life.
    pub closed spec fn spec_port(&self) -> i32 {
        self.port
    }

    /// The local pending queue, front first.
    pub closed spec fn spec_queue(&self) -> Seq<MessageView> {
        self.message_queue@.map_values(|m: Message| m@)
    }

    /// Whether a terminate control message has been processed.
    pub closed spec fn spec_terminating(&self) -> bool {
        self.terminating
    }

    /// Every message ever delivered to the handler, in delivery
    /// order.
    pub closed spec fn spec_history(&self) -> Seq<MessageView> {
        self.history@
    }

    /// The context handed to the handler at each delivery.
    pub closed spec fn spec_context(&self) -> Context {
        self.context
    }

    /// The looper's name.
    pub closed spec fn spec_name(&self) -> Seq<char> {
        self.name@
    }

    /// How many malformed envelopes this looper has discarded, pinned
    /// at the counter's maximum.  Discards are non-fatal; the counter
    /// is what an embedding reads to report them.
    pub closed spec fn spec_discarded(&self) -> u64 {
        self.discarded
    }

    /// Builds an inert looper around an already-created port: empty
    /// queue, empty history, not terminating.
    pub(crate) fn make(name: String, port: i32, context: Context, state: H) -> (l: Looper<H>)
        ensures
            l.spec_port() == port,
            l.spec_context() == context,
            l.spec_name() == name@,
            l.spec_queue() == Seq::<MessageView>::empty(),
            l.spec_history() == Seq::<MessageView>::empty(),
            !l.spec_terminating(),
            l.spec_discarded() == 0,
    {
        let l = Looper {
            name,
            port,
            message_queue: VecDeque::new(),
            context,
            state,
            terminating: false,
            discarded: 0,
            history: Ghost(Seq::empty()),
        };
        proof {
            assert(l.spec_queue() =~= Seq::<MessageView>::empty());
        }
        l
    }

    /// Queues a message locally, behind everything already pending,
    /// without touching any port.  Used to pre-seed the application's
    /// ready-to-run notification.
    pub(crate) fn preload(&mut self, message: Message)
        ensures
            final(self).spec_queue() == old(self).spec_queue().push(message@),
            final(self).spec_port() == old(self).spec_port(),
            final(self).spec_context() == old(self).spec_context(),
            final(self).spec_name() == old(self).spec_name(),
            final(self).spec_history() == old(self).spec_history(),
            final(self).spec_terminating() == old(self).spec_terminating(),
            final(self).spec_discarded() == old(self).spec_discarded(),
    {
        self.message_queue.push_back(message);
        proof {
            assert(final(self).spec_queue() =~= old(self).spec_queue().push(message@));
        }
    }

    /// The looper's name.
    pub fn name(&self) -> (r: &str)
        ensures
            r@ == self.spec_name(),
    {
        self.name.as_str()
    }

    /// An address for this looper's port, usable from anywhere.
    pub fn get_messenger(&self) -> (m: Messenger)
        ensures
            m@ == self.spec_port(),
    {
        Messenger::direct(self.port)
    }

    /// Takes the oldest envelope off this looper's port and decodes
    /// it.  The failures are kept distinct: an unresolvable port, an
    /// empty mailbox, an envelope of the wrong type, and a corrupt
    /// payload.  The envelope leaves the port even when it is
    /// malformed — it is discarded, never redelivered.
    pub fn read_message_from_port(&self, ports: &mut PortRegistry) -> (r: Result<
        Message,
        ErrorKind,
    >)
        ensures
            (match r {
                Ok(m) => {
                    &&& port_valid(old(ports)@, self.spec_port())
                    &&& port_queue(old(ports)@, self.spec_port()).len() > 0
                    &&& decode_envelope(port_queue(old(ports)@, self.spec_port())[0]) == Some(m@)
                    &&& m@.wf()
                    &&& final(ports)@ == old(ports)@.update(
                        self.spec_port() as int,
                        (PortView {
                            queue: port_queue(old(ports)@, self.spec_port()).drop_first(),
                            ..old(ports)@[self.spec_port() as int]
                        }),
                    )
                },
                Err(k) => {
                    &&& (k == ErrorKind::BadAddress ==> !port_valid(old(ports)@, self.spec_port())
                        && final(ports)@ == old(ports)@)
                    &&& (k == ErrorKind::WouldBlock ==> port_valid(old(ports)@, self.spec_port())
                        && port_queue(old(ports)@, self.spec_port()).len() == 0 && final(ports)@
                        == old(ports)@)
                    &&& ((k == ErrorKind::MismatchedType || k == ErrorKind::CorruptPayload) ==> {
                        &&& port_valid(old(ports)@, self.spec_port())
                        &&& port_queue(old(ports)@, self.spec_port()).len() > 0
                        &&& decode_envelope(port_queue(old(ports)@, self.spec_port())[0]) is None
                        &&& final(ports)@ == old(ports)@.update(
                            self.spec_port() as int,
                            (PortView {
                                queue: port_queue(old(ports)@, self.spec_port()).drop_first(),
                                ..old(ports)@[self.spec_port() as int]
                            }),
                        )
                    })
                    &&& (k != ErrorKind::Transport)
                    &&& (k != ErrorKind::Busy)
                },
            }),
    {
        match ports.try_read(self.port) {
            Err(k) => Err(k),
            Ok((type_code, buffer)) => {
                if type_code != B_MESSAGE_TYPE {
                    Err(ErrorKind::MismatchedType)
                } else {
                    match Message::unflatten(&buffer) {
                        Ok(m) => Ok(m),
                        Err(k) => Err(k),
                    }
                }
            },
        }
    }

    /// Drains every envelope pending at this looper's port right now
    /// into the local queue: the messages they decode to are appended
    /// in arrival order, malformed envelopes are dropped and tallied
    /// in `spec_discarded`, and the port is left empty.  An
    /// unresolvable port is treated as having nothing pending.
    pub fn fetch_messages(&mut self, ports: &mut PortRegistry)
        ensures
            final(self).spec_port() == old(self).spec_port(),
            final(self).spec_context() == old(self).spec_context(),
            final(self).spec_name() == old(self).spec_name(),
            final(self).spec_history() == old(self).spec_history(),
            final(self).spec_terminating() == old(self).spec_terminating(),
            final(self).spec_discarded() == saturated_tally(
                old(self).spec_discarded(),
                (if port_valid(old(ports)@, old(self).spec_port()) {
                    discards_of(port_queue(old(ports)@, old(self).spec_port()))
                } else {
                    0
                }),
            ),
            port_valid(old(ports)@, old(self).spec_port()) ==> {
                &&& final(self).spec_queue() == old(self).spec_queue() + decodes_of(
                    port_queue(old(ports)@, old(self).spec_port()),
                )
                &&& final(ports)@ == old(ports)@.update(
                    old(self).spec_port() as int,
                    (PortView {
                        queue: Seq::empty(),
                        ..old(ports)@[old(self).spec_port() as int]
                    }),
                )
            },
            !port_valid(old(ports)@, old(self).spec_port()) ==> final(self).spec_queue() == old(
                self,
            ).spec_queue() && final(ports)@ == old(ports)@,
    {
        loop
            invariant
                self.spec_port() == old(self).spec_port(),
                self.spec_context() == old(self).spec_context(),
                self.spec_name() == old(self).spec_name(),
                self.spec_history() == old(self).spec_history(),
                self.spec_terminating() == old(self).spec_terminating(),
                port_valid(old(ports)@, old(self).spec_port()) ==> {
                    &&& port_valid(ports@, old(self).spec_port())
                    &&& self.spec_queue() + decodes_of(
                        port_queue(ports@, old(self).spec_port()),
                    ) == old(self).spec_queue() + decodes_of(
                        port_queue(old(ports)@, old(self).spec_port()),
                    )
                    &&& ports@ == old(ports)@.update(
                        old(self).spec_port() as int,
                        (PortView {
                            queue: port_queue(ports@, old(self).spec_port()),
                            ..old(ports)@[old(self).spec_port() as int]
                        }),
                    )
                },
                !port_valid(old(ports)@, old(self).spec_port()) ==> self.spec_queue() == old(
                    self,
                ).spec_queue() && ports@ == old(ports)@ && self.spec_discarded() == old(
                    self,
                ).spec_discarded(),
                port_valid(old(ports)@, old(self).spec_port()) ==> saturated_tally(
                    self.spec_discarded(),
                    discards_of(port_queue(ports@, old(self).spec_port())),
                ) == saturated_tally(
                    old(self).spec_discarded(),
                    discards_of(port_queue(old(ports)@, old(self).spec_port())),
                ),
            decreases port_queue(ports@, self.spec_port()).len(),
        {
            let ghost q0 = self.spec_queue();
            let ghost p0 = ports@;
            let ghost pq = port_queue(p0, self.spec_port());
            match self.read_message_from_port(ports) {
                Ok(m) => {
                    proof {
                        assert(decodes_of(pq) == seq![m@] + decodes_of(pq.drop_first()));
                        assert(discards_of(pq) == discards_of(pq.drop_first()));
                    }
                    self.message_queue.push_back(m);
                    proof {
                        assert(self.spec_queue() =~= q0.push(m@));
                        assert(q0.push(m@) + decodes_of(pq.drop_first()) =~= q0 + (seq![m@]
                            + decodes_of(pq.drop_first())));
                        assert(ports@ =~~= old(ports)@.update(
                            old(self).spec_port() as int,
                            (PortView {
                                queue: port_queue(ports@, old(self).spec_port()),
                                ..old(ports)@[old(self).spec_port() as int]
                            }),
                        ));
                    }
                },
                Err(k) => {
                    if k == ErrorKind::MismatchedType || k == ErrorKind::CorruptPayload {
                        let ghost d0 = self.spec_discarded();
                        self.discarded = self.discarded.saturating_add(1);
                        proof {
                            assert(discards_of(pq) == 1 + discards_of(pq.drop_first()));
                            assert(saturated_tally(
                                self.spec_discarded(),
                                discards_of(pq.drop_first()),
                            ) == saturated_tally(d0, discards_of(pq)));
                            assert(decodes_of(pq) =~= Seq::<MessageView>::empty() + decodes_of(
                                pq.drop_first(),
                            ));
                            assert(decodes_of(pq) == decodes_of(pq.drop_first()));
                            assert(ports@ =~~= old(ports)@.update(
                                old(self).spec_port() as int,
                                (PortView {
                                    queue: port_queue(ports@, old(self).spec_port()),
                                    ..old(ports)@[old(self).spec_port() as int]
                                }),
                            ));
                        }
                    } else {
                        proof {
                            if port_valid(old(ports)@, old(self).spec_port()) {
                                assert(k == ErrorKind::WouldBlock);
                                assert(decodes_of(pq) =~= Seq::<MessageView>::empty());
                                assert(discards_of(pq) == 0);
                                assert(saturated_tally(self.spec_discarded(), 0)
                                    == self.spec_discarded());
                                assert(self.spec_queue() + decodes_of(pq) =~= self.spec_queue());
                                assert(ports@ =~~= old(ports)@.update(
                                    old(self).spec_port() as int,
                                    (PortView {
                                        queue: Seq::empty(),
                                        ..old(ports)@[old(self).spec_port() as int]
                                    }),
                                ));
                            } else {
                                assert(saturated_tally(old(self).spec_discarded(), 0) == old(
                                    self,
                                ).spec_discarded());
                            }
                        }
                        return ;
                    }
                },
            }
        }
    }

    /// Whether this looper has processed a terminate message.
    pub fn is_terminated(&self) -> (b: bool)
        ensures
            b == self.spec_terminating(),
    {
        self.terminating
    }

    /// Whether messages are pending in the local queue.
    pub fn has_pending(&self) -> (b: bool)
        ensures
            b == (self.spec_queue().len() > 0),
    {
        self.message_queue.len() > 0
    }

    /// How many malformed envelopes this looper has discarded so
    /// far; what an embedding reads to report them.
    pub fn discarded_count(&self) -> (r: u64)
        ensures
            r == self.spec_discarded(),
    {
        self.discarded
    }

    /// The identifier of this looper's port.
    pub fn port_id(&self) -> (r: i32)
        ensures
            r == self.spec_port(),
    {
        self.port
    }

    /// Dispatches the message at the front of the local queue.  The
    /// two reserved control codes are intercepted before the handler:
    /// a quit-confirmation request is absorbed with no effect (the
    /// cooperative-shutdown path behind it is deliberately
    /// unfinished), and a terminate message sets the termination flag
    /// without ever reaching the handler.  Every other message is
    /// delivered to the handler and appended to `spec_history`.
    pub fn dispatch_message<A>(&mut self, app_state: &mut A, ports: &mut PortRegistry) where
        H: Handler<A>,

        requires
            !old(self).spec_terminating(),
            old(self).spec_queue().len() > 0,
        ensures
            final(self).spec_queue() == old(self).spec_queue().drop_first(),
            final(self).spec_port() == old(self).spec_port(),
            final(self).spec_context() == old(self).spec_context(),
            final(self).spec_name() == old(self).spec_name(),
            final(self).spec_discarded() == old(self).spec_discarded(),
            old(self).spec_history().is_prefix_of(final(self).spec_history()),
            old(self).spec_queue()[0].what == QUIT ==> {
                &&& final(self).spec_terminating()
                &&& final(self).spec_history() == old(self).spec_history()
                &&& final(ports)@ == old(ports)@
                &&& *final(app_state) == *old(app_state)
            },
            old(self).spec_queue()[0].what == B_QUIT_REQUESTED ==> {
                &&& !final(self).spec_terminating()
                &&& final(self).spec_history() == old(self).spec_history()
                &&& final(ports)@ == old(ports)@
                &&& *final(app_state) == *old(app_state)
            },
            (old(self).spec_queue()[0].what != QUIT && old(self).spec_queue()[0].what
                != B_QUIT_REQUESTED) ==> {
                &&& !final(self).spec_terminating()
                &&& final(self).spec_history() == old(self).spec_history().push(
                    old(self).spec_queue()[0],
                )
            },
    {
        let message = match self.message_queue.pop_front() {
            Some(m) => m,
            None => unreached(),
        };
        proof {
            assert(message@ == old(self).spec_queue()[0]);
            assert(self.spec_queue() =~= old(self).spec_queue().drop_first());
        }
        let w = message.what();
        if w == B_QUIT_REQUESTED {
            // Absorbed: the quit-confirmation protocol is unfinished.
        } else if w == QUIT {
            self.terminating = true;
        } else {
            self.state.message_received(app_state, &self.context, ports, &message);
            self.history = Ghost(self.history@.push(message@));
        }
        proof {
            assert(old(self).spec_history().is_prefix_of(self.spec_history())) by {
                assert(self.spec_history().take(old(self).spec_history().len() as int)
                    =~= old(self).spec_history());
            }
        }
    }

    /// One activation of the dispatch loop: drain the burst of
    /// envelopes pending at the port in one pass, then dispatch the
    /// local queue strictly in arrival order until it is empty or a
    /// terminate message is processed — the remaining queued messages
    /// are then dropped undelivered.  A blocking transport would park
    /// the thread between activations; here the call returns instead,
    /// and the scheduler (or a test) makes it again once new
    /// envelopes may have arrived.  Once the looper is terminated an
    /// activation does nothing at all: no message queued before or
    /// after the terminate is ever delivered.
    pub fn looper_task<A>(&mut self, app_state: &mut A, ports: &mut PortRegistry) where
        H: Handler<A>,

        ensures
            final(self).spec_port() == old(self).spec_port(),
            final(self).spec_context() == old(self).spec_context(),
            final(self).spec_name() == old(self).spec_name(),
            old(self).spec_terminating() ==> *final(self) == *old(self) && final(ports)@ == old(
                ports,
            )@ && *final(app_state) == *old(app_state),
            !final(self).spec_terminating() ==> final(self).spec_queue().len() == 0,
            old(self).spec_history().is_prefix_of(final(self).spec_history()),
            !old(self).spec_terminating() ==> ({
                let full = old(self).spec_queue() + (if port_valid(
                    old(ports)@,
                    old(self).spec_port(),
                ) {
                    decodes_of(port_queue(old(ports)@, old(self).spec_port()))
                } else {
                    Seq::empty()
                });
                &&& final(self).spec_history() == old(self).spec_history() + deliverable_prefix(
                    full,
                )
                &&& final(self).spec_terminating() == queue_terminates(full)
            }),
            !old(self).spec_terminating() ==> final(self).spec_discarded() == saturated_tally(
                old(self).spec_discarded(),
                (if port_valid(old(ports)@, old(self).spec_port()) {
                    discards_of(port_queue(old(ports)@, old(self).spec_port()))
                } else {
                    0
                }),
            ),
    {
        if self.terminating {
            proof {
                assert(self.spec_history().take(self.spec_history().len() as int)
                    =~= self.spec_history());
            }
            return ;
        }
        self.fetch_messages(ports);
        let ghost full = self.spec_queue();
        let ghost dtally = self.spec_discarded();
        proof {
            assert(self.spec_history().take(self.spec_history().len() as int)
                =~= self.spec_history());
            assert(full == old(self).spec_queue() + (if port_valid(
                old(ports)@,
                old(self).spec_port(),
            ) {
                decodes_of(port_queue(old(ports)@, old(self).spec_port()))
            } else {
                Seq::empty()
            })) by {
                if !port_valid(old(ports)@, old(self).spec_port()) {
                    assert(full =~= full + Seq::<MessageView>::empty());
                }
            }
        }
        while !self.terminating && self.message_queue.len() > 0
            invariant
                self.spec_port() == old(self).spec_port(),
                self.spec_context() == old(self).spec_context(),
                self.spec_name() == old(self).spec_name(),
                self.spec_discarded() == dtally,
                old(self).spec_history().is_prefix_of(self.spec_history()),
                !self.spec_terminating() ==> {
                    &&& old(self).spec_history() + deliverable_prefix(full)
                        == self.spec_history() + deliverable_prefix(self.spec_queue())
                    &&& queue_terminates(full) == queue_terminates(self.spec_queue())
                },
                self.spec_terminating() ==> {
                    &&& self.spec_history() == old(self).spec_history() + deliverable_prefix(full)
                    &&& queue_terminates(full)
                },
            decreases self.spec_queue().len(),
        {
            let ghost q0 = self.spec_queue();
            let ghost h0 = self.spec_history();
            self.dispatch_message(app_state, ports);
            proof {
                assert(old(self).spec_history().is_prefix_of(self.spec_history())) by {
                    assert(h0.take(old(self).spec_history().len() as int)
                        == old(self).spec_history());
                    assert(self.spec_history().take(h0.len() as int) == h0);
                    assert(self.spec_history().take(old(self).spec_history().len() as int)
                        =~= old(self).spec_history());
                }
                if q0[0].what == QUIT {
                    assert(deliverable_prefix(q0) == Seq::<MessageView>::empty());
                    assert(h0 + Seq::<MessageView>::empty() =~= h0);
                } else if q0[0].what == B_QUIT_REQUESTED {
                    assert(deliverable_prefix(q0) == deliverable_prefix(q0.drop_first()));
                } else {
                    assert(deliverable_prefix(q0) == seq![q0[0]] + deliverable_prefix(
                        q0.drop_first(),
                    ));
                    assert(h0.push(q0[0]) =~= h0 + seq![q0[0]]);
                    assert(h0 + seq![q0[0]] + deliverable_prefix(q0.drop_first()) =~= h0 + (seq![
                        q0[0],
                    ] + deliverable_prefix(q0.drop_first())));
                }
            }
        }
        proof {
            if !self.spec_terminating() {
                assert(deliverable_prefix(self.spec_queue()) == Seq::<MessageView>::empty());
                assert(self.spec_history() + Seq::<MessageView>::empty() =~= self.spec_history());
            }
        }
    }
}

} // verus!
