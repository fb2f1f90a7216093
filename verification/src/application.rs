use vstd::pervasive::unreached;
use vstd::prelude::*;

use crate::errors::ErrorKind;
use crate::looper::{decodes_of, deliverable_prefix, Context, Handler, Looper};
use crate::message::{Message, MessageView, B_READY_TO_RUN};
use crate::messenger::Messenger;
use crate::ports::{port_queue, port_valid, PortRegistry, PortView};

verus! {

/// The mailbox capacity every looper's port is created with.
pub const LOOPER_PORT_DEFAULT_CAPACITY: usize = 200;

/// How many scheduling rounds `Application::run` performs before it
/// gives up on reaching termination.  Every round drains the pending
/// burst of every looper, so this is generous; the cooperative
/// scheduler is deterministic, and a run that has not terminated or
/// gone quiescent within this many rounds stands for one that never
/// would.
pub const RUN_ROUND_LIMIT: usize = 100000;

/// The behaviour an application is built around.  The runtime calls
/// these hooks from the application's dispatch loop while holding the
/// shared state exclusively: a hook that blocks or performs a
/// synchronous round trip stalls every other delivery into the
/// application for its whole duration — a contention hazard by
/// design, not a defect.
pub trait ApplicationHooks {
    /// Asked before a cooperative shutdown would proceed.  The
    /// protocol behind it is deliberately unfinished: the dispatch
    /// loop absorbs quit-confirmation requests without calling this.
    fn quit_requested(
        &mut self,
        _application_messenger: &Messenger,
        _ports: &mut PortRegistry,
    ) -> bool {
        true
    }

    /// Fired exactly once, before any user-sent message, when the
    /// application starts running.
    fn ready_to_run(&mut self, _application_messenger: &Messenger, _ports: &mut PortRegistry) {
    }

    /// Every non-control message addressed to the application.
    fn message_received(
        &mut self,
        application_messenger: &Messenger,
        ports: &mut PortRegistry,
        message: &Message,
    );
}

/// The application's own handler: routes the ready-to-run
/// notification to its hook and everything else to the message hook,
/// with the shared state held exclusively for the whole call.
struct ApplicationDispatcher {}

impl<A: ApplicationHooks> Handler<A> for ApplicationDispatcher {
    fn message_received(
        &mut self,
        state: &mut A,
        context: &Context,
        ports: &mut PortRegistry,
        message: &Message,
    ) {
        if message.what() == B_READY_TO_RUN {
            state.ready_to_run(&context.application_messenger, ports);
        } else {
            state.message_received(&context.application_messenger, ports, message);
        }
    }
}

/// The view of the application's pre-seeded first message.
pub open spec fn ready_to_run_view() -> MessageView {
    MessageView { what: B_READY_TO_RUN, reply_to: None, fields: Seq::empty() }
}

/// Ready-to-run ordering.  A fresh application's local queue holds
/// exactly the ready-to-run notification (the `new` contract), and a
/// dispatch pass works on that queue followed by whatever user
/// messages were fetched (the `looper_task` contract).  So, for user
/// messages carrying no reserved code, the pass delivers the
/// notification first, then every user message in order — the
/// notification fires exactly once, strictly before any user-sent
/// message, even for messages sent before the application ran.
pub proof fn lemma_ready_to_run_first(user: Seq<MessageView>)
    requires
        forall|i: int|
            0 <= i < user.len() ==> (#[trigger] user[i]).what != B_READY_TO_RUN && user[i].what
                != crate::message::QUIT && user[i].what != crate::message::B_QUIT_REQUESTED,
    ensures
        crate::looper::deliverable_prefix(seq![ready_to_run_view()] + user) == seq![
            ready_to_run_view(),
        ] + user,
        (seq![ready_to_run_view()] + user)[0].what == B_READY_TO_RUN,
        forall|i: int|
            1 <= i < (seq![ready_to_run_view()] + user).len() ==> (#[trigger] (seq![
                ready_to_run_view(),
            ] + user)[i]).what != B_READY_TO_RUN,
{
    let q = seq![ready_to_run_view()] + user;
    assert(q[0] == ready_to_run_view());
    assert forall|i: int| 1 <= i < q.len() implies (#[trigger] q[i]).what != B_READY_TO_RUN by {
        assert(q[i] == user[i - 1]);
    }
    assert forall|i: int|
        0 <= i < q.len() implies (#[trigger] q[i]).what != crate::message::QUIT && q[i].what
        != crate::message::B_QUIT_REQUESTED by {
        if i >= 1 {
            assert(q[i] == user[i - 1]);
        }
    }
    crate::looper::lemma_deliverable_prefix_all(q);
}

/// Whether a looper has nothing left to do under a given port state:
/// it is terminated, or both its local queue and its port are
/// drained.  A run that ends with every looper like this would block
/// forever on a real transport.
pub open spec fn looper_quiescent<H>(l: Looper<H>, ports: Seq<PortView>) -> bool {
    l.spec_terminating() || (l.spec_queue().len() == 0 && (!port_valid(ports, l.spec_port())
        || port_queue(ports, l.spec_port()).len() == 0))
}

/// The coordination root: a looper that owns the process-wide shared
/// state, the port registry, and every registered child looper, and
/// schedules all of them deterministically on the calling thread.
pub struct Application<A, H> {
    ports: PortRegistry,
    state: A,
    inner: Looper<ApplicationDispatcher>,
    children: Vec<Looper<H>>,
}

impl<A, H> Application<A, H> {
    /// The ports of the runtime.
    pub closed spec fn spec_ports(&self) -> Seq<PortView> {
        self.ports@
    }

    /// The shared application state.
    pub closed spec fn spec_state(&self) -> A {
        self.state
    }

    /// The identifier of the application's own port.
    pub closed spec fn spec_app_port(&self) -> i32 {
        self.inner.spec_port()
    }

    /// The application looper's local pending queue.
    pub closed spec fn spec_inner_queue(&self) -> Seq<MessageView> {
        self.inner.spec_queue()
    }

    /// Every message ever delivered to the application's hooks.
    pub closed spec fn spec_inner_history(&self) -> Seq<MessageView> {
        self.inner.spec_history()
    }

    /// Whether the application has processed a terminate message.
    pub closed spec fn spec_inner_terminating(&self) -> bool {
        self.inner.spec_terminating()
    }

    /// The registered child loopers.
    pub closed spec fn spec_children(&self) -> Seq<Looper<H>> {
        self.children@
    }

    /// The context the application's own dispatch passes hand to the
    /// hooks: the root is its own application, so both messengers in
    /// it address the application's own port.
    pub closed spec fn spec_inner_context(&self) -> Context {
        self.inner.spec_context()
    }

    /// How many malformed envelopes the application's own dispatch
    /// loop has discarded.
    pub closed spec fn spec_app_discarded(&self) -> u64 {
        self.inner.spec_discarded()
    }

    /// How many malformed envelopes the application's own dispatch
    /// loop has discarded so far; what an embedding reads to report
    /// them.
    pub fn discarded_count(&self) -> (r: u64)
        ensures
            r == self.spec_app_discarded(),
    {
        self.inner.discarded_count()
    }

    /// Builds the application: allocates its own port in a fresh
    /// registry, takes ownership of the initial shared state, and
    /// pre-seeds its queue with the ready-to-run notification, so the
    /// very first dispatch pass delivers it before any externally
    /// sent message.
    pub fn new(initial_state: A) -> (app: Application<A, H>)
        ensures
            app.spec_state() == initial_state,
            app.spec_app_port() == 0,
            app.spec_ports() == seq![
                (PortView {
                    capacity: LOOPER_PORT_DEFAULT_CAPACITY,
                    open: true,
                    queue: Seq::empty(),
                }),
            ],
            app.spec_inner_queue() == seq![ready_to_run_view()],
            app.spec_inner_history() == Seq::<MessageView>::empty(),
            !app.spec_inner_terminating(),
            app.spec_children() == Seq::<Looper<H>>::empty(),
            app.spec_inner_context().looper_messenger@ == app.spec_app_port(),
            app.spec_inner_context().application_messenger@ == app.spec_app_port(),
    {
        let mut ports = PortRegistry::new();
        let port = match ports.create("application", LOOPER_PORT_DEFAULT_CAPACITY) {
            Ok(id) => id,
            Err(_) => unreached(),
        };
        let context = Context {
            looper_messenger: Messenger::direct(port),
            application_messenger: Messenger::direct(port),
        };
        let mut inner = Looper::make(
            "application".to_owned(),
            port,
            context,
            ApplicationDispatcher {},
        );
        inner.preload(Message::new(B_READY_TO_RUN));
        let app = Application { ports, state: initial_state, inner, children: Vec::new() };
        proof {
            assert(app.spec_ports() =~~= seq![
                (PortView {
                    capacity: LOOPER_PORT_DEFAULT_CAPACITY,
                    open: true,
                    queue: Seq::empty(),
                }),
            ]);
            assert(app.spec_inner_queue() =~= seq![ready_to_run_view()]);
            assert(app.spec_children() =~= Seq::<Looper<H>>::empty());
        }
        app
    }

    /// Allocates a fresh port and builds an inert looper around it,
    /// wired back to this application: its context carries the new
    /// looper's own messenger, the application's messenger, and every
    /// handler call will receive the shared state exclusively.  The
    /// caller must register it with `Looper::run` before it is ever
    /// scheduled.
    pub fn create_looper(&mut self, name: &str, initial_state: H) -> (l: Looper<H>)
        requires
            old(self).spec_ports().len() < i32::MAX,
        ensures
            l.spec_port() == old(self).spec_ports().len(),
            l.spec_context().looper_messenger@ == l.spec_port(),
            l.spec_context().application_messenger@ == old(self).spec_app_port(),
            l.spec_name() == name@,
            l.spec_queue() == Seq::<MessageView>::empty(),
            l.spec_history() == Seq::<MessageView>::empty(),
            !l.spec_terminating(),
            final(self).spec_ports() == old(self).spec_ports().push(
                (PortView {
                    capacity: LOOPER_PORT_DEFAULT_CAPACITY,
                    open: true,
                    queue: Seq::empty(),
                }),
            ),
            final(self).spec_state() == old(self).spec_state(),
            final(self).spec_app_port() == old(self).spec_app_port(),
            final(self).spec_inner_queue() == old(self).spec_inner_queue(),
            final(self).spec_inner_history() == old(self).spec_inner_history(),
            final(self).spec_inner_terminating() == old(self).spec_inner_terminating(),
            final(self).spec_children() == old(self).spec_children(),
            final(self).spec_inner_context() == old(self).spec_inner_context(),
    {
        let port = match self.ports.create(name, LOOPER_PORT_DEFAULT_CAPACITY) {
            Ok(id) => id,
            Err(_) => unreached(),
        };
        let context = Context {
            looper_messenger: Messenger::direct(port),
            application_messenger: self.inner.get_messenger(),
        };
        Looper::make(name.to_owned(), port, context, initial_state)
    }

    /// The address any thread can use to reach the application root.
    pub fn get_messenger(&self) -> (m: Messenger)
        ensures
            m@ == self.spec_app_port(),
    {
        self.inner.get_messenger()
    }

    /// The shared application state, for inspection from outside the
    /// dispatch loop.
    pub fn state(&self) -> (r: &A)
        ensures
            *r == self.spec_state(),
    {
        &self.state
    }

    /// The port registry, for sending into the runtime from outside.
    pub fn ports_mut(&mut self) -> (r: &mut PortRegistry)
        ensures
            (*r)@ == old(self).spec_ports(),
            final(self).spec_ports() == final(r)@,
            final(self).spec_state() == old(self).spec_state(),
            final(self).spec_app_port() == old(self).spec_app_port(),
            final(self).spec_inner_queue() == old(self).spec_inner_queue(),
            final(self).spec_inner_history() == old(self).spec_inner_history(),
            final(self).spec_inner_terminating() == old(self).spec_inner_terminating(),
            final(self).spec_children() == old(self).spec_children(),
            final(self).spec_inner_context() == old(self).spec_inner_context(),
    {
        &mut self.ports
    }

    /// The shared state and the port registry together, exclusively:
    /// what a test or an embedding needs to drive an unregistered
    /// looper's activations by hand.
    pub fn parts_mut(&mut self) -> (r: (&mut A, &mut PortRegistry))
        ensures
            *r.0 == old(self).spec_state(),
            (*r.1)@ == old(self).spec_ports(),
            final(self).spec_state() == *final(r.0),
            final(self).spec_ports() == final(r.1)@,
            final(self).spec_app_port() == old(self).spec_app_port(),
            final(self).spec_inner_queue() == old(self).spec_inner_queue(),
            final(self).spec_inner_history() == old(self).spec_inner_history(),
            final(self).spec_inner_terminating() == old(self).spec_inner_terminating(),
            final(self).spec_children() == old(self).spec_children(),
            final(self).spec_inner_context() == old(self).spec_inner_context(),
    {
        (&mut self.state, &mut self.ports)
    }
}

impl<A: ApplicationHooks, H: Handler<A>> Application<A, H> {
    /// Runs the application's dispatch loop on the calling thread,
    /// interleaving it round-robin with every registered child
    /// looper, until the application processes a terminate message —
    /// then `Ok`.  A blocking transport would otherwise wait forever;
    /// here the call returns instead: `WouldBlock` when every looper
    /// is quiescent (terminated, or drained of queue and port), and
    /// `Busy` when the round limit was spent with work still pending.
    ///
    /// Whatever the hooks then do, the first activation's deliveries
    /// are owed: everything pending at entry — the local queue, which
    /// a fresh application's contract fixes as the ready-to-run
    /// notification, then the decodable envelopes at the port, in
    /// arrival order, up to the first terminate — is delivered to the
    /// hooks, in that order, before anything else ever is.
    pub fn run(&mut self) -> (r: Result<(), ErrorKind>)
        ensures
            final(self).spec_app_port() == old(self).spec_app_port(),
            final(self).spec_inner_context() == old(self).spec_inner_context(),
            old(self).spec_inner_history().is_prefix_of(final(self).spec_inner_history()),
            !old(self).spec_inner_terminating() ==> ({
                let full = old(self).spec_inner_queue() + (if port_valid(
                    old(self).spec_ports(),
                    old(self).spec_app_port(),
                ) {
                    decodes_of(port_queue(old(self).spec_ports(), old(self).spec_app_port()))
                } else {
                    Seq::empty()
                });
                (old(self).spec_inner_history() + deliverable_prefix(full)).is_prefix_of(
                    final(self).spec_inner_history(),
                )
            }),
            (match r {
                Ok(()) => final(self).spec_inner_terminating(),
                Err(k) => {
                    &&& !final(self).spec_inner_terminating()
                    &&& final(self).spec_inner_queue().len() == 0
                    &&& (k == ErrorKind::WouldBlock || k == ErrorKind::Busy)
                    &&& (k == ErrorKind::WouldBlock ==> {
                        &&& (!port_valid(final(self).spec_ports(), final(self).spec_app_port())
                            || port_queue(
                            final(self).spec_ports(),
                            final(self).spec_app_port(),
                        ).len() == 0)
                        &&& forall|i: int|
                            0 <= i < final(self).spec_children().len() ==> looper_quiescent(
                                #[trigger] final(self).spec_children()[i],
                                final(self).spec_ports(),
                            )
                    })
                },
            }),
    {
        let mut rounds: usize = RUN_ROUND_LIMIT;
        self.inner.looper_task(&mut self.state, &mut self.ports);
        let ghost owed = self.spec_inner_history();
        proof {
            assert(owed.is_prefix_of(self.spec_inner_history())) by {
                assert(self.spec_inner_history().subrange(0, owed.len() as int) =~= owed);
            }
            assert(old(self).spec_inner_history().is_prefix_of(self.spec_inner_history())) by {
                assert(self.spec_inner_history().subrange(
                    0,
                    old(self).spec_inner_history().len() as int,
                ) =~= old(self).spec_inner_history());
            }
        }
        loop
            invariant
                self.spec_app_port() == old(self).spec_app_port(),
                self.spec_inner_context() == old(self).spec_inner_context(),
                old(self).spec_inner_history().is_prefix_of(self.spec_inner_history()),
                owed.is_prefix_of(self.spec_inner_history()),
                !old(self).spec_inner_terminating() ==> owed == old(self).spec_inner_history()
                    + deliverable_prefix(
                    old(self).spec_inner_queue() + (if port_valid(
                        old(self).spec_ports(),
                        old(self).spec_app_port(),
                    ) {
                        decodes_of(port_queue(old(self).spec_ports(), old(self).spec_app_port()))
                    } else {
                        Seq::empty()
                    }),
                ),
                !self.spec_inner_terminating() ==> self.spec_inner_queue().len() == 0,
            decreases rounds,
        {
            if self.inner.is_terminated() {
                return Ok(());
            }
            let ghost hsnap = self.spec_inner_history();
            let n = self.children.len();
            let mut i: usize = 0;
            while i < n
                invariant
                    n == self.children@.len(),
                    i <= n,
                    self.spec_app_port() == old(self).spec_app_port(),
                    self.spec_inner_context() == old(self).spec_inner_context(),
                    !self.spec_inner_terminating(),
                    self.spec_inner_queue().len() == 0,
                    self.spec_inner_history() == hsnap,
                    old(self).spec_inner_history().is_prefix_of(self.spec_inner_history()),
                    owed.is_prefix_of(self.spec_inner_history()),
                decreases n - i,
            {
                let mut child = self.children.remove(i);
                child.looper_task(&mut self.state, &mut self.ports);
                self.children.insert(i, child);
                i += 1;
            }
            let mut pending = false;
            match self.ports.count(self.inner.port_id()) {
                Ok(c) => {
                    if c > 0 {
                        pending = true;
                    }
                },
                Err(_) => {},
            }
            let mut j: usize = 0;
            let m = self.children.len();
            while j < m
                invariant
                    m == self.children@.len(),
                    j <= m,
                    self.spec_app_port() == old(self).spec_app_port(),
                    !self.spec_inner_terminating(),
                    !pending ==> (!port_valid(self.spec_ports(), self.spec_app_port())
                        || port_queue(self.spec_ports(), self.spec_app_port()).len() == 0),
                    !pending ==> forall|k: int|
                        0 <= k < j ==> looper_quiescent(
                            #[trigger] self.spec_children()[k],
                            self.spec_ports(),
                        ),
                decreases m - j,
            {
                if !self.children[j].is_terminated() {
                    if self.children[j].has_pending() {
                        pending = true;
                    }
                    match self.ports.count(self.children[j].port_id()) {
                        Ok(c) => {
                            if c > 0 {
                                pending = true;
                            }
                        },
                        Err(_) => {},
                    }
                }
                j += 1;
            }
            if !pending {
                return Err(ErrorKind::WouldBlock);
            }
            if rounds == 0 {
                return Err(ErrorKind::Busy);
            }
            rounds = rounds - 1;
            let ghost hprev = self.spec_inner_history();
            self.inner.looper_task(&mut self.state, &mut self.ports);
            proof {
                assert(owed.is_prefix_of(self.spec_inner_history())) by {
                    assert(self.spec_inner_history().subrange(0, hprev.len() as int) == hprev);
                    assert(hprev.subrange(0, owed.len() as int) == owed);
                    assert(self.spec_inner_history().subrange(0, owed.len() as int) =~= owed);
                }
                assert(old(self).spec_inner_history().is_prefix_of(self.spec_inner_history()))
                    by {
                    assert(self.spec_inner_history().subrange(0, hprev.len() as int) == hprev);
                    assert(hprev.subrange(
                        0,
                        old(self).spec_inner_history().len() as int,
                    ) == old(self).spec_inner_history());
                    assert(self.spec_inner_history().subrange(
                        0,
                        old(self).spec_inner_history().len() as int,
                    ) =~= old(self).spec_inner_history());
                }
            }
        }
    }
}

impl<H> Looper<H> {
    /// Hands this looper over to the application's scheduler: from
    /// now on `Application::run` activates its dispatch loop.  The
    /// deterministic counterpart of starting the looper's own thread;
    /// the looper value moves into the runtime.
    pub fn run<A>(self, app: &mut Application<A, H>) -> (r: Result<(), ErrorKind>) where
        H: Handler<A>,

        ensures
            r is Ok,
            final(app).spec_children() == old(app).spec_children().push(self),
            final(app).spec_ports() == old(app).spec_ports(),
            final(app).spec_state() == old(app).spec_state(),
            final(app).spec_app_port() == old(app).spec_app_port(),
            final(app).spec_inner_queue() == old(app).spec_inner_queue(),
            final(app).spec_inner_history() == old(app).spec_inner_history(),
            final(app).spec_inner_terminating() == old(app).spec_inner_terminating(),
            final(app).spec_inner_context() == old(app).spec_inner_context(),
    {
        app.children.push(self);
        Ok(())
    }
}

} // verus!
