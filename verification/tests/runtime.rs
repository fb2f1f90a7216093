use haiku::application::{Application, ApplicationHooks};
use haiku::looper::{Context, Handler};
use haiku::message::{Message, B_MESSAGE_TYPE, B_QUIT_REQUESTED, B_READY_TO_RUN, QUIT};
use haiku::messenger::Messenger;
use haiku::ports::PortRegistry;

const ADD_TO_COUNTER: u32 = 0x434F2B2B;
const INFORM_APP_ABOUT_COUNTER: u32 = 0x49414143;

struct CountLooperState {
    count: u32,
}

impl Handler<ApplicationState> for CountLooperState {
    fn message_received(
        &mut self,
        _state: &mut ApplicationState,
        context: &Context,
        ports: &mut PortRegistry,
        message: &Message,
    ) {
        match message.what() {
            ADD_TO_COUNTER => {
                self.count += 1;
                let mut response = Message::new(INFORM_APP_ABOUT_COUNTER);
                response.add_data("count", self.count);
                context
                    .application_messenger
                    .send_and_ask_reply(ports, response, &context.looper_messenger)
                    .unwrap();
            }
            _ => panic!("We are not supposed to receive messages other than ADD_TO_COUNTER"),
        }
    }
}

struct ApplicationState {
    total_count: u32,
}

impl ApplicationHooks for ApplicationState {
    fn quit_requested(&mut self, _application_messenger: &Messenger, _ports: &mut PortRegistry) -> bool {
        true
    }

    fn ready_to_run(&mut self, _application_messenger: &Messenger, _ports: &mut PortRegistry) {
        println!("ready_to_run()");
    }

    fn message_received(
        &mut self,
        app_messenger: &Messenger,
        ports: &mut PortRegistry,
        message: &Message,
    ) {
        match message.what() {
            INFORM_APP_ABOUT_COUNTER => {
                self.total_count += 1;
                let count = message.find_data("count", 0).unwrap();
                if count == 2 {
                    // Quit the looper when the count hits 2
                    let messenger = message.get_return_address().unwrap();
                    messenger
                        .send_and_ask_reply(ports, Message::new(QUIT), &messenger)
                        .unwrap();
                }
                println!("total count: {}", self.total_count);
            }
            _ => println!("application: {}", message.what()),
        }

        // Check if we are done now
        if self.total_count == 4 {
            app_messenger
                .send_and_ask_reply(ports, Message::new(QUIT), &app_messenger)
                .unwrap();
        }
    }
}

#[test]
fn looper_test() {
    let looper_state_1 = CountLooperState { count: 0 };
    let looper_state_2 = CountLooperState { count: 0 };
    let application_state = ApplicationState { total_count: 0 };

    let mut application = Application::new(application_state);

    let looper_1 = application.create_looper("looper 1", looper_state_1);
    let messenger_1 = looper_1.get_messenger();
    let looper_2 = application.create_looper("looper 2", looper_state_2);
    let messenger_2 = looper_2.get_messenger();
    assert!(looper_1.run(&mut application).is_ok());
    assert!(looper_2.run(&mut application).is_ok());

    // Create four count messages, two for each counter
    let app_messenger = application.get_messenger();
    let message = Message::new(ADD_TO_COUNTER);
    messenger_1
        .send_and_ask_reply(application.ports_mut(), message, &app_messenger)
        .unwrap();
    let message = Message::new(ADD_TO_COUNTER);
    messenger_2
        .send_and_ask_reply(application.ports_mut(), message, &app_messenger)
        .unwrap();
    let message = Message::new(ADD_TO_COUNTER);
    messenger_1
        .send_and_ask_reply(application.ports_mut(), message, &app_messenger)
        .unwrap();
    let message = Message::new(ADD_TO_COUNTER);
    messenger_2
        .send_and_ask_reply(application.ports_mut(), message, &app_messenger)
        .unwrap();

    let _ = application.run();
}

#[test]
fn counter_scenario_reaches_total_and_returns() {
    let mut application = Application::new(ApplicationState { total_count: 0 });
    let looper_1 = application.create_looper("looper 1", CountLooperState { count: 0 });
    let messenger_1 = looper_1.get_messenger();
    let looper_2 = application.create_looper("looper 2", CountLooperState { count: 0 });
    let messenger_2 = looper_2.get_messenger();
    looper_1.run(&mut application).unwrap();
    looper_2.run(&mut application).unwrap();

    let app_messenger = application.get_messenger();
    for _ in 0..2 {
        messenger_1
            .send_and_ask_reply(
                application.ports_mut(),
                Message::new(ADD_TO_COUNTER),
                &app_messenger,
            )
            .unwrap();
        messenger_2
            .send_and_ask_reply(
                application.ports_mut(),
                Message::new(ADD_TO_COUNTER),
                &app_messenger,
            )
            .unwrap();
    }

    // The application terminates itself once the total reaches four,
    // and run() then returns successfully.
    assert!(application.run().is_ok());
    assert_eq!(application.state().total_count, 4);
}

/// Shared state for the recording scenarios: every delivery to any
/// handler is logged in order.
struct Recorder {
    seen: Vec<u32>,
}

impl ApplicationHooks for Recorder {
    fn message_received(
        &mut self,
        _application_messenger: &Messenger,
        _ports: &mut PortRegistry,
        message: &Message,
    ) {
        self.seen.push(message.what());
    }
}

/// A handler that matches one code and takes an explicit default
/// action for every other non-control message.
struct RecordingHandler {
    expected: u32,
}

impl Handler<Recorder> for RecordingHandler {
    fn message_received(
        &mut self,
        state: &mut Recorder,
        _context: &Context,
        _ports: &mut PortRegistry,
        message: &Message,
    ) {
        if message.what() == self.expected {
            match message.find_data("tag", 0) {
                Some(tag) => state.seen.push(tag),
                None => state.seen.push(message.what()),
            }
        } else {
            // The explicit default action: record the unhandled code.
            state.seen.push(0);
        }
    }
}

#[test]
fn fifo_single_sender_order_is_kept() {
    let mut application: Application<Recorder, RecordingHandler> =
        Application::new(Recorder { seen: Vec::new() });
    let mut looper = application.create_looper("receiver", RecordingHandler { expected: 1 });
    let target = looper.get_messenger();
    let reply = application.get_messenger();

    let mut first = Message::new(1);
    first.add_data("tag", 100);
    let mut second = Message::new(1);
    second.add_data("tag", 200);
    target
        .send_and_ask_reply(application.ports_mut(), first, &reply)
        .unwrap();
    target
        .send_and_ask_reply(application.ports_mut(), second, &reply)
        .unwrap();

    let (state, ports) = application.parts_mut();
    looper.looper_task(state, ports);
    assert_eq!(application.state().seen, vec![100, 200]);
}

#[test]
fn termination_is_final() {
    let mut application: Application<Recorder, RecordingHandler> =
        Application::new(Recorder { seen: Vec::new() });
    let mut looper = application.create_looper("doomed", RecordingHandler { expected: 1 });
    let target = looper.get_messenger();
    let reply = application.get_messenger();

    target
        .send_and_ask_reply(application.ports_mut(), Message::new(1), &reply)
        .unwrap();
    target
        .send_and_ask_reply(application.ports_mut(), Message::new(QUIT), &reply)
        .unwrap();
    // Queued behind the terminate: must never be delivered.
    target
        .send_and_ask_reply(application.ports_mut(), Message::new(1), &reply)
        .unwrap();

    let (state, ports) = application.parts_mut();
    looper.looper_task(state, ports);
    assert!(looper.is_terminated());
    assert_eq!(application.state().seen, vec![1]);

    // Even a message sent after termination is never delivered.
    target
        .send_and_ask_reply(application.ports_mut(), Message::new(1), &reply)
        .unwrap();
    let (state, ports) = application.parts_mut();
    looper.looper_task(state, ports);
    assert_eq!(application.state().seen, vec![1]);
}

#[test]
fn quit_requested_is_absorbed_before_the_handler() {
    let mut application: Application<Recorder, RecordingHandler> =
        Application::new(Recorder { seen: Vec::new() });
    let mut looper = application.create_looper("worker", RecordingHandler { expected: 1 });
    let target = looper.get_messenger();
    let reply = application.get_messenger();

    target
        .send_and_ask_reply(application.ports_mut(), Message::new(B_QUIT_REQUESTED), &reply)
        .unwrap();
    target
        .send_and_ask_reply(application.ports_mut(), Message::new(1), &reply)
        .unwrap();

    let (state, ports) = application.parts_mut();
    looper.looper_task(state, ports);
    // The quit-confirmation request never reached the handler, and
    // the looper kept going.
    assert!(!looper.is_terminated());
    assert_eq!(application.state().seen, vec![1]);
}

#[test]
fn unhandled_type_still_reaches_the_handler() {
    let mut application: Application<Recorder, RecordingHandler> =
        Application::new(Recorder { seen: Vec::new() });
    let mut looper = application.create_looper("worker", RecordingHandler { expected: 1 });
    let target = looper.get_messenger();
    let reply = application.get_messenger();

    target
        .send_and_ask_reply(application.ports_mut(), Message::new(0x55555555), &reply)
        .unwrap();
    let (state, ports) = application.parts_mut();
    looper.looper_task(state, ports);
    // The handler was invoked and took its default action.
    assert_eq!(application.state().seen, vec![0]);
}

#[test]
fn malformed_bytes_are_discarded_and_the_looper_continues() {
    let mut application: Application<Recorder, RecordingHandler> =
        Application::new(Recorder { seen: Vec::new() });
    let mut looper = application.create_looper("worker", RecordingHandler { expected: 1 });
    let target = looper.get_messenger();
    let reply = application.get_messenger();
    let port = looper.port_id();

    // Corrupt payload under the message type code.
    application
        .ports_mut()
        .write(port, B_MESSAGE_TYPE, vec![1, 2, 3])
        .unwrap();
    // An envelope that is no message at all.
    application
        .ports_mut()
        .write(port, 0x12345678, vec![9, 9])
        .unwrap();
    // A well-formed message behind them.
    target
        .send_and_ask_reply(application.ports_mut(), Message::new(1), &reply)
        .unwrap();

    assert_eq!(looper.discarded_count(), 0);
    let (state, ports) = application.parts_mut();
    looper.looper_task(state, ports);
    assert!(!looper.is_terminated());
    assert_eq!(application.state().seen, vec![1]);
    // Both malformed envelopes were discarded and tallied.
    assert_eq!(looper.discarded_count(), 2);

    // The next well-formed message is still dispatched.
    target
        .send_and_ask_reply(application.ports_mut(), Message::new(1), &reply)
        .unwrap();
    let (state, ports) = application.parts_mut();
    looper.looper_task(state, ports);
    assert_eq!(application.state().seen, vec![1, 1]);
    assert_eq!(looper.discarded_count(), 2);
    assert_eq!(application.discarded_count(), 0);
}

#[test]
fn wrong_envelope_type_is_reported_distinctly() {
    let mut application: Application<Recorder, RecordingHandler> =
        Application::new(Recorder { seen: Vec::new() });
    let looper = application.create_looper("worker", RecordingHandler { expected: 1 });
    let port = looper.port_id();

    let ports = application.ports_mut();
    ports.write(port, 0x12345678, vec![0, 0, 0, 0, 0]).unwrap();
    ports.write(port, B_MESSAGE_TYPE, vec![1, 2, 3]).unwrap();
    assert_eq!(
        looper.read_message_from_port(ports).err(),
        Some(haiku::errors::ErrorKind::MismatchedType)
    );
    assert_eq!(
        looper.read_message_from_port(ports).err(),
        Some(haiku::errors::ErrorKind::CorruptPayload)
    );
    assert_eq!(
        looper.read_message_from_port(ports).err(),
        Some(haiku::errors::ErrorKind::WouldBlock)
    );
}

/// Hooks that record the order of deliveries into the application,
/// marking the ready-to-run notification specially.
struct OrderingHooks {
    order: Vec<u32>,
}

impl ApplicationHooks for OrderingHooks {
    fn quit_requested(&mut self, _application_messenger: &Messenger, _ports: &mut PortRegistry) -> bool {
        true
    }

    fn ready_to_run(&mut self, _application_messenger: &Messenger, _ports: &mut PortRegistry) {
        self.order.push(B_READY_TO_RUN);
    }

    fn message_received(
        &mut self,
        app_messenger: &Messenger,
        ports: &mut PortRegistry,
        message: &Message,
    ) {
        self.order.push(message.what());
        app_messenger
            .send_and_ask_reply(ports, Message::new(QUIT), app_messenger)
            .unwrap();
    }
}

struct NoChildren {}

impl Handler<OrderingHooks> for NoChildren {
    fn message_received(
        &mut self,
        _state: &mut OrderingHooks,
        _context: &Context,
        _ports: &mut PortRegistry,
        _message: &Message,
    ) {
    }
}

#[test]
fn loopers_keep_their_names_and_addresses() {
    let mut application: Application<Recorder, RecordingHandler> =
        Application::new(Recorder { seen: Vec::new() });
    let looper = application.create_looper("worker", RecordingHandler { expected: 1 });
    assert_eq!(looper.name(), "worker");
    // The application's messenger resolves to its own port.
    let by_lookup =
        haiku::messenger::Messenger::from_port(application.ports_mut(), 0).unwrap();
    assert_eq!(by_lookup, application.get_messenger());
}

/// Hooks that never terminate the application.
struct QuietHooks {
    ready: bool,
}

impl ApplicationHooks for QuietHooks {
    fn ready_to_run(&mut self, _application_messenger: &Messenger, _ports: &mut PortRegistry) {
        self.ready = true;
    }

    fn message_received(
        &mut self,
        _application_messenger: &Messenger,
        _ports: &mut PortRegistry,
        _message: &Message,
    ) {
    }
}

struct NoHandler {}

impl Handler<QuietHooks> for NoHandler {
    fn message_received(
        &mut self,
        _state: &mut QuietHooks,
        _context: &Context,
        _ports: &mut PortRegistry,
        _message: &Message,
    ) {
    }
}

#[test]
fn run_without_termination_reports_would_block() {
    let mut application: Application<QuietHooks, NoHandler> =
        Application::new(QuietHooks { ready: false });
    let result = application.run();
    assert_eq!(result, Err(haiku::errors::ErrorKind::WouldBlock));
    assert!(application.state().ready);
}

/// A handler that answers every message by sending itself another:
/// the runtime never goes quiescent.
struct EchoForever {}

impl Handler<Recorder> for EchoForever {
    fn message_received(
        &mut self,
        _state: &mut Recorder,
        context: &Context,
        ports: &mut PortRegistry,
        _message: &Message,
    ) {
        context
            .looper_messenger
            .send_and_ask_reply(ports, Message::new(2), &context.looper_messenger)
            .unwrap();
    }
}

#[test]
fn run_with_endless_work_reports_busy() {
    let mut application: Application<Recorder, EchoForever> =
        Application::new(Recorder { seen: Vec::new() });
    let looper = application.create_looper("echo", EchoForever {});
    let target = looper.get_messenger();
    let reply = application.get_messenger();
    looper.run(&mut application).unwrap();
    target
        .send_and_ask_reply(application.ports_mut(), Message::new(2), &reply)
        .unwrap();
    assert_eq!(application.run(), Err(haiku::errors::ErrorKind::Busy));
}

#[test]
fn ready_to_run_fires_once_and_first() {
    let mut application: Application<OrderingHooks, NoChildren> =
        Application::new(OrderingHooks { order: Vec::new() });
    let app_messenger = application.get_messenger();

    // Sent before run(): still delivered after the ready-to-run hook.
    app_messenger
        .send_and_ask_reply(application.ports_mut(), Message::new(0x4D414944), &app_messenger)
        .unwrap();

    assert!(application.run().is_ok());
    assert_eq!(application.state().order, vec![B_READY_TO_RUN, 0x4D414944]);
}
