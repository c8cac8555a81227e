use harlan::arch::keyboard::{
    ControllerInit, InitError, IrqDrain, Keyboard, Request, ScancodeQueue, Stage,
    COMMAND_READ_CONFIG, COMMAND_WRITE_CONFIG, DRAIN_LIMIT, KEYBOARD_ACK,
    KEYBOARD_ENABLE_SCANNING, POLL_LIMIT, QUEUE_CAPACITY, STATUS_AUX_DATA, STATUS_INPUT_FULL,
    STATUS_OUTPUT_FULL,
};
use harlan::hal::console::ConsoleKey;

/// A controller made of ordinary memory.
struct Controller {
    output: Vec<u8>,
    input_full: bool,
    config: u8,
    expecting_config: bool,
    answer: Option<u8>,
    writes: Vec<Request>,
}

impl Controller {
    fn new() -> Self {
        Self {
            output: Vec::new(),
            input_full: false,
            config: 0x34,
            expecting_config: false,
            answer: Some(KEYBOARD_ACK),
            writes: Vec::new(),
        }
    }

    fn perform(&mut self, request: Request) -> u8 {
        match request {
            Request::ReadStatus => {
                let mut status = 0;
                if !self.output.is_empty() {
                    status |= STATUS_OUTPUT_FULL;
                }
                if self.input_full {
                    status |= STATUS_INPUT_FULL;
                }
                status
            }
            Request::ReadData => self.output.remove(0),
            Request::WriteCommand(command) => {
                self.writes.push(request);
                if command == COMMAND_READ_CONFIG {
                    self.output.push(self.config);
                }
                self.expecting_config = command == COMMAND_WRITE_CONFIG;
                0
            }
            Request::WriteData(value) => {
                self.writes.push(request);
                if self.expecting_config {
                    self.config = value;
                    self.expecting_config = false;
                } else if value == KEYBOARD_ENABLE_SCANNING {
                    self.output.extend(self.answer);
                }
                0
            }
            Request::Nothing => panic!("there is nothing left to do"),
        }
    }
}

/// Sets the controller up and answers how many accesses that took.
fn run(controller: &mut Controller) -> (ControllerInit, u32) {
    let mut init = ControllerInit::new();
    let mut accesses = 0;
    while init.request() != Request::Nothing {
        let reply = controller.perform(init.request());
        init.advance(reply);
        accesses += 1;
    }
    (init, accesses)
}

#[test]
fn a_controller_that_answers_is_set_up() {
    let mut controller = Controller::new();
    controller.output = vec![0x1E, 0x9E];
    let (init, _) = run(&mut controller);
    assert_eq!(init.outcome(), Some(Ok(())));
    assert_eq!(init.config, 0x34);
    assert_eq!(init.answer, Some(KEYBOARD_ACK));
    // Interrupts and translation on, the clock not held off, the rest as it
    // was.
    assert_eq!(controller.config, 0x65);
    assert_eq!(init.new_config(), 0x65);
    assert_eq!(
        controller.writes,
        [
            Request::WriteCommand(COMMAND_READ_CONFIG),
            Request::WriteCommand(COMMAND_WRITE_CONFIG),
            Request::WriteData(0x65),
            Request::WriteData(KEYBOARD_ENABLE_SCANNING),
        ]
    );
    assert!(controller.output.is_empty(), "nothing is left to be decoded");
}

#[test]
fn a_controller_that_never_listens_is_given_up() {
    let mut controller = Controller::new();
    controller.input_full = true;
    let (init, accesses) = run(&mut controller);
    assert_eq!(init.outcome(), Some(Err(InitError::ControllerTimeout)));
    assert_eq!(accesses, 1 + POLL_LIMIT);
    assert!(controller.writes.is_empty(), "nothing was written into a full buffer");
}

#[test]
fn a_keyboard_that_does_not_answer_is_no_error() {
    let mut controller = Controller::new();
    controller.answer = None;
    let (init, _) = run(&mut controller);
    assert_eq!(init.outcome(), Some(Ok(())));
    assert_eq!(init.answer, None);
}

#[test]
fn a_stuck_output_buffer_traps_nobody() {
    let mut init = ControllerInit::new();
    assert_eq!(init.outcome(), None);
    for _ in 0..DRAIN_LIMIT {
        assert_eq!(init.request(), Request::ReadStatus);
        init.advance(STATUS_OUTPUT_FULL);
        assert_eq!(init.request(), Request::ReadData);
        init.advance(0xAA);
    }
    assert_eq!(init.stage, Stage::AskConfig);
}

#[test]
fn the_handler_queues_scancodes_and_passes_over_the_mouse() {
    let mut queue = ScancodeQueue::new();
    let mut drain = IrqDrain::new();
    for (status, byte) in [
        (STATUS_OUTPUT_FULL, 0x23),
        (STATUS_OUTPUT_FULL | STATUS_AUX_DATA, 0x55),
        (STATUS_OUTPUT_FULL, 0x17),
    ] {
        assert_eq!(drain.request(), Request::ReadStatus);
        assert_eq!(drain.advance(&mut queue, status), None);
        assert_eq!(drain.request(), Request::ReadData);
        assert_eq!(drain.advance(&mut queue, byte), None);
    }
    assert_eq!(drain.advance(&mut queue, 0), None);
    assert_eq!(drain.request(), Request::Nothing);
    let mut keyboard = Keyboard::new();
    assert_eq!(keyboard.read_key(&mut queue), Some(ConsoleKey::Char('h')));
    assert_eq!(keyboard.read_key(&mut queue), Some(ConsoleKey::Char('i')));
    assert_eq!(keyboard.read_key(&mut queue), None);
}

#[test]
fn the_handler_says_which_scancode_had_no_room() {
    let mut queue = ScancodeQueue::new();
    for _ in 0..QUEUE_CAPACITY {
        assert!(queue.push(0x1E));
    }
    let mut drain = IrqDrain::new();
    assert_eq!(drain.advance(&mut queue, STATUS_OUTPUT_FULL), None);
    assert_eq!(drain.advance(&mut queue, 0x30), Some(0x30));
}

#[test]
fn the_handler_takes_no_more_than_its_limit() {
    let mut queue = ScancodeQueue::new();
    let mut drain = IrqDrain::new();
    let mut bytes = 0;
    while drain.request() != Request::Nothing {
        if drain.request() == Request::ReadData {
            bytes += 1;
        }
        let _ = drain.advance(&mut queue, STATUS_OUTPUT_FULL);
    }
    assert_eq!(bytes, DRAIN_LIMIT);
}
