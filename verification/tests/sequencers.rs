use bus_sequencer::error::{ErrorKind, Fault};
use bus_sequencer::i2c;
use bus_sequencer::i2c::blocking::Operation;
use bus_sequencer::i2c::{Address, Direction};
use bus_sequencer::spi;

fn device() -> Address {
    Address::ten_bit(0x158).unwrap()
}

#[test]
fn i2c_sequencer_steps_through_the_plan() {
    let bytes = [1u8, 2];
    let mut buffer = [0u8; 2];
    let operations = [Operation::Write(&bytes), Operation::Read(&mut buffer)];
    let mut sequencer = i2c::Sequencer::new(device());
    let mut steps = Vec::new();
    while let Some(step) = sequencer.next(&operations) {
        steps.push(step);
    }
    assert_eq!(
        steps,
        vec![
            i2c::Step::Begin { direction: Direction::Write, address: device() },
            i2c::Step::Send { operation: 0 },
            i2c::Step::ContinueWith { direction: Direction::Read, address: device() },
            i2c::Step::Receive { operation: 1, byte: 0, last_byte_no_ack: false },
            i2c::Step::Receive { operation: 1, byte: 1, last_byte_no_ack: true },
            i2c::Step::End,
        ]
    );
    assert!(sequencer.is_finished());
    assert_eq!(sequencer.next(&operations), None);
}

#[test]
fn i2c_sequencer_skips_empty_reads() {
    let mut first: [u8; 0] = [];
    let mut second: [u8; 0] = [];
    let bytes = [7u8];
    let operations =
        [Operation::Read(&mut first), Operation::Read(&mut second), Operation::Write(&bytes)];
    let mut sequencer = i2c::Sequencer::new(device());
    let mut steps = Vec::new();
    while let Some(step) = sequencer.next(&operations) {
        steps.push(step);
    }
    assert_eq!(
        steps,
        vec![
            i2c::Step::Begin { direction: Direction::Read, address: device() },
            i2c::Step::ContinueWith { direction: Direction::Write, address: device() },
            i2c::Step::Send { operation: 2 },
            i2c::Step::End,
        ]
    );
}

#[test]
fn i2c_sequencer_hands_out_nothing_for_no_operations() {
    let operations: [Operation; 0] = [];
    let mut sequencer = i2c::Sequencer::new(device());
    assert_eq!(sequencer.next(&operations), None);
    assert!(sequencer.is_finished());
}

#[test]
fn i2c_abort_after_data_asks_for_the_stop() {
    let bytes = [1u8];
    let operations = [Operation::Write(&bytes), Operation::Write(&bytes)];
    let mut sequencer = i2c::Sequencer::new(device());
    assert!(matches!(sequencer.next(&operations), Some(i2c::Step::Begin { .. })));
    assert_eq!(sequencer.next(&operations), Some(i2c::Step::Send { operation: 0 }));
    assert_eq!(sequencer.abort(), Some(i2c::Step::End));
    assert!(sequencer.is_finished());
    assert_eq!(sequencer.next(&operations), None);
    assert_eq!(sequencer.abort(), None);
}

#[test]
fn i2c_abort_after_framing_asks_for_nothing() {
    let bytes = [1u8];
    let operations = [Operation::Write(&bytes)];
    let mut sequencer = i2c::Sequencer::new(device());
    assert!(matches!(sequencer.next(&operations), Some(i2c::Step::Begin { .. })));
    assert_eq!(sequencer.abort(), None);
    assert_eq!(sequencer.next(&operations), None);
}

#[test]
fn i2c_abort_after_end_asks_for_nothing() {
    let bytes = [1u8];
    let operations = [Operation::Write(&bytes)];
    let mut sequencer = i2c::Sequencer::new(device());
    while let Some(step) = sequencer.next(&operations) {
        if step == i2c::Step::End {
            break;
        }
    }
    assert_eq!(sequencer.abort(), None);
}

#[test]
fn spi_sequencer_steps_through_the_plan() {
    let words = [1u8, 2];
    let mut buffer = [0u8; 3];
    let short = [5u8];
    let operations = [
        spi::blocking::Operation::Write(&words),
        spi::blocking::Operation::Transfer(&mut buffer, &short),
    ];
    let mut sequencer = spi::Sequencer::new();
    let mut steps = Vec::new();
    while let Some(step) = sequencer.next(&operations) {
        steps.push(step);
    }
    assert_eq!(
        steps,
        vec![
            spi::Step::Select,
            spi::Step::Exchange { operation: 0, word: 0 },
            spi::Step::Exchange { operation: 0, word: 1 },
            spi::Step::Exchange { operation: 1, word: 0 },
            spi::Step::Exchange { operation: 1, word: 1 },
            spi::Step::Exchange { operation: 1, word: 2 },
            spi::Step::Deselect,
        ]
    );
    assert!(sequencer.is_finished());
}

#[test]
fn spi_abort_after_an_exchange_asks_for_the_release() {
    let words = [1u8, 2];
    let operations = [spi::blocking::Operation::Write(&words)];
    let mut sequencer = spi::Sequencer::new();
    assert_eq!(sequencer.next(&operations), Some(spi::Step::Select));
    assert_eq!(sequencer.next(&operations), Some(spi::Step::Exchange { operation: 0, word: 0 }));
    assert_eq!(sequencer.abort(), Some(spi::Step::Deselect));
    assert_eq!(sequencer.next(&operations), None);
}

#[test]
fn spi_abort_after_select_asks_for_nothing() {
    let words = [1u8, 2];
    let operations = [spi::blocking::Operation::Write(&words)];
    let mut sequencer = spi::Sequencer::new();
    assert_eq!(sequencer.next(&operations), Some(spi::Step::Select));
    assert_eq!(sequencer.abort(), None);
    assert!(sequencer.is_finished());
}

#[test]
fn i2c_start_refuses_an_empty_list() {
    let operations: [Operation; 0] = [];
    let started = i2c::Sequencer::start::<ErrorKind>(device(), &operations);
    assert!(matches!(started, Err(Fault::EmptyTransaction)));
}

#[test]
fn i2c_start_accepts_a_list_with_an_empty_write() {
    let operations = [Operation::Write(&[])];
    let mut sequencer = i2c::Sequencer::start::<ErrorKind>(device(), &operations).unwrap();
    assert_eq!(
        sequencer.next(&operations),
        Some(i2c::Step::Begin { direction: Direction::Write, address: device() })
    );
    assert_eq!(sequencer.next(&operations), Some(i2c::Step::Send { operation: 0 }));
    assert_eq!(sequencer.next(&operations), Some(i2c::Step::End));
    assert_eq!(sequencer.next(&operations), None);
}

#[test]
fn i2c_step_hands_out_bytes_and_stores_a_byte() {
    let bytes = [0xAB, 0xCD];
    let mut buffer = [0u8; 2];
    {
        let mut operations = [Operation::Write(&bytes), Operation::Read(&mut buffer)];
        let send = i2c::Step::Send { operation: 0 };
        assert_eq!(send.outgoing(&operations), Some(&bytes[..]));
        assert_eq!(i2c::Step::Send { operation: 1 }.outgoing(&operations), None);
        assert_eq!(i2c::Step::Send { operation: 2 }.outgoing(&operations), None);
        assert_eq!(i2c::Step::End.outgoing(&operations), None);

        let receive = i2c::Step::Receive { operation: 1, byte: 1, last_byte_no_ack: true };
        receive.store(&mut operations, 0x5A);
        let outside = i2c::Step::Receive { operation: 1, byte: 2, last_byte_no_ack: false };
        outside.store(&mut operations, 0x77);
        let at_write = i2c::Step::Receive { operation: 0, byte: 0, last_byte_no_ack: false };
        at_write.store(&mut operations, 0x77);
        i2c::Step::End.store(&mut operations, 0x77);
    }
    assert_eq!(buffer, [0, 0x5A]);
}

#[test]
fn spi_start_refuses_an_empty_list() {
    let operations: [spi::blocking::Operation<u8>; 0] = [];
    let started = spi::Sequencer::start::<u8, ErrorKind>(&operations);
    assert!(matches!(started, Err(Fault::EmptyTransaction)));
    let mut sequencer = spi::Sequencer::new();
    assert_eq!(sequencer.next(&operations), None);
    assert!(sequencer.is_finished());
}

#[test]
fn spi_step_hands_out_a_word_and_stores_a_word() {
    let words = [0xAB, 0xCD];
    let mut buffer = [0u8; 1];
    {
        let mut operations = [spi::blocking::Operation::Transfer(&mut buffer, &words)];
        assert_eq!(spi::Step::Exchange { operation: 0, word: 1 }.outgoing(&operations), Some(0xCD));
        assert_eq!(spi::Step::Exchange { operation: 0, word: 2 }.outgoing(&operations), None);
        assert_eq!(spi::Step::Exchange { operation: 1, word: 0 }.outgoing(&operations), None);
        assert_eq!(spi::Step::Select.outgoing(&operations), None);
        spi::Step::Exchange { operation: 0, word: 0 }.store(&mut operations, 0x11);
        spi::Step::Exchange { operation: 0, word: 1 }.store(&mut operations, 0x22);
        spi::Step::Deselect.store(&mut operations, 0x33);
    }
    assert_eq!(buffer, [0x11]);
}
