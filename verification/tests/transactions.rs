use bus_sequencer::i2c::blocking::{
    Operation, Read, Transactional, TransactionalIter, Write, WriteIter, WriteIterRead, WriteRead,
};
use bus_sequencer::i2c::{
    Address, Bus, Direction, Entry, Error, ErrorKind, Fault, NoAcknowledgeSource, Recorded,
    Recorder,
};

fn device() -> Address {
    Address::seven_bit(0x15).unwrap()
}

fn calls(recorder: &Recorder) -> Vec<&Recorded> {
    recorder.entries().iter().map(|entry: &Entry| &entry.call).collect()
}

fn receive(last_byte_no_ack: bool) -> Recorded {
    Recorded::Receive { len: 1, last_byte_no_ack }
}

#[test]
fn single_write_is_one_run() {
    let mut bus = Recorder::new(vec![], vec![]);
    let bytes = [0xAA, 0xBB];
    let mut operations = [Operation::Write(&bytes)];
    assert_eq!(bus.exec(device(), &mut operations), Ok(()));
    assert_eq!(
        calls(&bus),
        vec![
            &Recorded::Begin(Direction::Write, device()),
            &Recorded::Send(vec![0xAA, 0xBB]),
            &Recorded::End,
        ]
    );
}

#[test]
fn three_runs_have_two_repeated_starts() {
    let mut bus = Recorder::new(vec![1, 2, 3], vec![]);
    let first = [0x10];
    let second = [0x20, 0x21];
    let mut buffer = [0u8; 2];
    let third = [0x30];
    let mut operations = [
        Operation::Write(&first),
        Operation::Write(&second),
        Operation::Read(&mut buffer),
        Operation::Write(&third),
    ];
    assert_eq!(bus.exec(device(), &mut operations), Ok(()));
    assert_eq!(
        calls(&bus),
        vec![
            &Recorded::Begin(Direction::Write, device()),
            &Recorded::Send(vec![0x10]),
            &Recorded::Send(vec![0x20, 0x21]),
            &Recorded::ContinueWith(Direction::Read, device()),
            &receive(false),
            &receive(false),
            &Recorded::ContinueWith(Direction::Write, device()),
            &Recorded::Send(vec![0x30]),
            &Recorded::End,
        ]
    );
    assert_eq!(buffer, [1, 2]);
}

#[test]
fn adjacent_reads_are_coalesced() {
    let mut bus = Recorder::new(vec![9, 8, 7], vec![]);
    let mut first = [0u8; 1];
    let mut second = [0u8; 2];
    let mut operations = [Operation::Read(&mut first), Operation::Read(&mut second)];
    assert_eq!(bus.exec(device(), &mut operations), Ok(()));
    assert_eq!(
        calls(&bus),
        vec![
            &Recorded::Begin(Direction::Read, device()),
            &receive(false),
            &receive(false),
            &receive(true),
            &Recorded::End,
        ]
    );
    assert_eq!(first, [9]);
    assert_eq!(second, [8, 7]);
}

#[test]
fn write_then_read_equals_exec_of_write_and_read() {
    let bytes = [0x01, 0x02];

    let mut facade = Recorder::new(vec![5, 6, 7], vec![]);
    let mut through_facade = [0u8; 3];
    assert_eq!(facade.write_then_read(device(), &bytes, &mut through_facade), Ok(()));

    let mut engine = Recorder::new(vec![5, 6, 7], vec![]);
    let mut through_exec = [0u8; 3];
    let mut operations = [Operation::Write(&bytes), Operation::Read(&mut through_exec)];
    assert_eq!(engine.exec(device(), &mut operations), Ok(()));

    assert_eq!(facade.entries(), engine.entries());
    assert_eq!(through_facade, through_exec);
    assert_eq!(
        calls(&facade),
        vec![
            &Recorded::Begin(Direction::Write, device()),
            &Recorded::Send(vec![0x01, 0x02]),
            &Recorded::ContinueWith(Direction::Read, device()),
            &receive(false),
            &receive(false),
            &receive(true),
            &Recorded::End,
        ]
    );
}

#[test]
fn only_the_last_byte_of_a_closing_read_is_not_acknowledged() {
    let mut bus = Recorder::new(vec![0x11, 0x22, 0x33], vec![]);
    let bytes = [0x01];
    let mut buffer = [0u8; 3];
    let mut operations = [Operation::Write(&bytes), Operation::Read(&mut buffer)];
    assert_eq!(bus.exec(device(), &mut operations), Ok(()));
    let flags: Vec<bool> = bus
        .entries()
        .iter()
        .filter_map(|entry| match entry.call {
            Recorded::Receive { last_byte_no_ack, .. } => Some(last_byte_no_ack),
            _ => None,
        })
        .collect();
    assert_eq!(flags, vec![false, false, true]);
    assert_eq!(buffer, [0x11, 0x22, 0x33]);
}

#[test]
fn a_read_before_a_write_acknowledges_every_byte() {
    let mut bus = Recorder::new(vec![1, 2], vec![]);
    let mut buffer = [0u8; 2];
    let bytes = [0x01];
    let mut operations = [Operation::Read(&mut buffer), Operation::Write(&bytes)];
    assert_eq!(bus.exec(device(), &mut operations), Ok(()));
    assert_eq!(
        calls(&bus),
        vec![
            &Recorded::Begin(Direction::Read, device()),
            &receive(false),
            &receive(false),
            &Recorded::ContinueWith(Direction::Write, device()),
            &Recorded::Send(vec![0x01]),
            &Recorded::End,
        ]
    );
}

#[test]
fn an_empty_closing_read_withholds_no_acknowledgement() {
    let mut bus = Recorder::new(vec![1], vec![]);
    let mut buffer = [0u8; 1];
    let mut nothing = [0u8; 0];
    let mut operations = [Operation::Read(&mut buffer), Operation::Read(&mut nothing)];
    assert_eq!(bus.exec(device(), &mut operations), Ok(()));
    assert_eq!(
        calls(&bus),
        vec![&Recorded::Begin(Direction::Read, device()), &receive(false), &Recorded::End]
    );
}

#[test]
fn empty_transaction_fails_with_other_and_calls_nothing() {
    let mut bus = Recorder::new(vec![], vec![]);
    let mut operations: [Operation; 0] = [];
    let result = bus.exec(device(), &mut operations);
    assert_eq!(result, Err(Fault::EmptyTransaction));
    assert_eq!(result.unwrap_err().kind(), ErrorKind::Other);
    assert!(bus.entries().is_empty());
}

#[test]
fn failed_begin_stops_without_end() {
    let fault = ErrorKind::NoAcknowledge(NoAcknowledgeSource::Address);
    let mut bus = Recorder::new(vec![], vec![Some(fault)]);
    let bytes = [0x01];
    let mut operations = [Operation::Write(&bytes)];
    assert_eq!(bus.exec(device(), &mut operations), Err(Fault::Bus(fault)));
    assert_eq!(calls(&bus), vec![&Recorded::Begin(Direction::Write, device())]);
}

#[test]
fn failed_send_skips_the_rest_and_stops() {
    let fault = ErrorKind::NoAcknowledge(NoAcknowledgeSource::Data);
    let mut bus = Recorder::new(vec![1, 2], vec![None, Some(fault)]);
    let bytes = [0x01];
    let mut buffer = [0xEE; 2];
    let mut operations = [Operation::Write(&bytes), Operation::Read(&mut buffer)];
    assert_eq!(bus.exec(device(), &mut operations), Err(Fault::Bus(fault)));
    assert_eq!(
        calls(&bus),
        vec![
            &Recorded::Begin(Direction::Write, device()),
            &Recorded::Send(vec![0x01]),
            &Recorded::End,
        ]
    );
    assert_eq!(buffer, [0xEE, 0xEE]);
}

#[test]
fn failed_repeated_start_stops_without_end() {
    let mut bus = Recorder::new(vec![1, 2], vec![None, None, Some(ErrorKind::ArbitrationLoss)]);
    let bytes = [0x01];
    let mut buffer = [0u8; 2];
    let mut operations = [Operation::Write(&bytes), Operation::Read(&mut buffer)];
    assert_eq!(
        bus.exec(device(), &mut operations),
        Err(Fault::Bus(ErrorKind::ArbitrationLoss))
    );
    assert_eq!(
        calls(&bus),
        vec![
            &Recorded::Begin(Direction::Write, device()),
            &Recorded::Send(vec![0x01]),
            &Recorded::ContinueWith(Direction::Read, device()),
        ]
    );
}

#[test]
fn failed_receive_keeps_earlier_bytes_and_stops() {
    let mut bus = Recorder::new(vec![0x41, 0x42, 0x43], vec![None, None, Some(ErrorKind::Overrun)]);
    let mut buffer = [0u8; 3];
    assert_eq!(bus.read(device(), &mut buffer), Err(Fault::Bus(ErrorKind::Overrun)));
    assert_eq!(
        calls(&bus),
        vec![
            &Recorded::Begin(Direction::Read, device()),
            &receive(false),
            &receive(false),
            &Recorded::End,
        ]
    );
    assert_eq!(buffer, [0x41, 0, 0]);
}

#[test]
fn first_error_wins_when_the_stop_fails_too() {
    let mut bus = Recorder::new(
        vec![],
        vec![None, Some(ErrorKind::BusFault), Some(ErrorKind::ArbitrationLoss)],
    );
    let bytes = [0x01];
    assert_eq!(bus.write(device(), &bytes), Err(Fault::Bus(ErrorKind::BusFault)));
    assert_eq!(bus.entries().len(), 3);
    assert_eq!(bus.entries()[2].call, Recorded::End);
    assert_eq!(bus.entries()[2].outcome, Err(ErrorKind::ArbitrationLoss));
}

#[test]
fn failed_end_is_reported() {
    let mut bus = Recorder::new(vec![], vec![None, None, Some(ErrorKind::BusFault)]);
    let bytes = [0x01];
    assert_eq!(bus.write(device(), &bytes), Err(Fault::Bus(ErrorKind::BusFault)));
    assert_eq!(
        calls(&bus),
        vec![
            &Recorded::Begin(Direction::Write, device()),
            &Recorded::Send(vec![0x01]),
            &Recorded::End,
        ]
    );
}

#[test]
fn read_is_a_transaction_of_one_read() {
    let mut bus = Recorder::new(vec![7, 8], vec![]);
    let mut buffer = [0u8; 2];
    assert_eq!(bus.read(device(), &mut buffer), Ok(()));
    assert_eq!(
        calls(&bus),
        vec![
            &Recorded::Begin(Direction::Read, device()),
            &receive(false),
            &receive(true),
            &Recorded::End,
        ]
    );
    assert_eq!(buffer, [7, 8]);
}

#[test]
fn write_is_a_transaction_of_one_write() {
    let mut bus = Recorder::new(vec![], vec![]);
    assert_eq!(bus.write(Address::ten_bit(0x158).unwrap(), &[1, 2, 3]), Ok(()));
    assert_eq!(
        calls(&bus),
        vec![
            &Recorded::Begin(Direction::Write, Address::ten_bit(0x158).unwrap()),
            &Recorded::Send(vec![1, 2, 3]),
            &Recorded::End,
        ]
    );
}

#[test]
fn an_empty_write_is_still_sent() {
    let mut bus = Recorder::new(vec![], vec![]);
    assert_eq!(bus.write(device(), &[]), Ok(()));
    assert_eq!(
        calls(&bus),
        vec![
            &Recorded::Begin(Direction::Write, device()),
            &Recorded::Send(vec![]),
            &Recorded::End,
        ]
    );
}

#[test]
fn recorder_delivers_zeroes_when_its_script_runs_out() {
    let mut bus = Recorder::new(vec![0x55], vec![]);
    let mut buffer = [0xFFu8; 3];
    assert_eq!(bus.read(device(), &mut buffer), Ok(()));
    assert_eq!(buffer, [0x55, 0, 0]);
    assert_eq!(bus.entries()[1].received, vec![0x55]);
    assert_eq!(bus.entries()[2].received, vec![0]);
}

#[test]
fn write_iter_sends_what_the_iterator_yields() {
    let mut bus = Recorder::new(vec![], vec![]);
    assert_eq!(bus.write_iter(device(), (1..=4u8).map(|b| b * 2)), Ok(()));
    assert_eq!(
        calls(&bus),
        vec![
            &Recorded::Begin(Direction::Write, device()),
            &Recorded::Send(vec![2, 4, 6, 8]),
            &Recorded::End,
        ]
    );
}

#[test]
fn write_iter_read_equals_write_then_read() {
    let mut through_iter = Recorder::new(vec![3, 4], vec![]);
    let mut first = [0u8; 2];
    assert_eq!(
        through_iter.write_iter_read(device(), vec![0x0A, 0x0B].into_iter(), &mut first),
        Ok(())
    );

    let mut through_slice = Recorder::new(vec![3, 4], vec![]);
    let mut second = [0u8; 2];
    assert_eq!(through_slice.write_then_read(device(), &[0x0A, 0x0B], &mut second), Ok(()));

    assert_eq!(through_iter.entries(), through_slice.entries());
    assert_eq!(first, [3, 4]);
    assert_eq!(second, [3, 4]);
}

#[test]
fn exec_iter_equals_exec() {
    let bytes = [0x01u8];
    let mut first = [0u8; 2];
    let mut through_iter = Recorder::new(vec![8, 9], vec![]);
    let operations = vec![Operation::Write(&bytes), Operation::Read(&mut first)];
    assert_eq!(through_iter.exec_iter(device(), operations.into_iter()), Ok(()));

    let mut second = [0u8; 2];
    let mut through_slice = Recorder::new(vec![8, 9], vec![]);
    let mut list = [Operation::Write(&bytes), Operation::Read(&mut second)];
    assert_eq!(through_slice.exec(device(), &mut list), Ok(()));

    assert_eq!(through_iter.entries(), through_slice.entries());
    assert_eq!(first, [8, 9]);
    assert_eq!(second, [8, 9]);
}

#[test]
fn exec_iter_of_nothing_fails_with_other() {
    let mut bus = Recorder::new(vec![], vec![]);
    let operations: Vec<Operation> = Vec::new();
    let result = bus.exec_iter(device(), operations.into_iter());
    assert_eq!(result, Err(Fault::EmptyTransaction));
    assert!(bus.entries().is_empty());
}

#[test]
fn recorder_primitives_can_be_called_directly() {
    let mut bus = Recorder::new(vec![1, 2, 3, 4], vec![None, Some(ErrorKind::Overrun)]);
    let mut buffer = [0u8; 3];
    assert_eq!(bus.receive(&mut buffer, true), Ok(()));
    assert_eq!(buffer, [1, 2, 3]);
    let mut untouched = [9u8; 2];
    assert_eq!(bus.receive(&mut untouched, false), Err(ErrorKind::Overrun));
    assert_eq!(untouched, [9, 9]);
    let mut rest = [0u8; 2];
    assert_eq!(bus.receive(&mut rest, false), Ok(()));
    assert_eq!(rest, [4, 0]);
    assert_eq!(bus.send(&[7]), Ok(()));
    assert_eq!(bus.end(), Ok(()));
    assert_eq!(
        calls(&bus),
        vec![
            &Recorded::Receive { len: 3, last_byte_no_ack: true },
            &Recorded::Receive { len: 2, last_byte_no_ack: false },
            &Recorded::Receive { len: 2, last_byte_no_ack: false },
            &Recorded::Send(vec![7]),
            &Recorded::End,
        ]
    );
    assert_eq!(bus.entries()[0].received, vec![1, 2, 3]);
    assert_eq!(bus.entries()[1].received, vec![9, 9]);
}
