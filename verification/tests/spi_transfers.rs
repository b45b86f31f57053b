use bus_sequencer::error::{Error, ErrorKind, Fault};
use bus_sequencer::spi::blocking::{Operation, Read, ReadWrite, Write};
use bus_sequencer::spi::{Event, Recorder};

type Recorded = Event<u8, ErrorKind>;

fn exchange(outgoing: Option<u8>, incoming: u8) -> Recorded {
    Event::Exchange(outgoing, Ok(incoming))
}

#[test]
fn transfer_with_short_read_runs_for_the_longer_buffer() {
    let mut bus = Recorder::new(vec![0xA1, 0xA2, 0xA3, 0xA4, 0xA5], 0x00, vec![]);
    let mut read = [0u8; 2];
    let write = [1, 2, 3, 4, 5];
    assert_eq!(bus.transfer(&mut read, &write), Ok(()));
    assert_eq!(
        bus.entries(),
        &vec![
            Event::Select(Ok(())),
            exchange(Some(1), 0xA1),
            exchange(Some(2), 0xA2),
            exchange(Some(3), 0xA3),
            exchange(Some(4), 0xA4),
            exchange(Some(5), 0xA5),
            Event::Deselect(Ok(())),
        ]
    );
    assert_eq!(read, [0xA1, 0xA2]);
}

#[test]
fn transfer_with_short_write_pads_the_outgoing_side() {
    let mut bus = Recorder::new(vec![9, 8, 7], 0x00, vec![]);
    let mut read = [0u8; 3];
    let write = [0x55];
    assert_eq!(bus.transfer(&mut read, &write), Ok(()));
    assert_eq!(
        bus.entries(),
        &vec![
            Event::Select(Ok(())),
            exchange(Some(0x55), 9),
            exchange(None, 8),
            exchange(None, 7),
            Event::Deselect(Ok(())),
        ]
    );
    assert_eq!(read, [9, 8, 7]);
}

#[test]
fn transfer_of_empty_buffers_only_toggles_select() {
    let mut bus = Recorder::new(vec![], 0x00, vec![]);
    let mut read: [u8; 0] = [];
    assert_eq!(bus.transfer(&mut read, &[]), Ok(()));
    assert_eq!(bus.entries(), &vec![Event::Select(Ok(())), Event::Deselect(Ok(()))]);
}

#[test]
fn transfer_in_place_sends_the_old_words_and_keeps_the_new() {
    let mut bus = Recorder::new(vec![0x10, 0x20, 0x30], 0x00, vec![]);
    let mut words = [1u8, 2, 3];
    assert_eq!(bus.transfer_in_place(&mut words), Ok(()));
    assert_eq!(
        bus.entries(),
        &vec![
            Event::Select(Ok(())),
            exchange(Some(1), 0x10),
            exchange(Some(2), 0x20),
            exchange(Some(3), 0x30),
            Event::Deselect(Ok(())),
        ]
    );
    assert_eq!(words, [0x10, 0x20, 0x30]);
}

#[test]
fn spi_read_sends_padding() {
    let mut bus = Recorder::new(vec![4, 5], 0xFF, vec![]);
    let mut words = [0u8; 3];
    assert_eq!(bus.read(&mut words), Ok(()));
    assert_eq!(
        bus.entries(),
        &vec![
            Event::Select(Ok(())),
            exchange(None, 4),
            exchange(None, 5),
            exchange(None, 0xFF),
            Event::Deselect(Ok(())),
        ]
    );
    assert_eq!(words, [4, 5, 0xFF]);
}

#[test]
fn spi_write_discards_what_comes_in() {
    let mut bus = Recorder::new(vec![4, 5], 0xFF, vec![]);
    assert_eq!(bus.write(&[0xDE, 0xAD]), Ok(()));
    assert_eq!(
        bus.entries(),
        &vec![
            Event::Select(Ok(())),
            exchange(Some(0xDE), 4),
            exchange(Some(0xAD), 5),
            Event::Deselect(Ok(())),
        ]
    );
}

#[test]
fn select_is_held_across_operations() {
    let mut bus = Recorder::new(vec![1, 2, 3, 4], 0x00, vec![]);
    let command = [0x9F];
    let mut id = [0u8; 2];
    let mut both = [0x77u8];
    let mut operations = [
        Operation::Write(&command),
        Operation::Read(&mut id),
        Operation::TransferInPlace(&mut both),
    ];
    assert_eq!(bus.transaction(&mut operations), Ok(()));
    assert_eq!(
        bus.entries(),
        &vec![
            Event::Select(Ok(())),
            exchange(Some(0x9F), 1),
            exchange(None, 2),
            exchange(None, 3),
            exchange(Some(0x77), 4),
            Event::Deselect(Ok(())),
        ]
    );
    assert_eq!(id, [2, 3]);
    assert_eq!(both, [4]);
}

#[test]
fn empty_spi_transaction_fails_with_other_and_calls_nothing() {
    let mut bus: Recorder<u8> = Recorder::new(vec![], 0x00, vec![]);
    let mut operations: [Operation<u8>; 0] = [];
    let result = bus.transaction(&mut operations);
    assert_eq!(result, Err(Fault::EmptyTransaction));
    assert_eq!(result.unwrap_err().kind(), ErrorKind::Other);
    assert!(bus.entries().is_empty());
}

#[test]
fn failed_select_stops_without_deselect() {
    let mut bus = Recorder::new(vec![1], 0x00, vec![Some(ErrorKind::BusFault)]);
    let mut words = [0u8; 1];
    assert_eq!(bus.read(&mut words), Err(Fault::Bus(ErrorKind::BusFault)));
    assert_eq!(bus.entries(), &vec![Event::Select(Err(ErrorKind::BusFault))]);
    assert_eq!(words, [0]);
}

#[test]
fn failed_exchange_releases_select_and_keeps_earlier_words() {
    let mut bus =
        Recorder::new(vec![0x61, 0x62, 0x63], 0x00, vec![None, None, Some(ErrorKind::Overrun)]);
    let mut words = [0u8; 3];
    assert_eq!(bus.read(&mut words), Err(Fault::Bus(ErrorKind::Overrun)));
    assert_eq!(
        bus.entries(),
        &vec![
            Event::Select(Ok(())),
            exchange(None, 0x61),
            Event::Exchange(None, Err(ErrorKind::Overrun)),
            Event::Deselect(Ok(())),
        ]
    );
    assert_eq!(words, [0x61, 0, 0]);
}

#[test]
fn failed_deselect_is_reported() {
    let mut bus = Recorder::new(vec![], 0x00, vec![None, None, Some(ErrorKind::Other)]);
    assert_eq!(bus.write(&[1u8]), Err(Fault::Bus(ErrorKind::Other)));
    assert_eq!(bus.entries().len(), 3);
}

#[test]
fn sixteen_bit_words() {
    let mut bus: Recorder<u16> = Recorder::new(vec![0x1234], 0xFFFF, vec![]);
    let mut read = [0u16; 2];
    assert_eq!(bus.transfer(&mut read, &[0xBEEF]), Ok(()));
    assert_eq!(read, [0x1234, 0xFFFF]);
    assert_eq!(bus.entries()[1], Event::Exchange(Some(0xBEEF), Ok(0x1234)));
    assert_eq!(bus.entries()[2], Event::Exchange(None, Ok(0xFFFF)));
}

#[test]
fn operation_word_times() {
    let mut buffer = [0u8; 2];
    let words = [1u8, 2, 3];
    let mut transfer = Operation::Transfer(&mut buffer, &words);
    assert_eq!(transfer.duration(), 3);
    assert_eq!(transfer.outgoing(0), Some(1));
    assert_eq!(transfer.outgoing(2), Some(3));
    transfer.store(1, 0x42);
    transfer.store(2, 0x43);
    assert_eq!(buffer, [0, 0x42]);

    let mut long = [0u8; 4];
    let short = [9u8];
    let padded = Operation::Transfer(&mut long, &short);
    assert_eq!(padded.duration(), 4);
    assert_eq!(padded.outgoing(0), Some(9));
    assert_eq!(padded.outgoing(1), None);
    assert_eq!(padded.outgoing(4), None);

    let write = Operation::Write(&short);
    assert_eq!(write.duration(), 1);
    assert_eq!(write.outgoing(0), Some(9));
    assert_eq!(write.outgoing(1), None);
}

#[test]
fn read_transaction_fills_the_buffers_in_order() {
    let mut bus = Recorder::new(vec![1, 2, 3], 0x00, vec![]);
    let mut first = [0u8; 1];
    let mut second = [0u8; 2];
    {
        let mut buffers: [&mut [u8]; 2] = [&mut first, &mut second];
        assert_eq!(bus.read_transaction(&mut buffers), Ok(()));
    }
    assert_eq!(
        bus.entries(),
        &vec![
            Event::Select(Ok(())),
            exchange(None, 1),
            exchange(None, 2),
            exchange(None, 3),
            Event::Deselect(Ok(())),
        ]
    );
    assert_eq!(first, [1]);
    assert_eq!(second, [2, 3]);
}

#[test]
fn write_transaction_sends_the_slices_in_order() {
    let mut bus = Recorder::new(vec![], 0x00, vec![]);
    let slices: [&[u8]; 3] = [&[0x0A], &[], &[0x0B, 0x0C]];
    assert_eq!(bus.write_transaction(&slices), Ok(()));
    assert_eq!(
        bus.entries(),
        &vec![
            Event::Select(Ok(())),
            exchange(Some(0x0A), 0),
            exchange(Some(0x0B), 0),
            exchange(Some(0x0C), 0),
            Event::Deselect(Ok(())),
        ]
    );
}

#[test]
fn transaction_of_no_buffers_is_refused() {
    let mut bus: Recorder<u8> = Recorder::new(vec![], 0x00, vec![]);
    assert_eq!(bus.write_transaction(&[]), Err(Fault::EmptyTransaction));
    let mut buffers: [&mut [u8]; 0] = [];
    assert_eq!(bus.read_transaction(&mut buffers), Err(Fault::EmptyTransaction));
    assert!(bus.entries().is_empty());
}
