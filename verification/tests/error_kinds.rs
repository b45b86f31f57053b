use bus_sequencer::i2c::{Error, ErrorKind, Fault, NoAcknowledgeSource};

#[test]
fn error_kind_is_its_own_kind() {
    let kind = ErrorKind::NoAcknowledge(NoAcknowledgeSource::Data);
    assert_eq!(kind.kind(), kind);
}

#[test]
fn empty_transaction_fault_is_other() {
    let fault: Fault<ErrorKind> = Fault::EmptyTransaction;
    assert_eq!(fault.kind(), ErrorKind::Other);
}

#[test]
fn bus_fault_keeps_its_kind() {
    let fault = Fault::Bus(ErrorKind::Overrun);
    assert_eq!(fault.kind(), ErrorKind::Overrun);
}

#[test]
fn error_kind_messages() {
    assert_eq!(ErrorKind::BusFault.message(), "Bus error occurred");
    assert_eq!(ErrorKind::ArbitrationLoss.message(), "The arbitration was lost");
    assert_eq!(ErrorKind::Overrun.message(), "The peripheral receive buffer was overrun");
    assert_eq!(
        ErrorKind::Other.message(),
        "A different error occurred. The original error may contain more information"
    );
    assert_eq!(
        ErrorKind::NoAcknowledge(NoAcknowledgeSource::Address).message(),
        "The device did not acknowledge its address"
    );
}

#[test]
fn no_acknowledge_source_messages() {
    assert_eq!(
        NoAcknowledgeSource::Address.message(),
        "The device did not acknowledge its address"
    );
    assert_eq!(NoAcknowledgeSource::Data.message(), "The device did not acknowledge the data");
    assert_eq!(
        NoAcknowledgeSource::Unknown.message(),
        "The device did not acknowledge its address or the data"
    );
}
