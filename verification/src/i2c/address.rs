//! Target addresses: the two address modes and the bytes they put on the
//! wire.
use vstd::prelude::*;

verus! {

/// The direction of an operation, as announced with the address.
#[derive(Debug, Copy, Clone, Eq, PartialEq, Structural, Hash)]
pub enum Direction {
    /// The master receives.
    Read,
    /// The master transmits.
    Write,
}

impl Direction {
    /// The read/write bit that follows the address: 1 announces a read.
    pub open spec fn wire_bit(self) -> u8 {
        match self {
            Direction::Read => 1u8,
            Direction::Write => 0u8,
        }
    }

    /// The read/write bit that follows the address: 1 announces a read.
    pub fn bit(&self) -> (bit: u8)
        ensures
            bit == self.wire_bit(),
    {
        match self {
            Direction::Read => 1,
            Direction::Write => 0,
        }
    }
}

/// The two addressing capabilities of the bus. The set is closed.
#[derive(Debug, Copy, Clone, Eq, PartialEq, Structural, Hash)]
pub enum AddressMode {
    /// Seven significant bits, carried in an 8-bit value.
    SevenBit,
    /// Ten significant bits, carried in a 16-bit value.
    TenBit,
}

impl AddressMode {
    /// The number of significant address bits.
    pub open spec fn width(self) -> nat {
        match self {
            AddressMode::SevenBit => 7,
            AddressMode::TenBit => 10,
        }
    }

    /// The first value that is no address of this mode: two to the power
    /// of the width.
    pub open spec fn limit(self) -> int {
        match self {
            AddressMode::SevenBit => 128,
            AddressMode::TenBit => 1024,
        }
    }

    /// The number of significant address bits.
    pub fn bits(&self) -> (bits: u8)
        ensures
            bits == self.width(),
    {
        match self {
            AddressMode::SevenBit => 7,
            AddressMode::TenBit => 10,
        }
    }

    /// The first value that is no address of this mode.
    pub fn bound(&self) -> (bound: u16)
        ensures
            bound == self.limit(),
    {
        match self {
            AddressMode::SevenBit => 128,
            AddressMode::TenBit => 1024,
        }
    }
}

/// The integer that carries a seven-bit address: eight bits wide, seven of
/// them significant.
pub type SevenBitAddress = u8;

/// The integer that carries a ten-bit address: sixteen bits wide, ten of
/// them significant.
pub type TenBitAddress = u16;

/// A target address whose value fits the width of its mode.
#[derive(Debug, Copy, Clone, Eq, PartialEq, Structural, Hash)]
pub struct Address {
    mode: AddressMode,
    value: u16,
}

/// The prefix `11110` that opens the first byte of a ten-bit address, in
/// the five high bits of the byte.
pub const TEN_BIT_PREFIX: u8 = 0xF0;

/// The address bytes as they appear on the wire.
///
/// Seven-bit mode: one byte, the address in the seven high bits and the
/// direction in the low bit. Ten-bit mode: two bytes; the first carries the
/// prefix, the two high address bits and the direction in the low bit, the
/// second the eight low address bits.
pub open spec fn wire_format(mode: AddressMode, value: u16, direction: Direction) -> Seq<u8> {
    match mode {
        AddressMode::SevenBit => seq![((value as u8) << 1) | direction.wire_bit()],
        AddressMode::TenBit => seq![
            TEN_BIT_PREFIX | ((((value >> 8) & 0x03) as u8) << 1) | direction.wire_bit(),
            (value & 0xFF) as u8,
        ],
    }
}

impl Address {
    #[verifier::type_invariant]
    spec fn in_range(self) -> bool {
        self.value < self.mode.limit()
    }

    /// The mode of this address, as a specification.
    pub closed spec fn mode_of(self) -> AddressMode {
        self.mode
    }

    /// The numeric value of this address, as a specification.
    pub closed spec fn value_of(self) -> u16 {
        self.value
    }

    /// An address of the given mode, if `value` fits its width.
    pub fn new(mode: AddressMode, value: u16) -> (address: Option<Address>)
        ensures
            address is Some <==> value < mode.limit(),
            address matches Some(a) ==> a.mode_of() == mode && a.value_of() == value,
    {
        if value < mode.bound() {
            Some(Address { mode, value })
        } else {
            None
        }
    }

    /// A seven-bit address, if `value` is below 128.
    pub fn seven_bit(value: SevenBitAddress) -> (address: Option<Address>)
        ensures
            address is Some <==> value < 128,
            address matches Some(a) ==> a.mode_of() == AddressMode::SevenBit && a.value_of()
                == value,
    {
        Address::new(AddressMode::SevenBit, value as u16)
    }

    /// A ten-bit address, if `value` is below 1024.
    pub fn ten_bit(value: TenBitAddress) -> (address: Option<Address>)
        ensures
            address is Some <==> value < 1024,
            address matches Some(a) ==> a.mode_of() == AddressMode::TenBit && a.value_of()
                == value,
    {
        Address::new(AddressMode::TenBit, value)
    }

    /// The mode of this address.
    pub fn mode(&self) -> (mode: AddressMode)
        ensures
            mode == self.mode_of(),
    {
        self.mode
    }

    /// The numeric value of this address, below the limit of its mode.
    pub fn value(&self) -> (value: u16)
        ensures
            value == self.value_of(),
            value < self.mode_of().limit(),
    {
        proof {
            use_type_invariant(self);
        }
        self.value
    }

    /// The bytes that announce this address and `direction` on the wire.
    pub fn wire_bytes(&self, direction: Direction) -> (bytes: Vec<u8>)
        ensures
            bytes@ == wire_format(self.mode_of(), self.value_of(), direction),
    {
        let bit: u8 = direction.bit();
        let mut bytes: Vec<u8> = Vec::new();
        match self.mode {
            AddressMode::SevenBit => {
                bytes.push(((self.value as u8) << 1) | bit);
            },
            AddressMode::TenBit => {
                bytes.push(TEN_BIT_PREFIX | ((((self.value >> 8) & 0x03) as u8) << 1) | bit);
                bytes.push((self.value & 0xFF) as u8);
            },
        }
        bytes
    }
}

/// The wire format in plain arithmetic: a seven-bit address byte is twice
/// the address plus the direction bit; the first byte of a ten-bit address
/// is 240 plus twice the two high address bits plus the direction bit, and
/// the second byte is the address modulo 256.
pub proof fn lemma_wire_format_arithmetic(mode: AddressMode, value: u16, direction: Direction)
    requires
        value < mode.limit(),
    ensures
        mode == AddressMode::SevenBit ==> wire_format(mode, value, direction) =~= seq![
            (2 * value + direction.wire_bit()) as u8,
        ],
        mode == AddressMode::TenBit ==> wire_format(mode, value, direction) =~= seq![
            (240 + 2 * (value / 256) + direction.wire_bit()) as u8,
            (value % 256) as u8,
        ],
{
    let bit = direction.wire_bit();
    assert(value < 128 && bit <= 1 ==> (((value as u8) << 1) | bit) == (2 * value + bit) as u8)
        by (bit_vector);
    assert(value < 1024 && bit <= 1 ==> (0xF0u8 | ((((value >> 8) & 0x03) as u8) << 1) | bit) == (
    240 + 2 * (value / 256) + bit) as u8) by (bit_vector);
    assert((value & 0xFF) as u8 == (value % 256) as u8) by (bit_vector);
}

} // verus!
