//! Data types of the SD memory-card protocol: operation modes, card
//! states and the small identifiers exchanged during initialization.
//! Only the pure protocol values live here; talking to a host
//! controller is hardware work outside this library.

use vstd::prelude::*;

verus! {

/// The two operation modes of the SD system, plus the inactive state:
/// a card identifies itself first and transfers data afterwards.
#[derive(Debug, Copy, Clone, PartialEq, Eq, Structural)]
pub enum OpMode {
    Inactive,
    CardIdentification,
    DataTransfer,
}

/// The physical-layer specification version a card reports.
#[derive(Debug, Copy, Clone, PartialEq, Eq, Structural)]
pub enum SDSpec {
    /// Version 1.01
    V1_01,
    /// Version 1.10
    V1_10,
    /// Version 2.00
    V2_00,
    /// Version 3.00
    V3_00,
    Unknown,
}

/// The state a card is in, as its status register reports it.
#[derive(Debug, Copy, Clone, PartialEq, Eq, Structural)]
pub enum CardState {
    Inactive,
    Idle,
    Ready,
    Identification,
    StandBy,
    Transfer,
    SendingData,
    ReceiveData,
    Programming,
    Disconnect,
}

/// The operation mode a card state belongs to: idle, ready and
/// identification make up card-identification mode; every working
/// state after address assignment belongs to data-transfer mode.
pub open spec fn spec_mode_of(s: CardState) -> OpMode {
    match s {
        CardState::Inactive => OpMode::Inactive,
        CardState::Idle => OpMode::CardIdentification,
        CardState::Ready => OpMode::CardIdentification,
        CardState::Identification => OpMode::CardIdentification,
        _ => OpMode::DataTransfer,
    }
}

impl CardState {
    /// The operation mode this state belongs to.
    pub fn mode(&self) -> (r: OpMode)
        ensures
            r == spec_mode_of(*self),
    {
        match self {
            CardState::Inactive => OpMode::Inactive,
            CardState::Idle => OpMode::CardIdentification,
            CardState::Ready => OpMode::CardIdentification,
            CardState::Identification => OpMode::CardIdentification,
            CardState::StandBy => OpMode::DataTransfer,
            CardState::Transfer => OpMode::DataTransfer,
            CardState::SendingData => OpMode::DataTransfer,
            CardState::ReceiveData => OpMode::DataTransfer,
            CardState::Programming => OpMode::DataTransfer,
            CardState::Disconnect => OpMode::DataTransfer,
        }
    }
}

/// A card status word: the raw 32-bit error and state information a
/// card returns in its command responses.
#[derive(Debug, Copy, Clone, PartialEq, Eq, Structural)]
pub struct CardStatus(pub u32);

impl CardStatus {
    /// The current-state field: bits 12 down to 9 of the status word.
    pub fn current_state_bits(&self) -> (r: u32)
        ensures
            r == (self.0 >> 9) & 0xF,
    {
        (self.0 >> 9) & 0xF
    }
}

/// A relative card address: the 16-bit local bus address a card
/// suggests and the host approves during initialization.
#[derive(Debug, Copy, Clone, PartialEq, Eq, Structural)]
pub struct RCA(pub u16);

impl RCA {
    /// The raw 16-bit address.
    pub fn address(&self) -> (r: u16)
        ensures
            r == self.0,
    {
        self.0
    }
}

/// The supply-voltage class a card accepts.
#[derive(Debug, Copy, Clone, PartialEq, Eq, Structural)]
pub enum SupplyVoltage {
    NotDefined,
    /// 2.7 to 3.6 volts.
    HighVoltage,
    /// Reserved for a low voltage range.
    LowVoltage,
    Reserved,
}

/// How the four-bit supply-voltage field decodes.
pub open spec fn spec_supply_voltage(v: u8) -> SupplyVoltage {
    if v == 0 {
        SupplyVoltage::NotDefined
    } else if v == 1 {
        SupplyVoltage::HighVoltage
    } else if v == 2 {
        SupplyVoltage::LowVoltage
    } else {
        SupplyVoltage::Reserved
    }
}

impl SupplyVoltage {
    /// Decodes the four-bit field of a condition command argument.
    pub fn from_bits(v: u8) -> (r: SupplyVoltage)
        ensures
            r == spec_supply_voltage(v),
    {
        match v {
            0b0000 => SupplyVoltage::NotDefined,
            0b0001 => SupplyVoltage::HighVoltage,
            0b0010 => SupplyVoltage::LowVoltage,
            _ => SupplyVoltage::Reserved,
        }
    }

    /// Encodes the class back into its four-bit field; the reserved
    /// class has no encoding of its own and reads as the highest
    /// reserved pattern.
    pub fn bits(&self) -> (r: u8)
        ensures
            *self is NotDefined ==> r == 0,
            *self is HighVoltage ==> r == 1,
            *self is LowVoltage ==> r == 2,
            *self is Reserved ==> r == 3,
    {
        match self {
            SupplyVoltage::NotDefined => 0,
            SupplyVoltage::HighVoltage => 1,
            SupplyVoltage::LowVoltage => 2,
            SupplyVoltage::Reserved => 3,
        }
    }
}

/// The width of the DAT bus.
#[derive(Debug, Copy, Clone, PartialEq, Eq, Structural)]
pub enum BusWidth {
    OneBit,
    FourBit,
    /// Eight-bit support for embedded devices.
    EightBit,
}

/// The check pattern echoed back by the interface-condition command to
/// verify the signal path.
#[derive(Debug, Copy, Clone, PartialEq, Eq, Structural)]
pub struct CheckPattern(pub u8);

impl CheckPattern {
    /// The customary alternating pattern.
    pub fn recommended() -> (r: CheckPattern)
        ensures
            r.0 == 0b10101010,
    {
        CheckPattern(0b10101010)
    }
}

} // verus!
