//! USB terms that the camera's interfaces share.

use vstd::prelude::*;

verus! {

/// The direction of a transfer, seen from the host.
#[derive(Debug, Clone, Copy, PartialEq, Eq, Structural)]
pub enum Direction {
    In,
    Out,
}

/// The kind of an endpoint.
#[derive(Debug, Clone, Copy, PartialEq, Eq, Structural)]
pub enum TransferType {
    Control,
    Isochronous,
    Bulk,
    Interrupt,
}

impl TransferType {
    /// The name of the kind.
    pub open spec fn spec_name(self) -> Seq<char> {
        match self {
            TransferType::Control => "Control"@,
            TransferType::Isochronous => "Isochronous"@,
            TransferType::Bulk => "Bulk"@,
            TransferType::Interrupt => "Interrupt"@,
        }
    }

    /// The name of the kind.
    pub fn name(self) -> (r: &'static str)
        ensures
            r@ == self.spec_name(),
    {
        match self {
            TransferType::Control => "Control",
            TransferType::Isochronous => "Isochronous",
            TransferType::Bulk => "Bulk",
            TransferType::Interrupt => "Interrupt",
        }
    }
}

/// The setup fields of a control transfer.
#[derive(Debug, Clone, Copy, PartialEq, Eq, Structural)]
pub struct ControlSetup {
    pub request_type: u8,
    pub request: u8,
    pub value: u16,
    pub index: u16,
}

/// The request type byte of a class request to an interface: bit 7 is the
/// direction, bits 5 and 6 hold the kind (1: class), the low bits the
/// recipient (1: interface).
pub open spec fn class_interface_byte(direction: Direction) -> u8 {
    match direction {
        Direction::In => 0xA1,
        Direction::Out => 0x21,
    }
}

/// `rusb::request_type` for a class request to an interface, which puts the
/// bits of direction, kind and recipient together.
#[verifier::external_body]
pub(crate) fn class_interface_request(direction: Direction) -> (r: u8)
    ensures
        r == class_interface_byte(direction),
{
    let direction = match direction {
        Direction::In => rusb::Direction::In,
        Direction::Out => rusb::Direction::Out,
    };
    rusb::request_type(direction, rusb::RequestType::Class, rusb::Recipient::Interface)
}

/// The kinds of endpoints are told apart by their names.
pub proof fn law_transfer_type_names()
    ensures
        TransferType::Control.spec_name() == "Control"@,
        TransferType::Isochronous.spec_name() == "Isochronous"@,
        TransferType::Bulk.spec_name() == "Bulk"@,
        TransferType::Interrupt.spec_name() == "Interrupt"@,
{
}

/// A class request to an interface: bit 7 is set towards the host; the kind is
/// 1, in bits 5 and 6, and the recipient 1.
pub proof fn law_request_type_bits()
    ensures
        class_interface_byte(Direction::Out) == 32 + 1,
        class_interface_byte(Direction::In) == 128 + 32 + 1,
{
}

} // verus!
