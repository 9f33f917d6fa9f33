use vstd::prelude::*;

verus! {

/// A pair of 16-bit routing fields carried by most packets.
#[derive(Debug, Clone, Copy, PartialEq, Eq, Structural)]
pub struct AddressPair {
    pub a: u16,
    pub b: u16,
}

/// A packet of the Universal Control protocol.
///
/// The parameter value of a `PV` packet is an IEEE-754 single stored by its bit pattern.
#[derive(Debug, PartialEq, Eq)]
pub enum UcPacket {
    JM(AddressPair, String),
    UM { ap: AddressPair, udp_port: u16 },
    KA(AddressPair),
    PV(AddressPair, String, u32),
    FR(AddressPair, u16, String),
    ZM { ap: AddressPair, unknown: u32, compressed_payload: Vec<u8> },
    PS(AddressPair, Vec<u8>),
    PL(AddressPair, String, Vec<String>),
}


} // verus!
