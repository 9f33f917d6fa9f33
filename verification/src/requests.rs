//! The packets that a client sends to the mixer.
use vstd::prelude::*;

use crate::types::{AddressPair, UcPacket};
use crate::wire::PacketModel;

verus! {

/// The subscription request that registers this client.
pub const SUBSCRIBE_MESSAGE: &'static str = "{\"id\": \"Subscribe\",\"clientName\": \"Universal Control\",\"clientInternalName\": \"ucapp\",\"clientType\": \"PC\",\"clientDescription\": \"DESKTOP\",\"clientIdentifier\": \"DESKTOP\",\"clientOptions\": \"perm users\",\"clientEncoding\": 23117}";

/// Parameter that mutes input channel 1.
pub const CH1_MUTE: &'static str = "line/ch1/mute";

/// Parameter that sets the volume of input channel 1.
pub const CH1_VOLUME: &'static str = "line/ch1/volume";

/// Bit pattern of the single-precision value `1.0`, which stands for `true`.
pub const VALUE_TRUE_BITS: u32 = 0x3f80_0000;

/// Bit pattern of the single-precision value `0.0`, which stands for `false`.
pub const VALUE_FALSE_BITS: u32 = 0;

/// The address pair that the client puts on its requests.
pub open spec fn client_pair() -> AddressPair {
    AddressPair { a: 0x6b, b: 0x66 }
}

fn client_address() -> (r: AddressPair)
    ensures
        r == client_pair(),
{
    AddressPair { a: 0x6b, b: 0x66 }
}

/// The `JM` packet that subscribes the client.
pub fn subscribe_packet() -> (p: UcPacket)
    ensures
        p@ == (PacketModel::JM { ap: client_pair(), json: SUBSCRIBE_MESSAGE@ }),
{
    UcPacket::JM(client_address(), SUBSCRIBE_MESSAGE.to_string())
}

/// The `PV` packet that mutes (`1.0`) or unmutes (`0.0`) input channel 1.
pub fn ch1_mute_packet(mute: bool) -> (p: UcPacket)
    ensures
        p@ == (PacketModel::PV {
            ap: client_pair(),
            name: CH1_MUTE@,
            value_bits: if mute {
                VALUE_TRUE_BITS
            } else {
                VALUE_FALSE_BITS
            },
        }),
{
    UcPacket::PV(
        client_address(),
        CH1_MUTE.to_string(),
        if mute {
            VALUE_TRUE_BITS
        } else {
            VALUE_FALSE_BITS
        },
    )
}

/// The `PV` packet that sets the volume of input channel 1 to the
/// single-precision value with bit pattern `volume_bits`.
pub fn ch1_volume_packet(volume_bits: u32) -> (p: UcPacket)
    ensures
        p@ == (PacketModel::PV { ap: client_pair(), name: CH1_VOLUME@, value_bits: volume_bits }),
{
    UcPacket::PV(client_address(), CH1_VOLUME.to_string(), volume_bits)
}

/// The `KA` packet that keeps the subscription alive.
pub fn keep_alive_packet() -> (p: UcPacket)
    ensures
        p@ == (PacketModel::KA { ap: client_pair() }),
{
    UcPacket::KA(client_address())
}

} // verus!
