//! The integer side of the sound chip: where each channel's settings lie in
//! memory, and the noise channel's shift register.
use vstd::prelude::*;

verus! {

/// Samples per second.
pub const SAMPLE_RATE: usize = 22050;

/// Samples made per step (30 steps per second).
pub const BUFFER_SIZE: usize = 735;

/// Sound channels: sine, triangle, saw, square and noise.
pub const CHANNEL_COUNT: usize = 5;

/// Memory address of the first channel's settings: two words per channel,
/// the frequency and then the volume (low byte) and modifier (high byte).
pub const CHANNEL_ADDRESS_OFFSET: usize = 6543;

/// The frequency, volume and modifier of channel `ch`, or `None` where the
/// frequency or the volume is 0 and the channel is silent.
pub open spec fn channel_settings(ram: Seq<u16>, ch: int) -> Option<(u16, u8, u8)> {
    let freq = ram[CHANNEL_ADDRESS_OFFSET + ch * 2];
    let cfg = ram[CHANNEL_ADDRESS_OFFSET + ch * 2 + 1];
    let volume = (cfg & 0xff) as u8;
    let modifier = (cfg >> 8u16) as u8;
    if freq == 0 || volume == 0 {
        None
    } else {
        Some((freq, volume, modifier))
    }
}

pub fn channel_config(ram_slice: &Vec<u16>, ch: usize) -> (r: Option<(u16, u8, u8)>)
    requires
        ch < CHANNEL_COUNT,
        ram_slice@.len() >= CHANNEL_ADDRESS_OFFSET + 2 * CHANNEL_COUNT,
    ensures
        r == channel_settings(ram_slice@, ch as int),
{
    let freq = ram_slice[CHANNEL_ADDRESS_OFFSET + ch * 2];
    let cfg = ram_slice[CHANNEL_ADDRESS_OFFSET + ch * 2 + 1];
    proof {
        assert(cfg & 0xff <= 255) by (bit_vector);
        assert(cfg >> 8u16 <= 255) by (bit_vector);
    }
    let volume = (cfg & 0xff) as u8;
    let modifier = (cfg >> 8u16) as u8;
    if freq == 0 || volume == 0 {
        None
    } else {
        Some((freq, volume, modifier))
    }
}

/// The shift register after one noise sample: the feedback bit (bit 0 of the
/// register xor the register shifted by the tap, 1 without a modifier and 6
/// with one) enters at bit 14 as the register shifts right by one.
pub open spec fn lfsr_next(lfsr: u16, modifier: u8) -> u16 {
    let tap: u16 = if modifier == 0 { 1 } else { 6 };
    let feedback = (lfsr ^ (lfsr >> tap)) & 1;
    (lfsr >> 1u16) | (feedback << 14u16)
}

/// Steps the noise channel's shift register; returns whether the sample is
/// high (bit 0 of the new register is set).
pub fn noise_step(lfsr: &mut u16, modifier: u8) -> (high: bool)
    ensures
        *final(lfsr) == lfsr_next(*old(lfsr), modifier),
        high == (lfsr_next(*old(lfsr), modifier) & 1 == 1),
{
    let tap: u16 = if modifier == 0 {
        1
    } else {
        6
    };
    let feedback = (*lfsr ^ (*lfsr >> tap)) & 1;
    *lfsr = (*lfsr >> 1u16) | (feedback << 14u16);
    (*lfsr & 1) == 1
}

/// The noise register never has its top bit set after a step, whatever it
/// held before.
pub proof fn lemma_lfsr_top_bit_clear(lfsr: u16, modifier: u8)
    ensures
        lfsr_next(lfsr, modifier) < 0x8000,
{
    let tap: u16 = if modifier == 0 { 1 } else { 6 };
    let feedback = (lfsr ^ (lfsr >> tap)) & 1;
    assert((lfsr >> 1u16) | (feedback << 14u16) < 0x8000) by (bit_vector)
        requires
            feedback == (lfsr ^ (lfsr >> tap)) & 1,
    ;
}

} // verus!
