//! The header of a WAV stream of unbounded length, as sent ahead of live
//! 16-bit PCM.
use vstd::prelude::*;

verus! {

/// "RIFF"
pub const RIFF_MAGIC_CODE: u32 = 0x52494646;
/// The chunk size of a stream without end.
pub const RIFF_CHUNK_SIZE: u32 = 0xffff_ffff;
/// "WAVE"
pub const RIFF_FORMAT: u32 = 0x57415645;
/// "fmt "
pub const SUB_CHUNK1_ID: u32 = 0x666d7420;
/// "data"
pub const SUB_CHUNK2_ID: u32 = 0x64617461;
/// The data size of a stream without end.
pub const SUB_CHUNK2_SIZE: u32 = 0xffff_ffff - 44;

/// The bytes of `x`, least significant first.
pub open spec fn le_bytes(x: nat, n: nat) -> Seq<u8>
    decreases n,
{
    if n == 0 {
        Seq::empty()
    } else {
        seq![(x % 256) as u8] + le_bytes(x / 256, (n - 1) as nat)
    }
}

/// The bytes of `x`, most significant first.
pub open spec fn be_bytes(x: nat, n: nat) -> Seq<u8>
    decreases n,
{
    if n == 0 {
        Seq::empty()
    } else {
        be_bytes(x / 256, (n - 1) as nat) + seq![(x % 256) as u8]
    }
}

/// The 44 bytes of the header for 16-bit PCM at `sample_rate` with
/// `channels` channels.
pub open spec fn wav_header(sample_rate: u32, channels: u16) -> Seq<u8> {
    let frame_size = channels * 2;
    let byte_rate = sample_rate * frame_size;
    be_bytes(RIFF_MAGIC_CODE as nat, 4) + le_bytes(RIFF_CHUNK_SIZE as nat, 4) + be_bytes(
        RIFF_FORMAT as nat,
        4,
    ) + be_bytes(SUB_CHUNK1_ID as nat, 4) + le_bytes(16, 4) + le_bytes(1, 2) + le_bytes(
        channels as nat,
        2,
    ) + le_bytes(sample_rate as nat, 4) + le_bytes(byte_rate as nat, 4) + le_bytes(
        frame_size as nat,
        2,
    ) + le_bytes(16, 2) + be_bytes(SUB_CHUNK2_ID as nat, 4) + le_bytes(SUB_CHUNK2_SIZE as nat, 4)
}

fn push_le(out: &mut Vec<u8>, x: u32, n: usize)
    requires
        n <= 4,
    ensures
        final(out)@ == old(out)@ + le_bytes(x as nat, n as nat),
    decreases n,
{
    if n > 0 {
        out.push((x % 256) as u8);
        push_le(out, x / 256, n - 1);
        proof {
            assert(final(out)@ =~= old(out)@ + le_bytes(x as nat, n as nat));
        }
    }
}

fn push_be(out: &mut Vec<u8>, x: u32, n: usize)
    requires
        n <= 4,
    ensures
        final(out)@ == old(out)@ + be_bytes(x as nat, n as nat),
    decreases n,
{
    if n > 0 {
        push_be(out, x / 256, n - 1);
        out.push((x % 256) as u8);
        proof {
            assert(final(out)@ =~= old(out)@ + be_bytes(x as nat, n as nat));
        }
    }
}

/// The header that opens a live WAV stream: its sizes are the largest the
/// format holds, as a live cast has no fixed length.
pub fn gen_wav_header(sample_rate: u32, channels: u16) -> (r: Vec<u8>)
    requires
        channels * 2 <= u16::MAX,
        sample_rate * channels * 2 <= u32::MAX,
    ensures
        r@ == wav_header(sample_rate, channels),
        r@.len() == 44,
{
    let frame_size: u16 = channels * 2;
    proof {
        assert(sample_rate * (channels * 2) == sample_rate * channels * 2) by (nonlinear_arith);
    }
    let byte_rate: u32 = sample_rate * frame_size as u32;
    let mut bin: Vec<u8> = Vec::new();
    push_be(&mut bin, RIFF_MAGIC_CODE, 4);
    push_le(&mut bin, RIFF_CHUNK_SIZE, 4);
    push_be(&mut bin, RIFF_FORMAT, 4);
    push_be(&mut bin, SUB_CHUNK1_ID, 4);
    push_le(&mut bin, 16, 4);
    push_le(&mut bin, 1, 2);
    push_le(&mut bin, channels as u32, 2);
    push_le(&mut bin, sample_rate, 4);
    push_le(&mut bin, byte_rate, 4);
    push_le(&mut bin, frame_size as u32, 2);
    push_le(&mut bin, 16, 2);
    push_be(&mut bin, SUB_CHUNK2_ID, 4);
    push_le(&mut bin, SUB_CHUNK2_SIZE, 4);
    proof {
        reveal_with_fuel(le_bytes, 5);
        reveal_with_fuel(be_bytes, 5);
        assert(bin@ =~= wav_header(sample_rate, channels));
    }
    bin
}

} // verus!
