//! Block bookkeeping for DR14 (the Pleasurize Music Foundation "Dynamic Range" measure):
//! how a channel is cut into 3-second blocks, and which of the sorted blocks form the
//! reference. The block RMS and peak values themselves are floating-point work done around
//! this module.

use vstd::prelude::*;

verus! {

/// Block length in seconds.
pub const BLOCK_SECONDS: u32 = 3;

/// Samples per block at a sample rate: three seconds' worth.
pub fn block_samples(sample_rate: u32) -> (n: u64)
    ensures
        n == BLOCK_SECONDS * sample_rate,
{
    BLOCK_SECONDS as u64 * sample_rate as u64
}

/// Blocks a channel of `len` samples is cut into: whole blocks, plus a shorter last one for
/// any remainder.
pub fn block_count(len: usize, block: usize) -> (n: usize)
    requires
        block > 0,
    ensures
        n == (len + block - 1) / (block as int),
{
    let whole = len / block;
    if len % block == 0 {
        proof {
            vstd::arithmetic::div_mod::lemma_fundamental_div_mod(len as int, block as int);
            vstd::arithmetic::div_mod::lemma_fundamental_div_mod_converse(
                len + block - 1,
                block as int,
                whole as int,
                block - 1,
            );
        }
        whole
    } else {
        proof {
            vstd::arithmetic::div_mod::lemma_fundamental_div_mod(len as int, block as int);
            vstd::arithmetic::div_mod::lemma_mod_bound(len as int, block as int);
            assert(len + block - 1 == (whole + 1) * block + ((len % block) as int - 1)) by (nonlinear_arith)
                requires
                    len == block * whole + len % block,
            ;
            assert(whole < len) by (nonlinear_arith)
                requires
                    len == block * whole + len % block,
                    0 < len % block < block,
                    block > 0,
            ;
            vstd::arithmetic::div_mod::lemma_fundamental_div_mod_converse(
                len + block - 1,
                block as int,
                whole + 1,
                (len % block) as int - 1,
            );
        }
        whole + 1
    }
}

/// The reference blocks of a channel with `blocks` blocks, once peaks and RMS values are
/// each sorted ascending.
#[derive(Debug, Clone, Copy, PartialEq, Eq, Structural)]
pub struct ReferenceBlocks {
    /// Position of the peak used as reference: the second-highest, so that one transient or
    /// glitch cannot dominate, or the only one when there is a single block.
    pub peak_index: usize,
    /// How many of the loudest blocks form the RMS reference: the top fifth, at least one.
    pub loudest_count: usize,
}

/// Which sorted blocks the DR value of a channel is computed from.
pub fn reference_blocks(blocks: usize) -> (r: ReferenceBlocks)
    requires
        blocks > 0,
    ensures
        r.peak_index == (if blocks >= 2 {
            blocks - 2
        } else {
            0
        }),
        r.loudest_count == (if blocks / 5 >= 1 {
            blocks / 5
        } else {
            1
        }),
        r.peak_index < blocks,
        1 <= r.loudest_count <= blocks,
{
    let peak_index = if blocks >= 2 {
        blocks - 2
    } else {
        0
    };
    let fifth = blocks / 5;
    let loudest_count = if fifth >= 1 {
        fifth
    } else {
        1
    };
    ReferenceBlocks { peak_index, loudest_count }
}

} // verus!
