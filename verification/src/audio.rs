//! Frame bookkeeping of audio spectrograms.
use vstd::prelude::*;

verus! {

/// Number of spectrogram frames for `samples` audio samples read every
/// `hop` samples: the frame count, rounded up to a multiple of the padding
/// block of `100 * chunk / 2` frames, plus one more padding block.
pub open spec fn spec_mel_frame_count(samples: nat, hop: nat, chunk: nat) -> nat {
    let frames = samples / hop;
    let pad = (100 * chunk / 2) as nat;
    let aligned = if pad == 0 {
        frames == 0
    } else {
        frames % pad == 0
    };
    let rounded = if aligned {
        frames
    } else {
        ((frames / pad + 1) * pad) as nat
    };
    rounded + pad
}

/// Computes [`spec_mel_frame_count`] (the padded frame count of a log-mel
/// spectrogram); `None` when it, or the padding block, does not fit in a
/// `usize`.
pub fn mel_frame_count(samples: usize, hop: usize, chunk: usize) -> (r: Option<usize>)
    requires
        hop > 0,
        chunk > 0 || samples / hop == 0,
    ensures
        r == (if 100 * chunk <= usize::MAX && spec_mel_frame_count(
            samples as nat,
            hop as nat,
            chunk as nat,
        ) <= usize::MAX {
            Some(spec_mel_frame_count(samples as nat, hop as nat, chunk as nat) as usize)
        } else {
            None::<usize>
        }),
        r matches Some(count) ==> (chunk > 0 ==> (count as int) % (100 * chunk / 2) == 0
            && samples / hop + 100 * chunk / 2 <= count && count < samples / hop + 2 * (100 * chunk
            / 2)),
{
    proof {
        lemma_mel_frame_count_pads_to_blocks(samples as nat, hop as nat, chunk as nat);
    }
    let frames = samples / hop;
    let block = match chunk.checked_mul(100) {
        Some(b) => b,
        None => return None,
    };
    let pad = block / 2;
    let aligned = if pad == 0 {
        frames == 0
    } else {
        frames % pad == 0
    };
    let rounded = if aligned {
        frames
    } else {
        let q = frames / pad;
        proof {
            assert(pad >= 2);
            vstd::arithmetic::div_mod::lemma_div_is_ordered_by_denominator(
                frames as int,
                2,
                pad as int,
            );
            assert(spec_mel_frame_count(samples as nat, hop as nat, chunk as nat) == (q + 1) * pad
                + pad);
            assert((q + 1) * pad >= q + 1) by (nonlinear_arith)
                requires
                    pad > 0,
                    q >= 0,
            ;
        }
        match (q + 1).checked_mul(pad) {
            Some(v) => v,
            None => return None,
        }
    };
    rounded.checked_add(pad)
}

/// The padded frame count is the least multiple of the padding block
/// `100 * chunk / 2` that holds every frame (`samples / hop` of them),
/// plus one more block: it is a multiple of the block, at least one block
/// above the frame count, and less than two blocks above it. Without a
/// padding block (`chunk == 0`) there must be no frame, and the count is 0.
pub proof fn lemma_mel_frame_count_pads_to_blocks(samples: nat, hop: nat, chunk: nat)
    requires
        hop > 0,
    ensures
        chunk > 0 ==> ({
            let frames = samples / hop;
            let block = 100 * chunk / 2;
            let count = spec_mel_frame_count(samples, hop, chunk);
            &&& block > 0
            &&& count % block == 0
            &&& frames + block <= count
            &&& count < frames + 2 * block
        }),
        chunk == 0 && samples / hop == 0 ==> spec_mel_frame_count(samples, hop, chunk) == 0,
{
    if chunk > 0 {
        let f = (samples / hop) as int;
        let pad = (100 * chunk / 2) as int;
        assert(pad == 50 * chunk);
        assert(pad > 0);
        vstd::arithmetic::div_mod::lemma_fundamental_div_mod(f, pad);
        vstd::arithmetic::div_mod::lemma_mod_bound(f, pad);
        let q = f / pad;
        let m = f % pad;
        assert(q >= 0) by {
            vstd::arithmetic::div_mod::lemma_div_pos_is_pos(f, pad);
        }
        if m == 0 {
            assert(f + pad == (q + 1) * pad) by (nonlinear_arith)
                requires
                    f == pad * q + m,
                    m == 0,
            ;
            vstd::arithmetic::div_mod::lemma_mod_multiples_basic(q + 1, pad);
        } else {
            assert((q + 1) * pad + pad == (q + 2) * pad) by (nonlinear_arith);
            assert(f < (q + 1) * pad && (q + 1) * pad < f + pad) by (nonlinear_arith)
                requires
                    f == pad * q + m,
                    0 < m < pad,
            ;
            vstd::arithmetic::div_mod::lemma_mod_multiples_basic(q + 2, pad);
        }
    }
}

} // verus!
