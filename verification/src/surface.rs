//! Height samples and per-node surface approximation.
//!
//! A tile payload of the height channel carries texel samples; the atlas
//! reduces them to a height interval per slot when the tile is loaded. Each
//! frame, every traversed node derives a conservative interval from its
//! coarsest loaded ancestor, and the external refinement pass uses it for
//! culling without requiring the node's own tile to be resident.

use vstd::prelude::*;

use crate::attachment::TexelFormat;

verus! {

/// Byte stride from one texel's first channel to the next texel's.
pub open spec fn sample_stride_spec(format: TexelFormat) -> int {
    match format {
        TexelFormat::R8 => 1,
        TexelFormat::R16 => 2,
        TexelFormat::Rg16 => 4,
        TexelFormat::Rgba8 => 4,
    }
}

/// Whether the first channel of a texel spans two bytes (little endian).
pub open spec fn sample_is_wide_spec(format: TexelFormat) -> bool {
    match format {
        TexelFormat::R8 => false,
        TexelFormat::R16 => true,
        TexelFormat::Rg16 => true,
        TexelFormat::Rgba8 => false,
    }
}

/// The height samples of a payload: the first channel of every texel,
/// widened to sixteen bits.
pub open spec fn samples_spec(format: TexelFormat, bytes: Seq<u8>) -> Seq<u16> {
    Seq::new(
        (bytes.len() / sample_stride_spec(format) as nat) as nat,
        |i: int|
            if sample_is_wide_spec(format) {
                (bytes[i * sample_stride_spec(format)] + 256 * bytes[
                    i * sample_stride_spec(format) + 1
                ]) as u16
            } else {
                bytes[i * sample_stride_spec(format)] as u16
            },
    )
}

/// Reduces a height payload to the interval of its samples: the smallest
/// and largest sample, both attained. An empty payload yields the full
/// conservative range.
pub fn height_bounds(format: TexelFormat, bytes: &Vec<u8>) -> (r: (u16, u16))
    ensures
        ({
            let samples = samples_spec(format, bytes@);
            if samples.len() == 0 {
                r == (0u16, 0xffffu16)
            } else {
                &&& forall|k: int| 0 <= k < samples.len() ==> r.0 <= #[trigger] samples[k] <= r.1
                &&& exists|k: int| 0 <= k < samples.len() && samples[k] == r.0
                &&& exists|k: int| 0 <= k < samples.len() && samples[k] == r.1
            }
        }),
{
    let stride: usize = match format {
        TexelFormat::R8 => 1,
        TexelFormat::R16 => 2,
        TexelFormat::Rg16 => 4,
        TexelFormat::Rgba8 => 4,
    };
    let wide: bool = match format {
        TexelFormat::R8 => false,
        TexelFormat::R16 => true,
        TexelFormat::Rg16 => true,
        TexelFormat::Rgba8 => false,
    };
    let n = bytes.len() / stride;
    proof {
        assert(n == samples_spec(format, bytes@).len());
        vstd::arithmetic::div_mod::lemma_fundamental_div_mod(
            bytes@.len() as int,
            stride as int,
        );
    }
    if n == 0 {
        return (0, 0xffff);
    }
    let ghost samples = samples_spec(format, bytes@);
    let mut lo: u16 = 0xffff;
    let mut hi: u16 = 0;
    let mut seen: bool = false;
    let mut i: usize = 0;
    #[verifier::loop_isolation(false)]
    while i < n
        invariant
            0 <= i <= n,
            seen <==> i > 0,
            seen ==> forall|k: int| 0 <= k < i ==> lo <= #[trigger] samples[k] <= hi,
            seen ==> exists|k: int| 0 <= k < i && samples[k] == lo,
            seen ==> exists|k: int| 0 <= k < i && samples[k] == hi,
        decreases n - i,
    {
        proof {
            assert(i * stride + stride <= n * stride) by (nonlinear_arith)
                requires
                    0 <= i < n,
                    stride >= 1,
            ;
            assert(n * stride <= bytes@.len());
        }
        let base = i * stride;
        let sample: u16 = if wide {
            bytes[base] as u16 + 256 * (bytes[base + 1] as u16)
        } else {
            bytes[base] as u16
        };
        proof {
            assert(samples[i as int] == sample);
        }
        if !seen {
            lo = sample;
            hi = sample;
            seen = true;
        } else {
            if sample < lo {
                lo = sample;
            }
            if sample > hi {
                hi = sample;
            }
        }
        proof {
            assert(samples[i as int] == sample);
            assert(lo <= sample <= hi);
        }
        i = i + 1;
    }
    (lo, hi)
}

} // verus!
