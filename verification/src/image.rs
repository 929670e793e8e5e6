//! Image operations on interleaved (HWC) or planar (CHW) pixel buffers.
use vstd::prelude::*;
use crate::errors::{outcome_matches, ErrorKind, NanHandler, NanHandling, PipeError};
use crate::traits::{False, Float, IsTrue, TransformOp, True};
use crate::ops::{spec_transpose_index, lemma_transpose_index_bound};

verus! {

/// Channel layout of an image buffer.
#[derive(Debug, Clone, Copy, PartialEq, Eq, Hash, Structural)]
pub enum ChannelLayout {
    /// Interleaved
    Hwc,
    /// Planar
    Chw,
}

impl Default for ChannelLayout {
    fn default() -> (r: Self)
        ensures
            r == ChannelLayout::Hwc,
    {
        ChannelLayout::Hwc
    }
}

/// `w * h * c` when it fits in a `usize`, else 0 (an unusable length).
pub open spec fn spec_volume(w: usize, h: usize, c: usize) -> usize {
    if w * h * c <= usize::MAX {
        (w * h * c) as usize
    } else {
        0
    }
}

/// Computes [`spec_volume`].
pub fn volume(w: usize, h: usize, c: usize) -> (r: usize)
    ensures
        r == spec_volume(w, h, c),
{
    match w.checked_mul(h) {
        Some(wh) => match wh.checked_mul(c) {
            Some(v) => v,
            None => 0,
        },
        None => {
            proof {
                if c > 0 {
                    assert(w * h * c > usize::MAX) by (nonlinear_arith)
                        requires
                            w * h > usize::MAX,
                            c >= 1,
                    ;
                } else {
                    assert(w * h * c == 0) by (nonlinear_arith)
                        requires
                            c == 0,
                    ;
                }
            }
            0
        },
    }
}

/// An index below `a * b` splits into a remainder below `a` and a quotient
/// below `b`.
pub proof fn lemma_split(i: int, a: int, b: int)
    requires
        a >= 0,
        b >= 0,
        0 <= i < a * b,
    ensures
        a > 0,
        b > 0,
        0 <= i % a < a,
        0 <= i / a < b,
        i == (i / a) * a + i % a,
{
    lemma_transpose_index_bound(a, b, i);
    assert(i == (i / a) * a + i % a) by (nonlinear_arith)
        requires
            a > 0,
    ;
}

/// A pixel coordinate and channel inside a `w x h x c` grid address an
/// element inside the grid.
pub proof fn lemma_grid(w: int, h: int, c: int, x: int, y: int, ch: int)
    requires
        0 <= x < w,
        0 <= y < h,
        0 <= ch < c,
    ensures
        0 <= (y * w + x) * c + ch < w * h * c,
        0 <= y * w + x < w * h,
{
    assert(0 <= y * w + x < w * h) by (nonlinear_arith)
        requires
            0 <= x < w,
            0 <= y < h,
    ;
    let p = y * w + x;
    assert(0 <= p * c + ch < w * h * c) by (nonlinear_arith)
        requires
            0 <= p < w * h,
            0 <= ch < c,
    ;
}

/// An index below `w * h * c` splits into a channel below `c` and a pixel
/// below `w * h`.
pub proof fn lemma_split_pixel(i: int, w: int, h: int, c: int)
    requires
        w >= 0,
        h >= 0,
        c >= 0,
        0 <= i < w * h * c,
    ensures
        w > 0,
        h > 0,
        c > 0,
        0 <= i % c < c,
        0 <= i / c < w * h,
{
    assert(w * h * c == c * (w * h)) by (nonlinear_arith);
    assert(w * h >= 0) by (nonlinear_arith)
        requires
            w >= 0,
            h >= 0,
    ;
    lemma_split(i, c, w * h);
    assert(w > 0 && h > 0) by (nonlinear_arith)
        requires
            w >= 0,
            h >= 0,
            w * h > 0,
    ;
}

/// Channel of element `index` in a `w x h x c` buffer of the given layout.
pub open spec fn spec_channel_of(layout: ChannelLayout, index: int, w: int, h: int, c: int) -> int {
    match layout {
        ChannelLayout::Hwc => index % c,
        ChannelLayout::Chw => index / (w * h),
    }
}

/// Channel of element `index` in a `w x h x c` buffer of the given layout.
pub fn channel_of(layout: ChannelLayout, index: usize, w: usize, h: usize, c: usize) -> (r: usize)
    requires
        index < w * h * c,
        w * h * c <= usize::MAX,
    ensures
        r == spec_channel_of(layout, index as int, w as int, h as int, c as int),
        r < c,
{
    proof {
        lemma_split_pixel(index as int, w as int, h as int, c as int);
        assert(w * h <= w * h * c) by (nonlinear_arith)
            requires
                c > 0,
                w * h >= 0,
        ;
        assert(w * h * c == (w * h) * c);
        lemma_split(index as int, (w * h) as int, c as int);
    }
    match layout {
        ChannelLayout::Hwc => index % c,
        ChannelLayout::Chw => index / (w * h),
    }
}

/// Element-wise gather: output element `i` is input element `idx(i)`.
pub open spec fn spec_gather<T>(input: Seq<T>, n: nat, idx: spec_fn(int) -> int) -> Seq<T> {
    Seq::new(n, |i: int| input[idx(i)])
}

// ---------------------------------------------------------------------------
// Layout conversions
// ---------------------------------------------------------------------------

/// Layout conversion: HWC (interleaved) -> CHW (planar)
/// Pure index remapping, fuses with adjacent transforms.
#[derive(Debug, Copy, Clone, PartialEq, Eq, PartialOrd, Ord, Hash, Default)]
pub struct HwcToChw<const W: usize, const H: usize, const C: usize, T> {
    pub marker: core::marker::PhantomData<T>,
}

impl<const W: usize, const H: usize, const C: usize, T> HwcToChw<W, H, C, T> {
    pub fn new() -> (r: Self) {
        Self { marker: core::marker::PhantomData }
    }
}

/// Input index of output element `i` of an HWC -> CHW conversion: the
/// output is the `(w * h) x c` input matrix transposed.
pub open spec fn spec_hwc_to_chw_index(w: int, h: int, c: int, i: int) -> int {
    spec_transpose_index(w * h, c, i)
}

/// Input index of output element `i` of a CHW -> HWC conversion: the
/// output is the `c x (w * h)` input matrix transposed.
pub open spec fn spec_chw_to_hwc_index(w: int, h: int, c: int, i: int) -> int {
    spec_transpose_index(c, w * h, i)
}

fn hwc_to_chw_index(w: usize, h: usize, c: usize, i: usize) -> (r: usize)
    requires
        i < spec_volume(w, h, c),
    ensures
        r == spec_hwc_to_chw_index(w as int, h as int, c as int, i as int),
        r < spec_volume(w, h, c),
{
    proof {
        lemma_split_pixel(i as int, w as int, h as int, c as int);
        assert(w * h >= 0) by (nonlinear_arith)
            requires
                w >= 0,
                h >= 0,
        ;
        lemma_transpose_index_bound((w * h) as int, c as int, i as int);
        assert(w * h <= w * h * c) by (nonlinear_arith)
            requires
                c > 0,
                w * h >= 0,
        ;
    }
    let wh = w * h;
    (i % wh) * c + i / wh
}

fn chw_to_hwc_index(w: usize, h: usize, c: usize, i: usize) -> (r: usize)
    requires
        i < spec_volume(w, h, c),
    ensures
        r == spec_chw_to_hwc_index(w as int, h as int, c as int, i as int),
        r < spec_volume(w, h, c),
{
    proof {
        lemma_split_pixel(i as int, w as int, h as int, c as int);
        assert(w * h >= 0) by (nonlinear_arith)
            requires
                w >= 0,
                h >= 0,
        ;
        assert(w * h * c == c * (w * h)) by (nonlinear_arith);
        lemma_transpose_index_bound(c as int, (w * h) as int, i as int);
        assert(w * h <= w * h * c) by (nonlinear_arith)
            requires
                c > 0,
                w * h >= 0,
        ;
    }
    let wh = w * h;
    (i % c) * wh + i / c
}

impl<const W: usize, const H: usize, const C: usize, T: Float> TransformOp<T> for HwcToChw<
    W,
    H,
    C,
    T,
> {
    type IndexRemapping = True;

    const IN_LEN: usize = W * H * C;

    const OUT_LEN: usize = W * H * C;

    const INTERNAL_IS_VALID: bool = true;

    open spec fn spec_in_len(&self, default_len: usize) -> usize {
        spec_volume(W, H, C)
    }

    open spec fn spec_out_len(&self, default_len: usize) -> usize {
        spec_volume(W, H, C)
    }

    open spec fn spec_map_index(&self, out_index: int, default_len: usize) -> int {
        spec_hwc_to_chw_index(W as int, H as int, C as int, out_index)
    }

    open spec fn spec_compute(&self, data: Seq<T>, index: int, handling: NanHandling) -> Result<
        T,
        ErrorKind,
    > {
        let j = spec_hwc_to_chw_index(W as int, H as int, C as int, index);
        if 0 <= j < data.len() {
            Ok(data[j])
        } else {
            Err(ErrorKind::InvalidInputSize)
        }
    }

    open spec fn spec_apply(&self, input: Seq<T>, n: nat, handling: NanHandling) -> Result<
        Seq<T>,
        ErrorKind,
    > {
        if n > spec_volume(W, H, C) || input.len() < spec_volume(W, H, C) {
            Err(ErrorKind::InvalidInputSize)
        } else {
            Ok(spec_gather(input, n, |i: int| spec_hwc_to_chw_index(W as int, H as int, C as int, i)))
        }
    }

    fn map_index(&self, out_index: usize, default_len: usize) -> (r: usize) {
        hwc_to_chw_index(W, H, C, out_index)
    }

    fn compute<N: NanHandler>(&self, data: &[T], index: usize) -> (r: Result<T, PipeError>) {
        let j = hwc_to_chw_index(W, H, C, index);
        if j < data.len() {
            Ok(data[j])
        } else {
            Err(PipeError::new(ErrorKind::InvalidInputSize))
        }
    }

    fn execute<N: NanHandler>(&self, out: &mut [T], input: &[T], n: usize) -> (r: Result<
        (),
        PipeError,
    >) {
        let len = volume(W, H, C);
        if n > len || input.len() < len {
            return Err(PipeError::new(ErrorKind::InvalidInputSize));
        }
        let ghost idx = |i: int| spec_hwc_to_chw_index(W as int, H as int, C as int, i);
        let mut i: usize = 0;
        while i < n
            invariant
                out@.len() == n,
                i <= n,
                n <= len,
                len == spec_volume(W, H, C),
                len <= input@.len(),
                idx == (|i: int| spec_hwc_to_chw_index(W as int, H as int, C as int, i)),
                forall|j: int| 0 <= j < i ==> out@[j] == input@[idx(j)],
            decreases n - i,
        {
            let j = hwc_to_chw_index(W, H, C, i);
            out[i] = input[j];
            i += 1;
        }
        assert(out@ =~= spec_gather(input@, n as nat, idx));
        Ok(())
    }

    fn in_len(&self, default_len: usize) -> (r: usize) {
        volume(W, H, C)
    }

    fn out_len(&self, default_len: usize) -> (r: usize) {
        volume(W, H, C)
    }

    fn op_name(&self) -> (r: String)
        ensures
            r@ == "HwcToChw"@,
    {
        "HwcToChw".to_owned()
    }
}

/// Layout conversion: CHW (planar) -> HWC (interleaved)
/// Pure index remapping, fuses with adjacent transforms.
#[derive(Debug, Clone, Copy, PartialEq, Eq, PartialOrd, Ord, Hash, Default)]
pub struct ChwToHwc<const W: usize, const H: usize, const C: usize, T> {
    pub marker: core::marker::PhantomData<T>,
}

impl<const W: usize, const H: usize, const C: usize, T> ChwToHwc<W, H, C, T> {
    pub fn new() -> (r: Self) {
        Self { marker: core::marker::PhantomData }
    }
}

impl<const W: usize, const H: usize, const C: usize, T: Float> TransformOp<T> for ChwToHwc<
    W,
    H,
    C,
    T,
> {
    type IndexRemapping = True;

    const IN_LEN: usize = W * H * C;

    const OUT_LEN: usize = W * H * C;

    const INTERNAL_IS_VALID: bool = true;

    open spec fn spec_in_len(&self, default_len: usize) -> usize {
        spec_volume(W, H, C)
    }

    open spec fn spec_out_len(&self, default_len: usize) -> usize {
        spec_volume(W, H, C)
    }

    open spec fn spec_map_index(&self, out_index: int, default_len: usize) -> int {
        spec_chw_to_hwc_index(W as int, H as int, C as int, out_index)
    }

    open spec fn spec_compute(&self, data: Seq<T>, index: int, handling: NanHandling) -> Result<
        T,
        ErrorKind,
    > {
        let j = spec_chw_to_hwc_index(W as int, H as int, C as int, index);
        if 0 <= j < data.len() {
            Ok(data[j])
        } else {
            Err(ErrorKind::InvalidInputSize)
        }
    }

    open spec fn spec_apply(&self, input: Seq<T>, n: nat, handling: NanHandling) -> Result<
        Seq<T>,
        ErrorKind,
    > {
        if n > spec_volume(W, H, C) || input.len() < spec_volume(W, H, C) {
            Err(ErrorKind::InvalidInputSize)
        } else {
            Ok(spec_gather(input, n, |i: int| spec_chw_to_hwc_index(W as int, H as int, C as int, i)))
        }
    }

    fn map_index(&self, out_index: usize, default_len: usize) -> (r: usize) {
        chw_to_hwc_index(W, H, C, out_index)
    }

    fn compute<N: NanHandler>(&self, data: &[T], index: usize) -> (r: Result<T, PipeError>) {
        let j = chw_to_hwc_index(W, H, C, index);
        if j < data.len() {
            Ok(data[j])
        } else {
            Err(PipeError::new(ErrorKind::InvalidInputSize))
        }
    }

    fn execute<N: NanHandler>(&self, out: &mut [T], input: &[T], n: usize) -> (r: Result<
        (),
        PipeError,
    >) {
        let len = volume(W, H, C);
        if n > len || input.len() < len {
            return Err(PipeError::new(ErrorKind::InvalidInputSize));
        }
        let ghost idx = |i: int| spec_chw_to_hwc_index(W as int, H as int, C as int, i);
        let mut i: usize = 0;
        while i < n
            invariant
                out@.len() == n,
                i <= n,
                n <= len,
                len == spec_volume(W, H, C),
                len <= input@.len(),
                idx == (|i: int| spec_chw_to_hwc_index(W as int, H as int, C as int, i)),
                forall|j: int| 0 <= j < i ==> out@[j] == input@[idx(j)],
            decreases n - i,
        {
            let j = chw_to_hwc_index(W, H, C, i);
            out[i] = input[j];
            i += 1;
        }
        assert(out@ =~= spec_gather(input@, n as nat, idx));
        Ok(())
    }

    fn in_len(&self, default_len: usize) -> (r: usize) {
        volume(W, H, C)
    }

    fn out_len(&self, default_len: usize) -> (r: usize) {
        volume(W, H, C)
    }

    fn op_name(&self) -> (r: String)
        ensures
            r@ == "ChwToHwc"@,
    {
        "ChwToHwc".to_owned()
    }
}

/// Rotate90 operation - rotates image 90 degrees clockwise
/// Pure index remapping, fuses with adjacent transforms.
#[derive(Debug, Clone, Copy, PartialEq, Eq, PartialOrd, Ord, Hash, Default)]
pub struct Rotate90<const W: usize, const H: usize, const C: usize, T> {
    pub marker: core::marker::PhantomData<T>,
}

impl<const W: usize, const H: usize, const C: usize, T> Rotate90<W, H, C, T> {
    pub fn new() -> (r: Self) {
        Self { marker: core::marker::PhantomData }
    }
}

/// Input index of output element `i` of a clockwise rotation of a `w x h x c`
/// image (the rotated image is `h` pixels wide and `w` pixels tall):
/// output `(x, y)` reads input `(y, h - 1 - x)`.
pub open spec fn spec_rotate90_index(w: int, h: int, c: int, i: int) -> int {
    let ch = i % c;
    let p = i / c;
    let ox = p % h;
    let oy = p / h;
    ((h - 1 - ox) * w + oy) * c + ch
}

fn rotate90_index(w: usize, h: usize, c: usize, i: usize) -> (r: usize)
    requires
        i < spec_volume(w, h, c),
    ensures
        r == spec_rotate90_index(w as int, h as int, c as int, i as int),
        r < spec_volume(w, h, c),
{
    proof {
        lemma_split_pixel(i as int, w as int, h as int, c as int);
        assert(w * h * c == (w * h) * c);
    }
    let ch = i % c;
    let p = i / c;
    let ox = p % h;
    let oy = p / h;
    proof {
        lemma_split_pixel(i as int, w as int, h as int, c as int);
        assert(w * h == h * w) by (nonlinear_arith);
        lemma_split(p as int, h as int, w as int);
        lemma_grid(w as int, h as int, c as int, oy as int, (h - 1 - ox) as int, ch as int);
        assert(w * h * c <= usize::MAX);
        assert(w * h <= w * h * c) by (nonlinear_arith)
            requires
                c > 0,
                w * h >= 0,
        ;
        assert(((h - 1 - ox) * w + oy) * c <= w * h * c) by (nonlinear_arith)
            requires
                0 <= (h - 1 - ox) * w + oy < w * h,
                c > 0,
        ;
    }
    ((h - 1 - ox) * w + oy) * c + ch
}

impl<const W: usize, const H: usize, const C: usize, T: Float> TransformOp<T> for Rotate90<W, H, C, T> {
    type IndexRemapping = True;

    const IN_LEN: usize = W * H * C;

    const OUT_LEN: usize = W * H * C;

    const INTERNAL_IS_VALID: bool = true;

    open spec fn spec_in_len(&self, default_len: usize) -> usize {
        spec_volume(W, H, C)
    }

    open spec fn spec_out_len(&self, default_len: usize) -> usize {
        spec_volume(W, H, C)
    }

    open spec fn spec_map_index(&self, out_index: int, default_len: usize) -> int {
        spec_rotate90_index(W as int, H as int, C as int, out_index)
    }

    open spec fn spec_compute(&self, data: Seq<T>, index: int, handling: NanHandling) -> Result<
        T,
        ErrorKind,
    > {
        let j = spec_rotate90_index(W as int, H as int, C as int, index);
        if 0 <= j < data.len() {
            Ok(data[j])
        } else {
            Err(ErrorKind::InvalidInputSize)
        }
    }

    open spec fn spec_apply(&self, input: Seq<T>, n: nat, handling: NanHandling) -> Result<
        Seq<T>,
        ErrorKind,
    > {
        if n > spec_volume(W, H, C) || input.len() < spec_volume(W, H, C) {
            Err(ErrorKind::InvalidInputSize)
        } else {
            Ok(spec_gather(input, n, |i: int| spec_rotate90_index(W as int, H as int, C as int, i)))
        }
    }

    fn map_index(&self, out_index: usize, default_len: usize) -> (r: usize) {
        rotate90_index(W, H, C, out_index)
    }

    fn compute<N: NanHandler>(&self, data: &[T], index: usize) -> (r: Result<T, PipeError>) {
        let j = rotate90_index(W, H, C, index);
        if j < data.len() {
            Ok(data[j])
        } else {
            Err(PipeError::new(ErrorKind::InvalidInputSize))
        }
    }

    fn execute<N: NanHandler>(&self, out: &mut [T], input: &[T], n: usize) -> (r: Result<
        (),
        PipeError,
    >) {
        let len = volume(W, H, C);
        // Once-per-call guard so the loop below stays in bounds
        if n > len || input.len() < len || out.len() < n {
            return Err(PipeError::new(ErrorKind::InvalidInputSize));
        }
        let ghost idx = |i: int| spec_rotate90_index(W as int, H as int, C as int, i);
        let mut i: usize = 0;
        while i < n
            invariant
                out@.len() == n,
                i <= n,
                n <= len,
                len == spec_volume(W, H, C),
                len <= input@.len(),
                idx == (|i: int| spec_rotate90_index(W as int, H as int, C as int, i)),
                forall|j: int| 0 <= j < i ==> out@[j] == input@[idx(j)],
            decreases n - i,
        {
            let j = rotate90_index(W, H, C, i);
            out[i] = input[j];
            i += 1;
        }
        assert(out@ =~= spec_gather(input@, n as nat, idx));
        Ok(())
    }

    fn in_len(&self, default_len: usize) -> (r: usize) {
        volume(W, H, C)
    }

    fn out_len(&self, default_len: usize) -> (r: usize) {
        volume(W, H, C)
    }

    fn op_name(&self) -> (r: String)
        ensures
            r@ == "Rotate90"@,
    {
        "Rotate90".to_owned()
    }
}

/// Flip horizontal operation (mirrors every row)
/// Pure index remapping, fuses with adjacent transforms.
#[derive(Debug, Clone, Copy, PartialEq, Eq, PartialOrd, Ord, Hash, Default)]
pub struct FlipHorizontal<const W: usize, const H: usize, const C: usize, T> {
    pub marker: core::marker::PhantomData<T>,
}

impl<const W: usize, const H: usize, const C: usize, T> FlipHorizontal<W, H, C, T> {
    pub fn new() -> (r: Self) {
        Self { marker: core::marker::PhantomData }
    }
}

/// Input index of output element `i` of a horizontal flip of a `w x h x c`
/// image: output `(x, y)` reads input `(w - 1 - x, y)`.
pub open spec fn spec_flip_horizontal_index(w: int, h: int, c: int, i: int) -> int {
    let ch = i % c;
    let p = i / c;
    let ox = p % w;
    let oy = p / w;
    (oy * w + (w - 1 - ox)) * c + ch
}

fn flip_horizontal_index(w: usize, h: usize, c: usize, i: usize) -> (r: usize)
    requires
        i < spec_volume(w, h, c),
    ensures
        r == spec_flip_horizontal_index(w as int, h as int, c as int, i as int),
        r < spec_volume(w, h, c),
{
    proof {
        lemma_split_pixel(i as int, w as int, h as int, c as int);
        assert(w * h * c == (w * h) * c);
    }
    let ch = i % c;
    let p = i / c;
    let ox = p % w;
    let oy = p / w;
    proof {
        lemma_split_pixel(i as int, w as int, h as int, c as int);
        lemma_split(p as int, w as int, h as int);
        lemma_grid(w as int, h as int, c as int, (w - 1 - ox) as int, oy as int, ch as int);
        assert(w * h * c <= usize::MAX);
        assert(w * h <= w * h * c) by (nonlinear_arith)
            requires
                c > 0,
                w * h >= 0,
        ;
        assert((oy * w + (w - 1 - ox)) * c <= w * h * c) by (nonlinear_arith)
            requires
                0 <= oy * w + (w - 1 - ox) < w * h,
                c > 0,
        ;
    }
    (oy * w + (w - 1 - ox)) * c + ch
}

impl<const W: usize, const H: usize, const C: usize, T: Float> TransformOp<T> for FlipHorizontal<W, H, C, T> {
    type IndexRemapping = True;

    const IN_LEN: usize = W * H * C;

    const OUT_LEN: usize = W * H * C;

    const INTERNAL_IS_VALID: bool = true;

    open spec fn spec_in_len(&self, default_len: usize) -> usize {
        spec_volume(W, H, C)
    }

    open spec fn spec_out_len(&self, default_len: usize) -> usize {
        spec_volume(W, H, C)
    }

    open spec fn spec_map_index(&self, out_index: int, default_len: usize) -> int {
        spec_flip_horizontal_index(W as int, H as int, C as int, out_index)
    }

    open spec fn spec_compute(&self, data: Seq<T>, index: int, handling: NanHandling) -> Result<
        T,
        ErrorKind,
    > {
        let j = spec_flip_horizontal_index(W as int, H as int, C as int, index);
        if 0 <= j < data.len() {
            Ok(data[j])
        } else {
            Err(ErrorKind::InvalidInputSize)
        }
    }

    open spec fn spec_apply(&self, input: Seq<T>, n: nat, handling: NanHandling) -> Result<
        Seq<T>,
        ErrorKind,
    > {
        if n > spec_volume(W, H, C) || input.len() < spec_volume(W, H, C) {
            Err(ErrorKind::InvalidInputSize)
        } else {
            Ok(spec_gather(input, n, |i: int| spec_flip_horizontal_index(W as int, H as int, C as int, i)))
        }
    }

    fn map_index(&self, out_index: usize, default_len: usize) -> (r: usize) {
        flip_horizontal_index(W, H, C, out_index)
    }

    fn compute<N: NanHandler>(&self, data: &[T], index: usize) -> (r: Result<T, PipeError>) {
        let j = flip_horizontal_index(W, H, C, index);
        if j < data.len() {
            Ok(data[j])
        } else {
            Err(PipeError::new(ErrorKind::InvalidInputSize))
        }
    }

    fn execute<N: NanHandler>(&self, out: &mut [T], input: &[T], n: usize) -> (r: Result<
        (),
        PipeError,
    >) {
        let len = volume(W, H, C);
        // Once-per-call guard so the loop below stays in bounds
        if n > len || input.len() < len || out.len() < n {
            return Err(PipeError::new(ErrorKind::InvalidInputSize));
        }
        let ghost idx = |i: int| spec_flip_horizontal_index(W as int, H as int, C as int, i);
        let mut i: usize = 0;
        while i < n
            invariant
                out@.len() == n,
                i <= n,
                n <= len,
                len == spec_volume(W, H, C),
                len <= input@.len(),
                idx == (|i: int| spec_flip_horizontal_index(W as int, H as int, C as int, i)),
                forall|j: int| 0 <= j < i ==> out@[j] == input@[idx(j)],
            decreases n - i,
        {
            let j = flip_horizontal_index(W, H, C, i);
            out[i] = input[j];
            i += 1;
        }
        assert(out@ =~= spec_gather(input@, n as nat, idx));
        Ok(())
    }

    fn in_len(&self, default_len: usize) -> (r: usize) {
        volume(W, H, C)
    }

    fn out_len(&self, default_len: usize) -> (r: usize) {
        volume(W, H, C)
    }

    fn op_name(&self) -> (r: String)
        ensures
            r@ == "FlipHorizontal"@,
    {
        "FlipHorizontal".to_owned()
    }
}

/// Flip vertical operation (mirrors every column)
/// Pure index remapping, fuses with adjacent transforms.
#[derive(Debug, Clone, Copy, PartialEq, Eq, PartialOrd, Ord, Hash, Default)]
pub struct FlipVertical<const W: usize, const H: usize, const C: usize, T> {
    pub marker: core::marker::PhantomData<T>,
}

impl<const W: usize, const H: usize, const C: usize, T> FlipVertical<W, H, C, T> {
    pub fn new() -> (r: Self) {
        Self { marker: core::marker::PhantomData }
    }
}

/// Input index of output element `i` of a vertical flip of a `w x h x c`
/// image: output `(x, y)` reads input `(x, h - 1 - y)`.
pub open spec fn spec_flip_vertical_index(w: int, h: int, c: int, i: int) -> int {
    let ch = i % c;
    let p = i / c;
    let ox = p % w;
    let oy = p / w;
    ((h - 1 - oy) * w + ox) * c + ch
}

fn flip_vertical_index(w: usize, h: usize, c: usize, i: usize) -> (r: usize)
    requires
        i < spec_volume(w, h, c),
    ensures
        r == spec_flip_vertical_index(w as int, h as int, c as int, i as int),
        r < spec_volume(w, h, c),
{
    proof {
        lemma_split_pixel(i as int, w as int, h as int, c as int);
        assert(w * h * c == (w * h) * c);
    }
    let ch = i % c;
    let p = i / c;
    let ox = p % w;
    let oy = p / w;
    proof {
        lemma_split_pixel(i as int, w as int, h as int, c as int);
        lemma_split(p as int, w as int, h as int);
        lemma_grid(w as int, h as int, c as int, ox as int, (h - 1 - oy) as int, ch as int);
        assert(w * h * c <= usize::MAX);
        assert(w * h <= w * h * c) by (nonlinear_arith)
            requires
                c > 0,
                w * h >= 0,
        ;
        assert(((h - 1 - oy) * w + ox) * c <= w * h * c) by (nonlinear_arith)
            requires
                0 <= (h - 1 - oy) * w + ox < w * h,
                c > 0,
        ;
    }
    ((h - 1 - oy) * w + ox) * c + ch
}

impl<const W: usize, const H: usize, const C: usize, T: Float> TransformOp<T> for FlipVertical<W, H, C, T> {
    type IndexRemapping = True;

    const IN_LEN: usize = W * H * C;

    const OUT_LEN: usize = W * H * C;

    const INTERNAL_IS_VALID: bool = true;

    open spec fn spec_in_len(&self, default_len: usize) -> usize {
        spec_volume(W, H, C)
    }

    open spec fn spec_out_len(&self, default_len: usize) -> usize {
        spec_volume(W, H, C)
    }

    open spec fn spec_map_index(&self, out_index: int, default_len: usize) -> int {
        spec_flip_vertical_index(W as int, H as int, C as int, out_index)
    }

    open spec fn spec_compute(&self, data: Seq<T>, index: int, handling: NanHandling) -> Result<
        T,
        ErrorKind,
    > {
        let j = spec_flip_vertical_index(W as int, H as int, C as int, index);
        if 0 <= j < data.len() {
            Ok(data[j])
        } else {
            Err(ErrorKind::InvalidInputSize)
        }
    }

    open spec fn spec_apply(&self, input: Seq<T>, n: nat, handling: NanHandling) -> Result<
        Seq<T>,
        ErrorKind,
    > {
        if n > spec_volume(W, H, C) || input.len() < spec_volume(W, H, C) {
            Err(ErrorKind::InvalidInputSize)
        } else {
            Ok(spec_gather(input, n, |i: int| spec_flip_vertical_index(W as int, H as int, C as int, i)))
        }
    }

    fn map_index(&self, out_index: usize, default_len: usize) -> (r: usize) {
        flip_vertical_index(W, H, C, out_index)
    }

    fn compute<N: NanHandler>(&self, data: &[T], index: usize) -> (r: Result<T, PipeError>) {
        let j = flip_vertical_index(W, H, C, index);
        if j < data.len() {
            Ok(data[j])
        } else {
            Err(PipeError::new(ErrorKind::InvalidInputSize))
        }
    }

    fn execute<N: NanHandler>(&self, out: &mut [T], input: &[T], n: usize) -> (r: Result<
        (),
        PipeError,
    >) {
        let len = volume(W, H, C);
        // Once-per-call guard so the loop below stays in bounds
        if n > len || input.len() < len || out.len() < n {
            return Err(PipeError::new(ErrorKind::InvalidInputSize));
        }
        let ghost idx = |i: int| spec_flip_vertical_index(W as int, H as int, C as int, i);
        let mut i: usize = 0;
        while i < n
            invariant
                out@.len() == n,
                i <= n,
                n <= len,
                len == spec_volume(W, H, C),
                len <= input@.len(),
                idx == (|i: int| spec_flip_vertical_index(W as int, H as int, C as int, i)),
                forall|j: int| 0 <= j < i ==> out@[j] == input@[idx(j)],
            decreases n - i,
        {
            let j = flip_vertical_index(W, H, C, i);
            out[i] = input[j];
            i += 1;
        }
        assert(out@ =~= spec_gather(input@, n as nat, idx));
        Ok(())
    }

    fn in_len(&self, default_len: usize) -> (r: usize) {
        volume(W, H, C)
    }

    fn out_len(&self, default_len: usize) -> (r: usize) {
        volume(W, H, C)
    }

    fn op_name(&self) -> (r: String)
        ensures
            r@ == "FlipVertical"@,
    {
        "FlipVertical".to_owned()
    }
}

// ---------------------------------------------------------------------------
// Resampling
// ---------------------------------------------------------------------------

/// Nearest-neighbour source coordinate of destination coordinate `x` when
/// `src` samples are stretched over `dst`.
pub proof fn lemma_scaled_coord(x: int, src: int, dst: int)
    requires
        0 <= x < dst,
        0 < src,
    ensures
        0 <= (x * src) / dst < src,
{
    vstd::arithmetic::mul::lemma_mul_strict_inequality(x, dst, src);
    assert(0 <= x * src) by (nonlinear_arith)
        requires
            0 <= x,
            0 < src,
    ;
    vstd::arithmetic::div_mod::lemma_div_pos_is_pos(x * src, dst);
    vstd::arithmetic::div_mod::lemma_multiply_divide_lt(x * src, dst, src);
}

/// `(x * src) / dst`, computed without intermediate overflow.
fn scaled_coord(x: usize, src: usize, dst: usize) -> (r: usize)
    requires
        x < dst,
        0 < src,
    ensures
        r as int == (x * src) / (dst as int),
        r < src,
{
    proof {
        lemma_scaled_coord(x as int, src as int, dst as int);
        assert(x * src <= 0xffff_ffff_ffff_ffff * 0xffff_ffff_ffff_ffff) by (nonlinear_arith)
            requires
                x <= 0xffff_ffff_ffff_ffff,
                src <= 0xffff_ffff_ffff_ffff,
        ;
    }
    let p: u128 = (x as u128) * (src as u128);
    let q: u128 = p / (dst as u128);
    q as usize
}

/// Input index of output element `i` of a nearest-neighbour rescale from
/// `in_w x in_h x in_c` to `out_w x out_h x out_c`: output pixel
/// `(x, y)` reads input pixel `(x * in_w / out_w, y * in_h / out_h)`, and
/// output channel `k` reads input channel `k`.
pub open spec fn spec_nearest_index(
    in_w: int,
    in_h: int,
    in_c: int,
    out_w: int,
    out_h: int,
    out_c: int,
    i: int,
) -> int {
    let ch = i % out_c;
    let p = i / out_c;
    let ox = p % out_w;
    let oy = p / out_w;
    let ix = (ox * in_w) / out_w;
    let iy = (oy * in_h) / out_h;
    (iy * in_w + ix) * in_c + ch
}

/// Nearest-neighbour sampling never leaves the source image: with no more
/// output channels than input channels, every output element of a
/// rescale reads an element inside the input buffer.
pub proof fn lemma_nearest_index_in_bounds(
    in_w: int,
    in_h: int,
    in_c: int,
    out_w: int,
    out_h: int,
    out_c: int,
    i: int,
)
    requires
        in_w > 0,
        in_h > 0,
        out_w >= 0,
        out_h >= 0,
        0 < out_c <= in_c,
        0 <= i < out_w * out_h * out_c,
    ensures
        0 <= spec_nearest_index(in_w, in_h, in_c, out_w, out_h, out_c, i) < in_w * in_h * in_c,
{
    lemma_split_pixel(i, out_w, out_h, out_c);
    let p = i / out_c;
    lemma_split(p, out_w, out_h);
    let ox = p % out_w;
    let oy = p / out_w;
    lemma_scaled_coord(ox, in_w, out_w);
    lemma_scaled_coord(oy, in_h, out_h);
    lemma_grid(in_w, in_h, in_c, (ox * in_w) / out_w, (oy * in_h) / out_h, i % out_c);
}

/// Pixel position `(x, y)` and channel of element `index` of an
/// interleaved `w`-pixel-wide image with `c` channels.
pub open spec fn spec_pixel_of(index: int, w: int, c: int) -> (int, int, int) {
    ((index / c) % w, (index / c) / w, index % c)
}

/// Computes [`spec_pixel_of`] for an element inside a `w x h x c` image.
pub fn pixel_of(index: usize, w: usize, h: usize, c: usize) -> (r: (usize, usize, usize))
    requires
        index < w * h * c,
    ensures
        (r.0 as int, r.1 as int, r.2 as int) == spec_pixel_of(index as int, w as int, c as int),
        r.0 < w,
        r.1 < h,
        r.2 < c,
        (r.1 * w + r.0) * c + r.2 == index,
{
    proof {
        lemma_split_pixel(index as int, w as int, h as int, c as int);
        lemma_split(index as int / c as int, w as int, h as int);
        assert(w * h * c == c * (w * h)) by (nonlinear_arith);
        lemma_split(index as int, c as int, w * h);
    }
    let p = index / c;
    (p % w, p / w, index % c)
}

/// Flat index of pixel `(x, y)`, channel `ch`, of an interleaved
/// `w`-pixel-wide image with `c` channels.
pub open spec fn spec_grid_index(w: int, c: int, x: int, y: int, ch: int) -> int {
    (y * w + x) * c + ch
}

/// Computes [`spec_grid_index`] for a position inside a `w x h x c` image.
fn grid_index(w: usize, h: usize, c: usize, x: usize, y: usize, ch: usize) -> (r: usize)
    requires
        x < w,
        y < h,
        ch < c,
        w * h * c <= usize::MAX,
    ensures
        r as int == spec_grid_index(w as int, c as int, x as int, y as int, ch as int),
        r < w * h * c,
{
    proof {
        lemma_grid(w as int, h as int, c as int, x as int, y as int, ch as int);
        assert(w * h <= w * h * c) by (nonlinear_arith)
            requires
                c > 0,
                w * h >= 0,
        ;
        assert(0 <= y * w) by (nonlinear_arith)
            requires
                y >= 0,
                w >= 0,
        ;
        assert(0 <= (y * w + x) * c) by (nonlinear_arith)
            requires
                y * w + x >= 0,
                c >= 0,
        ;
    }
    let p = y * w + x;
    p * c + ch
}

/// The four neighbours that bilinear sampling blends, around the source
/// position whose coordinates round down to `(floor_x, floor_y)`.
#[derive(Debug, Clone, Copy, PartialEq, Eq, Hash)]
pub struct BilinearTaps {
    /// Left column of the neighbourhood
    pub x0: usize,
    /// Top row of the neighbourhood
    pub y0: usize,
    /// Flat index of the top-left neighbour `(x0, y0)`
    pub top_left: usize,
    /// Flat index of the top-right neighbour `(x1, y0)`
    pub top_right: usize,
    /// Flat index of the bottom-left neighbour `(x0, y1)`
    pub bottom_left: usize,
    /// Flat index of the bottom-right neighbour `(x1, y1)`
    pub bottom_right: usize,
}

/// `a` clamped to at most `b`.
pub open spec fn spec_at_most(a: int, b: int) -> int {
    if a < b {
        a
    } else {
        b
    }
}

/// The bilinear neighbourhood of source position `(floor_x, floor_y)` in an
/// `in_w x in_h` image with `in_c` channels, channel `ch`: the top-left
/// corner `(x0, y0)` is the position clamped into the image, the
/// bottom-right corner `(x1, y1)` is one pixel further, clamped likewise.
pub open spec fn spec_bilinear_taps(
    floor_x: int,
    floor_y: int,
    in_w: int,
    in_h: int,
    in_c: int,
    ch: int,
) -> BilinearTaps {
    let x0 = spec_at_most(floor_x, in_w - 1);
    let y0 = spec_at_most(floor_y, in_h - 1);
    let x1 = spec_at_most(x0 + 1, in_w - 1);
    let y1 = spec_at_most(y0 + 1, in_h - 1);
    BilinearTaps {
        x0: x0 as usize,
        y0: y0 as usize,
        top_left: spec_grid_index(in_w, in_c, x0, y0, ch) as usize,
        top_right: spec_grid_index(in_w, in_c, x1, y0, ch) as usize,
        bottom_left: spec_grid_index(in_w, in_c, x0, y1, ch) as usize,
        bottom_right: spec_grid_index(in_w, in_c, x1, y1, ch) as usize,
    }
}

/// Computes [`spec_bilinear_taps`]; every neighbour lies inside the
/// `in_w x in_h x in_c` source image.
pub fn bilinear_taps(
    floor_x: usize,
    floor_y: usize,
    in_w: usize,
    in_h: usize,
    in_c: usize,
    ch: usize,
) -> (r: BilinearTaps)
    requires
        in_w > 0,
        in_h > 0,
        ch < in_c,
        in_w * in_h * in_c <= usize::MAX,
    ensures
        r == spec_bilinear_taps(
            floor_x as int,
            floor_y as int,
            in_w as int,
            in_h as int,
            in_c as int,
            ch as int,
        ),
        r.x0 < in_w,
        r.y0 < in_h,
        r.top_left < in_w * in_h * in_c,
        r.top_right < in_w * in_h * in_c,
        r.bottom_left < in_w * in_h * in_c,
        r.bottom_right < in_w * in_h * in_c,
{
    let x0 = if floor_x < in_w - 1 {
        floor_x
    } else {
        in_w - 1
    };
    let y0 = if floor_y < in_h - 1 {
        floor_y
    } else {
        in_h - 1
    };
    let x1 = if x0 + 1 < in_w - 1 {
        x0 + 1
    } else {
        in_w - 1
    };
    let y1 = if y0 + 1 < in_h - 1 {
        y0 + 1
    } else {
        in_h - 1
    };
    BilinearTaps {
        x0,
        y0,
        top_left: grid_index(in_w, in_h, in_c, x0, y0, ch),
        top_right: grid_index(in_w, in_h, in_c, x1, y0, ch),
        bottom_left: grid_index(in_w, in_h, in_c, x0, y1, ch),
        bottom_right: grid_index(in_w, in_h, in_c, x1, y1, ch),
    }
}

/// The bilinear neighbourhood is the clamped position and the pixel to its
/// right and below (clamped to the image): the top-left tap is pixel
/// `(min(floor_x, in_w - 1), min(floor_y, in_h - 1))`, the right taps are
/// one column further unless that leaves the image, the bottom taps one
/// row further unless that leaves the image, and every tap is channel
/// `ch` of its pixel.
pub proof fn lemma_bilinear_taps_neighbourhood(
    floor_x: int,
    floor_y: int,
    in_w: int,
    in_h: int,
    in_c: int,
    ch: int,
)
    requires
        floor_x >= 0,
        floor_y >= 0,
        in_w > 0,
        in_h > 0,
        0 <= ch < in_c,
        in_w * in_h * in_c <= usize::MAX,
    ensures
        ({
            let t = spec_bilinear_taps(floor_x, floor_y, in_w, in_h, in_c, ch);
            let x0 = if floor_x < in_w { floor_x } else { in_w - 1 };
            let y0 = if floor_y < in_h { floor_y } else { in_h - 1 };
            let x1 = if x0 + 1 < in_w { x0 + 1 } else { x0 };
            let y1 = if y0 + 1 < in_h { y0 + 1 } else { y0 };
            let tl = t.top_left as int;
            let tr = t.top_right as int;
            let bl = t.bottom_left as int;
            let br = t.bottom_right as int;
            &&& t.x0 == x0 && t.y0 == y0
            &&& tl % in_c == ch && (tl / in_c) % in_w == x0 && (tl / in_c) / in_w == y0
            &&& tr % in_c == ch && (tr / in_c) % in_w == x1 && (tr / in_c) / in_w == y0
            &&& bl % in_c == ch && (bl / in_c) % in_w == x0 && (bl / in_c) / in_w == y1
            &&& br % in_c == ch && (br / in_c) % in_w == x1 && (br / in_c) / in_w == y1
            &&& 0 <= tl < in_w * in_h * in_c
            &&& 0 <= tr < in_w * in_h * in_c
            &&& 0 <= bl < in_w * in_h * in_c
            &&& 0 <= br < in_w * in_h * in_c
        }),
{
    let x0 = if floor_x < in_w { floor_x } else { in_w - 1 };
    let y0 = if floor_y < in_h { floor_y } else { in_h - 1 };
    let x1 = if x0 + 1 < in_w { x0 + 1 } else { x0 };
    let y1 = if y0 + 1 < in_h { y0 + 1 } else { y0 };
    assert(in_w <= in_w * in_h * in_c && in_h <= in_w * in_h * in_c) by (nonlinear_arith)
        requires
            in_w > 0,
            in_h > 0,
            in_c > 0,
    ;
    lemma_grid_point(in_w, in_h, in_c, x0, y0, ch);
    lemma_grid_point(in_w, in_h, in_c, x1, y0, ch);
    lemma_grid_point(in_w, in_h, in_c, x0, y1, ch);
    lemma_grid_point(in_w, in_h, in_c, x1, y1, ch);
}

/// The flat index of a position inside a `w x h x c` grid splits back
/// into that position.
proof fn lemma_grid_point(w: int, h: int, c: int, x: int, y: int, ch: int)
    requires
        0 <= x < w,
        0 <= y < h,
        0 <= ch < c,
    ensures
        spec_grid_index(w, c, x, y, ch) % c == ch,
        (spec_grid_index(w, c, x, y, ch) / c) % w == x,
        (spec_grid_index(w, c, x, y, ch) / c) / w == y,
        0 <= spec_grid_index(w, c, x, y, ch) < w * h * c,
{
    lemma_grid(w, h, c, x, y, ch);
    vstd::arithmetic::div_mod::lemma_fundamental_div_mod_converse(
        spec_grid_index(w, c, x, y, ch),
        c,
        y * w + x,
        ch,
    );
    vstd::arithmetic::div_mod::lemma_fundamental_div_mod_converse(y * w + x, w, y, x);
}

/// 2D Scale operation for images
/// Scales an image from input dimensions to output dimensions using
/// **nearest neighbor** sampling.
#[derive(Debug, Clone, Copy, PartialEq, Eq, PartialOrd, Ord, Hash, Default)]
pub struct Scale2D<
    const IN_W: usize,
    const IN_H: usize,
    const IN_C: usize,
    const OUT_W: usize,
    const OUT_H: usize,
    const OUT_C: usize,
    T,
> {
    pub marker: core::marker::PhantomData<T>,
}

impl<
    const IN_W: usize,
    const IN_H: usize,
    const IN_C: usize,
    const OUT_W: usize,
    const OUT_H: usize,
    const OUT_C: usize,
    T,
> Scale2D<IN_W, IN_H, IN_C, OUT_W, OUT_H, OUT_C, T> {
    pub fn new() -> (r: Self) {
        Self { marker: core::marker::PhantomData }
    }
}

impl<
    const IN_W: usize,
    const IN_H: usize,
    const IN_C: usize,
    const OUT_W: usize,
    const OUT_H: usize,
    const OUT_C: usize,
    T: Float,
> TransformOp<T> for Scale2D<IN_W, IN_H, IN_C, OUT_W, OUT_H, OUT_C, T> {
    type IndexRemapping = False;

    const IN_LEN: usize = IN_W * IN_H * IN_C;

    const OUT_LEN: usize = OUT_W * OUT_H * OUT_C;

    /// The output channel index is used to sample the *input* channels, so
    /// `OUT_C > IN_C` would read the wrong elements.
    const INTERNAL_IS_VALID: bool = OUT_C <= IN_C;

    open spec fn spec_in_len(&self, default_len: usize) -> usize {
        spec_volume(IN_W, IN_H, IN_C)
    }

    open spec fn spec_out_len(&self, default_len: usize) -> usize {
        spec_volume(OUT_W, OUT_H, OUT_C)
    }

    /// Not an index remapping: the identity, never called
    open spec fn spec_map_index(&self, out_index: int, default_len: usize) -> int {
        out_index
    }

    open spec fn spec_compute(&self, data: Seq<T>, index: int, handling: NanHandling) -> Result<
        T,
        ErrorKind,
    > {
        let j = spec_nearest_index(
            IN_W as int,
            IN_H as int,
            IN_C as int,
            OUT_W as int,
            OUT_H as int,
            OUT_C as int,
            index,
        );
        if 0 <= j < data.len() {
            Ok(data[j])
        } else {
            Err(ErrorKind::InvalidInputSize)
        }
    }

    open spec fn spec_apply(&self, input: Seq<T>, n: nat, handling: NanHandling) -> Result<
        Seq<T>,
        ErrorKind,
    > {
        if n > spec_volume(OUT_W, OUT_H, OUT_C) || input.len() < spec_volume(IN_W, IN_H, IN_C) {
            Err(ErrorKind::InvalidInputSize)
        } else {
            crate::traits::spec_collect(n, |i: int| self.spec_compute(input, i, handling))
        }
    }

    fn map_index(&self, out_index: usize, default_len: usize) -> (r: usize) {
        out_index
    }

    fn compute<N: NanHandler>(&self, data: &[T], index: usize) -> (r: Result<T, PipeError>) {
        let v = volume(IN_W, IN_H, IN_C);
        if v == 0 {
            return Err(PipeError::new(ErrorKind::InvalidInputSize));
        }
        proof {
            lemma_split_pixel(index as int, OUT_W as int, OUT_H as int, OUT_C as int);
            lemma_split_pixel(0, IN_W as int, IN_H as int, IN_C as int);
        }
        let ch = index % OUT_C;
        let p = index / OUT_C;
        proof {
            lemma_split(p as int, OUT_W as int, OUT_H as int);
        }
        let ox = p % OUT_W;
        let oy = p / OUT_W;
        let ix = scaled_coord(ox, IN_W, OUT_W);
        let iy = scaled_coord(oy, IN_H, OUT_H);
        proof {
            lemma_grid(IN_W as int, IN_H as int, IN_C as int, ix as int, iy as int, 0);
            assert(IN_W * IN_H <= IN_W * IN_H * IN_C) by (nonlinear_arith)
                requires
                    IN_C > 0,
            ;
        }
        let base = (iy * IN_W + ix) * IN_C;
        match base.checked_add(ch) {
            Some(j) => {
                if j < data.len() {
                    Ok(data[j])
                } else {
                    Err(PipeError::new(ErrorKind::InvalidInputSize))
                }
            },
            None => Err(PipeError::new(ErrorKind::InvalidInputSize)),
        }
    }

    fn execute<N: NanHandler>(&self, out: &mut [T], input: &[T], n: usize) -> (r: Result<
        (),
        PipeError,
    >) {
        // Once-per-call guard so the loop below stays in bounds
        if n > volume(OUT_W, OUT_H, OUT_C) || input.len() < volume(IN_W, IN_H, IN_C) || out.len()
            < n {
            return Err(PipeError::new(ErrorKind::InvalidInputSize));
        }
        let ghost f = |i: int| self.spec_compute(input@, i, N::HANDLING);
        let mut i: usize = 0;
        assert(out@.take(0) =~= Seq::<T>::empty());
        while i < n
            invariant
                n == self.spec_out_len(input@.len() as usize),
                input@.len() == self.spec_in_len(input@.len() as usize),
                out@.len() == n,
                i <= n,
                f == (|i: int| self.spec_compute(input@, i, N::HANDLING)),
                crate::traits::spec_collect(i as nat, f) == Ok::<Seq<T>, ErrorKind>(
                    out@.take(i as int),
                ),
            decreases n - i,
        {
            match self.compute::<N>(input, i) {
                Ok(v) => {
                    let ghost prefix = out@.take(i as int);
                    proof {
                        crate::traits::lemma_collect_push(i as nat, f, prefix, v);
                    }
                    out[i] = v;
                    assert(out@.take(i + 1) =~= prefix.push(v));
                },
                Err(e) => {
                    proof {
                        crate::traits::lemma_collect_fail_at(i as nat, n as nat, f);
                    }
                    return Err(e);
                },
            }
            i += 1;
        }
        assert(out@.take(n as int) =~= out@);
        Ok(())
    }

    fn in_len(&self, default_len: usize) -> (r: usize) {
        volume(IN_W, IN_H, IN_C)
    }

    fn out_len(&self, default_len: usize) -> (r: usize) {
        volume(OUT_W, OUT_H, OUT_C)
    }

    fn op_name(&self) -> (r: String)
        ensures
            r@ == "Scale2D"@,
    {
        "Scale2D".to_owned()
    }
}

/// Input index of output element `i` of a crop of an `in_w`-wide image
/// with `c` channels to an `out_w`-wide window at `(off_x, off_y)`.
pub open spec fn spec_crop_index(in_w: int, c: int, out_w: int, off_x: int, off_y: int, i: int) -> int {
    let ch = i % c;
    let p = i / c;
    let x = p % out_w;
    let y = p / out_w;
    ((y + off_y) * in_w + (x + off_x)) * c + ch
}

/// A crop window that fits into the image only reads inside the image.
pub proof fn lemma_crop_index_in_bounds(
    in_w: int,
    in_h: int,
    c: int,
    out_w: int,
    out_h: int,
    off_x: int,
    off_y: int,
    i: int,
)
    requires
        off_x >= 0,
        off_y >= 0,
        out_w >= 0,
        out_h >= 0,
        c >= 0,
        off_x + out_w <= in_w,
        off_y + out_h <= in_h,
        0 <= i < out_w * out_h * c,
    ensures
        0 <= spec_crop_index(in_w, c, out_w, off_x, off_y, i) < in_w * in_h * c,
{
    lemma_split_pixel(i, out_w, out_h, c);
    let p = i / c;
    lemma_split(p, out_w, out_h);
    lemma_grid(in_w, in_h, c, p % out_w + off_x, p / out_w + off_y, i % c);
}

/// Crop operation for images
/// Extracts a rectangular region from an image
///
/// Is only static for now
#[derive(Debug, Copy, PartialEq, Eq, Hash)]
pub struct Crop<
    const IN_W: usize,
    const IN_H: usize,
    const IN_C: usize,
    const OUT_W: usize,
    const OUT_H: usize,
    T,
> {
    offset_x: usize,
    offset_y: usize,
    marker: core::marker::PhantomData<T>,
}

impl<
    const IN_W: usize,
    const IN_H: usize,
    const IN_C: usize,
    const OUT_W: usize,
    const OUT_H: usize,
    T,
> Crop<IN_W, IN_H, IN_C, OUT_W, OUT_H, T> {
    /// The crop window always fits into the input image
    #[verifier::type_invariant]
    spec fn window_fits(self) -> bool {
        &&& self.offset_x + OUT_W <= IN_W
        &&& self.offset_y + OUT_H <= IN_H
    }

    /// Horizontal offset of the crop window
    pub closed spec fn spec_offset_x(&self) -> usize {
        self.offset_x
    }

    /// Vertical offset of the crop window
    pub closed spec fn spec_offset_y(&self) -> usize {
        self.offset_y
    }

    pub fn new(offset_x: usize, offset_y: usize) -> (r: Self)
        requires
            offset_x + OUT_W <= IN_W,
            offset_y + OUT_H <= IN_H,
        ensures
            r.spec_offset_x() == offset_x,
            r.spec_offset_y() == offset_y,
    {
        Self { offset_x, offset_y, marker: core::marker::PhantomData }
    }

    /// Center crop: offsets computed so the crop window is centered in the
    /// input image.
    pub fn centered() -> (r: Self)
        requires
            OUT_W <= IN_W,
            OUT_H <= IN_H,
        ensures
            r.spec_offset_x() == (IN_W - OUT_W) / 2,
            r.spec_offset_y() == (IN_H - OUT_H) / 2,
    {
        Self::new((IN_W - OUT_W) / 2, (IN_H - OUT_H) / 2)
    }
}

impl<
    const IN_W: usize,
    const IN_H: usize,
    const IN_C: usize,
    const OUT_W: usize,
    const OUT_H: usize,
    T,
> Clone for Crop<IN_W, IN_H, IN_C, OUT_W, OUT_H, T> {
    fn clone(&self) -> (r: Self)
        ensures
            r == *self,
    {
        proof {
            use_type_invariant(self);
        }
        Self { offset_x: self.offset_x, offset_y: self.offset_y, marker: core::marker::PhantomData }
    }
}

impl<
    const IN_W: usize,
    const IN_H: usize,
    const IN_C: usize,
    const OUT_W: usize,
    const OUT_H: usize,
    T: Float,
> TransformOp<T> for Crop<IN_W, IN_H, IN_C, OUT_W, OUT_H, T> {
    type IndexRemapping = False;

    const IN_LEN: usize = IN_W * IN_H * IN_C;

    const OUT_LEN: usize = OUT_W * OUT_H * IN_C;

    /// The crop window must fit into the input
    const INTERNAL_IS_VALID: bool = OUT_W <= IN_W && OUT_H <= IN_H;

    open spec fn spec_in_len(&self, default_len: usize) -> usize {
        spec_volume(IN_W, IN_H, IN_C)
    }

    open spec fn spec_out_len(&self, default_len: usize) -> usize {
        spec_volume(OUT_W, OUT_H, IN_C)
    }

    /// Not an index remapping: the identity, never called
    open spec fn spec_map_index(&self, out_index: int, default_len: usize) -> int {
        out_index
    }

    open spec fn spec_compute(&self, data: Seq<T>, index: int, handling: NanHandling) -> Result<
        T,
        ErrorKind,
    > {
        let j = spec_crop_index(
            IN_W as int,
            IN_C as int,
            OUT_W as int,
            self.spec_offset_x() as int,
            self.spec_offset_y() as int,
            index,
        );
        if 0 <= j < data.len() {
            Ok(data[j])
        } else {
            Err(ErrorKind::InvalidInputSize)
        }
    }

    open spec fn spec_apply(&self, input: Seq<T>, n: nat, handling: NanHandling) -> Result<
        Seq<T>,
        ErrorKind,
    > {
        if n > spec_volume(OUT_W, OUT_H, IN_C) || input.len() < spec_volume(IN_W, IN_H, IN_C) {
            Err(ErrorKind::InvalidInputSize)
        } else {
            crate::traits::spec_collect(n, |i: int| self.spec_compute(input, i, handling))
        }
    }

    fn map_index(&self, out_index: usize, default_len: usize) -> (r: usize) {
        out_index
    }

    fn compute<N: NanHandler>(&self, data: &[T], index: usize) -> (r: Result<T, PipeError>) {
        proof {
            use_type_invariant(self);
        }
        let v = volume(IN_W, IN_H, IN_C);
        if v == 0 {
            return Err(PipeError::new(ErrorKind::InvalidInputSize));
        }
        proof {
            lemma_split_pixel(index as int, OUT_W as int, OUT_H as int, IN_C as int);
        }
        let ch = index % IN_C;
        let p = index / IN_C;
        proof {
            lemma_split(p as int, OUT_W as int, OUT_H as int);
        }
        let x = p % OUT_W + self.offset_x;
        let y = p / OUT_W + self.offset_y;
        proof {
            lemma_grid(IN_W as int, IN_H as int, IN_C as int, x as int, y as int, ch as int);
            assert(IN_W * IN_H <= IN_W * IN_H * IN_C) by (nonlinear_arith)
                requires
                    IN_C > 0,
            ;
            assert((y * IN_W + x) * IN_C <= (y * IN_W + x) * IN_C + ch);
        }
        let j = (y * IN_W + x) * IN_C + ch;
        // Bound-checked read
        if j < data.len() {
            Ok(data[j])
        } else {
            Err(PipeError::new(ErrorKind::InvalidInputSize))
        }
    }

    fn execute<N: NanHandler>(&self, out: &mut [T], input: &[T], n: usize) -> (r: Result<
        (),
        PipeError,
    >) {
        proof {
            use_type_invariant(self);
        }
        // Validate the crop window and the lengths once per call
        if self.offset_x + OUT_W > IN_W || self.offset_y + OUT_H > IN_H || n > volume(
            OUT_W,
            OUT_H,
            IN_C,
        ) || input.len() < volume(IN_W, IN_H, IN_C) || out.len() < n {
            return Err(PipeError::new(ErrorKind::InvalidInputSize));
        }
        let ghost f = |i: int| self.spec_compute(input@, i, N::HANDLING);
        let mut i: usize = 0;
        assert(out@.take(0) =~= Seq::<T>::empty());
        while i < n
            invariant
                n == self.spec_out_len(input@.len() as usize),
                input@.len() == self.spec_in_len(input@.len() as usize),
                out@.len() == n,
                i <= n,
                f == (|i: int| self.spec_compute(input@, i, N::HANDLING)),
                crate::traits::spec_collect(i as nat, f) == Ok::<Seq<T>, ErrorKind>(
                    out@.take(i as int),
                ),
            decreases n - i,
        {
            match self.compute::<N>(input, i) {
                Ok(v) => {
                    let ghost prefix = out@.take(i as int);
                    proof {
                        crate::traits::lemma_collect_push(i as nat, f, prefix, v);
                    }
                    out[i] = v;
                    assert(out@.take(i + 1) =~= prefix.push(v));
                },
                Err(e) => {
                    proof {
                        crate::traits::lemma_collect_fail_at(i as nat, n as nat, f);
                    }
                    return Err(e);
                },
            }
            i += 1;
        }
        assert(out@.take(n as int) =~= out@);
        Ok(())
    }

    fn in_len(&self, default_len: usize) -> (r: usize) {
        volume(IN_W, IN_H, IN_C)
    }

    fn out_len(&self, default_len: usize) -> (r: usize) {
        volume(OUT_W, OUT_H, IN_C)
    }

    fn op_name(&self) -> (r: String)
        ensures
            r@ == "Crop"@,
    {
        "Crop".to_owned()
    }
}

/// The aspect-preserving scale of a letterbox as a fraction
/// `(num, den)`: `min(out_w / in_w, out_h / in_h)`, the ratio of the
/// tighter axis.
pub open spec fn spec_letterbox_ratio(in_w: int, in_h: int, out_w: int, out_h: int) -> (int, int) {
    if out_w * in_h <= out_h * in_w {
        (out_w, in_w)
    } else {
        (out_h, in_h)
    }
}

/// `len * num / den`, rounded half up.
pub open spec fn spec_round_half_up(len: int, num: int, den: int) -> int {
    (2 * len * num + den) / (2 * den)
}

/// Scaled extent of `len` input pixels under the scale `num / den`,
/// rounded half up and clamped to `1..=out`.
pub open spec fn spec_letterbox_extent(len: int, num: int, den: int, out: int) -> int {
    let v = spec_round_half_up(len, num, den);
    if v < 1 {
        1
    } else if v > out {
        out
    } else {
        v
    }
}

/// Rounding half up is the quotient, plus one when the remainder is at
/// least half the divisor.
pub proof fn lemma_round_half_up(x: int, d: int)
    requires
        x >= 0,
        d > 0,
    ensures
        (2 * x + d) / (2 * d) == x / d + (if 2 * (x % d) >= d {
            1int
        } else {
            0int
        }),
{
    let q = x / d;
    let r = x % d;
    vstd::arithmetic::div_mod::lemma_fundamental_div_mod(x, d);
    vstd::arithmetic::div_mod::lemma_mod_bound(x, d);
    assert(2 * x + d == 2 * d * q + 2 * r + d) by (nonlinear_arith)
        requires
            x == d * q + r,
    ;
    if 2 * r >= d {
        assert(2 * x + d == (q + 1) * (2 * d) + (2 * r - d)) by (nonlinear_arith)
            requires
                2 * x + d == 2 * d * q + 2 * r + d,
        ;
        vstd::arithmetic::div_mod::lemma_fundamental_div_mod_converse(2 * x + d, 2 * d, q + 1, 2 * r - d);
    } else {
        assert(2 * x + d == q * (2 * d) + (2 * r + d)) by (nonlinear_arith)
            requires
                2 * x + d == 2 * d * q + 2 * r + d,
        ;
        vstd::arithmetic::div_mod::lemma_fundamental_div_mod_converse(2 * x + d, 2 * d, q, 2 * r + d);
    }
}

/// Offset that centers an `extent`-pixel window in `out` pixels.
pub open spec fn spec_letterbox_offset(extent: int, out: int) -> int {
    (out - extent) / 2
}

/// Output element `i` of a letterbox, where the input is scaled into a
/// `scaled_w x scaled_h` window at `(off_x, off_y)`: `None` for the padding
/// around the window, else the input index it samples (nearest neighbour).
pub open spec fn spec_letterbox_source(
    in_w: int,
    in_h: int,
    c: int,
    out_w: int,
    scaled_w: int,
    scaled_h: int,
    off_x: int,
    off_y: int,
    i: int,
) -> Option<int> {
    let ch = i % c;
    let p = i / c;
    let x = p % out_w;
    let y = p / out_w;
    if x < off_x || x >= off_x + scaled_w || y < off_y || y >= off_y + scaled_h {
        None
    } else {
        let ix = ((x - off_x) * in_w) / scaled_w;
        let iy = ((y - off_y) * in_h) / scaled_h;
        Some((iy * in_w + ix) * c + ch)
    }
}

/// Clamped scaled extent, computed without overflow.
fn letterbox_extent(len: usize, num: usize, den: usize, out: usize) -> (r: usize)
    requires
        den > 0,
        out >= 1,
    ensures
        r == spec_letterbox_extent(len as int, num as int, den as int, out as int),
        1 <= r <= out,
{
    proof {
        assert(len * num <= 0xffff_ffff_ffff_ffff * 0xffff_ffff_ffff_ffff) by (nonlinear_arith)
            requires
                len <= 0xffff_ffff_ffff_ffff,
                num <= 0xffff_ffff_ffff_ffff,
        ;
        assert(0 <= len * num) by (nonlinear_arith);
        lemma_round_half_up(len * num, den as int);
        assert(2 * len * num == 2 * (len * num)) by (nonlinear_arith);
    }
    let x: u128 = (len as u128) * (num as u128);
    let q: u128 = x / (den as u128);
    let rem: u128 = x % (den as u128);
    proof {
        vstd::arithmetic::div_mod::lemma_div_is_ordered_by_denominator(x as int, 1, den as int);
    }
    let v: u128 = if 2 * rem >= den as u128 {
        q + 1
    } else {
        q
    };
    if v < 1 {
        1
    } else if v > out as u128 {
        out
    } else {
        v as usize
    }
}

/// Letterbox: aspect-preserving scale (nearest neighbor) into a centered
/// window of the output, padding the remainder with `pad_value`
/// (YOLO-style pad-to-aspect). Scaled size and offsets are computed once in
/// the constructor.
#[derive(Debug, Copy, PartialEq)]
pub struct Letterbox<
    const IN_W: usize,
    const IN_H: usize,
    const C: usize,
    const OUT_W: usize,
    const OUT_H: usize,
    T,
> {
    pad_value: T,
    scaled_w: usize,
    scaled_h: usize,
    offset_x: usize,
    offset_y: usize,
}

impl<
    const IN_W: usize,
    const IN_H: usize,
    const C: usize,
    const OUT_W: usize,
    const OUT_H: usize,
    T,
> Letterbox<IN_W, IN_H, C, OUT_W, OUT_H, T> {
    /// Scaled width of the image inside the output
    pub open spec fn spec_scaled_w() -> int {
        let (num, den) = spec_letterbox_ratio(IN_W as int, IN_H as int, OUT_W as int, OUT_H as int);
        spec_letterbox_extent(IN_W as int, num, den, OUT_W as int)
    }

    /// Scaled height of the image inside the output
    pub open spec fn spec_scaled_h() -> int {
        let (num, den) = spec_letterbox_ratio(IN_W as int, IN_H as int, OUT_W as int, OUT_H as int);
        spec_letterbox_extent(IN_H as int, num, den, OUT_H as int)
    }

    /// Left offset of the scaled image
    pub open spec fn spec_offset_x() -> int {
        spec_letterbox_offset(Self::spec_scaled_w(), OUT_W as int)
    }

    /// Top offset of the scaled image
    pub open spec fn spec_offset_y() -> int {
        spec_letterbox_offset(Self::spec_scaled_h(), OUT_H as int)
    }

    /// The geometry is the one the dimensions determine
    #[verifier::type_invariant]
    spec fn geometry(self) -> bool {
        &&& IN_W > 0
        &&& IN_H > 0
        &&& OUT_W > 0
        &&& OUT_H > 0
        &&& self.scaled_w == Self::spec_scaled_w()
        &&& self.scaled_h == Self::spec_scaled_h()
        &&& self.offset_x == Self::spec_offset_x()
        &&& self.offset_y == Self::spec_offset_y()
    }

    /// Value written around the scaled image
    pub closed spec fn spec_pad_value(&self) -> T {
        self.pad_value
    }

    pub fn new(pad_value: T) -> (r: Self)
        requires
            IN_W > 0,
            IN_H > 0,
            OUT_W > 0,
            OUT_H > 0,
        ensures
            r.spec_pad_value() == pad_value,
    {
        proof {
            assert(OUT_W * IN_H <= 0xffff_ffff_ffff_ffff * 0xffff_ffff_ffff_ffff) by (nonlinear_arith)
                requires
                    OUT_W <= 0xffff_ffff_ffff_ffff,
                    IN_H <= 0xffff_ffff_ffff_ffff,
            ;
            assert(OUT_H * IN_W <= 0xffff_ffff_ffff_ffff * 0xffff_ffff_ffff_ffff) by (nonlinear_arith)
                requires
                    OUT_H <= 0xffff_ffff_ffff_ffff,
                    IN_W <= 0xffff_ffff_ffff_ffff,
            ;
        }
        // The tighter axis decides the scale
        let (num, den) = if (OUT_W as u128) * (IN_H as u128) <= (OUT_H as u128) * (IN_W as u128) {
            (OUT_W, IN_W)
        } else {
            (OUT_H, IN_H)
        };
        let scaled_w = letterbox_extent(IN_W, num, den, OUT_W);
        let scaled_h = letterbox_extent(IN_H, num, den, OUT_H);
        Self {
            pad_value,
            scaled_w,
            scaled_h,
            offset_x: (OUT_W - scaled_w) / 2,
            offset_y: (OUT_H - scaled_h) / 2,
        }
    }

    pub fn scaled_size(&self) -> (r: (usize, usize))
        ensures
            r.0 == Self::spec_scaled_w(),
            r.1 == Self::spec_scaled_h(),
    {
        proof {
            use_type_invariant(self);
        }
        (self.scaled_w, self.scaled_h)
    }

    pub fn offsets(&self) -> (r: (usize, usize))
        ensures
            r.0 == Self::spec_offset_x(),
            r.1 == Self::spec_offset_y(),
    {
        proof {
            use_type_invariant(self);
        }
        (self.offset_x, self.offset_y)
    }
}

impl<
    const IN_W: usize,
    const IN_H: usize,
    const C: usize,
    const OUT_W: usize,
    const OUT_H: usize,
    T: Copy,
> Clone for Letterbox<IN_W, IN_H, C, OUT_W, OUT_H, T> {
    fn clone(&self) -> (r: Self)
        ensures
            r == *self,
    {
        proof {
            use_type_invariant(self);
        }
        Self {
            pad_value: self.pad_value,
            scaled_w: self.scaled_w,
            scaled_h: self.scaled_h,
            offset_x: self.offset_x,
            offset_y: self.offset_y,
        }
    }
}

/// Inside its window a letterbox samples only inside the input image.
pub proof fn lemma_letterbox_source_in_bounds(
    in_w: int,
    in_h: int,
    c: int,
    out_w: int,
    out_h: int,
    scaled_w: int,
    scaled_h: int,
    off_x: int,
    off_y: int,
    i: int,
)
    requires
        in_w > 0,
        in_h > 0,
        out_w >= 0,
        out_h >= 0,
        c >= 0,
        scaled_w > 0,
        scaled_h > 0,
        0 <= i < out_w * out_h * c,
    ensures
        spec_letterbox_source(in_w, in_h, c, out_w, scaled_w, scaled_h, off_x, off_y, i) matches Some(
            j,
        ) ==> 0 <= j < in_w * in_h * c,
{
    lemma_split_pixel(i, out_w, out_h, c);
    let p = i / c;
    lemma_split(p, out_w, out_h);
    let x = p % out_w;
    let y = p / out_w;
    if off_x <= x < off_x + scaled_w && off_y <= y < off_y + scaled_h {
        lemma_scaled_coord(x - off_x, in_w, scaled_w);
        lemma_scaled_coord(y - off_y, in_h, scaled_h);
        lemma_grid(
            in_w,
            in_h,
            c,
            ((x - off_x) * in_w) / scaled_w,
            ((y - off_y) * in_h) / scaled_h,
            i % c,
        );
    }
}

impl<
    const IN_W: usize,
    const IN_H: usize,
    const C: usize,
    const OUT_W: usize,
    const OUT_H: usize,
    T: Float,
> TransformOp<T> for Letterbox<IN_W, IN_H, C, OUT_W, OUT_H, T> {
    type IndexRemapping = False;

    const IN_LEN: usize = IN_W * IN_H * C;

    const OUT_LEN: usize = OUT_W * OUT_H * C;

    const INTERNAL_IS_VALID: bool = true;

    open spec fn spec_in_len(&self, default_len: usize) -> usize {
        spec_volume(IN_W, IN_H, C)
    }

    open spec fn spec_out_len(&self, default_len: usize) -> usize {
        spec_volume(OUT_W, OUT_H, C)
    }

    /// Not an index remapping: the identity, never called
    open spec fn spec_map_index(&self, out_index: int, default_len: usize) -> int {
        out_index
    }

    open spec fn spec_compute(&self, data: Seq<T>, index: int, handling: NanHandling) -> Result<
        T,
        ErrorKind,
    > {
        match spec_letterbox_source(
            IN_W as int,
            IN_H as int,
            C as int,
            OUT_W as int,
            Self::spec_scaled_w(),
            Self::spec_scaled_h(),
            Self::spec_offset_x(),
            Self::spec_offset_y(),
            index,
        ) {
            None => Ok(self.spec_pad_value()),
            Some(j) => if 0 <= j < data.len() {
                Ok(data[j])
            } else {
                Err(ErrorKind::InvalidInputSize)
            },
        }
    }

    open spec fn spec_apply(&self, input: Seq<T>, n: nat, handling: NanHandling) -> Result<
        Seq<T>,
        ErrorKind,
    > {
        if n > spec_volume(OUT_W, OUT_H, C) || input.len() < spec_volume(IN_W, IN_H, C) {
            Err(ErrorKind::InvalidInputSize)
        } else {
            crate::traits::spec_collect(n, |i: int| self.spec_compute(input, i, handling))
        }
    }

    fn map_index(&self, out_index: usize, default_len: usize) -> (r: usize) {
        out_index
    }

    fn compute<N: NanHandler>(&self, data: &[T], index: usize) -> (r: Result<T, PipeError>) {
        proof {
            use_type_invariant(self);
            lemma_split_pixel(index as int, OUT_W as int, OUT_H as int, C as int);
        }
        let ch = index % C;
        let p = index / C;
        proof {
            lemma_split(p as int, OUT_W as int, OUT_H as int);
        }
        let x = p % OUT_W;
        let y = p / OUT_W;
        if x < self.offset_x || x >= self.offset_x + self.scaled_w || y < self.offset_y || y
            >= self.offset_y + self.scaled_h {
            return Ok(self.pad_value);
        }
        let v = volume(IN_W, IN_H, C);
        if v == 0 {
            return Err(PipeError::new(ErrorKind::InvalidInputSize));
        }
        let ix = scaled_coord(x - self.offset_x, IN_W, self.scaled_w);
        let iy = scaled_coord(y - self.offset_y, IN_H, self.scaled_h);
        proof {
            lemma_grid(IN_W as int, IN_H as int, C as int, ix as int, iy as int, ch as int);
            assert(IN_W * IN_H <= IN_W * IN_H * C) by (nonlinear_arith)
                requires
                    C > 0,
            ;
            assert((iy * IN_W + ix) * C <= (iy * IN_W + ix) * C + ch);
        }
        let j = (iy * IN_W + ix) * C + ch;
        // Bound-checked read
        if j < data.len() {
            Ok(data[j])
        } else {
            Err(PipeError::new(ErrorKind::InvalidInputSize))
        }
    }

    fn execute<N: NanHandler>(&self, out: &mut [T], input: &[T], n: usize) -> (r: Result<
        (),
        PipeError,
    >) {
        // Once-per-call guard so the loop below stays in bounds
        if n > volume(OUT_W, OUT_H, C) || input.len() < volume(IN_W, IN_H, C) || out.len() < n {
            return Err(PipeError::new(ErrorKind::InvalidInputSize));
        }
        let ghost f = |i: int| self.spec_compute(input@, i, N::HANDLING);
        let mut i: usize = 0;
        assert(out@.take(0) =~= Seq::<T>::empty());
        while i < n
            invariant
                n == self.spec_out_len(input@.len() as usize),
                input@.len() == self.spec_in_len(input@.len() as usize),
                out@.len() == n,
                i <= n,
                f == (|i: int| self.spec_compute(input@, i, N::HANDLING)),
                crate::traits::spec_collect(i as nat, f) == Ok::<Seq<T>, ErrorKind>(
                    out@.take(i as int),
                ),
            decreases n - i,
        {
            match self.compute::<N>(input, i) {
                Ok(v) => {
                    let ghost prefix = out@.take(i as int);
                    proof {
                        crate::traits::lemma_collect_push(i as nat, f, prefix, v);
                    }
                    out[i] = v;
                    assert(out@.take(i + 1) =~= prefix.push(v));
                },
                Err(e) => {
                    proof {
                        crate::traits::lemma_collect_fail_at(i as nat, n as nat, f);
                    }
                    return Err(e);
                },
            }
            i += 1;
        }
        assert(out@.take(n as int) =~= out@);
        Ok(())
    }

    fn in_len(&self, default_len: usize) -> (r: usize) {
        volume(IN_W, IN_H, C)
    }

    fn out_len(&self, default_len: usize) -> (r: usize) {
        volume(OUT_W, OUT_H, C)
    }

    fn op_name(&self) -> (r: String)
        ensures
            r@ == "Letterbox"@,
    {
        "Letterbox".to_owned()
    }
}

} // verus!
verus! {

/// The static lengths of the layout conversions, rotations and flips of a
/// `W x H x C` image (visible to verified callers, which the
/// pipe-construction requirements speak of).
pub proof fn lemma_remap_static_lengths<T: Float, const W: usize, const H: usize, const C: usize>()
    requires
        W * H <= usize::MAX,
        W * H * C <= usize::MAX,
    ensures
        <HwcToChw<W, H, C, T> as TransformOp<T>>::IN_LEN == W * H * C,
        <HwcToChw<W, H, C, T> as TransformOp<T>>::OUT_LEN == W * H * C,
        <HwcToChw<W, H, C, T> as TransformOp<T>>::INTERNAL_IS_VALID,
        <ChwToHwc<W, H, C, T> as TransformOp<T>>::IN_LEN == W * H * C,
        <ChwToHwc<W, H, C, T> as TransformOp<T>>::OUT_LEN == W * H * C,
        <ChwToHwc<W, H, C, T> as TransformOp<T>>::INTERNAL_IS_VALID,
        <Rotate90<W, H, C, T> as TransformOp<T>>::IN_LEN == W * H * C,
        <Rotate90<W, H, C, T> as TransformOp<T>>::OUT_LEN == W * H * C,
        <Rotate90<W, H, C, T> as TransformOp<T>>::INTERNAL_IS_VALID,
        <FlipHorizontal<W, H, C, T> as TransformOp<T>>::IN_LEN == W * H * C,
        <FlipHorizontal<W, H, C, T> as TransformOp<T>>::OUT_LEN == W * H * C,
        <FlipHorizontal<W, H, C, T> as TransformOp<T>>::INTERNAL_IS_VALID,
        <FlipVertical<W, H, C, T> as TransformOp<T>>::IN_LEN == W * H * C,
        <FlipVertical<W, H, C, T> as TransformOp<T>>::OUT_LEN == W * H * C,
        <FlipVertical<W, H, C, T> as TransformOp<T>>::INTERNAL_IS_VALID,
{
}

/// The static lengths of a nearest-neighbour rescale.
pub proof fn lemma_scale2d_static_lengths<
    T: Float,
    const IN_W: usize,
    const IN_H: usize,
    const IN_C: usize,
    const OUT_W: usize,
    const OUT_H: usize,
    const OUT_C: usize,
>()
    requires
        IN_W * IN_H <= usize::MAX,
        IN_W * IN_H * IN_C <= usize::MAX,
        OUT_W * OUT_H <= usize::MAX,
        OUT_W * OUT_H * OUT_C <= usize::MAX,
    ensures
        <Scale2D<IN_W, IN_H, IN_C, OUT_W, OUT_H, OUT_C, T> as TransformOp<T>>::IN_LEN == IN_W
            * IN_H * IN_C,
        <Scale2D<IN_W, IN_H, IN_C, OUT_W, OUT_H, OUT_C, T> as TransformOp<T>>::OUT_LEN == OUT_W
            * OUT_H * OUT_C,
        <Scale2D<IN_W, IN_H, IN_C, OUT_W, OUT_H, OUT_C, T> as TransformOp<T>>::INTERNAL_IS_VALID
            == (OUT_C <= IN_C),
{
}

/// The static lengths of a crop.
pub proof fn lemma_crop_static_lengths<
    T: Float,
    const IN_W: usize,
    const IN_H: usize,
    const IN_C: usize,
    const OUT_W: usize,
    const OUT_H: usize,
>()
    requires
        IN_W * IN_H <= usize::MAX,
        IN_W * IN_H * IN_C <= usize::MAX,
        OUT_W * OUT_H <= usize::MAX,
        OUT_W * OUT_H * IN_C <= usize::MAX,
    ensures
        <Crop<IN_W, IN_H, IN_C, OUT_W, OUT_H, T> as TransformOp<T>>::IN_LEN == IN_W * IN_H * IN_C,
        <Crop<IN_W, IN_H, IN_C, OUT_W, OUT_H, T> as TransformOp<T>>::OUT_LEN == OUT_W * OUT_H
            * IN_C,
        <Crop<IN_W, IN_H, IN_C, OUT_W, OUT_H, T> as TransformOp<T>>::INTERNAL_IS_VALID == (OUT_W
            <= IN_W && OUT_H <= IN_H),
{
}

/// The static lengths of a letterbox.
pub proof fn lemma_letterbox_static_lengths<
    T: Float,
    const IN_W: usize,
    const IN_H: usize,
    const C: usize,
    const OUT_W: usize,
    const OUT_H: usize,
>()
    requires
        IN_W * IN_H <= usize::MAX,
        IN_W * IN_H * C <= usize::MAX,
        OUT_W * OUT_H <= usize::MAX,
        OUT_W * OUT_H * C <= usize::MAX,
    ensures
        <Letterbox<IN_W, IN_H, C, OUT_W, OUT_H, T> as TransformOp<T>>::IN_LEN == IN_W * IN_H * C,
        <Letterbox<IN_W, IN_H, C, OUT_W, OUT_H, T> as TransformOp<T>>::OUT_LEN == OUT_W * OUT_H * C,
        <Letterbox<IN_W, IN_H, C, OUT_W, OUT_H, T> as TransformOp<T>>::INTERNAL_IS_VALID,
{
}

} // verus!
