//! Properties of the operations and of the pipelines built from them.
use vstd::prelude::*;
use crate::image::{
    lemma_grid, lemma_split, lemma_split_pixel, spec_chw_to_hwc_index, spec_flip_horizontal_index,
    spec_flip_vertical_index, spec_hwc_to_chw_index, spec_rotate90_index,
};
use crate::errors::{ErrorKind, NanHandler, NanHandling, PipeError};
use crate::pipeline::{spec_exec_matches, PipeExec};
use crate::image::{
    lemma_crop_index_in_bounds, lemma_letterbox_source_in_bounds, lemma_nearest_index_in_bounds,
    spec_gather, spec_volume, ChwToHwc, Crop, FlipHorizontal, FlipVertical, HwcToChw, Letterbox,
    Rotate90, Scale2D,
};
use crate::ops::{
    lemma_transpose_index_bound, spec_area, spec_padded, spec_reverse_len, spec_transpose_index,
    Pad, Reverse, Transpose, Truncate,
};
use crate::traits::{
    element_fn, lemma_collect_all_ok, lemma_collect_ext, lemma_collect_ok, spec_collect,
    spec_element_stage, spec_transform_stage, Element, ElementElement, ElementOp, Float, Fused,
    Head, IsTrue, Link, Stage, Transform, TransformElement, TransformOp, TransformTransform,
    lemma_transform_element_static_lengths, lemma_transform_transform_static_lengths,
    lemma_transform_head_static_lengths, lemma_transform_link_static_lengths,
};
use crate::image::{spec_channel_of, spec_grid_index, spec_letterbox_ratio, ChannelLayout};

verus! {

/// `(q * d + r) / d == q` and `(q * d + r) % d == r` for a remainder in
/// range.
proof fn lemma_div_mod_of(q: int, d: int, r: int)
    requires
        d > 0,
        0 <= r < d,
    ensures
        (q * d + r) / d == q,
        (q * d + r) % d == r,
{
    vstd::arithmetic::div_mod::lemma_fundamental_div_mod_converse(q * d + r, d, q, r);
}

/// An index of a `w x h x c` grid is the element of channel `i % c` of
/// pixel `(x, y)` with `x = (i / c) % w` and `y = (i / c) / w`.
proof fn lemma_decompose(i: int, w: int, h: int, c: int)
    requires
        w >= 0,
        h >= 0,
        c >= 0,
        0 <= i < w * h * c,
    ensures
        w > 0,
        h > 0,
        c > 0,
        0 <= i % c < c,
        0 <= (i / c) % w < w,
        0 <= (i / c) / w < h,
        i == ((i / c) / w * w + (i / c) % w) * c + i % c,
{
    lemma_split_pixel(i, w, h, c);
    assert(w * h * c == c * (w * h)) by (nonlinear_arith);
    lemma_split(i, c, w * h);
    lemma_split(i / c, w, h);
}

/// The element of channel `ch` of pixel `(x, y)` of a `w`-wide image with
/// `c` channels decomposes back into `ch`, `x` and `y`.
proof fn lemma_compose(w: int, c: int, x: int, y: int, ch: int)
    requires
        0 <= x < w,
        0 <= ch < c,
    ensures
        ((y * w + x) * c + ch) % c == ch,
        ((y * w + x) * c + ch) / c == y * w + x,
        (((y * w + x) * c + ch) / c) % w == x,
        (((y * w + x) * c + ch) / c) / w == y,
{
    lemma_div_mod_of(y * w + x, c, ch);
    lemma_div_mod_of(y, w, x);
}

/// Mirroring every row twice gives every element back: the horizontal
/// flip index map is an involution of the `w x h x c` grid.
pub proof fn lemma_flip_horizontal_index_involution(w: int, h: int, c: int, i: int)
    requires
        w >= 0,
        h >= 0,
        c >= 0,
        0 <= i < w * h * c,
    ensures
        0 <= spec_flip_horizontal_index(w, h, c, i) < w * h * c,
        spec_flip_horizontal_index(w, h, c, spec_flip_horizontal_index(w, h, c, i)) == i,
{
    lemma_decompose(i, w, h, c);
    let ch = i % c;
    let x = (i / c) % w;
    let y = (i / c) / w;
    lemma_compose(w, c, w - 1 - x, y, ch);
    lemma_grid(w, h, c, w - 1 - x, y, ch);
}

/// Mirroring every column twice gives every element back: the vertical
/// flip index map is an involution of the `w x h x c` grid.
pub proof fn lemma_flip_vertical_index_involution(w: int, h: int, c: int, i: int)
    requires
        w >= 0,
        h >= 0,
        c >= 0,
        0 <= i < w * h * c,
    ensures
        0 <= spec_flip_vertical_index(w, h, c, i) < w * h * c,
        spec_flip_vertical_index(w, h, c, spec_flip_vertical_index(w, h, c, i)) == i,
{
    lemma_decompose(i, w, h, c);
    let ch = i % c;
    let x = (i / c) % w;
    let y = (i / c) / w;
    lemma_compose(w, c, x, h - 1 - y, ch);
    lemma_grid(w, h, c, x, h - 1 - y, ch);
}

/// Input index of output element `i` of a half-turn of a `w x h x c`
/// image: output `(x, y)` reads input `(w - 1 - x, h - 1 - y)`.
pub open spec fn spec_rotate180_index(w: int, h: int, c: int, i: int) -> int {
    let ch = i % c;
    let p = i / c;
    let x = p % w;
    let y = p / w;
    ((h - 1 - y) * w + (w - 1 - x)) * c + ch
}

/// Two clockwise quarter turns make a half turn: rotating a `w x h` image
/// (which yields an `h x w` image) and rotating the result reads every
/// element from the half-turned position.
pub proof fn lemma_rotate90_twice_index(w: int, h: int, c: int, i: int)
    requires
        w >= 0,
        h >= 0,
        c >= 0,
        0 <= i < w * h * c,
    ensures
        0 <= spec_rotate90_index(h, w, c, i) < w * h * c,
        spec_rotate90_index(w, h, c, spec_rotate90_index(h, w, c, i)) == spec_rotate180_index(
            w,
            h,
            c,
            i,
        ),
{
    lemma_decompose(i, w, h, c);
    let ch = i % c;
    let x = (i / c) % w;
    let y = (i / c) / w;
    // The first lookup (the second rotation) reads the intermediate
    // `h`-wide image at pixel (y, w - 1 - x)
    lemma_compose(h, c, y, w - 1 - x, ch);
    assert(h * w * c == w * h * c) by (nonlinear_arith);
    lemma_grid(h, w, c, y, w - 1 - x, ch);
}

/// Transposing a `cols x rows` matrix and then the resulting
/// `rows x cols` matrix reads every element from where it started.
pub proof fn lemma_transpose_index_roundtrip(rows: int, cols: int, i: int)
    requires
        rows >= 0,
        cols >= 0,
        0 <= i < rows * cols,
    ensures
        0 <= spec_transpose_index(cols, rows, i) < rows * cols,
        spec_transpose_index(rows, cols, spec_transpose_index(cols, rows, i)) == i,
{
    assert(rows * cols == cols * rows) by (nonlinear_arith);
    lemma_split(i, cols, rows);
    let q = i / cols;
    let r = i % cols;
    lemma_div_mod_of(r, rows, q);
    assert(0 <= r * rows + q < rows * cols) by (nonlinear_arith)
        requires
            0 <= r < cols,
            0 <= q < rows,
    ;
}

/// HWC -> CHW followed by CHW -> HWC reads every element from where it
/// started, and so does the opposite order.
pub proof fn lemma_layout_index_roundtrip(w: int, h: int, c: int, i: int)
    requires
        w >= 0,
        h >= 0,
        c >= 0,
        0 <= i < w * h * c,
    ensures
        0 <= spec_chw_to_hwc_index(w, h, c, i) < w * h * c,
        0 <= spec_hwc_to_chw_index(w, h, c, i) < w * h * c,
        spec_hwc_to_chw_index(w, h, c, spec_chw_to_hwc_index(w, h, c, i)) == i,
        spec_chw_to_hwc_index(w, h, c, spec_hwc_to_chw_index(w, h, c, i)) == i,
{
    assert(w * h >= 0) by (nonlinear_arith)
        requires
            w >= 0,
            h >= 0,
    ;
    assert(w * h * c == (w * h) * c);
    assert(w * h * c == c * (w * h)) by (nonlinear_arith);
    lemma_transpose_index_roundtrip(w * h, c, i);
    lemma_transpose_index_roundtrip(c, w * h, i);
}

// ---------------------------------------------------------------------------
// Remappings undone by their counterpart
// ---------------------------------------------------------------------------

/// Values that all succeed with input elements collect into the gathered
/// input.
proof fn lemma_collect_reads<T>(
    n: nat,
    f: spec_fn(int) -> Result<T, ErrorKind>,
    input: Seq<T>,
    idx: spec_fn(int) -> int,
)
    requires
        forall|i: int| 0 <= i < n ==> #[trigger] f(i) == Ok::<T, ErrorKind>(input[idx(i)]),
    ensures
        spec_collect(n, f) == Ok::<Seq<T>, ErrorKind>(spec_gather(input, n, idx)),
{
    lemma_collect_all_ok(n, f);
    assert(Seq::new(n, |i: int| f(i)->Ok_0) =~= spec_gather(input, n, idx));
}

/// Flipping an image horizontally twice gives it back, whether the two
/// flips run as separate stages or fused into one pass.
pub proof fn lemma_flip_horizontal_twice<T: Float, const W: usize, const H: usize, const C: usize>(
    flip: FlipHorizontal<W, H, C, T>,
    fused: Fused<FlipHorizontal<W, H, C, T>, FlipHorizontal<W, H, C, T>, TransformTransform>,
    input: Seq<T>,
    handling: NanHandling,
)
    requires
        input.len() == spec_volume(W, H, C),
    ensures
        flip.spec_apply(input, input.len(), handling) matches Ok(mid) && flip.spec_apply(
            mid,
            mid.len(),
            handling,
        ) == Ok::<Seq<T>, ErrorKind>(input),
        fused.spec_apply(input, input.len(), handling) == Ok::<Seq<T>, ErrorKind>(input),
{
    let n = input.len();
    let idx = |i: int| spec_flip_horizontal_index(W as int, H as int, C as int, i);
    assert forall|i: int| 0 <= i < n implies 0 <= #[trigger] idx(i) < n && idx(idx(i)) == i by {
        lemma_flip_horizontal_index_involution(W as int, H as int, C as int, i);
    }
    let mid = spec_gather(input, n, idx);
    assert(spec_gather(mid, n, idx) =~= input);
    let f = |i: int| fused.spec_compute(input, i, handling);
    assert forall|i: int| 0 <= i < n implies #[trigger] f(i) == Ok::<T, ErrorKind>(
        input[i],
    ) by {
        lemma_flip_horizontal_index_involution(W as int, H as int, C as int, i);
    }
    lemma_collect_reads(n, f, input, |i: int| i);
    assert(spec_gather(input, n, |i: int| i) =~= input);
}

/// Flipping an image vertically twice gives it back, whether the two flips
/// run as separate stages or fused into one pass.
pub proof fn lemma_flip_vertical_twice<T: Float, const W: usize, const H: usize, const C: usize>(
    flip: FlipVertical<W, H, C, T>,
    fused: Fused<FlipVertical<W, H, C, T>, FlipVertical<W, H, C, T>, TransformTransform>,
    input: Seq<T>,
    handling: NanHandling,
)
    requires
        input.len() == spec_volume(W, H, C),
    ensures
        flip.spec_apply(input, input.len(), handling) matches Ok(mid) && flip.spec_apply(
            mid,
            mid.len(),
            handling,
        ) == Ok::<Seq<T>, ErrorKind>(input),
        fused.spec_apply(input, input.len(), handling) == Ok::<Seq<T>, ErrorKind>(input),
{
    let n = input.len();
    let idx = |i: int| spec_flip_vertical_index(W as int, H as int, C as int, i);
    assert forall|i: int| 0 <= i < n implies 0 <= #[trigger] idx(i) < n && idx(idx(i)) == i by {
        lemma_flip_vertical_index_involution(W as int, H as int, C as int, i);
    }
    let mid = spec_gather(input, n, idx);
    assert(spec_gather(mid, n, idx) =~= input);
    let f = |i: int| fused.spec_compute(input, i, handling);
    assert forall|i: int| 0 <= i < n implies #[trigger] f(i) == Ok::<T, ErrorKind>(
        input[i],
    ) by {
        lemma_flip_vertical_index_involution(W as int, H as int, C as int, i);
    }
    lemma_collect_reads(n, f, input, |i: int| i);
    assert(spec_gather(input, n, |i: int| i) =~= input);
}

/// Two clockwise quarter turns of a `W x H` image (the second one turning
/// the `H x W` result) make a half turn, whether they run as separate
/// stages or fused into one pass.
pub proof fn lemma_rotate90_twice<T: Float, const W: usize, const H: usize, const C: usize>(
    first: Rotate90<W, H, C, T>,
    second: Rotate90<H, W, C, T>,
    fused: Fused<Rotate90<W, H, C, T>, Rotate90<H, W, C, T>, TransformTransform>,
    input: Seq<T>,
    handling: NanHandling,
)
    requires
        input.len() == spec_volume(W, H, C),
    ensures
        first.spec_apply(input, input.len(), handling) matches Ok(mid) && second.spec_apply(
            mid,
            mid.len(),
            handling,
        ) == Ok::<Seq<T>, ErrorKind>(
            spec_gather(
                input,
                input.len(),
                |i: int| spec_rotate180_index(W as int, H as int, C as int, i),
            ),
        ),
        fused.spec_apply(input, input.len(), handling) == Ok::<Seq<T>, ErrorKind>(
            spec_gather(
                input,
                input.len(),
                |i: int| spec_rotate180_index(W as int, H as int, C as int, i),
            ),
        ),
{
    let n = input.len();
    assert(spec_volume(H, W, C) == spec_volume(W, H, C)) by {
        assert(H * W * C == W * H * C) by (nonlinear_arith);
    }
    let first_idx = |i: int| spec_rotate90_index(W as int, H as int, C as int, i);
    let second_idx = |i: int| spec_rotate90_index(H as int, W as int, C as int, i);
    let half = |i: int| spec_rotate180_index(W as int, H as int, C as int, i);
    assert forall|i: int| 0 <= i < n implies 0 <= #[trigger] second_idx(i) < n && first_idx(
        second_idx(i),
    ) == half(i) by {
        lemma_rotate90_twice_index(W as int, H as int, C as int, i);
    }
    let mid = spec_gather(input, n, first_idx);
    assert(spec_gather(mid, n, second_idx) =~= spec_gather(input, n, half));
    let f = |i: int| fused.spec_compute(input, i, handling);
    assert forall|i: int| 0 <= i < n implies #[trigger] f(i) == Ok::<T, ErrorKind>(
        input[half(i)],
    ) by {
        lemma_rotate90_twice_index(W as int, H as int, C as int, i);
        lemma_half_turn_in_bounds(W as int, H as int, C as int, i);
    }
    lemma_collect_reads(n, f, input, half);
}

/// A half turn only reads inside the image.
proof fn lemma_half_turn_in_bounds(w: int, h: int, c: int, i: int)
    requires
        w >= 0,
        h >= 0,
        c >= 0,
        0 <= i < w * h * c,
    ensures
        0 <= spec_rotate180_index(w, h, c, i) < w * h * c,
{
    lemma_decompose(i, w, h, c);
    lemma_grid(w, h, c, w - 1 - (i / c) % w, h - 1 - (i / c) / w, i % c);
}

/// Converting an image from HWC to CHW and back gives it back, whether the
/// two conversions run as separate stages or fused into one pass.
pub proof fn lemma_hwc_chw_roundtrip<T: Float, const W: usize, const H: usize, const C: usize>(
    to_planar: HwcToChw<W, H, C, T>,
    to_interleaved: ChwToHwc<W, H, C, T>,
    fused: Fused<HwcToChw<W, H, C, T>, ChwToHwc<W, H, C, T>, TransformTransform>,
    input: Seq<T>,
    handling: NanHandling,
)
    requires
        input.len() == spec_volume(W, H, C),
    ensures
        to_planar.spec_apply(input, input.len(), handling) matches Ok(mid)
            && to_interleaved.spec_apply(mid, mid.len(), handling) == Ok::<Seq<T>, ErrorKind>(
            input,
        ),
        fused.spec_apply(input, input.len(), handling) == Ok::<Seq<T>, ErrorKind>(input),
{
    let n = input.len();
    let a = |i: int| spec_hwc_to_chw_index(W as int, H as int, C as int, i);
    let b = |i: int| spec_chw_to_hwc_index(W as int, H as int, C as int, i);
    assert forall|i: int| 0 <= i < n implies 0 <= #[trigger] b(i) < n && a(b(i)) == i by {
        lemma_layout_index_roundtrip(W as int, H as int, C as int, i);
    }
    let mid = spec_gather(input, n, a);
    assert(spec_gather(mid, n, b) =~= input);
    let f = |i: int| fused.spec_compute(input, i, handling);
    assert forall|i: int| 0 <= i < n implies #[trigger] f(i) == Ok::<T, ErrorKind>(
        input[i],
    ) by {
        lemma_layout_index_roundtrip(W as int, H as int, C as int, i);
    }
    lemma_collect_reads(n, f, input, |i: int| i);
    assert(spec_gather(input, n, |i: int| i) =~= input);
}

/// Converting an image from CHW to HWC and back gives it back, whether the
/// two conversions run as separate stages or fused into one pass.
pub proof fn lemma_chw_hwc_roundtrip<T: Float, const W: usize, const H: usize, const C: usize>(
    to_interleaved: ChwToHwc<W, H, C, T>,
    to_planar: HwcToChw<W, H, C, T>,
    fused: Fused<ChwToHwc<W, H, C, T>, HwcToChw<W, H, C, T>, TransformTransform>,
    input: Seq<T>,
    handling: NanHandling,
)
    requires
        input.len() == spec_volume(W, H, C),
    ensures
        to_interleaved.spec_apply(input, input.len(), handling) matches Ok(mid)
            && to_planar.spec_apply(mid, mid.len(), handling) == Ok::<Seq<T>, ErrorKind>(input),
        fused.spec_apply(input, input.len(), handling) == Ok::<Seq<T>, ErrorKind>(input),
{
    let n = input.len();
    let a = |i: int| spec_hwc_to_chw_index(W as int, H as int, C as int, i);
    let b = |i: int| spec_chw_to_hwc_index(W as int, H as int, C as int, i);
    assert forall|i: int| 0 <= i < n implies 0 <= #[trigger] a(i) < n && b(a(i)) == i by {
        lemma_layout_index_roundtrip(W as int, H as int, C as int, i);
    }
    let mid = spec_gather(input, n, b);
    assert(spec_gather(mid, n, a) =~= input);
    let f = |i: int| fused.spec_compute(input, i, handling);
    assert forall|i: int| 0 <= i < n implies #[trigger] f(i) == Ok::<T, ErrorKind>(
        input[i],
    ) by {
        lemma_layout_index_roundtrip(W as int, H as int, C as int, i);
    }
    lemma_collect_reads(n, f, input, |i: int| i);
    assert(spec_gather(input, n, |i: int| i) =~= input);
}

/// Transposing an `R x C` matrix and then the resulting `C x R` matrix
/// gives the matrix back, whether the two transposes run as separate
/// stages or fused into one pass.
pub proof fn lemma_transpose_twice<T: Float, const R: usize, const C: usize>(
    first: Transpose<R, C>,
    second: Transpose<C, R>,
    fused: Fused<Transpose<R, C>, Transpose<C, R>, TransformTransform>,
    input: Seq<T>,
    handling: NanHandling,
)
    requires
        input.len() == spec_area(R, C),
    ensures
        TransformOp::<T>::spec_apply(&first, input, input.len(), handling) matches Ok(mid)
            && TransformOp::<T>::spec_apply(&second, mid, mid.len(), handling) == Ok::<
            Seq<T>,
            ErrorKind,
        >(input),
        fused.spec_apply(input, input.len(), handling) == Ok::<Seq<T>, ErrorKind>(input),
{
    let n = input.len();
    assert(spec_area(C, R) == spec_area(R, C)) by {
        assert(C * R == R * C) by (nonlinear_arith);
    }
    let a = |i: int| spec_transpose_index(R as int, C as int, i);
    let b = |i: int| spec_transpose_index(C as int, R as int, i);
    assert forall|i: int| 0 <= i < n implies 0 <= #[trigger] b(i) < n && a(b(i)) == i by {
        lemma_transpose_index_roundtrip(R as int, C as int, i);
    }
    let mid = spec_gather(input, n, a);
    assert(Seq::new(n, |i: int| input[spec_transpose_index(R as int, C as int, i)]) =~= mid);
    let back = Seq::new(n, |i: int| mid[spec_transpose_index(C as int, R as int, i)]);
    assert forall|i: int| 0 <= i < n implies #[trigger] back[i] == input[i] by {
        lemma_transpose_index_roundtrip(R as int, C as int, i);
    }
    assert(back =~= input);
    let f = |i: int| fused.spec_compute(input, i, handling);
    assert forall|i: int| 0 <= i < n implies #[trigger] f(i) == Ok::<T, ErrorKind>(
        input[i],
    ) by {
        lemma_transpose_index_roundtrip(R as int, C as int, i);
    }
    lemma_collect_reads(n, f, input, |i: int| i);
    assert(spec_gather(input, n, |i: int| i) =~= input);
}

/// Reversing twice gives the data back, whether the two reversals run as
/// separate stages or fused into one pass (static or dynamic length).
pub proof fn lemma_reverse_twice<T: Float, const LEN: usize>(
    reverse: Reverse<LEN>,
    fused: Fused<Reverse<LEN>, Reverse<LEN>, TransformTransform>,
    input: Seq<T>,
    handling: NanHandling,
)
    requires
        LEN == 0 || input.len() == LEN,
        input.len() <= usize::MAX,
    ensures
        TransformOp::<T>::spec_apply(&reverse, input, input.len(), handling) == Ok::<
            Seq<T>,
            ErrorKind,
        >(input.reverse()),
        TransformOp::<T>::spec_apply(&reverse, input.reverse(), input.len(), handling) == Ok::<
            Seq<T>,
            ErrorKind,
        >(input),
        fused.spec_apply(input, input.len(), handling) == Ok::<Seq<T>, ErrorKind>(input),
{
    let n = input.len();
    assert(Seq::new(n, |i: int| input[n - 1 - i]) =~= input.reverse());
    assert(Seq::new(n, |i: int| input.reverse()[n - 1 - i]) =~= input);
    let f = |i: int| fused.spec_compute(input, i, handling);
    assert forall|i: int| 0 <= i < n implies #[trigger] f(i) == Ok::<T, ErrorKind>(
        input[i],
    ) by {}
    lemma_collect_reads(n, f, input, |i: int| i);
    assert(spec_gather(input, n, |i: int| i) =~= input);
}

// ---------------------------------------------------------------------------
// Fusion
// ---------------------------------------------------------------------------

/// Chaining a second computation `g` behind each value of `f`: when all of
/// `f` succeeds, the chained collection is the collection of `g` over
/// `f`'s values; and the chained collection only succeeds where `f` does.
proof fn lemma_collect_then<T>(
    n: nat,
    f: spec_fn(int) -> Result<T, ErrorKind>,
    g: spec_fn(T) -> Result<T, ErrorKind>,
    chained: spec_fn(int) -> Result<T, ErrorKind>,
)
    requires
        forall|i: int|
            0 <= i < n ==> #[trigger] chained(i) == match f(i) {
                Ok(v) => g(v),
                Err(e) => Err(e),
            },
    ensures
        spec_collect(n, f) matches Ok(mid) ==> spec_collect(n, chained) == spec_collect(
            n,
            |i: int| g(mid[i]),
        ),
        spec_collect(n, chained) is Ok ==> spec_collect(n, f) is Ok,
{
    lemma_collect_ok(n, f);
    if spec_collect(n, f) is Ok {
        let mid = spec_collect(n, f)->Ok_0;
        lemma_collect_ext(n, chained, |i: int| g(mid[i]));
    }
    lemma_collect_ok(n, chained);
    if spec_collect(n, chained) is Ok {
        let out = spec_collect(n, chained)->Ok_0;
        assert forall|i: int| 0 <= i < n implies #[trigger] f(i) is Ok by {
            assert(chained(i) == Ok::<T, ErrorKind>(out[i]));
        }
        lemma_collect_all_ok(n, f);
    }
}

/// Fusing two point-wise operations changes nothing but the number of
/// passes: when the first operation succeeds on all of `data`, the fused
/// stage has exactly the outcome of running the second operation on the
/// first one's result; and the fused stage fails whenever the first
/// operation fails on some element.
pub proof fn lemma_element_fusion<T: Float, U: ElementOp<T>, S: ElementOp<T>>(
    fused: Fused<U, S, ElementElement>,
    data: Seq<T>,
    handling: NanHandling,
)
    ensures
        spec_element_stage(fused.prev_op, data, handling) matches Ok(mid) ==> spec_element_stage(
            fused,
            data,
            handling,
        ) == spec_element_stage(fused.curr_op, mid, handling),
        spec_element_stage(fused, data, handling) is Ok ==> spec_element_stage(
            fused.prev_op,
            data,
            handling,
        ) is Ok,
{
    let f = element_fn(fused.prev_op, data, handling);
    let g = |v: T| fused.curr_op.spec_compute(v, handling);
    let chained = element_fn(fused, data, handling);
    lemma_collect_then(data.len(), f, g, chained);
    lemma_collect_ok(data.len(), f);
    if spec_element_stage(fused.prev_op, data, handling) is Ok {
        let mid = spec_element_stage(fused.prev_op, data, handling)->Ok_0;
        lemma_collect_ext(
            data.len(),
            |i: int| g(mid[i]),
            element_fn(fused.curr_op, mid, handling),
        );
    }
}

/// Whether a transform's per-element `compute` agrees with its
/// whole-output `execute` on `input`: the outcome of computing the `n`
/// output elements one by one is the outcome of the whole operation.
pub open spec fn spec_compute_agrees<T: Float, U: TransformOp<T>>(
    op: U,
    input: Seq<T>,
    n: nat,
    handling: NanHandling,
) -> bool {
    op.spec_apply(input, n, handling) == spec_collect(
        n,
        |i: int| op.spec_compute(input, i, handling),
    )
}

/// Fusing a point-wise operation behind a transform changes nothing but
/// the number of passes: for a transform whose `compute` agrees with its
/// `execute`, when the transform succeeds the fused operation has exactly
/// the outcome of running the point-wise operation on the transform's
/// result; and the fused operation fails whenever the transform fails.
pub proof fn lemma_transform_element_fusion<T: Float, U: TransformOp<T>, S: ElementOp<T>>(
    fused: Fused<U, S, TransformElement>,
    input: Seq<T>,
    n: nat,
    handling: NanHandling,
)
    requires
        spec_compute_agrees(fused.prev_op, input, n, handling),
    ensures
        fused.prev_op.spec_apply(input, n, handling) matches Ok(mid) ==> fused.spec_apply(
            input,
            n,
            handling,
        ) == spec_element_stage(fused.curr_op, mid, handling),
        fused.spec_apply(input, n, handling) is Ok ==> fused.prev_op.spec_apply(
            input,
            n,
            handling,
        ) is Ok,
{
    let f = |i: int| fused.prev_op.spec_compute(input, i, handling);
    let g = |v: T| fused.curr_op.spec_compute(v, handling);
    let chained = |i: int| fused.spec_compute(input, i, handling);
    lemma_collect_then(n, f, g, chained);
    lemma_collect_ok(n, f);
    if fused.prev_op.spec_apply(input, n, handling) is Ok {
        let mid = fused.prev_op.spec_apply(input, n, handling)->Ok_0;
        lemma_collect_ext(n, |i: int| g(mid[i]), element_fn(fused.curr_op, mid, handling));
    }
}

/// Whether a transform computes each of its first `n` output elements by
/// reading the input element its `map_index` names.
pub open spec fn spec_reads_at_map_index<T: Float, U: TransformOp<T>>(
    op: U,
    data: Seq<T>,
    n: nat,
    handling: NanHandling,
) -> bool {
    forall|i: int|
        0 <= i < n ==> #[trigger] op.spec_compute(data, i, handling) == ({
            let j = op.spec_map_index(i, data.len() as usize);
            if 0 <= j < data.len() {
                Ok::<T, ErrorKind>(data[j])
            } else {
                Err::<T, ErrorKind>(ErrorKind::InvalidInputSize)
            }
        })
}

/// Fusing two index remappings changes nothing but the number of passes:
/// when the first transform (whose `compute` agrees with its `execute`)
/// produces `mid`, and the second one reads its output elements from
/// where its `map_index` points, the fused operation has exactly the
/// outcome of running the second transform on `mid`.
pub proof fn lemma_transform_fusion<T: Float, U: TransformOp<T>, S: TransformOp<T>>(
    fused: Fused<U, S, TransformTransform>,
    input: Seq<T>,
    mid: Seq<T>,
    n: nat,
    handling: NanHandling,
) where U::IndexRemapping: IsTrue, S::IndexRemapping: IsTrue
    requires
        input.len() <= usize::MAX,
        mid.len() == fused.prev_op.spec_out_len(input.len() as usize),
        fused.prev_op.spec_apply(input, mid.len(), handling) == Ok::<Seq<T>, ErrorKind>(mid),
        spec_compute_agrees(fused.prev_op, input, mid.len(), handling),
        spec_reads_at_map_index(fused.curr_op, mid, n, handling),
        spec_compute_agrees(fused.curr_op, mid, n, handling),
    ensures
        fused.spec_apply(input, n, handling) == fused.curr_op.spec_apply(mid, n, handling),
{
    let first = |i: int| fused.prev_op.spec_compute(input, i, handling);
    lemma_collect_ok(mid.len(), first);
    assert forall|i: int| 0 <= i < n implies #[trigger] fused.spec_compute(input, i, handling)
        == fused.curr_op.spec_compute(mid, i, handling) by {
        let j = fused.curr_op.spec_map_index(i, mid.len() as usize);
        if 0 <= j < mid.len() {
            assert(first(j) == Ok::<T, ErrorKind>(mid[j]));
        }
    }
    lemma_collect_ext(
        n,
        |i: int| fused.spec_compute(input, i, handling),
        |i: int| fused.curr_op.spec_compute(mid, i, handling),
    );
}

// ---------------------------------------------------------------------------
// `compute` agrees with `execute` for every operation of the library
// ---------------------------------------------------------------------------

/// Truncation computes each element where its `map_index` points, and
/// element-wise computing agrees with the whole operation.
pub proof fn lemma_truncate_compute_agrees<T: Float, const SOURCE_LEN: usize, const NEW_LEN: usize>(
    op: Truncate<SOURCE_LEN, NEW_LEN>,
    input: Seq<T>,
    handling: NanHandling,
)
    requires
        input.len() == SOURCE_LEN,
        NEW_LEN <= SOURCE_LEN,
    ensures
        spec_reads_at_map_index::<T, _>(op, input, NEW_LEN as nat, handling),
        spec_compute_agrees::<T, _>(op, input, NEW_LEN as nat, handling),
{
    let n = NEW_LEN as nat;
    lemma_collect_reads(
        n,
        |i: int| TransformOp::<T>::spec_compute(&op, input, i, handling),
        input,
        |i: int| i,
    );
    assert(spec_gather(input, n, |i: int| i) =~= input.take(n as int));
}

/// Transposition computes each element where its `map_index` points, and
/// element-wise computing agrees with the whole operation.
pub proof fn lemma_transpose_compute_agrees<T: Float, const R: usize, const C: usize>(
    op: Transpose<R, C>,
    input: Seq<T>,
    handling: NanHandling,
)
    requires
        input.len() == spec_area(R, C),
    ensures
        spec_reads_at_map_index::<T, _>(op, input, input.len(), handling),
        spec_compute_agrees::<T, _>(op, input, input.len(), handling),
{
    let n = input.len();
    let idx = |i: int| spec_transpose_index(R as int, C as int, i);
    assert forall|i: int| 0 <= i < n implies 0 <= #[trigger] idx(i) < n by {
        lemma_transpose_index_bound(R as int, C as int, i);
    }
    lemma_collect_reads(
        n,
        |i: int| TransformOp::<T>::spec_compute(&op, input, i, handling),
        input,
        idx,
    );
    assert(spec_gather(input, n, idx) =~= Seq::new(
        n,
        |i: int| input[spec_transpose_index(R as int, C as int, i)],
    ));
}

/// Reversal computes each element where its `map_index` points, and
/// element-wise computing agrees with the whole operation.
pub proof fn lemma_reverse_compute_agrees<T: Float, const LEN: usize>(
    op: Reverse<LEN>,
    input: Seq<T>,
    handling: NanHandling,
)
    requires
        input.len() <= usize::MAX,
        input.len() == spec_reverse_len(LEN, input.len() as usize),
    ensures
        spec_reads_at_map_index::<T, _>(op, input, input.len(), handling),
        spec_compute_agrees::<T, _>(op, input, input.len(), handling),
{
    let n = input.len();
    let idx = |i: int| n - 1 - i;
    lemma_collect_reads(
        n,
        |i: int| TransformOp::<T>::spec_compute(&op, input, i, handling),
        input,
        idx,
    );
    assert(spec_gather(input, n, idx) =~= Seq::new(n, |i: int| input[n - 1 - i]));
}

/// HWC -> CHW computes each element where its `map_index` points, and
/// element-wise computing agrees with the whole operation.
pub proof fn lemma_hwc_to_chw_compute_agrees<T: Float, const W: usize, const H: usize, const C: usize>(
    op: HwcToChw<W, H, C, T>,
    input: Seq<T>,
    handling: NanHandling,
)
    requires
        input.len() == spec_volume(W, H, C),
    ensures
        spec_reads_at_map_index(op, input, input.len(), handling),
        spec_compute_agrees(op, input, input.len(), handling),
{
    let n = input.len();
    let idx = |i: int| spec_hwc_to_chw_index(W as int, H as int, C as int, i);
    assert forall|i: int| 0 <= i < n implies 0 <= #[trigger] idx(i) < n by {
        lemma_layout_index_roundtrip(W as int, H as int, C as int, i);
    }
    lemma_collect_reads(n, |i: int| op.spec_compute(input, i, handling), input, idx);
}

/// CHW -> HWC computes each element where its `map_index` points, and
/// element-wise computing agrees with the whole operation.
pub proof fn lemma_chw_to_hwc_compute_agrees<T: Float, const W: usize, const H: usize, const C: usize>(
    op: ChwToHwc<W, H, C, T>,
    input: Seq<T>,
    handling: NanHandling,
)
    requires
        input.len() == spec_volume(W, H, C),
    ensures
        spec_reads_at_map_index(op, input, input.len(), handling),
        spec_compute_agrees(op, input, input.len(), handling),
{
    let n = input.len();
    let idx = |i: int| spec_chw_to_hwc_index(W as int, H as int, C as int, i);
    assert forall|i: int| 0 <= i < n implies 0 <= #[trigger] idx(i) < n by {
        lemma_layout_index_roundtrip(W as int, H as int, C as int, i);
    }
    lemma_collect_reads(n, |i: int| op.spec_compute(input, i, handling), input, idx);
}

/// A quarter turn computes each element where its `map_index` points, and
/// element-wise computing agrees with the whole operation.
pub proof fn lemma_rotate90_compute_agrees<T: Float, const W: usize, const H: usize, const C: usize>(
    op: Rotate90<W, H, C, T>,
    input: Seq<T>,
    handling: NanHandling,
)
    requires
        input.len() == spec_volume(W, H, C),
    ensures
        spec_reads_at_map_index(op, input, input.len(), handling),
        spec_compute_agrees(op, input, input.len(), handling),
{
    let n = input.len();
    let idx = |i: int| spec_rotate90_index(W as int, H as int, C as int, i);
    assert forall|i: int| 0 <= i < n implies 0 <= #[trigger] idx(i) < n by {
        assert(H * W * C == W * H * C) by (nonlinear_arith);
        lemma_rotate90_twice_index(H as int, W as int, C as int, i);
    }
    lemma_collect_reads(n, |i: int| op.spec_compute(input, i, handling), input, idx);
}

/// A horizontal flip computes each element where its `map_index` points,
/// and element-wise computing agrees with the whole operation.
pub proof fn lemma_flip_horizontal_compute_agrees<T: Float, const W: usize, const H: usize, const C: usize>(
    op: FlipHorizontal<W, H, C, T>,
    input: Seq<T>,
    handling: NanHandling,
)
    requires
        input.len() == spec_volume(W, H, C),
    ensures
        spec_reads_at_map_index(op, input, input.len(), handling),
        spec_compute_agrees(op, input, input.len(), handling),
{
    let n = input.len();
    let idx = |i: int| spec_flip_horizontal_index(W as int, H as int, C as int, i);
    assert forall|i: int| 0 <= i < n implies 0 <= #[trigger] idx(i) < n by {
        lemma_flip_horizontal_index_involution(W as int, H as int, C as int, i);
    }
    lemma_collect_reads(n, |i: int| op.spec_compute(input, i, handling), input, idx);
}

/// A vertical flip computes each element where its `map_index` points, and
/// element-wise computing agrees with the whole operation.
pub proof fn lemma_flip_vertical_compute_agrees<T: Float, const W: usize, const H: usize, const C: usize>(
    op: FlipVertical<W, H, C, T>,
    input: Seq<T>,
    handling: NanHandling,
)
    requires
        input.len() == spec_volume(W, H, C),
    ensures
        spec_reads_at_map_index(op, input, input.len(), handling),
        spec_compute_agrees(op, input, input.len(), handling),
{
    let n = input.len();
    let idx = |i: int| spec_flip_vertical_index(W as int, H as int, C as int, i);
    assert forall|i: int| 0 <= i < n implies 0 <= #[trigger] idx(i) < n by {
        lemma_flip_vertical_index_involution(W as int, H as int, C as int, i);
    }
    lemma_collect_reads(n, |i: int| op.spec_compute(input, i, handling), input, idx);
}

/// Padding computes each element as its whole output does: copied input
/// values, then the pad value.
pub proof fn lemma_pad_compute_agrees<T: Float, const SOURCE_LEN: usize, const PADDED_LEN: usize>(
    op: Pad<T, SOURCE_LEN, PADDED_LEN>,
    input: Seq<T>,
    handling: NanHandling,
)
    requires
        input.len() == SOURCE_LEN,
        SOURCE_LEN <= PADDED_LEN,
    ensures
        spec_compute_agrees(op, input, PADDED_LEN as nat, handling),
        op.spec_apply(input, PADDED_LEN as nat, handling) == Ok::<Seq<T>, ErrorKind>(
            input + Seq::new((PADDED_LEN - SOURCE_LEN) as nat, |i: int| op.pad_value),
        ),
{
    let n = PADDED_LEN as nat;
    let f = |i: int| op.spec_compute(input, i, handling);
    assert forall|i: int| 0 <= i < n implies #[trigger] f(i) is Ok by {}
    lemma_collect_all_ok(n, f);
    assert(Seq::new(n, |i: int| f(i)->Ok_0) =~= spec_padded(
        input,
        SOURCE_LEN as nat,
        n,
        op.pad_value,
    ));
    assert(spec_padded(input, SOURCE_LEN as nat, n, op.pad_value) =~= input + Seq::new(
        (PADDED_LEN - SOURCE_LEN) as nat,
        |i: int| op.pad_value,
    ));
}

/// A nearest-neighbour rescale with no more output than input channels
/// computes every output element from inside the input, and element-wise
/// computing agrees with the whole operation.
pub proof fn lemma_scale2d_compute_agrees<
    T: Float,
    const IN_W: usize,
    const IN_H: usize,
    const IN_C: usize,
    const OUT_W: usize,
    const OUT_H: usize,
    const OUT_C: usize,
>(op: Scale2D<IN_W, IN_H, IN_C, OUT_W, OUT_H, OUT_C, T>, input: Seq<T>, handling: NanHandling)
    requires
        input.len() == spec_volume(IN_W, IN_H, IN_C),
        input.len() > 0,
        OUT_C <= IN_C,
    ensures
        spec_compute_agrees(op, input, spec_volume(OUT_W, OUT_H, OUT_C) as nat, handling),
        op.spec_apply(input, spec_volume(OUT_W, OUT_H, OUT_C) as nat, handling) is Ok,
{
    let n = spec_volume(OUT_W, OUT_H, OUT_C) as nat;
    let f = |i: int| op.spec_compute(input, i, handling);
    assert forall|i: int| 0 <= i < n implies #[trigger] f(i) is Ok by {
        assert(IN_W > 0 && IN_H > 0 && IN_C > 0) by (nonlinear_arith)
            requires
                IN_W * IN_H * IN_C > 0,
        ;
        assert(0 <= i < OUT_W * OUT_H * OUT_C);
        assert(OUT_C > 0) by (nonlinear_arith)
            requires
                0 <= i < OUT_W * OUT_H * OUT_C,
        ;
        lemma_nearest_index_in_bounds(
            IN_W as int,
            IN_H as int,
            IN_C as int,
            OUT_W as int,
            OUT_H as int,
            OUT_C as int,
            i,
        );
    }
    lemma_collect_all_ok(n, f);
}

/// A crop computes every output element from inside the input, and
/// element-wise computing agrees with the whole operation.
pub proof fn lemma_crop_compute_agrees<
    T: Float,
    const IN_W: usize,
    const IN_H: usize,
    const IN_C: usize,
    const OUT_W: usize,
    const OUT_H: usize,
>(op: Crop<IN_W, IN_H, IN_C, OUT_W, OUT_H, T>, input: Seq<T>, handling: NanHandling)
    requires
        input.len() == spec_volume(IN_W, IN_H, IN_C),
        input.len() > 0,
        op.spec_offset_x() + OUT_W <= IN_W,
        op.spec_offset_y() + OUT_H <= IN_H,
    ensures
        spec_compute_agrees(op, input, spec_volume(OUT_W, OUT_H, IN_C) as nat, handling),
        op.spec_apply(input, spec_volume(OUT_W, OUT_H, IN_C) as nat, handling) is Ok,
{
    let n = spec_volume(OUT_W, OUT_H, IN_C) as nat;
    let f = |i: int| op.spec_compute(input, i, handling);
    assert forall|i: int| 0 <= i < n implies #[trigger] f(i) is Ok by {
        lemma_crop_index_in_bounds(
            IN_W as int,
            IN_H as int,
            IN_C as int,
            OUT_W as int,
            OUT_H as int,
            op.spec_offset_x() as int,
            op.spec_offset_y() as int,
            i,
        );
    }
    lemma_collect_all_ok(n, f);
}

/// A letterbox computes every output element (from inside the input, or
/// the pad value), and element-wise computing agrees with the whole
/// operation.
pub proof fn lemma_letterbox_compute_agrees<
    T: Float,
    const IN_W: usize,
    const IN_H: usize,
    const C: usize,
    const OUT_W: usize,
    const OUT_H: usize,
>(op: Letterbox<IN_W, IN_H, C, OUT_W, OUT_H, T>, input: Seq<T>, handling: NanHandling)
    requires
        input.len() == spec_volume(IN_W, IN_H, C),
        input.len() > 0,
        IN_W > 0,
        IN_H > 0,
        OUT_W > 0,
        OUT_H > 0,
    ensures
        spec_compute_agrees(op, input, spec_volume(OUT_W, OUT_H, C) as nat, handling),
        op.spec_apply(input, spec_volume(OUT_W, OUT_H, C) as nat, handling) is Ok,
{
    let n = spec_volume(OUT_W, OUT_H, C) as nat;
    let f = |i: int| op.spec_compute(input, i, handling);
    assert forall|i: int| 0 <= i < n implies #[trigger] f(i) is Ok by {
        lemma_letterbox_source_in_bounds(
            IN_W as int,
            IN_H as int,
            C as int,
            OUT_W as int,
            OUT_H as int,
            Letterbox::<IN_W, IN_H, C, OUT_W, OUT_H, T>::spec_scaled_w(),
            Letterbox::<IN_W, IN_H, C, OUT_W, OUT_H, T>::spec_scaled_h(),
            Letterbox::<IN_W, IN_H, C, OUT_W, OUT_H, T>::spec_offset_x(),
            Letterbox::<IN_W, IN_H, C, OUT_W, OUT_H, T>::spec_offset_y(),
            i,
        );
    }
    lemma_collect_all_ok(n, f);
}

// ---------------------------------------------------------------------------
// Static and dynamic pipelines
// ---------------------------------------------------------------------------

/// A static pipeline head computes what the dynamic head with the same
/// operation computes, on inputs of the static length: the static length
/// only adds the length check.
pub proof fn lemma_static_element_head_is_dynamic<T: Float, U: ElementOp<T>, const LEN: usize>(
    static_head: Head<U, Element, LEN>,
    dynamic_head: Head<U, Element, 0>,
    data: Seq<T>,
    cap: nat,
    handling: NanHandling,
)
    requires
        static_head.root_op == dynamic_head.root_op,
    ensures
        LEN == 0 || data.len() == LEN ==> static_head.spec_run(data, cap, handling)
            == dynamic_head.spec_run(data, cap, handling),
        LEN > 0 && data.len() != LEN ==> static_head.spec_run(data, cap, handling) == Err::<
            Seq<T>,
            ErrorKind,
        >(ErrorKind::InvalidInputSize),
{
}

/// A transform head runs the same way whatever static input length the
/// pipe was started with, and rejects inputs whose length differs from
/// the operation's static input length.
pub proof fn lemma_transform_head_input_length<T: Float, U: TransformOp<T>, const LEN: usize>(
    head: Head<U, Transform, LEN>,
    dynamic_head: Head<U, Transform, 0>,
    data: Seq<T>,
    cap: nat,
    handling: NanHandling,
)
    requires
        head.root_op == dynamic_head.root_op,
    ensures
        head.spec_run(data, cap, handling) == dynamic_head.spec_run(data, cap, handling),
        U::IN_LEN > 0 && data.len() != U::IN_LEN ==> head.spec_run(data, cap, handling) == Err::<
            Seq<T>,
            ErrorKind,
        >(ErrorKind::InvalidInputSize),
{
}

/// A point-wise stage keeps the length of the data, and succeeds exactly
/// when every element computes.
pub proof fn lemma_element_stage_length<T: Float, U: ElementOp<T>>(
    op: U,
    data: Seq<T>,
    handling: NanHandling,
)
    ensures
        spec_element_stage(op, data, handling) matches Ok(out) ==> out.len() == data.len(),
        spec_element_stage(op, data, handling) is Ok <==> forall|i: int|
            0 <= i < data.len() ==> #[trigger] op.spec_compute(data[i], handling) is Ok,
{
    let f = element_fn(op, data, handling);
    lemma_collect_ok(data.len(), f);
    if forall|i: int| 0 <= i < data.len() ==> #[trigger] op.spec_compute(data[i], handling) is Ok {
        assert forall|i: int| 0 <= i < data.len() implies #[trigger] f(i) is Ok by {
            assert(op.spec_compute(data[i], handling) is Ok);
        }
        lemma_collect_all_ok(data.len(), f);
    }
    if spec_element_stage(op, data, handling) is Ok {
        let out = spec_element_stage(op, data, handling)->Ok_0;
        assert forall|i: int| 0 <= i < data.len() implies #[trigger] op.spec_compute(
            data[i],
            handling,
        ) is Ok by {
            assert(f(i) == Ok::<T, ErrorKind>(out[i]));
        }
    }
}

/// A built pipeline can be run again and again, with any other runs in
/// between (a run leaves the stages and the scratch buffers' size as they
/// were): two runs on the same input return the same length and write the
/// same values whenever the second output buffer holds the first result;
/// into output buffers of the same length they succeed or fail together,
/// with the same kind of error.
pub proof fn lemma_execute_repeatable<T: Stage<F>, N: NanHandler, F: Float>(
    before_first: PipeExec<T, N, F>,
    before_second: PipeExec<T, N, F>,
    input: Seq<F>,
    first_out: Seq<F>,
    first_written: Seq<F>,
    first_result: Result<usize, PipeError>,
    second_out: Seq<F>,
    second_written: Seq<F>,
    second_result: Result<usize, PipeError>,
)
    requires
        before_second.spec_stages() == before_first.spec_stages(),
        before_second.spec_capacity() == before_first.spec_capacity(),
        first_out.len() <= usize::MAX,
        second_out.len() <= usize::MAX,
        spec_exec_matches(
            before_first.spec_stages().spec_run(input, before_first.spec_capacity(), N::HANDLING),
            first_out,
            first_written,
            first_result,
        ),
        spec_exec_matches(
            before_second.spec_stages().spec_run(
                input,
                before_second.spec_capacity(),
                N::HANDLING,
            ),
            second_out,
            second_written,
            second_result,
        ),
    ensures
        first_result matches Ok(n) ==> (n <= second_out.len() ==> second_result == Ok::<
            usize,
            PipeError,
        >(n) && first_written.take(n as int) == second_written.take(n as int)),
        first_out.len() == second_out.len() ==> (first_result is Ok <==> second_result is Ok),
        first_out.len() == second_out.len() && first_result is Err ==> (first_result matches Err(e)
            && second_result matches Err(e2) && e2.spec_kind() == e.spec_kind()),
{
    if first_result is Ok {
        let n = first_result->Ok_0;
        let s = before_first.spec_stages().spec_run(
            input,
            before_first.spec_capacity(),
            N::HANDLING,
        )->Ok_0;
        assert(first_written.take(n as int) =~= s);
        if n <= second_out.len() {
            assert(second_written.take(n as int) =~= s);
        }
    }
}

// ---------------------------------------------------------------------------
// Remappings only reorder the data
// ---------------------------------------------------------------------------

/// Gathering `s` through an injective index map of `[0, n)` into itself
/// reorders `s`: the result holds the same values, as often.
pub proof fn lemma_gather_permutes<T>(s: Seq<T>, n: nat, idx: spec_fn(int) -> int)
    requires
        s.len() == n,
        forall|i: int| 0 <= i < n ==> 0 <= #[trigger] idx(i) < n,
        forall|i: int, j: int| 0 <= i < n && 0 <= j < n && #[trigger] idx(i) == #[trigger] idx(j) ==> i == j,
    ensures
        spec_gather(s, n, idx).to_multiset() == s.to_multiset(),
    decreases n,
{
    broadcast use vstd::multiset::group_multiset_axioms;

    if n == 0 {
        assert(spec_gather(s, n, idx) =~= Seq::<T>::empty());
        assert(s =~= Seq::<T>::empty());
    } else {
        let k = idx(n - 1);
        let rest = s.remove(k);
        let rest_idx = |i: int|
            if idx(i) < k {
                idx(i)
            } else {
                idx(i) - 1
            };
        assert forall|i: int| 0 <= i < n - 1 implies 0 <= #[trigger] rest_idx(i) < n - 1 by {
            assert(idx(i) != k);
        }
        assert forall|i: int, j: int|
            0 <= i < n - 1 && 0 <= j < n - 1 && #[trigger] rest_idx(i) == #[trigger] rest_idx(
                j,
            ) implies i == j by {
            assert(idx(i) != k);
            assert(idx(j) != k);
        }
        lemma_gather_permutes(rest, (n - 1) as nat, rest_idx);
        let t = spec_gather(s, n, idx);
        assert forall|i: int| 0 <= i < n - 1 implies rest[rest_idx(i)] == #[trigger] t[i] by {
            assert(idx(i) != k);
        }
        assert(t.drop_last() =~= spec_gather(rest, (n - 1) as nat, rest_idx));
        assert(t =~= t.drop_last().push(s[k]));
        vstd::seq_lib::to_multiset_build(t.drop_last(), s[k]);
        vstd::seq_lib::to_multiset_remove(s, k);
        vstd::seq_lib::to_multiset_contains(s, s[k]);
        assert(s.contains(s[k]));
        assert(s.to_multiset().remove(s[k]).insert(s[k]) =~= s.to_multiset());
    }
}

/// Reversing only reorders the data.
pub proof fn lemma_reverse_permutes<T: Float, const LEN: usize>(
    reverse: Reverse<LEN>,
    input: Seq<T>,
    handling: NanHandling,
)
    requires
        LEN == 0 || input.len() == LEN,
        input.len() <= usize::MAX,
    ensures
        TransformOp::<T>::spec_apply(&reverse, input, input.len(), handling) matches Ok(out)
            && out.to_multiset() == input.to_multiset(),
{
    let fused = Fused { prev_op: reverse, curr_op: reverse, marker: core::marker::PhantomData };
    lemma_reverse_twice::<T, LEN>(reverse, fused, input, handling);
    input.lemma_reverse_to_multiset();
}

/// Transposing only reorders the matrix entries.
pub proof fn lemma_transpose_permutes<T: Float, const R: usize, const C: usize>(
    transpose: Transpose<R, C>,
    input: Seq<T>,
    handling: NanHandling,
)
    requires
        input.len() == spec_area(R, C),
    ensures
        TransformOp::<T>::spec_apply(&transpose, input, input.len(), handling) matches Ok(out)
            && out.to_multiset() == input.to_multiset(),
{
    let n = input.len();
    let idx = |i: int| spec_transpose_index(R as int, C as int, i);
    assert(C * R == R * C) by (nonlinear_arith);
    assert forall|i: int| 0 <= i < n implies 0 <= #[trigger] idx(i) < n by {
        lemma_transpose_index_bound(R as int, C as int, i);
    }
    assert forall|i: int, j: int| 0 <= i < n && 0 <= j < n && #[trigger] idx(i) == #[trigger] idx(
        j,
    ) implies i == j by {
        lemma_transpose_index_roundtrip(C as int, R as int, i);
        lemma_transpose_index_roundtrip(C as int, R as int, j);
    }
    lemma_gather_permutes(input, n, idx);
    assert(Seq::new(n, |i: int| input[spec_transpose_index(R as int, C as int, i)]) =~= spec_gather(
        input,
        n,
        idx,
    ));
}

/// Layout conversions only reorder the image elements.
pub proof fn lemma_layout_permutes<T: Float, const W: usize, const H: usize, const C: usize>(
    to_planar: HwcToChw<W, H, C, T>,
    to_interleaved: ChwToHwc<W, H, C, T>,
    input: Seq<T>,
    handling: NanHandling,
)
    requires
        input.len() == spec_volume(W, H, C),
    ensures
        to_planar.spec_apply(input, input.len(), handling) matches Ok(out) && out.to_multiset()
            == input.to_multiset(),
        to_interleaved.spec_apply(input, input.len(), handling) matches Ok(out)
            && out.to_multiset() == input.to_multiset(),
{
    let n = input.len();
    let a = |i: int| spec_hwc_to_chw_index(W as int, H as int, C as int, i);
    let b = |i: int| spec_chw_to_hwc_index(W as int, H as int, C as int, i);
    assert forall|i: int| 0 <= i < n implies 0 <= #[trigger] a(i) < n && b(a(i)) == i by {
        lemma_layout_index_roundtrip(W as int, H as int, C as int, i);
    }
    assert forall|i: int| 0 <= i < n implies 0 <= #[trigger] b(i) < n && a(b(i)) == i by {
        lemma_layout_index_roundtrip(W as int, H as int, C as int, i);
    }
    lemma_gather_permutes(input, n, a);
    lemma_gather_permutes(input, n, b);
}

/// Flips only reorder the image elements.
pub proof fn lemma_flips_permute<T: Float, const W: usize, const H: usize, const C: usize>(
    horizontal: FlipHorizontal<W, H, C, T>,
    vertical: FlipVertical<W, H, C, T>,
    input: Seq<T>,
    handling: NanHandling,
)
    requires
        input.len() == spec_volume(W, H, C),
    ensures
        horizontal.spec_apply(input, input.len(), handling) matches Ok(out) && out.to_multiset()
            == input.to_multiset(),
        vertical.spec_apply(input, input.len(), handling) matches Ok(out) && out.to_multiset()
            == input.to_multiset(),
{
    let n = input.len();
    let h = |i: int| spec_flip_horizontal_index(W as int, H as int, C as int, i);
    let v = |i: int| spec_flip_vertical_index(W as int, H as int, C as int, i);
    assert forall|i: int| 0 <= i < n implies 0 <= #[trigger] h(i) < n && h(h(i)) == i by {
        lemma_flip_horizontal_index_involution(W as int, H as int, C as int, i);
    }
    assert forall|i: int| 0 <= i < n implies 0 <= #[trigger] v(i) < n && v(v(i)) == i by {
        lemma_flip_vertical_index_involution(W as int, H as int, C as int, i);
    }
    lemma_gather_permutes(input, n, h);
    lemma_gather_permutes(input, n, v);
}

/// A half turn done twice gives every element back.
pub proof fn lemma_rotate180_index_involution(w: int, h: int, c: int, i: int)
    requires
        w >= 0,
        h >= 0,
        c >= 0,
        0 <= i < w * h * c,
    ensures
        0 <= spec_rotate180_index(w, h, c, i) < w * h * c,
        spec_rotate180_index(w, h, c, spec_rotate180_index(w, h, c, i)) == i,
{
    lemma_decompose(i, w, h, c);
    let ch = i % c;
    let x = (i / c) % w;
    let y = (i / c) / w;
    lemma_compose(w, c, w - 1 - x, h - 1 - y, ch);
    lemma_grid(w, h, c, w - 1 - x, h - 1 - y, ch);
}

/// A quarter turn only reorders the image elements.
pub proof fn lemma_rotate90_permutes<T: Float, const W: usize, const H: usize, const C: usize>(
    rotate: Rotate90<W, H, C, T>,
    input: Seq<T>,
    handling: NanHandling,
)
    requires
        input.len() == spec_volume(W, H, C),
    ensures
        rotate.spec_apply(input, input.len(), handling) matches Ok(out) && out.to_multiset()
            == input.to_multiset(),
{
    let n = input.len();
    let r = |i: int| spec_rotate90_index(W as int, H as int, C as int, i);
    assert(H * W * C == W * H * C) by (nonlinear_arith);
    assert forall|i: int| 0 <= i < n implies 0 <= #[trigger] r(i) < n by {
        lemma_rotate90_twice_index(H as int, W as int, C as int, i);
    }
    assert forall|i: int, j: int| 0 <= i < n && 0 <= j < n && #[trigger] r(i) == #[trigger] r(
        j,
    ) implies i == j by {
        lemma_rotate90_twice_index(H as int, W as int, C as int, i);
        lemma_rotate90_twice_index(H as int, W as int, C as int, j);
        lemma_rotate180_index_involution(H as int, W as int, C as int, i);
        lemma_rotate180_index_involution(H as int, W as int, C as int, j);
    }
    lemma_gather_permutes(input, n, r);
}

/// A pipeline rejects inputs whose result would not fit its scratch
/// buffers: a point-wise head longer input than the buffers, or a
/// transform head whose output would be longer, fails with
/// `InvalidOutputSize`.
pub proof fn lemma_head_rejects_oversized<T: Float, E: ElementOp<T>, U: TransformOp<T>, const LEN: usize>(
    element_head: Head<E, Element, LEN>,
    transform_head: Head<U, Transform, LEN>,
    data: Seq<T>,
    cap: nat,
    handling: NanHandling,
)
    requires
        data.len() <= usize::MAX,
    ensures
        (LEN == 0 || data.len() == LEN) && data.len() > cap ==> element_head.spec_run(
            data,
            cap,
            handling,
        ) == Err::<Seq<T>, ErrorKind>(ErrorKind::InvalidOutputSize),
        ({
            let d = data.len() as usize;
            let n = transform_head.root_op.spec_out_len(d);
            &&& U::IN_LEN == 0 || data.len() == U::IN_LEN
            &&& transform_head.root_op.spec_in_len(d) == d
            &&& d > 0
            &&& n > cap
        }) ==> transform_head.spec_run(data, cap, handling) == Err::<Seq<T>, ErrorKind>(
            ErrorKind::InvalidOutputSize,
        ),
{
}

// ---------------------------------------------------------------------------
// Laws of the pipe builders
// ---------------------------------------------------------------------------

/// `apply_element` on a point-wise head: the added operation runs on what
/// the head produced. When the old head yields `y`, the new head's outcome
/// is that of the operation over `y` (its values, or the first error it
/// meets); and the new head succeeds only where the old one does.
pub proof fn lemma_apply_element_after_element_head<
    T: Float,
    U: ElementOp<T>,
    V: ElementOp<T>,
    const INPUT_LEN: usize,
>(
    old_head: Head<U, Element, INPUT_LEN>,
    op: V,
    new_head: Head<Fused<U, V, ElementElement>, Element, INPUT_LEN>,
    data: Seq<T>,
    cap: nat,
    handling: NanHandling,
)
    requires
        new_head.root_op.prev_op == old_head.root_op,
        new_head.root_op.curr_op == op,
    ensures
        old_head.spec_run(data, cap, handling) matches Ok(y) ==> new_head.spec_run(
            data,
            cap,
            handling,
        ) == spec_element_stage(op, y, handling),
        new_head.spec_run(data, cap, handling) is Ok ==> old_head.spec_run(data, cap, handling) is Ok,
{
    lemma_element_fusion(new_head.root_op, data, handling);
}

/// `apply_element` on a point-wise link: as for a head, the added operation
/// runs on what the link produced.
pub proof fn lemma_apply_element_after_element_link<
    T: Float,
    U: ElementOp<T>,
    V: ElementOp<T>,
    S: Stage<T>,
>(
    old_link: Link<U, S, Element, T>,
    op: V,
    new_link: Link<Fused<U, V, ElementElement>, S, Element, T>,
    data: Seq<T>,
    cap: nat,
    handling: NanHandling,
)
    requires
        new_link.prev_stage == old_link.prev_stage,
        new_link.curr_op.prev_op == old_link.curr_op,
        new_link.curr_op.curr_op == op,
    ensures
        old_link.spec_run(data, cap, handling) matches Ok(y) ==> new_link.spec_run(
            data,
            cap,
            handling,
        ) == spec_element_stage(op, y, handling),
        new_link.spec_run(data, cap, handling) is Ok ==> old_link.spec_run(data, cap, handling) is Ok,
{
    if old_link.prev_stage.spec_run(data, cap, handling) is Ok {
        let p = old_link.prev_stage.spec_run(data, cap, handling)->Ok_0;
        lemma_element_fusion(new_link.curr_op, p, handling);
    }
}

/// `apply_element` on a transform head: for a transform whose `compute`
/// agrees with its `execute` on `data`, the added operation runs on what
/// the transform produced, and the new head succeeds only where the old
/// one does.
pub proof fn lemma_apply_element_after_transform_head<
    T: Float,
    U: TransformOp<T>,
    V: ElementOp<T>,
    const INPUT_LEN: usize,
>(
    old_head: Head<U, Transform, INPUT_LEN>,
    op: V,
    new_head: Head<Fused<U, V, TransformElement>, Transform, INPUT_LEN>,
    data: Seq<T>,
    cap: nat,
    handling: NanHandling,
)
    requires
        new_head.root_op.prev_op == old_head.root_op,
        new_head.root_op.curr_op == op,
        spec_compute_agrees(
            old_head.root_op,
            data,
            old_head.root_op.spec_out_len(data.len() as usize) as nat,
            handling,
        ),
    ensures
        old_head.spec_run(data, cap, handling) matches Ok(y) ==> new_head.spec_run(
            data,
            cap,
            handling,
        ) == spec_element_stage(op, y, handling),
        new_head.spec_run(data, cap, handling) is Ok ==> old_head.spec_run(data, cap, handling) is Ok,
{
    lemma_transform_element_static_lengths::<T, U, V>();
    lemma_transform_element_fusion(
        new_head.root_op,
        data,
        old_head.root_op.spec_out_len(data.len() as usize) as nat,
        handling,
    );
}

/// `apply_element` on a transform link: for a transform whose `compute`
/// agrees with its `execute` on what the earlier stages produce, the added
/// operation runs on what the link produced, and the new link succeeds
/// only where the old one does.
pub proof fn lemma_apply_element_after_transform_link<
    T: Float,
    U: TransformOp<T>,
    V: ElementOp<T>,
    S: Stage<T>,
>(
    old_link: Link<U, S, Transform, T>,
    op: V,
    new_link: Link<Fused<U, V, TransformElement>, S, Transform, T>,
    data: Seq<T>,
    cap: nat,
    handling: NanHandling,
)
    requires
        new_link.prev_stage == old_link.prev_stage,
        new_link.curr_op.prev_op == old_link.curr_op,
        new_link.curr_op.curr_op == op,
        old_link.prev_stage.spec_run(data, cap, handling) matches Ok(p) ==> spec_compute_agrees(
            old_link.curr_op,
            p,
            old_link.curr_op.spec_out_len(p.len() as usize) as nat,
            handling,
        ),
    ensures
        old_link.spec_run(data, cap, handling) matches Ok(y) ==> new_link.spec_run(
            data,
            cap,
            handling,
        ) == spec_element_stage(op, y, handling),
        new_link.spec_run(data, cap, handling) is Ok ==> old_link.spec_run(data, cap, handling) is Ok,
{
    lemma_transform_element_static_lengths::<T, U, V>();
    if old_link.prev_stage.spec_run(data, cap, handling) is Ok {
        let p = old_link.prev_stage.spec_run(data, cap, handling)->Ok_0;
        lemma_transform_element_fusion(
            new_link.curr_op,
            p,
            old_link.curr_op.spec_out_len(p.len() as usize) as nat,
            handling,
        );
    }
}

/// Whether transform `b`, run on what transform `a` makes of `data`, reads
/// each of its output elements where its `map_index` points and computes
/// them as its `execute` does, and `a` computes as its `execute` does.
pub open spec fn spec_fusable_on<T: Float, A: TransformOp<T>, B: TransformOp<T>>(
    a: A,
    b: B,
    data: Seq<T>,
    handling: NanHandling,
) -> bool {
    let m = a.spec_out_len(data.len() as usize);
    &&& spec_compute_agrees(a, data, m as nat, handling)
    &&& a.spec_apply(data, m as nat, handling) matches Ok(mid) ==> {
        &&& spec_reads_at_map_index(b, mid, b.spec_out_len(m) as nat, handling)
        &&& spec_compute_agrees(b, mid, b.spec_out_len(m) as nat, handling)
    }
}

/// `apply_transform_fusable` on a transform head: fusing two index
/// remappings gives what adding the second one as a stage of its own
/// gives, wherever that succeeds (same length, same values).
pub proof fn lemma_apply_transform_fusable_head<
    T: Float,
    A: TransformOp<T>,
    B: TransformOp<T>,
    const INPUT_LEN: usize,
>(
    separate: Link<B, Head<A, Transform, INPUT_LEN>, Transform, T>,
    fused: Head<Fused<A, B, TransformTransform>, Transform, INPUT_LEN>,
    data: Seq<T>,
    cap: nat,
    handling: NanHandling,
) where A::IndexRemapping: IsTrue, B::IndexRemapping: IsTrue
    requires
        fused.root_op.prev_op == separate.prev_stage.root_op,
        fused.root_op.curr_op == separate.curr_op,
        spec_fusable_on(separate.prev_stage.root_op, separate.curr_op, data, handling),
    ensures
        separate.spec_run(data, cap, handling) is Ok ==> fused.spec_run(data, cap, handling)
            == separate.spec_run(data, cap, handling),
{
    lemma_transform_transform_static_lengths::<T, A, B>();
    lemma_transform_head_static_lengths::<T, A, INPUT_LEN>();
    let a = separate.prev_stage.root_op;
    let b = separate.curr_op;
    if separate.spec_run(data, cap, handling) is Ok {
        let d = data.len() as usize;
        let m = a.spec_out_len(d);
        lemma_collect_ok(m as nat, |i: int| a.spec_compute(data, i, handling));
        let mid = a.spec_apply(data, m as nat, handling)->Ok_0;
        lemma_transform_fusion(fused.root_op, data, mid, b.spec_out_len(m) as nat, handling);
    }
}

/// `apply_transform_fusable` on a transform link: as for a head, fusing
/// two index remappings gives what adding the second one as a stage of its
/// own gives, wherever that succeeds.
pub proof fn lemma_apply_transform_fusable_link<
    T: Float,
    A: TransformOp<T>,
    B: TransformOp<T>,
    S: Stage<T>,
>(
    separate: Link<B, Link<A, S, Transform, T>, Transform, T>,
    fused: Link<Fused<A, B, TransformTransform>, S, Transform, T>,
    data: Seq<T>,
    cap: nat,
    handling: NanHandling,
) where A::IndexRemapping: IsTrue, B::IndexRemapping: IsTrue
    requires
        fused.prev_stage == separate.prev_stage.prev_stage,
        fused.curr_op.prev_op == separate.prev_stage.curr_op,
        fused.curr_op.curr_op == separate.curr_op,
        fused.prev_stage.spec_run(data, cap, handling) matches Ok(p) ==> spec_fusable_on(
            separate.prev_stage.curr_op,
            separate.curr_op,
            p,
            handling,
        ),
    ensures
        separate.spec_run(data, cap, handling) is Ok ==> fused.spec_run(data, cap, handling)
            == separate.spec_run(data, cap, handling),
{
    lemma_transform_transform_static_lengths::<T, A, B>();
    lemma_transform_link_static_lengths::<T, A, S>();
    let a = separate.prev_stage.curr_op;
    let b = separate.curr_op;
    if separate.spec_run(data, cap, handling) is Ok {
        let p = fused.prev_stage.spec_run(data, cap, handling)->Ok_0;
        let d = p.len() as usize;
        let m = a.spec_out_len(d);
        lemma_collect_ok(m as nat, |i: int| a.spec_compute(p, i, handling));
        let mid = a.spec_apply(p, m as nat, handling)->Ok_0;
        lemma_transform_fusion(fused.curr_op, p, mid, b.spec_out_len(m) as nat, handling);
    }
}

/// The layout conversions' index maps are mutually inverse permutations
/// of the indices of a `W x H x C` image, and an element keeps its channel:
/// the planar channel of an output index is the interleaved channel of the
/// index it is read from, and the other way round. So normalizing each
/// channel of an interleaved image gives what normalizing the planar form
/// and converting back gives.
pub proof fn lemma_layout_maps_keep_channels<T: Float, const W: usize, const H: usize, const C: usize>(
    to_planar: HwcToChw<W, H, C, T>,
    to_interleaved: ChwToHwc<W, H, C, T>,
    i: int,
    default_len: usize,
)
    requires
        0 <= i < W * H * C,
    ensures
        0 <= to_planar.spec_map_index(i, default_len) < W * H * C,
        0 <= to_interleaved.spec_map_index(i, default_len) < W * H * C,
        to_planar.spec_map_index(to_interleaved.spec_map_index(i, default_len), default_len) == i,
        to_interleaved.spec_map_index(to_planar.spec_map_index(i, default_len), default_len) == i,
        spec_channel_of(ChannelLayout::Chw, i, W as int, H as int, C as int) == spec_channel_of(
            ChannelLayout::Hwc,
            to_planar.spec_map_index(i, default_len),
            W as int,
            H as int,
            C as int,
        ),
        spec_channel_of(ChannelLayout::Hwc, i, W as int, H as int, C as int) == spec_channel_of(
            ChannelLayout::Chw,
            to_interleaved.spec_map_index(i, default_len),
            W as int,
            H as int,
            C as int,
        ),
{
    let w = W as int;
    let h = H as int;
    let c = C as int;
    lemma_layout_index_roundtrip(w, h, c, i);
    lemma_split_pixel(i, w, h, c);
    assert(w * h >= 0) by (nonlinear_arith)
        requires
            w >= 0,
            h >= 0,
    ;
    let wh = w * h;
    assert(w * h * c == wh * c);
    lemma_split(i, wh, c);
    // planar output `i` reads interleaved `(i % wh) * c + i / wh`
    lemma_div_mod_of(i % wh, c, i / wh);
    // interleaved output `i` reads planar `(i % c) * wh + i / c`
    lemma_div_mod_of(i % c, wh, i / c);
}

/// A clockwise quarter turn of a `w x h` image with `c` channels (the
/// result is `h` pixels wide and `w` tall) reads output pixel `(x, y)`
/// from input pixel `(y, h - 1 - x)`, and keeps the channel: the index it
/// reads, split into pixel and channel of the input image, is that pixel
/// and the output element's own channel.
pub proof fn lemma_rotate90_reads_turned_pixel(w: int, h: int, c: int, i: int)
    requires
        w >= 0,
        h >= 0,
        c >= 0,
        0 <= i < w * h * c,
    ensures
        ({
            let j = spec_rotate90_index(w, h, c, i);
            let x = (i / c) % h;
            let y = (i / c) / h;
            &&& 0 <= j < w * h * c
            &&& j % c == i % c
            &&& (j / c) % w == y
            &&& (j / c) / w == h - 1 - x
        }),
{
    lemma_split_pixel(i, w, h, c);
    let ch = i % c;
    let p = i / c;
    assert(w * h == h * w) by (nonlinear_arith);
    lemma_split(p, h, w);
    let x = p % h;
    let y = p / h;
    lemma_grid(w, h, c, y, h - 1 - x, ch);
    lemma_div_mod_of((h - 1 - x) * w + y, c, ch);
    lemma_div_mod_of(h - 1 - x, w, y);
}

/// What `Rotate90` computes: every output element is the input element
/// its `map_index` names, and that index is the quarter-turned pixel with
/// the output element's own channel (see
/// [`lemma_rotate90_reads_turned_pixel`]); so a single turn keeps each
/// pixel's channels in order.
pub proof fn lemma_rotate90_output<T: Float, const W: usize, const H: usize, const C: usize>(
    op: Rotate90<W, H, C, T>,
    input: Seq<T>,
    handling: NanHandling,
)
    requires
        input.len() == spec_volume(W, H, C),
    ensures
        op.spec_apply(input, input.len(), handling) matches Ok(out) && out.len() == input.len()
            && forall|i: int|
            0 <= i < out.len() ==> {
                let j = #[trigger] op.spec_map_index(i, input.len() as usize);
                &&& 0 <= j < input.len()
                &&& out[i] == input[j]
                &&& j % (C as int) == i % (C as int)
                &&& (j / (C as int)) % (W as int) == (i / (C as int)) / (H as int)
                &&& (j / (C as int)) / (W as int) == H - 1 - (i / (C as int)) % (H as int)
            },
{
    let n = input.len();
    lemma_rotate90_compute_agrees(op, input, handling);
    assert forall|i: int| 0 <= i < n implies #[trigger] op.spec_compute(input, i, handling) is Ok by {
        lemma_rotate90_reads_turned_pixel(W as int, H as int, C as int, i);
    }
    lemma_collect_all_ok(n, |i: int| op.spec_compute(input, i, handling));
    assert forall|i: int| 0 <= i < n implies {
        let j = #[trigger] op.spec_map_index(i, input.len() as usize);
        &&& 0 <= j < input.len()
        &&& j % (C as int) == i % (C as int)
        &&& (j / (C as int)) % (W as int) == (i / (C as int)) / (H as int)
        &&& (j / (C as int)) / (W as int) == H - 1 - (i / (C as int)) % (H as int)
    } by {
        lemma_rotate90_reads_turned_pixel(W as int, H as int, C as int, i);
    }
}

// ---------------------------------------------------------------------------
// What each image operation computes, pixel by pixel
// ---------------------------------------------------------------------------

/// An operation whose first `n` elements can all be computed, and whose
/// element-wise computing agrees with the whole operation, produces
/// exactly those elements.
proof fn lemma_apply_computes<T: Float, U: TransformOp<T>>(
    op: U,
    input: Seq<T>,
    n: nat,
    handling: NanHandling,
)
    requires
        spec_compute_agrees(op, input, n, handling),
        forall|i: int| 0 <= i < n ==> #[trigger] op.spec_compute(input, i, handling) is Ok,
    ensures
        op.spec_apply(input, n, handling) matches Ok(out) && out.len() == n && forall|i: int|
            0 <= i < n ==> Ok::<T, ErrorKind>(#[trigger] out[i]) == op.spec_compute(
                input,
                i,
                handling,
            ),
{
    lemma_collect_all_ok(n, |i: int| op.spec_compute(input, i, handling));
}

/// Index of pixel `(x, y)`, channel `ch`, of a planar `w x h` image: the
/// channel planes one after the other, each row-major.
pub open spec fn spec_planar_index(w: int, h: int, x: int, y: int, ch: int) -> int {
    (ch * h + y) * w + x
}

/// A horizontal flip mirrors every row: output pixel `(x, y)` is input
/// pixel `(w - 1 - x, y)`, channel by channel.
pub proof fn lemma_flip_horizontal_mirrors_rows<T: Float, const W: usize, const H: usize, const C: usize>(
    op: FlipHorizontal<W, H, C, T>,
    input: Seq<T>,
    handling: NanHandling,
)
    requires
        W * H * C <= usize::MAX,
        input.len() == W * H * C,
    ensures
        op.spec_apply(input, input.len(), handling) matches Ok(out) && out.len() == input.len()
            && forall|x: int, y: int, ch: int|
            0 <= x < W && 0 <= y < H && 0 <= ch < C ==> #[trigger] out[spec_grid_index(
                W as int,
                C as int,
                x,
                y,
                ch,
            )] == input[spec_grid_index(W as int, C as int, W - 1 - x, y, ch)],
{
    let n = input.len();
    lemma_flip_horizontal_compute_agrees(op, input, handling);
    assert forall|i: int| 0 <= i < n implies #[trigger] op.spec_compute(input, i, handling) is Ok by {
        lemma_flip_horizontal_index_involution(W as int, H as int, C as int, i);
    }
    lemma_apply_computes(op, input, n, handling);
    let out = op.spec_apply(input, n, handling)->Ok_0;
    assert forall|x: int, y: int, ch: int| 0 <= x < W && 0 <= y < H && 0 <= ch < C implies #[trigger] out[spec_grid_index(
        W as int,
        C as int,
        x,
        y,
        ch,
    )] == input[spec_grid_index(W as int, C as int, W - 1 - x, y, ch)] by {
        let i = spec_grid_index(W as int, C as int, x, y, ch);
        lemma_grid(W as int, H as int, C as int, x, y, ch);
        lemma_compose(W as int, C as int, x, y, ch);
        lemma_grid(W as int, H as int, C as int, W - 1 - x, y, ch);
        assert(op.spec_compute(input, i, handling) is Ok);
    }
}

/// A vertical flip mirrors every column: output pixel `(x, y)` is input
/// pixel `(x, h - 1 - y)`, channel by channel.
pub proof fn lemma_flip_vertical_mirrors_columns<T: Float, const W: usize, const H: usize, const C: usize>(
    op: FlipVertical<W, H, C, T>,
    input: Seq<T>,
    handling: NanHandling,
)
    requires
        W * H * C <= usize::MAX,
        input.len() == W * H * C,
    ensures
        op.spec_apply(input, input.len(), handling) matches Ok(out) && out.len() == input.len()
            && forall|x: int, y: int, ch: int|
            0 <= x < W && 0 <= y < H && 0 <= ch < C ==> #[trigger] out[spec_grid_index(
                W as int,
                C as int,
                x,
                y,
                ch,
            )] == input[spec_grid_index(W as int, C as int, x, H - 1 - y, ch)],
{
    let n = input.len();
    lemma_flip_vertical_compute_agrees(op, input, handling);
    assert forall|i: int| 0 <= i < n implies #[trigger] op.spec_compute(input, i, handling) is Ok by {
        lemma_flip_vertical_index_involution(W as int, H as int, C as int, i);
    }
    lemma_apply_computes(op, input, n, handling);
    let out = op.spec_apply(input, n, handling)->Ok_0;
    assert forall|x: int, y: int, ch: int| 0 <= x < W && 0 <= y < H && 0 <= ch < C implies #[trigger] out[spec_grid_index(
        W as int,
        C as int,
        x,
        y,
        ch,
    )] == input[spec_grid_index(W as int, C as int, x, H - 1 - y, ch)] by {
        let i = spec_grid_index(W as int, C as int, x, y, ch);
        lemma_grid(W as int, H as int, C as int, x, y, ch);
        lemma_compose(W as int, C as int, x, y, ch);
        lemma_grid(W as int, H as int, C as int, x, H - 1 - y, ch);
        assert(op.spec_compute(input, i, handling) is Ok);
    }
}

/// Converting an interleaved image to planar moves every element to the
/// plane of its channel: output pixel `(x, y)` of plane `ch` is input
/// pixel `(x, y)`, channel `ch`.
pub proof fn lemma_hwc_to_chw_moves_to_planes<T: Float, const W: usize, const H: usize, const C: usize>(
    op: HwcToChw<W, H, C, T>,
    input: Seq<T>,
    handling: NanHandling,
)
    requires
        W * H * C <= usize::MAX,
        input.len() == W * H * C,
    ensures
        op.spec_apply(input, input.len(), handling) matches Ok(out) && out.len() == input.len()
            && forall|x: int, y: int, ch: int|
            0 <= x < W && 0 <= y < H && 0 <= ch < C ==> #[trigger] out[spec_planar_index(
                W as int,
                H as int,
                x,
                y,
                ch,
            )] == input[spec_grid_index(W as int, C as int, x, y, ch)],
{
    let n = input.len();
    lemma_hwc_to_chw_compute_agrees(op, input, handling);
    assert forall|i: int| 0 <= i < n implies #[trigger] op.spec_compute(input, i, handling) is Ok by {
        lemma_layout_index_roundtrip(W as int, H as int, C as int, i);
    }
    lemma_apply_computes(op, input, n, handling);
    let out = op.spec_apply(input, n, handling)->Ok_0;
    assert forall|x: int, y: int, ch: int| 0 <= x < W && 0 <= y < H && 0 <= ch < C implies #[trigger] out[spec_planar_index(
        W as int,
        H as int,
        x,
        y,
        ch,
    )] == input[spec_grid_index(W as int, C as int, x, y, ch)] by {
        let w = W as int;
        let h = H as int;
        let c = C as int;
        let k = spec_planar_index(w, h, x, y, ch);
        lemma_grid(w, h, c, x, y, ch);
        assert(k == ch * (w * h) + (y * w + x)) by (nonlinear_arith)
            requires
                k == (ch * h + y) * w + x,
        ;
        assert(0 <= k < w * h * c) by (nonlinear_arith)
            requires
                k == ch * (w * h) + (y * w + x),
                0 <= y * w + x < w * h,
                0 <= ch < c,
        ;
        lemma_div_mod_of(ch, w * h, y * w + x);
        assert(op.spec_compute(input, k, handling) is Ok);
    }
}

/// Converting a planar image to interleaved gathers every pixel's
/// channels: output pixel `(x, y)`, channel `ch`, is pixel `(x, y)` of
/// input plane `ch`.
pub proof fn lemma_chw_to_hwc_gathers_channels<T: Float, const W: usize, const H: usize, const C: usize>(
    op: ChwToHwc<W, H, C, T>,
    input: Seq<T>,
    handling: NanHandling,
)
    requires
        W * H * C <= usize::MAX,
        input.len() == W * H * C,
    ensures
        op.spec_apply(input, input.len(), handling) matches Ok(out) && out.len() == input.len()
            && forall|x: int, y: int, ch: int|
            0 <= x < W && 0 <= y < H && 0 <= ch < C ==> #[trigger] out[spec_grid_index(
                W as int,
                C as int,
                x,
                y,
                ch,
            )] == input[spec_planar_index(W as int, H as int, x, y, ch)],
{
    let n = input.len();
    lemma_chw_to_hwc_compute_agrees(op, input, handling);
    assert forall|i: int| 0 <= i < n implies #[trigger] op.spec_compute(input, i, handling) is Ok by {
        lemma_layout_index_roundtrip(W as int, H as int, C as int, i);
    }
    lemma_apply_computes(op, input, n, handling);
    let out = op.spec_apply(input, n, handling)->Ok_0;
    assert forall|x: int, y: int, ch: int| 0 <= x < W && 0 <= y < H && 0 <= ch < C implies #[trigger] out[spec_grid_index(
        W as int,
        C as int,
        x,
        y,
        ch,
    )] == input[spec_planar_index(W as int, H as int, x, y, ch)] by {
        let w = W as int;
        let h = H as int;
        let c = C as int;
        let i = spec_grid_index(w, c, x, y, ch);
        lemma_grid(w, h, c, x, y, ch);
        lemma_compose(w, c, x, y, ch);
        assert(spec_planar_index(w, h, x, y, ch) == ch * (w * h) + (y * w + x)) by (nonlinear_arith);
        assert(op.spec_compute(input, i, handling) is Ok);
    }
}

/// Transposing a row-major `ROWS x COLS` matrix puts the element of row
/// `r`, column `c` at row `c`, column `r` of the `COLS x ROWS` result.
pub proof fn lemma_transpose_swaps_rows_and_columns<T: Float, const R: usize, const C: usize>(
    op: Transpose<R, C>,
    input: Seq<T>,
    handling: NanHandling,
)
    requires
        R * C <= usize::MAX,
        input.len() == R * C,
    ensures
        TransformOp::<T>::spec_apply(&op, input, input.len(), handling) matches Ok(out)
            && out.len() == input.len() && forall|r: int, c: int|
            0 <= r < R && 0 <= c < C ==> #[trigger] out[c * R + r] == input[r * C + c],
{
    let n = input.len();
    lemma_transpose_compute_agrees::<T, R, C>(op, input, handling);
    assert forall|i: int| 0 <= i < n implies #[trigger] TransformOp::<T>::spec_compute(
        &op,
        input,
        i,
        handling,
    ) is Ok by {
        lemma_transpose_index_bound(R as int, C as int, i);
    }
    lemma_apply_computes::<T, _>(op, input, n, handling);
    let out = TransformOp::<T>::spec_apply(&op, input, n, handling)->Ok_0;
    assert forall|r: int, c: int| 0 <= r < R && 0 <= c < C implies #[trigger] out[c * R + r]
        == input[r * C + c] by {
        let i = c * R + r;
        assert(0 <= i < R * C) by (nonlinear_arith)
            requires
                i == c * R + r,
                0 <= r < R,
                0 <= c < C,
        ;
        lemma_div_mod_of(c, R as int, r);
        assert(TransformOp::<T>::spec_compute(&op, input, i, handling) is Ok);
    }
}

/// Reversing gives the input read back to front.
pub proof fn lemma_reverse_is_reversal<T: Float, const LEN: usize>(
    op: Reverse<LEN>,
    input: Seq<T>,
    handling: NanHandling,
)
    requires
        input.len() <= usize::MAX,
        LEN == 0 || LEN == input.len(),
    ensures
        TransformOp::<T>::spec_apply(&op, input, input.len(), handling) == Ok::<Seq<T>, ErrorKind>(
            input.reverse(),
        ),
{
    let out = TransformOp::<T>::spec_apply(&op, input, input.len(), handling)->Ok_0;
    assert(out =~= input.reverse());
}

/// A crop copies the window at its offsets: output pixel `(x, y)` is
/// input pixel `(offset_x + x, offset_y + y)`, channel by channel.
pub proof fn lemma_crop_copies_window<
    T: Float,
    const IN_W: usize,
    const IN_H: usize,
    const IN_C: usize,
    const OUT_W: usize,
    const OUT_H: usize,
>(op: Crop<IN_W, IN_H, IN_C, OUT_W, OUT_H, T>, input: Seq<T>, handling: NanHandling)
    requires
        IN_W * IN_H * IN_C <= usize::MAX,
        OUT_W * OUT_H * IN_C <= usize::MAX,
        input.len() == IN_W * IN_H * IN_C,
        input.len() > 0,
        op.spec_offset_x() + OUT_W <= IN_W,
        op.spec_offset_y() + OUT_H <= IN_H,
    ensures
        op.spec_apply(input, (OUT_W * OUT_H * IN_C) as nat, handling) matches Ok(out) && out.len()
            == OUT_W * OUT_H * IN_C && forall|x: int, y: int, ch: int|
            0 <= x < OUT_W && 0 <= y < OUT_H && 0 <= ch < IN_C ==> #[trigger] out[spec_grid_index(
                OUT_W as int,
                IN_C as int,
                x,
                y,
                ch,
            )] == input[spec_grid_index(
                IN_W as int,
                IN_C as int,
                op.spec_offset_x() + x,
                op.spec_offset_y() + y,
                ch,
            )],
{
    let n = (OUT_W * OUT_H * IN_C) as nat;
    lemma_crop_compute_agrees(op, input, handling);
    let f = |i: int| op.spec_compute(input, i, handling);
    assert forall|i: int| 0 <= i < n implies #[trigger] op.spec_compute(input, i, handling) is Ok by {
        lemma_crop_index_in_bounds(
            IN_W as int,
            IN_H as int,
            IN_C as int,
            OUT_W as int,
            OUT_H as int,
            op.spec_offset_x() as int,
            op.spec_offset_y() as int,
            i,
        );
    }
    lemma_apply_computes(op, input, n, handling);
    let out = op.spec_apply(input, n, handling)->Ok_0;
    assert forall|x: int, y: int, ch: int|
        0 <= x < OUT_W && 0 <= y < OUT_H && 0 <= ch < IN_C implies #[trigger] out[spec_grid_index(
        OUT_W as int,
        IN_C as int,
        x,
        y,
        ch,
    )] == input[spec_grid_index(
        IN_W as int,
        IN_C as int,
        op.spec_offset_x() + x,
        op.spec_offset_y() + y,
        ch,
    )] by {
        let i = spec_grid_index(OUT_W as int, IN_C as int, x, y, ch);
        lemma_grid(OUT_W as int, OUT_H as int, IN_C as int, x, y, ch);
        lemma_compose(OUT_W as int, IN_C as int, x, y, ch);
        lemma_grid(
            IN_W as int,
            IN_H as int,
            IN_C as int,
            op.spec_offset_x() + x,
            op.spec_offset_y() + y,
            ch,
        );
        assert(op.spec_compute(input, i, handling) is Ok);
    }
}

/// A nearest-neighbour rescale reads output pixel `(x, y)` from input
/// pixel `(x * IN_W / OUT_W, y * IN_H / OUT_H)` (each coordinate scaled
/// and rounded down), channel by channel.
pub proof fn lemma_scale2d_samples_nearest<
    T: Float,
    const IN_W: usize,
    const IN_H: usize,
    const IN_C: usize,
    const OUT_W: usize,
    const OUT_H: usize,
    const OUT_C: usize,
>(op: Scale2D<IN_W, IN_H, IN_C, OUT_W, OUT_H, OUT_C, T>, input: Seq<T>, handling: NanHandling)
    requires
        IN_W * IN_H * IN_C <= usize::MAX,
        OUT_W * OUT_H * OUT_C <= usize::MAX,
        input.len() == IN_W * IN_H * IN_C,
        input.len() > 0,
        OUT_C <= IN_C,
    ensures
        op.spec_apply(input, (OUT_W * OUT_H * OUT_C) as nat, handling) matches Ok(out)
            && out.len() == OUT_W * OUT_H * OUT_C && forall|x: int, y: int, ch: int|
            0 <= x < OUT_W && 0 <= y < OUT_H && 0 <= ch < OUT_C ==> #[trigger] out[spec_grid_index(
                OUT_W as int,
                OUT_C as int,
                x,
                y,
                ch,
            )] == input[spec_grid_index(
                IN_W as int,
                IN_C as int,
                (x * IN_W) / (OUT_W as int),
                (y * IN_H) / (OUT_H as int),
                ch,
            )],
{
    let n = (OUT_W * OUT_H * OUT_C) as nat;
    lemma_scale2d_compute_agrees(op, input, handling);
    assert forall|i: int| 0 <= i < n implies #[trigger] op.spec_compute(input, i, handling) is Ok by {
        assert(IN_W > 0 && IN_H > 0 && IN_C > 0) by (nonlinear_arith)
            requires
                IN_W * IN_H * IN_C > 0,
        ;
        assert(OUT_C > 0) by (nonlinear_arith)
            requires
                0 <= i < OUT_W * OUT_H * OUT_C,
        ;
        lemma_nearest_index_in_bounds(
            IN_W as int,
            IN_H as int,
            IN_C as int,
            OUT_W as int,
            OUT_H as int,
            OUT_C as int,
            i,
        );
    }
    lemma_apply_computes(op, input, n, handling);
    let out = op.spec_apply(input, n, handling)->Ok_0;
    assert forall|x: int, y: int, ch: int|
        0 <= x < OUT_W && 0 <= y < OUT_H && 0 <= ch < OUT_C implies #[trigger] out[spec_grid_index(
        OUT_W as int,
        OUT_C as int,
        x,
        y,
        ch,
    )] == input[spec_grid_index(
        IN_W as int,
        IN_C as int,
        (x * IN_W) / (OUT_W as int),
        (y * IN_H) / (OUT_H as int),
        ch,
    )] by {
        let i = spec_grid_index(OUT_W as int, OUT_C as int, x, y, ch);
        lemma_grid(OUT_W as int, OUT_H as int, OUT_C as int, x, y, ch);
        lemma_compose(OUT_W as int, OUT_C as int, x, y, ch);
        assert(op.spec_compute(input, i, handling) is Ok);
    }
}

/// Whether `v` is `len * num / den` rounded half up, clamped to
/// `1..=out`: `v` lies in `1..=out`, is no further than half a pixel below
/// the exact extent unless it is clamped to `out`, and no further than
/// half a pixel above it unless it is clamped to 1.
pub open spec fn spec_rounds_to_extent(v: int, len: int, num: int, den: int, out: int) -> bool {
    &&& 1 <= v <= out
    &&& v == out || 2 * len * num < den * (2 * v + 1)
    &&& v == 1 || den * (2 * v - 1) <= 2 * len * num
}

/// `v` is `len * num / den` rounded half up and clamped to `1..=out`.
proof fn lemma_extent_rounds(len: int, num: int, den: int, out: int)
    requires
        len >= 0,
        num >= 0,
        den > 0,
        out >= 1,
    ensures
        spec_rounds_to_extent(
            crate::image::spec_letterbox_extent(len, num, den, out),
            len,
            num,
            den,
            out,
        ),
{
    let x = 2 * len * num + den;
    let d = 2 * den;
    vstd::arithmetic::div_mod::lemma_fundamental_div_mod(x, d);
    vstd::arithmetic::div_mod::lemma_mod_bound(x, d);
    let q = x / d;
    assert(d * q <= x < d * q + d);
    assert(den * (2 * q - 1) <= 2 * len * num < den * (2 * q + 1)) by (nonlinear_arith)
        requires
            d == 2 * den,
            x == 2 * len * num + den,
            d * q <= x < d * q + d,
    ;
    let v = crate::image::spec_letterbox_extent(len, num, den, out);
    if q < 1 {
        assert(v == 1);
        assert(den * (2 * q + 1) <= den * 3) by (nonlinear_arith)
            requires
                q < 1,
                den > 0,
        ;
    } else if q > out {
        assert(v == out);
        assert(den * (2 * out - 1) <= den * (2 * q - 1)) by (nonlinear_arith)
            requires
                q > out,
                den > 0,
        ;
    }
}

/// A letterbox's window: the scale is the smaller of the two axis ratios
/// `OUT_W / IN_W` and `OUT_H / IN_H` (so the scaled image fits on both
/// axes), each scaled extent is the input extent times that scale rounded
/// half up (clamped to the output), and the window is centered, with any
/// odd pixel left over on the right or at the bottom.
pub proof fn lemma_letterbox_window<
    T: Float,
    const IN_W: usize,
    const IN_H: usize,
    const C: usize,
    const OUT_W: usize,
    const OUT_H: usize,
>()
    requires
        IN_W > 0,
        IN_H > 0,
        OUT_W > 0,
        OUT_H > 0,
    ensures
        ({
            let (num, den) = spec_letterbox_ratio(
                IN_W as int,
                IN_H as int,
                OUT_W as int,
                OUT_H as int,
            );
            let sw = Letterbox::<IN_W, IN_H, C, OUT_W, OUT_H, T>::spec_scaled_w();
            let sh = Letterbox::<IN_W, IN_H, C, OUT_W, OUT_H, T>::spec_scaled_h();
            let ox = Letterbox::<IN_W, IN_H, C, OUT_W, OUT_H, T>::spec_offset_x();
            let oy = Letterbox::<IN_W, IN_H, C, OUT_W, OUT_H, T>::spec_offset_y();
            &&& (num == OUT_W && den == IN_W) || (num == OUT_H && den == IN_H)
            &&& num * IN_W <= OUT_W * den
            &&& num * IN_H <= OUT_H * den
            &&& spec_rounds_to_extent(sw, IN_W as int, num, den, OUT_W as int)
            &&& spec_rounds_to_extent(sh, IN_H as int, num, den, OUT_H as int)
            &&& 0 <= ox && (2 * ox + sw == OUT_W || 2 * ox + sw + 1 == OUT_W)
            &&& 0 <= oy && (2 * oy + sh == OUT_H || 2 * oy + sh + 1 == OUT_H)
        }),
{
    let (num, den) = spec_letterbox_ratio(IN_W as int, IN_H as int, OUT_W as int, OUT_H as int);
    if OUT_W * IN_H <= OUT_H * IN_W {
        assert(num * IN_W <= OUT_W * den) by (nonlinear_arith)
            requires
                num == OUT_W,
                den == IN_W,
        ;
        assert(num * IN_H <= OUT_H * den) by (nonlinear_arith)
            requires
                num == OUT_W,
                den == IN_W,
                OUT_W * IN_H <= OUT_H * IN_W,
        ;
    } else {
        assert(num * IN_H <= OUT_H * den) by (nonlinear_arith)
            requires
                num == OUT_H,
                den == IN_H,
        ;
        assert(num * IN_W <= OUT_W * den) by (nonlinear_arith)
            requires
                num == OUT_H,
                den == IN_H,
                OUT_W * IN_H > OUT_H * IN_W,
        ;
    }
    lemma_extent_rounds(IN_W as int, num, den, OUT_W as int);
    lemma_extent_rounds(IN_H as int, num, den, OUT_H as int);
}

/// A letterbox samples the window and pads around it: output pixel
/// `(x, y)` inside the `scaled_w x scaled_h` window at the offsets reads
/// input pixel `((x - offset_x) * IN_W / scaled_w, (y - offset_y) * IN_H /
/// scaled_h)`, channel by channel; every other output element is the pad
/// value.
pub proof fn lemma_letterbox_samples_window<
    T: Float,
    const IN_W: usize,
    const IN_H: usize,
    const C: usize,
    const OUT_W: usize,
    const OUT_H: usize,
>(op: Letterbox<IN_W, IN_H, C, OUT_W, OUT_H, T>, input: Seq<T>, handling: NanHandling)
    requires
        IN_W * IN_H * C <= usize::MAX,
        OUT_W * OUT_H * C <= usize::MAX,
        input.len() == IN_W * IN_H * C,
        input.len() > 0,
        OUT_W > 0,
        OUT_H > 0,
    ensures
        ({
            let sw = Letterbox::<IN_W, IN_H, C, OUT_W, OUT_H, T>::spec_scaled_w();
            let sh = Letterbox::<IN_W, IN_H, C, OUT_W, OUT_H, T>::spec_scaled_h();
            let ox = Letterbox::<IN_W, IN_H, C, OUT_W, OUT_H, T>::spec_offset_x();
            let oy = Letterbox::<IN_W, IN_H, C, OUT_W, OUT_H, T>::spec_offset_y();
            op.spec_apply(input, (OUT_W * OUT_H * C) as nat, handling) matches Ok(out)
                && out.len() == OUT_W * OUT_H * C && forall|x: int, y: int, ch: int|
                0 <= x < OUT_W && 0 <= y < OUT_H && 0 <= ch < C ==> #[trigger] out[spec_grid_index(
                    OUT_W as int,
                    C as int,
                    x,
                    y,
                    ch,
                )] == if ox <= x < ox + sw && oy <= y < oy + sh {
                    input[spec_grid_index(
                        IN_W as int,
                        C as int,
                        ((x - ox) * IN_W) / sw,
                        ((y - oy) * IN_H) / sh,
                        ch,
                    )]
                } else {
                    op.spec_pad_value()
                }
        }),
{
    assert(IN_W > 0 && IN_H > 0 && C > 0) by (nonlinear_arith)
        requires
            IN_W * IN_H * C > 0,
    ;
    let n = (OUT_W * OUT_H * C) as nat;
    lemma_letterbox_compute_agrees(op, input, handling);
    lemma_letterbox_window::<T, IN_W, IN_H, C, OUT_W, OUT_H>();
    let sw = Letterbox::<IN_W, IN_H, C, OUT_W, OUT_H, T>::spec_scaled_w();
    let sh = Letterbox::<IN_W, IN_H, C, OUT_W, OUT_H, T>::spec_scaled_h();
    let ox = Letterbox::<IN_W, IN_H, C, OUT_W, OUT_H, T>::spec_offset_x();
    let oy = Letterbox::<IN_W, IN_H, C, OUT_W, OUT_H, T>::spec_offset_y();
    assert forall|i: int| 0 <= i < n implies #[trigger] op.spec_compute(input, i, handling) is Ok by {
        lemma_letterbox_source_in_bounds(
            IN_W as int,
            IN_H as int,
            C as int,
            OUT_W as int,
            OUT_H as int,
            sw,
            sh,
            ox,
            oy,
            i,
        );
    }
    lemma_apply_computes(op, input, n, handling);
    let out = op.spec_apply(input, n, handling)->Ok_0;
    assert forall|x: int, y: int, ch: int| 0 <= x < OUT_W && 0 <= y < OUT_H && 0 <= ch < C implies #[trigger] out[spec_grid_index(
        OUT_W as int,
        C as int,
        x,
        y,
        ch,
    )] == if ox <= x < ox + sw && oy <= y < oy + sh {
        input[spec_grid_index(
            IN_W as int,
            C as int,
            ((x - ox) * IN_W) / sw,
            ((y - oy) * IN_H) / sh,
            ch,
        )]
    } else {
        op.spec_pad_value()
    } by {
        let i = spec_grid_index(OUT_W as int, C as int, x, y, ch);
        lemma_grid(OUT_W as int, OUT_H as int, C as int, x, y, ch);
        lemma_compose(OUT_W as int, C as int, x, y, ch);
        assert(op.spec_compute(input, i, handling) is Ok);
    }
}

} // verus!
