//! Length-changing and index-remapping operations on data vectors.
use vstd::prelude::*;
use crate::errors::{outcome_matches, ErrorKind, NanHandler, NanHandling, PipeError};
use crate::traits::{False, Float, IsTrue, TransformOp, True};

verus! {

/// Pad operation: copies the `SOURCE_LEN` input values and fills the rest
/// of the `PADDED_LEN` output with `pad_value`.
#[derive(Debug, Clone, Copy, PartialEq)]
pub struct Pad<T, const SOURCE_LEN: usize, const PADDED_LEN: usize> {
    pub pad_value: T,
}

impl<T: Float, const SOURCE_LEN: usize, const PADDED_LEN: usize> Pad<T, SOURCE_LEN, PADDED_LEN> {
    pub fn new(pad_value: T) -> (r: Self)
        ensures
            r.pad_value == pad_value,
    {
        Self { pad_value }
    }
}

/// Output of padding `input` to `n` elements: the first
/// `min(source_len, n)` values are copied, the rest is `pad_value`.
pub open spec fn spec_padded<T>(input: Seq<T>, source_len: nat, n: nat, pad_value: T) -> Seq<T> {
    Seq::new(n, |i: int| if i < source_len { input[i] } else { pad_value })
}

impl<T: Float, const SOURCE_LEN: usize, const PADDED_LEN: usize> TransformOp<T> for Pad<
    T,
    SOURCE_LEN,
    PADDED_LEN,
> {
    type IndexRemapping = False;

    const IN_LEN: usize = SOURCE_LEN;

    const OUT_LEN: usize = PADDED_LEN;

    /// Padding must never shrink the data (use `Truncate` for that)
    const INTERNAL_IS_VALID: bool = PADDED_LEN >= SOURCE_LEN;

    open spec fn spec_in_len(&self, default_len: usize) -> usize {
        SOURCE_LEN
    }

    open spec fn spec_out_len(&self, default_len: usize) -> usize {
        PADDED_LEN
    }

    open spec fn spec_map_index(&self, out_index: int, default_len: usize) -> int {
        out_index
    }

    open spec fn spec_compute(&self, data: Seq<T>, index: int, handling: NanHandling) -> Result<
        T,
        ErrorKind,
    > {
        if index < SOURCE_LEN {
            if 0 <= index < data.len() {
                Ok(data[index])
            } else {
                Err(ErrorKind::InvalidInputSize)
            }
        } else {
            Ok(self.pad_value)
        }
    }

    open spec fn spec_apply(&self, input: Seq<T>, n: nat, handling: NanHandling) -> Result<
        Seq<T>,
        ErrorKind,
    > {
        let copy_len = if SOURCE_LEN < n {
            SOURCE_LEN as nat
        } else {
            n
        };
        if input.len() < copy_len {
            Err(ErrorKind::InvalidInputSize)
        } else {
            Ok(spec_padded(input, copy_len, n, self.pad_value))
        }
    }

    fn map_index(&self, out_index: usize, default_len: usize) -> (r: usize) {
        out_index
    }

    fn compute<N: NanHandler>(&self, data: &[T], index: usize) -> (r: Result<T, PipeError>) {
        if index < SOURCE_LEN {
            if index < data.len() {
                Ok(data[index])
            } else {
                Err(PipeError::new(ErrorKind::InvalidInputSize))
            }
        } else {
            Ok(self.pad_value)
        }
    }

    fn execute<N: NanHandler>(&self, out: &mut [T], input: &[T], n: usize) -> (r: Result<
        (),
        PipeError,
    >) {
        let copy_len = if SOURCE_LEN < n {
            SOURCE_LEN
        } else {
            n
        };
        // Once-per-call guard for the copy / fill below
        if input.len() < copy_len || out.len() < n {
            return Err(PipeError::new(ErrorKind::InvalidInputSize));
        }
        let ghost target = spec_padded(input@, copy_len as nat, n as nat, self.pad_value);
        let mut i: usize = 0;
        while i < n
            invariant
                out@.len() == n,
                i <= n,
                copy_len <= n,
                copy_len <= input@.len(),
                target == spec_padded(input@, copy_len as nat, n as nat, self.pad_value),
                forall|j: int| 0 <= j < i ==> out@[j] == target[j],
            decreases n - i,
        {
            if i < copy_len {
                out[i] = input[i];
            } else {
                out[i] = self.pad_value;
            }
            i += 1;
        }
        assert(out@ =~= target);
        Ok(())
    }

    fn in_len(&self, default_len: usize) -> (r: usize) {
        SOURCE_LEN
    }

    fn out_len(&self, default_len: usize) -> (r: usize) {
        PADDED_LEN
    }

    fn op_name(&self) -> (r: String)
        ensures
            r@ == "Pad"@,
    {
        "Pad".to_owned()
    }
}

/// Truncate operation - reduces the length of the data vector
///
/// Pure index remapping operation that copies the first `NEW_LEN` elements
/// from an input of length `SOURCE_LEN`.
#[derive(Debug, Clone, Copy, PartialEq, Eq, PartialOrd, Ord, Hash, Default)]
pub struct Truncate<const SOURCE_LEN: usize, const NEW_LEN: usize>;

impl<const SOURCE_LEN: usize, const NEW_LEN: usize> Truncate<SOURCE_LEN, NEW_LEN> {
    pub fn new() -> (r: Self)
        ensures
            r == (Truncate::<SOURCE_LEN, NEW_LEN>),
    {
        Self
    }

    /// The name of this operation, as it reports it for error context
    /// (the same for every element type it runs on)
    pub fn op_name(&self) -> (r: String)
        ensures
            r@ == "Truncate"@,
    {
        "Truncate".to_owned()
    }
}

impl<T: Float, const SOURCE_LEN: usize, const NEW_LEN: usize> TransformOp<T> for Truncate<
    SOURCE_LEN,
    NEW_LEN,
> {
    type IndexRemapping = True;

    const IN_LEN: usize = SOURCE_LEN;

    const OUT_LEN: usize = NEW_LEN;

    /// A truncation must never *grow* the data
    const INTERNAL_IS_VALID: bool = NEW_LEN <= SOURCE_LEN;

    open spec fn spec_in_len(&self, default_len: usize) -> usize {
        SOURCE_LEN
    }

    open spec fn spec_out_len(&self, default_len: usize) -> usize {
        NEW_LEN
    }

    open spec fn spec_map_index(&self, out_index: int, default_len: usize) -> int {
        out_index
    }

    open spec fn spec_compute(&self, data: Seq<T>, index: int, handling: NanHandling) -> Result<
        T,
        ErrorKind,
    > {
        if 0 <= index < data.len() {
            Ok(data[index])
        } else {
            Err(ErrorKind::InvalidInputSize)
        }
    }

    open spec fn spec_apply(&self, input: Seq<T>, n: nat, handling: NanHandling) -> Result<
        Seq<T>,
        ErrorKind,
    > {
        if input.len() < NEW_LEN || n < NEW_LEN {
            Err(ErrorKind::InvalidInputSize)
        } else {
            Ok(input.take(n as int))
        }
    }

    fn map_index(&self, out_index: usize, default_len: usize) -> (r: usize) {
        out_index
    }

    fn compute<N: NanHandler>(&self, data: &[T], index: usize) -> (r: Result<T, PipeError>) {
        if index < data.len() {
            Ok(data[index])
        } else {
            Err(PipeError::new(ErrorKind::InvalidInputSize))
        }
    }

    fn execute<N: NanHandler>(&self, out: &mut [T], input: &[T], n: usize) -> (r: Result<
        (),
        PipeError,
    >) {
        // Once-per-call guard for the bulk copy below
        if input.len() < NEW_LEN || out.len() < NEW_LEN {
            return Err(PipeError::new(ErrorKind::InvalidInputSize));
        }
        let mut i: usize = 0;
        while i < n
            invariant
                out@.len() == n,
                n == NEW_LEN,
                i <= n,
                n <= input@.len(),
                forall|j: int| 0 <= j < i ==> out@[j] == input@[j],
            decreases n - i,
        {
            out[i] = input[i];
            i += 1;
        }
        assert(out@ =~= input@.take(n as int));
        Ok(())
    }

    fn in_len(&self, default_len: usize) -> (r: usize) {
        SOURCE_LEN
    }

    fn out_len(&self, default_len: usize) -> (r: usize) {
        NEW_LEN
    }

    fn op_name(&self) -> (r: String)
        ensures
            r@ == "Truncate"@,
    {
        "Truncate".to_owned()
    }
}

/// Transpose operation for 2D matrices stored in row-major order
///
/// Pure index remapping that transposes a `ROWS x COLS` matrix.
#[derive(Debug, Clone, Copy, PartialEq, Eq, PartialOrd, Ord, Hash, Default)]
pub struct Transpose<const ROWS: usize, const COLS: usize>;

impl<const ROWS: usize, const COLS: usize> Transpose<ROWS, COLS> {
    pub fn new() -> (r: Self)
        ensures
            r == (Transpose::<ROWS, COLS>),
    {
        Self
    }

    /// The name of this operation, as it reports it for error context
    /// (the same for every element type it runs on)
    pub fn op_name(&self) -> (r: String)
        ensures
            r@ == "Transpose"@,
    {
        "Transpose".to_owned()
    }
}

/// `a * b` when it fits in a `usize`, else 0 (an unusable length).
pub open spec fn spec_area(a: usize, b: usize) -> usize {
    if a * b <= usize::MAX {
        (a * b) as usize
    } else {
        0
    }
}

/// Computes [`spec_area`].
pub fn area(a: usize, b: usize) -> (r: usize)
    ensures
        r == spec_area(a, b),
{
    match a.checked_mul(b) {
        Some(p) => p,
        None => 0,
    }
}

/// Input index of output index `out_index` of a transposed `rows x cols`
/// matrix (the output is `cols x rows`).
pub open spec fn spec_transpose_index(rows: int, cols: int, out_index: int) -> int {
    (out_index % rows) * cols + out_index / rows
}

impl<T: Float, const ROWS: usize, const COLS: usize> TransformOp<T> for Transpose<ROWS, COLS> {
    type IndexRemapping = True;

    const IN_LEN: usize = ROWS * COLS;

    const OUT_LEN: usize = ROWS * COLS;

    const INTERNAL_IS_VALID: bool = true;

    open spec fn spec_in_len(&self, default_len: usize) -> usize {
        spec_area(ROWS, COLS)
    }

    open spec fn spec_out_len(&self, default_len: usize) -> usize {
        spec_area(ROWS, COLS)
    }

    open spec fn spec_map_index(&self, out_index: int, default_len: usize) -> int {
        spec_transpose_index(ROWS as int, COLS as int, out_index)
    }

    open spec fn spec_compute(&self, data: Seq<T>, index: int, handling: NanHandling) -> Result<
        T,
        ErrorKind,
    > {
        let j = spec_transpose_index(ROWS as int, COLS as int, index);
        if 0 <= j < data.len() {
            Ok(data[j])
        } else {
            Err(ErrorKind::InvalidInputSize)
        }
    }

    open spec fn spec_apply(&self, input: Seq<T>, n: nat, handling: NanHandling) -> Result<
        Seq<T>,
        ErrorKind,
    > {
        if n > spec_area(ROWS, COLS) || input.len() < spec_area(ROWS, COLS) {
            Err(ErrorKind::InvalidInputSize)
        } else {
            Ok(Seq::new(n, |i: int| input[spec_transpose_index(ROWS as int, COLS as int, i)]))
        }
    }

    fn map_index(&self, out_index: usize, default_len: usize) -> (r: usize) {
        proof {
            lemma_transpose_index_bound(ROWS as int, COLS as int, out_index as int);
        }
        let out_row = out_index / ROWS;
        let out_col = out_index % ROWS;
        out_col * COLS + out_row
    }

    fn compute<N: NanHandler>(&self, data: &[T], index: usize) -> (r: Result<T, PipeError>) {
        proof {
            lemma_transpose_index_bound(ROWS as int, COLS as int, index as int);
        }
        let j = (index % ROWS) * COLS + index / ROWS;
        if j < data.len() {
            Ok(data[j])
        } else {
            Err(PipeError::new(ErrorKind::InvalidInputSize))
        }
    }

    fn execute<N: NanHandler>(&self, out: &mut [T], input: &[T], n: usize) -> (r: Result<
        (),
        PipeError,
    >) {
        let len = area(ROWS, COLS);
        // Once-per-call guard so the loop below stays in bounds
        if n > len || input.len() < len || out.len() < n {
            return Err(PipeError::new(ErrorKind::InvalidInputSize));
        }
        let mut i: usize = 0;
        while i < n
            invariant
                out@.len() == n,
                i <= n,
                n <= len,
                len == spec_area(ROWS, COLS),
                len <= input@.len(),
                forall|j: int|
                    0 <= j < i ==> out@[j] == input@[spec_transpose_index(ROWS as int, COLS as int, j)],
            decreases n - i,
        {
            proof {
                lemma_transpose_index_bound(ROWS as int, COLS as int, i as int);
            }
            let j = (i % ROWS) * COLS + i / ROWS;
            out[i] = input[j];
            i += 1;
        }
        assert(out@ =~= Seq::new(n as nat, |i: int| input@[spec_transpose_index(ROWS as int, COLS as int, i)]));
        Ok(())
    }

    fn in_len(&self, default_len: usize) -> (r: usize) {
        area(ROWS, COLS)
    }

    fn out_len(&self, default_len: usize) -> (r: usize) {
        area(ROWS, COLS)
    }

    fn op_name(&self) -> (r: String)
        ensures
            r@ == "Transpose"@,
    {
        "Transpose".to_owned()
    }
}

/// Every output index of a transposed matrix reads an input index inside
/// the matrix.
pub proof fn lemma_transpose_index_bound(rows: int, cols: int, out_index: int)
    requires
        rows >= 0,
        cols >= 0,
        0 <= out_index < rows * cols,
    ensures
        rows > 0,
        cols > 0,
        0 <= out_index % rows < rows,
        0 <= out_index / rows < cols,
        0 <= spec_transpose_index(rows, cols, out_index) < rows * cols,
{
    assert(rows > 0 && cols > 0) by (nonlinear_arith)
        requires
            rows >= 0,
            cols >= 0,
            0 <= out_index < rows * cols,
    ;
    let q = out_index / rows;
    let m = out_index % rows;
    assert(0 <= m < rows);
    assert(out_index == q * rows + m) by (nonlinear_arith)
        requires
            rows > 0,
            q == out_index / rows,
            m == out_index % rows,
    ;
    assert(0 <= q < cols) by (nonlinear_arith)
        requires
            out_index == q * rows + m,
            0 <= m < rows,
            0 <= out_index < rows * cols,
            rows > 0,
    ;
    assert(0 <= m * cols + q < rows * cols) by (nonlinear_arith)
        requires
            0 <= m < rows,
            0 <= q < cols,
    ;
}

/// Reverse operation - reverses the order of elements
///
/// Pure index remapping that reverses the order of elements in a vector.
/// Supports both static (`LEN > 0`) and dynamic (`LEN = 0`) lengths.
#[derive(Debug, Clone, Copy, PartialEq, Eq, PartialOrd, Ord, Hash, Default)]
pub struct Reverse<const LEN: usize>;

impl<const LEN: usize> Reverse<LEN> {
    pub fn new() -> (r: Self)
        ensures
            r == (Reverse::<LEN>),
    {
        Self
    }

    /// The name of this operation, as it reports it for error context
    /// (the same for every element type it runs on)
    pub fn op_name(&self) -> (r: String)
        ensures
            r@ == "Reverse"@,
    {
        "Reverse".to_owned()
    }
}

/// Length of a reversal: the static length, or the given one when dynamic.
pub open spec fn spec_reverse_len(len: usize, default_len: usize) -> usize {
    if len > 0 {
        len
    } else {
        default_len
    }
}

impl<T: Float, const LEN: usize> TransformOp<T> for Reverse<LEN> {
    type IndexRemapping = True;

    const IN_LEN: usize = LEN;

    const OUT_LEN: usize = LEN;

    const INTERNAL_IS_VALID: bool = true;

    open spec fn spec_in_len(&self, default_len: usize) -> usize {
        spec_reverse_len(LEN, default_len)
    }

    open spec fn spec_out_len(&self, default_len: usize) -> usize {
        spec_reverse_len(LEN, default_len)
    }

    open spec fn spec_map_index(&self, out_index: int, default_len: usize) -> int {
        spec_reverse_len(LEN, default_len) - 1 - out_index
    }

    open spec fn spec_compute(&self, data: Seq<T>, index: int, handling: NanHandling) -> Result<
        T,
        ErrorKind,
    > {
        let j = spec_reverse_len(LEN, data.len() as usize) - 1 - index;
        if 0 <= j < data.len() {
            Ok(data[j])
        } else {
            Err(ErrorKind::InvalidInputSize)
        }
    }

    open spec fn spec_apply(&self, input: Seq<T>, n: nat, handling: NanHandling) -> Result<
        Seq<T>,
        ErrorKind,
    > {
        let len = spec_reverse_len(LEN, input.len() as usize);
        if n > len || input.len() < len {
            Err(ErrorKind::InvalidInputSize)
        } else {
            Ok(Seq::new(n, |i: int| input[len - 1 - i]))
        }
    }

    fn map_index(&self, out_index: usize, default_len: usize) -> (r: usize) {
        if LEN > 0 {
            LEN - 1 - out_index
        } else {
            default_len - 1 - out_index
        }
    }

    fn in_len(&self, default_len: usize) -> (r: usize) {
        if LEN > 0 {
            LEN
        } else {
            default_len
        }
    }

    fn out_len(&self, default_len: usize) -> (r: usize) {
        if LEN > 0 {
            LEN
        } else {
            default_len
        }
    }

    fn compute<N: NanHandler>(&self, data: &[T], index: usize) -> (r: Result<T, PipeError>) {
        let j = <Self as TransformOp<T>>::map_index(self, index, data.len());
        if j < data.len() {
            Ok(data[j])
        } else {
            Err(PipeError::new(ErrorKind::InvalidInputSize))
        }
    }

    fn execute<N: NanHandler>(&self, out: &mut [T], input: &[T], n: usize) -> (r: Result<
        (),
        PipeError,
    >) {
        // Has to go through `in_len()` to validate static / dynamic lengths
        let len = <Self as TransformOp<T>>::in_len(self, input.len());
        if n > len || input.len() < len || out.len() < n {
            return Err(PipeError::new(ErrorKind::InvalidInputSize));
        }
        let mut i: usize = 0;
        while i < n
            invariant
                out@.len() == n,
                i <= n,
                n <= len,
                len <= input@.len(),
                len == spec_reverse_len(LEN, input@.len() as usize),
                forall|j: int| 0 <= j < i ==> out@[j] == input@[len - 1 - j],
            decreases n - i,
        {
            out[i] = input[len - 1 - i];
            i += 1;
        }
        assert(out@ =~= Seq::new(n as nat, |i: int| input@[len - 1 - i]));
        Ok(())
    }

    fn op_name(&self) -> (r: String)
        ensures
            r@ == "Reverse"@,
    {
        "Reverse".to_owned()
    }
}

} // verus!
verus! {

/// The static lengths of a padding (visible to verified callers, which
/// the pipe-construction requirements speak of).
pub proof fn lemma_pad_static_lengths<T: Float, const SOURCE_LEN: usize, const PADDED_LEN: usize>()
    ensures
        <Pad<T, SOURCE_LEN, PADDED_LEN> as TransformOp<T>>::IN_LEN == SOURCE_LEN,
        <Pad<T, SOURCE_LEN, PADDED_LEN> as TransformOp<T>>::OUT_LEN == PADDED_LEN,
        <Pad<T, SOURCE_LEN, PADDED_LEN> as TransformOp<T>>::INTERNAL_IS_VALID == (PADDED_LEN
            >= SOURCE_LEN),
{
}

/// The static lengths of a truncation.
pub proof fn lemma_truncate_static_lengths<T: Float, const SOURCE_LEN: usize, const NEW_LEN: usize>()
    ensures
        <Truncate<SOURCE_LEN, NEW_LEN> as TransformOp<T>>::IN_LEN == SOURCE_LEN,
        <Truncate<SOURCE_LEN, NEW_LEN> as TransformOp<T>>::OUT_LEN == NEW_LEN,
        <Truncate<SOURCE_LEN, NEW_LEN> as TransformOp<T>>::INTERNAL_IS_VALID == (NEW_LEN
            <= SOURCE_LEN),
{
}

/// The static lengths of a transposition.
pub proof fn lemma_transpose_static_lengths<T: Float, const ROWS: usize, const COLS: usize>()
    requires
        ROWS * COLS <= usize::MAX,
    ensures
        <Transpose<ROWS, COLS> as TransformOp<T>>::IN_LEN == ROWS * COLS,
        <Transpose<ROWS, COLS> as TransformOp<T>>::OUT_LEN == ROWS * COLS,
        <Transpose<ROWS, COLS> as TransformOp<T>>::INTERNAL_IS_VALID,
{
}

/// The static lengths of a reversal.
pub proof fn lemma_reverse_static_lengths<T: Float, const LEN: usize>()
    ensures
        <Reverse<LEN> as TransformOp<T>>::IN_LEN == LEN,
        <Reverse<LEN> as TransformOp<T>>::OUT_LEN == LEN,
        <Reverse<LEN> as TransformOp<T>>::INTERNAL_IS_VALID,
{
}

} // verus!
