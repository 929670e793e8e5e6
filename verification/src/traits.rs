//! Operation traits, pipeline stages and operation fusion.
use vstd::prelude::*;
use crate::errors::{outcome_matches, ErrorKind, NanHandler, NanHandling, PipeError};
use crate::sealed::Sealed;

verus! {

/// Element type bound for pipeline values: values are copied between
/// buffers, and scratch buffers are filled with the type's default value
/// before the first run.
pub trait Float: Copy + Default {}

impl<T: Copy + Default> Float for T {}

/// `PhantomData::clone` (std): a zero-sized marker; its clone is the same
/// marker.
pub assume_specification<T: core::marker::PointeeSized>[ <core::marker::PhantomData<T> as Clone>::clone ](
    marker: &core::marker::PhantomData<T>,
) -> (r: core::marker::PhantomData<T>)
    ensures
        r == *marker,
;

/// The outcome of computing the values `f(0), f(1), .., f(n - 1)` in order
/// and stopping at the first failure.
pub open spec fn spec_collect<T>(n: nat, f: spec_fn(int) -> Result<T, ErrorKind>) -> Result<
    Seq<T>,
    ErrorKind,
>
    decreases n,
{
    if n == 0 {
        Ok(Seq::empty())
    } else {
        match spec_collect((n - 1) as nat, f) {
            Ok(s) => match f(n - 1) {
                Ok(v) => Ok(s.push(v)),
                Err(e) => Err(e),
            },
            Err(e) => Err(e),
        }
    }
}

/// A successful collection holds exactly the `n` computed values.
pub proof fn lemma_collect_ok<T>(n: nat, f: spec_fn(int) -> Result<T, ErrorKind>)
    ensures
        spec_collect(n, f) matches Ok(s) ==> s.len() == n && forall|i: int|
            0 <= i < n ==> f(i) == Ok::<T, ErrorKind>(#[trigger] s[i]),
    decreases n,
{
    if n > 0 {
        lemma_collect_ok((n - 1) as nat, f);
    }
}

/// When every value can be computed, the collection succeeds with all of
/// them.
pub proof fn lemma_collect_all_ok<T>(n: nat, f: spec_fn(int) -> Result<T, ErrorKind>)
    requires
        forall|i: int| 0 <= i < n ==> #[trigger] f(i) is Ok,
    ensures
        spec_collect(n, f) == Ok::<Seq<T>, ErrorKind>(Seq::new(n, |i: int| f(i)->Ok_0)),
    decreases n,
{
    if n > 0 {
        lemma_collect_all_ok((n - 1) as nat, f);
        assert(Seq::new((n - 1) as nat, |i: int| f(i)->Ok_0).push(f(n - 1)->Ok_0) =~= Seq::new(
            n,
            |i: int| f(i)->Ok_0,
        ));
    } else {
        assert(Seq::new(n, |i: int| f(i)->Ok_0) =~= Seq::<T>::empty());
    }
}

/// A failure among the first `k` values is the failure of every longer
/// collection.
pub proof fn lemma_collect_err_extends<T>(k: nat, n: nat, f: spec_fn(int) -> Result<T, ErrorKind>)
    requires
        k <= n,
        spec_collect(k, f) is Err,
    ensures
        spec_collect(n, f) == spec_collect(k, f),
    decreases n - k,
{
    if k < n {
        lemma_collect_err_extends(k, (n - 1) as nat, f);
    }
}

/// Collections only depend on the computed values.
pub proof fn lemma_collect_ext<T>(
    n: nat,
    f: spec_fn(int) -> Result<T, ErrorKind>,
    g: spec_fn(int) -> Result<T, ErrorKind>,
)
    requires
        forall|i: int| 0 <= i < n ==> #[trigger] f(i) == g(i),
    ensures
        spec_collect(n, f) == spec_collect(n, g),
    decreases n,
{
    if n > 0 {
        lemma_collect_ext((n - 1) as nat, f, g);
    }
}

/// One more computed value extends a successful prefix.
pub proof fn lemma_collect_push<T>(
    i: nat,
    f: spec_fn(int) -> Result<T, ErrorKind>,
    prefix: Seq<T>,
    v: T,
)
    requires
        spec_collect(i, f) == Ok::<Seq<T>, ErrorKind>(prefix),
        f(i as int) == Ok::<T, ErrorKind>(v),
    ensures
        spec_collect(i + 1, f) == Ok::<Seq<T>, ErrorKind>(prefix.push(v)),
{
}

/// A failing value fails the collection it belongs to.
pub proof fn lemma_collect_fail_at<T>(i: nat, n: nat, f: spec_fn(int) -> Result<T, ErrorKind>)
    requires
        i < n,
        spec_collect(i, f) is Ok,
        f(i as int) is Err,
    ensures
        spec_collect(n, f) == Err::<Seq<T>, ErrorKind>(f(i as int)->Err_0),
{
    lemma_collect_err_extends(i + 1, n, f);
}

// ---------------------------------------------------------------------------
// Stage markers and stage types
// ---------------------------------------------------------------------------

/// Stage mark: the current operation is a transform - internal use only
#[derive(Debug, Clone, Copy, PartialEq, Eq, PartialOrd, Ord, Hash, Default)]
pub struct Transform;

/// Stage mark: the current operation is point-wise - internal use only
#[derive(Debug, Clone, Copy, PartialEq, Eq, PartialOrd, Ord, Hash, Default)]
pub struct Element;

/// Generic over the root operation - internal use only
#[derive(Debug, Clone, Copy, PartialEq, Eq, PartialOrd, Ord, Hash, Default)]
pub struct Head<T, Mark, const INPUT_LEN: usize> {
    pub root_op: T,
    pub marker: core::marker::PhantomData<Mark>,
}

/// Generic over the previous stage, current operation - internal use only
#[derive(Debug, Clone, Copy, PartialEq, Eq, PartialOrd, Ord, Hash, Default)]
pub struct Link<T, S, Mark, F> where F: Float, S: Stage<F> {
    pub prev_stage: S,
    pub curr_op: T,
    pub marker: core::marker::PhantomData<(Mark, F)>,
}

// Associated types for IndexRemappable
#[derive(Debug, Clone, Copy, PartialEq, Eq, PartialOrd, Ord, Hash, Default)]
pub struct True;

#[derive(Debug, Clone, Copy, PartialEq, Eq, PartialOrd, Ord, Hash, Default)]
pub struct False;

pub trait IsTrue {}

impl IsTrue for True {}

/// Markers for assuring typestate - internal use only
#[derive(Debug, Clone, Copy, PartialEq, Eq, PartialOrd, Ord, Hash, Default)]
pub struct ElementElement;

#[derive(Debug, Clone, Copy, PartialEq, Eq, PartialOrd, Ord, Hash, Default)]
pub struct TransformTransform;

#[derive(Debug, Clone, Copy, PartialEq, Eq, PartialOrd, Ord, Hash, Default)]
pub struct TransformElement;

/// Two operations fused into one - internal use only
#[derive(Debug, Clone, Copy)]
pub struct Fused<T, S, FusedState = ElementElement> {
    pub prev_op: T,
    pub curr_op: S,
    pub marker: core::marker::PhantomData<FusedState>,
}

// ---------------------------------------------------------------------------
// Operation traits
// ---------------------------------------------------------------------------

/// Point-wise operations that work on individual elements.
///
/// `spec_compute` names what `compute` returns for a value under a NaN
/// policy; implementors outside this crate are held to that contract. An
/// implementation that does not define `spec_compute` leaves its outcome
/// unspecified, so nothing is known of what it computes.
pub trait ElementOp<T: Float>: Sized {
    /// The outcome of computing one element under the given NaN policy
    open spec fn spec_compute(&self, data: T, handling: NanHandling) -> Result<T, ErrorKind> {
        vstd::pervasive::arbitrary()
    }

    fn compute<N: NanHandler>(&self, data: T) -> (r: Result<T, PipeError>)
        ensures
            outcome_matches(r, self.spec_compute(data, N::HANDLING)),
    ;

    /// Runtime setup hook, called once per stage run
    fn setup(&self) {
    }

    /// Get the NaN handling policy for this operation (`Fail` unless the
    /// operation says otherwise)
    fn nan_handling(&self) -> (r: NanHandling)
        default_ensures
            r == NanHandling::Fail,
    {
        NanHandling::Fail
    }

    /// Get the name of this operation for error context (`ElementOp` unless
    /// the operation names itself)
    fn op_name(&self) -> (r: String)
        default_ensures
            r@ == "ElementOp"@,
    {
        "ElementOp".to_owned()
    }
}

/// Spatial transformation operations that map from output index to
/// computed value by sampling from input.
///
/// Every pipeline stage verifies, before dispatching into an operation,
/// that `input.len() == in_len(input.len())` and that the output slice has
/// exactly `n == out_len(input.len())` elements. `IN_LEN` / `OUT_LEN` are
/// the static lengths (0 for dynamic operations), and `INTERNAL_IS_VALID`
/// is the static validity condition that every pipe-construction site
/// demands. The `spec_*` functions name what the executable methods
/// return; an implementation that does not define one leaves it
/// unspecified, so nothing is known of it.
pub trait TransformOp<T: Float>: Sized {
    /// Whether the operation is a pure index remapping (can be fused)
    type IndexRemapping;

    const IN_LEN: usize = 0;

    const OUT_LEN: usize = 0;

    const INTERNAL_IS_VALID: bool = true;

    /// Input length for a given input length (static ops ignore it)
    open spec fn spec_in_len(&self, default_len: usize) -> usize {
        vstd::pervasive::arbitrary()
    }

    /// Output length for a given input length
    open spec fn spec_out_len(&self, default_len: usize) -> usize {
        vstd::pervasive::arbitrary()
    }

    /// Input index an output index is read from (index remappings)
    open spec fn spec_map_index(&self, out_index: int, default_len: usize) -> int {
        vstd::pervasive::arbitrary()
    }

    /// The outcome of computing the element at `index` of the output
    open spec fn spec_compute(&self, data: Seq<T>, index: int, handling: NanHandling) -> Result<
        T,
        ErrorKind,
    > {
        vstd::pervasive::arbitrary()
    }

    /// The outcome of computing the whole `n`-element output
    open spec fn spec_apply(&self, input: Seq<T>, n: nat, handling: NanHandling) -> Result<
        Seq<T>,
        ErrorKind,
    > {
        vstd::pervasive::arbitrary()
    }

    /// Get the NaN handling policy for this operation (`Fail` unless the
    /// operation says otherwise)
    fn nan_handling(&self) -> (r: NanHandling)
        default_ensures
            r == NanHandling::Fail,
    {
        NanHandling::Fail
    }

    /// Get the name of this operation for error context (`TransformOp` unless
    /// the operation names itself)
    fn op_name(&self) -> (r: String)
        default_ensures
            r@ == "TransformOp"@,
    {
        "TransformOp".to_owned()
    }

    /// Map output index to input index (for pure index-remapping operations)
    fn map_index(&self, out_index: usize, default_len: usize) -> (r: usize) where
        Self::IndexRemapping: IsTrue,

        requires
            out_index < self.spec_out_len(default_len),
        ensures
            r as int == self.spec_map_index(out_index as int, default_len),
    ;

    /// Compute output value at given output index by sampling from input data
    fn compute<N: NanHandler>(&self, data: &[T], index: usize) -> (r: Result<T, PipeError>)
        requires
            data@.len() == self.spec_in_len(data@.len() as usize),
            index < self.spec_out_len(data@.len() as usize),
        ensures
            outcome_matches(r, self.spec_compute(data@, index as int, N::HANDLING)),
    ;

    /// Execute the transformation into `out`, which holds exactly `n`
    /// elements
    fn execute<N: NanHandler>(&self, out: &mut [T], input: &[T], n: usize) -> (r: Result<
        (),
        PipeError,
    >)
        requires
            input@.len() == self.spec_in_len(input@.len() as usize),
            n == self.spec_out_len(input@.len() as usize),
            old(out)@.len() == n,
        ensures
            final(out)@.len() == n,
            match self.spec_apply(input@, n as nat, N::HANDLING) {
                Ok(s) => r is Ok && final(out)@ == s,
                Err(k) => r matches Err(e) && e.spec_kind() == k,
            },
    ;

    /// Runtime setup hook, called once per stage run
    fn setup(&self) {
    }

    fn in_len(&self, default_len: usize) -> (r: usize)
        ensures
            r == self.spec_in_len(default_len),
    ;

    fn out_len(&self, default_len: usize) -> (r: usize)
        ensures
            r == self.spec_out_len(default_len),
    ;

    fn fuse_element<U: ElementOp<T>>(self, op: U) -> (f: Fused<Self, U, TransformElement>)
        ensures
            f.prev_op == self,
            f.curr_op == op,
    {
        Fused { prev_op: self, curr_op: op, marker: core::marker::PhantomData }
    }
}

/// The pipeline wrapper encloses these 'stages'.
///
/// `spec_run` names the outcome of a stage run on `data` when both scratch
/// buffers hold `cap` elements: every stage validates the input length and
/// the actual buffer capacity before its computation loop, and reports the
/// first failure.
///
/// This trait is sealed and cannot be implemented outside of this crate.
pub trait Stage<T: Float>: Sealed<T> + Sized {
    const IN_LEN: usize;

    const OUT_LEN: usize;

    /// Static scratch-buffer size (0 when the pipeline has dynamic bounds)
    spec fn spec_max_buf_size() -> usize;

    spec fn spec_run(&self, data: Seq<T>, cap: nat, handling: NanHandling) -> Result<
        Seq<T>,
        ErrorKind,
    >;

    /// Whether `text` describes this stage: `Head<name>` or `Link<name>`,
    /// with the name its operation reports
    spec fn spec_describes(&self, text: Seq<char>) -> bool;

    /// Whether error `e` of a failed run on `data` (with `cap`-element
    /// buffers) names where it arose: an error of a stage's own length
    /// checks carries a snapshot describing that stage, while an error of an
    /// operation is the operation's own
    spec fn spec_error_fits(&self, data: Seq<T>, cap: nat, handling: NanHandling, e: PipeError) -> bool;

    spec fn spec_max_buf_size_dynamic(&self, input_len: usize) -> usize;

    spec fn spec_out_len_dynamic(&self, input_len: usize) -> usize;

    fn max_buf_size() -> (r: usize)
        ensures
            r == Self::spec_max_buf_size(),
    ;

    /// The static scratch-buffer size holds the stage's static output (and,
    /// through the previous stages, every intermediate result)
    proof fn lemma_max_buf_size_holds_output()
        ensures
            Self::OUT_LEN <= Self::spec_max_buf_size(),
    ;

    /// Runs the stage on `data`; on success the result is the prefix of
    /// `out_buf` whose length is returned.
    fn execute<N: NanHandler>(&self, data: &[T], in_buf: &mut [T], out_buf: &mut [T]) -> (r:
        Result<usize, PipeError>)
        requires
            old(in_buf)@.len() == old(out_buf)@.len(),
        ensures
            final(in_buf)@.len() == old(in_buf)@.len(),
            final(out_buf)@.len() == old(out_buf)@.len(),
            match self.spec_run(data@, old(out_buf)@.len(), N::HANDLING) {
                Ok(s) => r matches Ok(m) && m == s.len() && s.len() <= old(out_buf)@.len()
                    && final(out_buf)@.take(s.len() as int) == s,
                Err(k) => r matches Err(e) && e.spec_kind() == k && self.spec_error_fits(
                    data@,
                    old(out_buf)@.len(),
                    N::HANDLING,
                    e,
                ),
            },
    ;

    /// Stage description used as error context
    fn snapshot(&self) -> (r: String)
        ensures
            self.spec_describes(r@),
    ;

    /// Computes the maximum buffer size dynamically
    fn max_buf_size_dynamic(&self, input_len: usize) -> (r: usize)
        ensures
            r == self.spec_max_buf_size_dynamic(input_len),
    ;

    /// Computes the pipe output length dynamically
    fn out_len_dynamic(&self, input_len: usize) -> (r: usize)
        ensures
            r == self.spec_out_len_dynamic(input_len),
    ;
}

/// `prefix<name>`
fn labeled(prefix: &str, name: String) -> (r: String)
    ensures
        r@ == prefix@ + name@ + ">"@,
{
    let mut s = prefix.to_owned();
    s.append(name.as_str());
    s.append(">");
    s
}

/// The outcome of one transform stage: validate the input length against
/// the static length `in_static` (when non-zero) and the operation's own
/// `in_len`, validate the output length against `out_static` (when
/// non-zero) and the buffer capacity, then run the operation.
pub open spec fn spec_transform_stage<T: Float, U: TransformOp<T>>(
    op: U,
    in_static: usize,
    out_static: usize,
    data: Seq<T>,
    cap: nat,
    handling: NanHandling,
) -> Result<Seq<T>, ErrorKind> {
    if in_static > 0 && data.len() != in_static {
        Err(ErrorKind::InvalidInputSize)
    } else if data.len() > usize::MAX {
        Err(ErrorKind::InvalidInputSize)
    } else {
        let d = data.len() as usize;
        let expected_in = op.spec_in_len(d);
        if expected_in == 0 || d != expected_in {
            Err(ErrorKind::InvalidInputSize)
        } else {
            let n = op.spec_out_len(d);
            if n == 0 || (out_static > 0 && n > out_static) || n > cap {
                Err(ErrorKind::InvalidOutputSize)
            } else {
                op.spec_apply(data, n as nat, handling)
            }
        }
    }
}

/// Whether one of the length checks of a transform stage (see
/// [`spec_transform_stage`]) rejects `data`.
pub open spec fn spec_transform_fault<T: Float, U: TransformOp<T>>(
    op: U,
    in_static: usize,
    out_static: usize,
    data: Seq<T>,
    cap: nat,
) -> bool {
    if in_static > 0 && data.len() != in_static {
        true
    } else if data.len() > usize::MAX {
        true
    } else {
        let d = data.len() as usize;
        let expected_in = op.spec_in_len(d);
        if expected_in == 0 || d != expected_in {
            true
        } else {
            let n = op.spec_out_len(d);
            n == 0 || (out_static > 0 && n > out_static) || n > cap
        }
    }
}

/// Whether `text` is `prefix`, then a name `op` reports, then `>`.
pub open spec fn spec_labels_transform<T: Float, U: TransformOp<T>>(
    prefix: Seq<char>,
    op: U,
    text: Seq<char>,
) -> bool {
    exists|name: String| call_ensures(U::op_name, (&op,), name) && text == prefix + name@ + ">"@
}

/// Whether `text` is `prefix`, then a name `op` reports, then `>`.
pub open spec fn spec_labels_element<T: Float, U: ElementOp<T>>(
    prefix: Seq<char>,
    op: U,
    text: Seq<char>,
) -> bool {
    exists|name: String| call_ensures(U::op_name, (&op,), name) && text == prefix + name@ + ">"@
}

/// The per-index outcomes of a point-wise operation over `data`.
pub open spec fn element_fn<T: Float, U: ElementOp<T>>(
    op: U,
    data: Seq<T>,
    handling: NanHandling,
) -> spec_fn(int) -> Result<T, ErrorKind> {
    |i: int| op.spec_compute(data[i], handling)
}

/// The outcome of one point-wise stage over `data`.
pub open spec fn spec_element_stage<T: Float, U: ElementOp<T>>(
    op: U,
    data: Seq<T>,
    handling: NanHandling,
) -> Result<Seq<T>, ErrorKind> {
    spec_collect(data.len(), element_fn(op, data, handling))
}

/// Runs a point-wise operation over `data` into the front of `out_buf`.
fn run_elements<T: Float, U: ElementOp<T>, N: NanHandler>(
    op: &U,
    data: &[T],
    out_buf: &mut [T],
) -> (r: Result<(), PipeError>)
    requires
        data@.len() <= old(out_buf)@.len(),
    ensures
        final(out_buf)@.len() == old(out_buf)@.len(),
        match spec_element_stage(*op, data@, N::HANDLING) {
            Ok(s) => r is Ok && s.len() == data@.len() && final(out_buf)@.take(data@.len() as int)
                == s,
            Err(k) => r matches Err(e) && e.spec_kind() == k,
        },
{
    let n = data.len();
    let ghost f = element_fn(*op, data@, N::HANDLING);
    let mut i: usize = 0;
    assert(out_buf@.take(0) =~= Seq::<T>::empty());
    while i < n
        invariant
            n == data@.len(),
            n <= out_buf@.len(),
            out_buf@.len() == old(out_buf)@.len(),
            i <= n,
            f == element_fn(*op, data@, N::HANDLING),
            spec_collect(i as nat, f) == Ok::<Seq<T>, ErrorKind>(out_buf@.take(i as int)),
        decreases n - i,
    {
        match op.compute::<N>(data[i]) {
            Ok(v) => {
                let ghost prefix = out_buf@.take(i as int);
                proof {
                    lemma_collect_push(i as nat, f, prefix, v);
                }
                out_buf[i] = v;
                assert(out_buf@.take(i + 1) =~= prefix.push(v));
            },
            Err(e) => {
                proof {
                    lemma_collect_fail_at(i as nat, n as nat, f);
                }
                return Err(e);
            },
        }
        i += 1;
    }
    proof {
        lemma_collect_ok(n as nat, f);
    }
    Ok(())
}

/// Runs a transform stage (shared by heads and links).
fn run_transform<T: Float, U: TransformOp<T>, N: NanHandler>(
    op: &U,
    in_static: usize,
    out_static: usize,
    data: &[T],
    out_buf: &mut [T],
    label: &str,
) -> (r: Result<usize, PipeError>)
    ensures
        final(out_buf)@.len() == old(out_buf)@.len(),
        match spec_transform_stage(*op, in_static, out_static, data@, old(out_buf)@.len(), N::HANDLING) {
            Ok(s) => r matches Ok(m) && m == s.len() && s.len() <= old(out_buf)@.len()
                && final(out_buf)@.take(s.len() as int) == s,
            Err(k) => r matches Err(e) && e.spec_kind() == k,
        },
        spec_transform_fault(*op, in_static, out_static, data@, old(out_buf)@.len()) ==> (r matches Err(
            e,
        ) && e.spec_snapshot() matches Some(t) && spec_labels_transform(label@, *op, t)),
{
    op.setup();
    let data_len = if in_static > 0 {
        in_static
    } else {
        data.len()
    };
    // Runtime guardrail, optimized if the last operation was dynamic
    if data.len() != data_len {
        return Err(PipeError::with_snapshot(ErrorKind::InvalidInputSize, labeled(label, op.op_name())));
    }
    let expected_in = op.in_len(data_len);
    // The operation in_len must never be zero as it is
    // either statically or dynamically set
    if expected_in == 0 || data_len != expected_in {
        return Err(PipeError::with_snapshot(ErrorKind::InvalidInputSize, labeled(label, op.op_name())));
    }
    let n = op.out_len(data_len);
    // `n` is validated against the static bound (when present) *and*
    // against the actual allocation
    if n == 0 || (out_static > 0 && n > out_static) || n > out_buf.len() {
        return Err(PipeError::with_snapshot(ErrorKind::InvalidOutputSize, labeled(label, op.op_name())));
    }
    let ghost old_buf = out_buf@;
    let (out, rest) = out_buf.split_at_mut(n);
    let res = op.execute::<N>(out, data, n);
    let ghost written = out@;
    assert(out_buf@.take(n as int) =~= written);
    match res {
        Ok(()) => Ok(n),
        Err(e) => Err(e),
    }
}

/// Fuses two point-wise operations: `op` is applied to what `first`
/// produces.
pub fn fuse_element<T: Float, U: ElementOp<T>, S: ElementOp<T>>(first: U, op: S) -> (f: Fused<
    U,
    S,
    ElementElement,
>)
    ensures
        f.prev_op == first,
        f.curr_op == op,
{
    Fused { prev_op: first, curr_op: op, marker: core::marker::PhantomData }
}

/// Fuses a point-wise operation behind a transform: the element operation
/// is applied to every value the transform produces.
pub fn fuse_transform<T: Float, U: TransformOp<T>, S: ElementOp<T>>(transform: U, element: S) -> (f:
    Fused<U, S, TransformElement>)
    ensures
        f.prev_op == transform,
        f.curr_op == element,
{
    Fused { prev_op: transform, curr_op: element, marker: core::marker::PhantomData }
}

impl<T: Float, U: ElementOp<T>, S: ElementOp<T>> ElementOp<T> for Fused<U, S, ElementElement> {
    open spec fn spec_compute(&self, data: T, handling: NanHandling) -> Result<T, ErrorKind> {
        match self.prev_op.spec_compute(data, handling) {
            Ok(v) => self.curr_op.spec_compute(v, handling),
            Err(e) => Err(e),
        }
    }

    fn compute<N: NanHandler>(&self, data: T) -> (r: Result<T, PipeError>) {
        match self.prev_op.compute::<N>(data) {
            Ok(v) => self.curr_op.compute::<N>(v),
            Err(e) => Err(e),
        }
    }

    fn setup(&self) {
        // Forward the runtime setup to both fused operations
        self.prev_op.setup();
        self.curr_op.setup();
    }

    fn op_name(&self) -> (r: String)
        ensures
            exists|a: String, b: String|
                call_ensures(U::op_name, (&self.prev_op,), a) && call_ensures(
                    S::op_name,
                    (&self.curr_op,),
                    b,
                ) && r@ == "Fused<"@ + a@ + ", "@ + b@ + ">"@,
    {
        fused_name(self.prev_op.op_name(), self.curr_op.op_name())
    }
}

/// `Fused<a, b>`
fn fused_name(a: String, b: String) -> (r: String)
    ensures
        r@ == "Fused<"@ + a@ + ", "@ + b@ + ">"@,
{
    let mut s = "Fused<".to_owned();
    s.append(a.as_str());
    s.append(", ");
    s.append(b.as_str());
    s.append(">");
    s
}

impl<T: Float, U: TransformOp<T>, S: ElementOp<T>> TransformOp<T> for Fused<
    U,
    S,
    TransformElement,
> {
    type IndexRemapping = U::IndexRemapping;

    const IN_LEN: usize = U::IN_LEN;

    const OUT_LEN: usize = U::OUT_LEN;

    const INTERNAL_IS_VALID: bool = U::INTERNAL_IS_VALID;

    open spec fn spec_in_len(&self, default_len: usize) -> usize {
        self.prev_op.spec_in_len(default_len)
    }

    open spec fn spec_out_len(&self, default_len: usize) -> usize {
        self.prev_op.spec_out_len(default_len)
    }

    open spec fn spec_map_index(&self, out_index: int, default_len: usize) -> int {
        self.prev_op.spec_map_index(out_index, default_len)
    }

    open spec fn spec_compute(&self, data: Seq<T>, index: int, handling: NanHandling) -> Result<
        T,
        ErrorKind,
    > {
        match self.prev_op.spec_compute(data, index, handling) {
            Ok(v) => self.curr_op.spec_compute(v, handling),
            Err(e) => Err(e),
        }
    }

    open spec fn spec_apply(&self, input: Seq<T>, n: nat, handling: NanHandling) -> Result<
        Seq<T>,
        ErrorKind,
    > {
        spec_collect(n, |i: int| self.spec_compute(input, i, handling))
    }

    fn map_index(&self, out_index: usize, default_len: usize) -> (r: usize) where
        Self::IndexRemapping: IsTrue,
     {
        // The element operation is point-wise: the value at `out_index`
        // comes from where the transform reads it
        self.prev_op.map_index(out_index, default_len)
    }

    fn compute<N: NanHandler>(&self, data: &[T], index: usize) -> (r: Result<T, PipeError>) {
        // Delegates the input access to `prev_op.compute`, which upholds (or
        // checks) its own bound contract
        match self.prev_op.compute::<N>(data, index) {
            Ok(v) => self.curr_op.compute::<N>(v),
            Err(e) => Err(e),
        }
    }

    fn execute<N: NanHandler>(&self, out: &mut [T], input: &[T], n: usize) -> (r: Result<
        (),
        PipeError,
    >) {
        let ghost f = |i: int| self.spec_compute(input@, i, N::HANDLING);
        let mut i: usize = 0;
        assert(out@.take(0) =~= Seq::<T>::empty());
        while i < n
            invariant
                n == self.spec_out_len(input@.len() as usize),
                input@.len() == self.spec_in_len(input@.len() as usize),
                out@.len() == n,
                i <= n,
                f == (|i: int| self.spec_compute(input@, i, N::HANDLING)),
                spec_collect(i as nat, f) == Ok::<Seq<T>, ErrorKind>(out@.take(i as int)),
            decreases n - i,
        {
            match self.compute::<N>(input, i) {
                Ok(v) => {
                    let ghost prefix = out@.take(i as int);
                    proof {
                        lemma_collect_push(i as nat, f, prefix, v);
                    }
                    out[i] = v;
                    assert(out@.take(i + 1) =~= prefix.push(v));
                },
                Err(e) => {
                    proof {
                        lemma_collect_fail_at(i as nat, n as nat, f);
                    }
                    return Err(e);
                },
            }
            i += 1;
        }
        assert(out@.take(n as int) =~= out@);
        Ok(())
    }

    fn setup(&self) {
        self.prev_op.setup();
        self.curr_op.setup();
    }

    fn in_len(&self, default_len: usize) -> (r: usize) {
        self.prev_op.in_len(default_len)
    }

    fn out_len(&self, default_len: usize) -> (r: usize) {
        self.prev_op.out_len(default_len)
    }

    fn op_name(&self) -> (r: String)
        ensures
            exists|a: String, b: String|
                call_ensures(U::op_name, (&self.prev_op,), a) && call_ensures(
                    S::op_name,
                    (&self.curr_op,),
                    b,
                ) && r@ == "Fused<"@ + a@ + ", "@ + b@ + ">"@,
    {
        fused_name(self.prev_op.op_name(), self.curr_op.op_name())
    }
}

impl<T: Float, U: TransformOp<T>, S: TransformOp<T>> TransformOp<T> for Fused<
    U,
    S,
    TransformTransform,
> where S::IndexRemapping: IsTrue, U::IndexRemapping: IsTrue {
    type IndexRemapping = True;

    const OUT_LEN: usize = S::OUT_LEN;

    const IN_LEN: usize = U::IN_LEN;

    const INTERNAL_IS_VALID: bool = S::IN_LEN == U::OUT_LEN || S::IN_LEN == 0 || U::IN_LEN == 0;

    open spec fn spec_in_len(&self, default_len: usize) -> usize {
        self.prev_op.spec_in_len(default_len)
    }

    /// The second operation runs on what the first produces
    open spec fn spec_out_len(&self, default_len: usize) -> usize {
        self.curr_op.spec_out_len(self.prev_op.spec_out_len(default_len))
    }

    open spec fn spec_map_index(&self, out_index: int, default_len: usize) -> int {
        let m = self.prev_op.spec_out_len(default_len);
        let j = self.curr_op.spec_map_index(out_index, m);
        if 0 <= j < m {
            self.prev_op.spec_map_index(j, default_len)
        } else {
            j
        }
    }

    open spec fn spec_compute(&self, data: Seq<T>, index: int, handling: NanHandling) -> Result<
        T,
        ErrorKind,
    > {
        let m = self.prev_op.spec_out_len(data.len() as usize);
        let j = self.curr_op.spec_map_index(index, m);
        if 0 <= j < m {
            self.prev_op.spec_compute(data, j, handling)
        } else {
            Err(ErrorKind::InvalidInputSize)
        }
    }

    open spec fn spec_apply(&self, input: Seq<T>, n: nat, handling: NanHandling) -> Result<
        Seq<T>,
        ErrorKind,
    > {
        spec_collect(n, |i: int| self.spec_compute(input, i, handling))
    }

    fn map_index(&self, out_index: usize, default_len: usize) -> (r: usize) where
        Self::IndexRemapping: IsTrue,
     {
        // curr_op maps into the intermediate data, which prev_op maps into
        // the input
        let m = self.prev_op.out_len(default_len);
        let j = self.curr_op.map_index(out_index, m);
        if j < m {
            self.prev_op.map_index(j, default_len)
        } else {
            j
        }
    }

    fn compute<N: NanHandler>(&self, data: &[T], index: usize) -> (r: Result<T, PipeError>) {
        let m = self.prev_op.out_len(data.len());
        let j = self.curr_op.map_index(index, m);
        if j < m {
            // The first operation may hold a fused element operation, so
            // its value is computed rather than read
            self.prev_op.compute::<N>(data, j)
        } else {
            Err(PipeError::new(ErrorKind::InvalidInputSize))
        }
    }

    fn execute<N: NanHandler>(&self, out: &mut [T], input: &[T], n: usize) -> (r: Result<
        (),
        PipeError,
    >) {
        let ghost f = |i: int| self.spec_compute(input@, i, N::HANDLING);
        let mut i: usize = 0;
        assert(out@.take(0) =~= Seq::<T>::empty());
        while i < n
            invariant
                n == self.spec_out_len(input@.len() as usize),
                input@.len() == self.spec_in_len(input@.len() as usize),
                out@.len() == n,
                i <= n,
                f == (|i: int| self.spec_compute(input@, i, N::HANDLING)),
                spec_collect(i as nat, f) == Ok::<Seq<T>, ErrorKind>(out@.take(i as int)),
            decreases n - i,
        {
            match self.compute::<N>(input, i) {
                Ok(v) => {
                    let ghost prefix = out@.take(i as int);
                    proof {
                        lemma_collect_push(i as nat, f, prefix, v);
                    }
                    out[i] = v;
                    assert(out@.take(i + 1) =~= prefix.push(v));
                },
                Err(e) => {
                    proof {
                        lemma_collect_fail_at(i as nat, n as nat, f);
                    }
                    return Err(e);
                },
            }
            i += 1;
        }
        assert(out@.take(n as int) =~= out@);
        Ok(())
    }

    fn setup(&self) {
        self.prev_op.setup();
        self.curr_op.setup();
    }

    fn in_len(&self, default_len: usize) -> (r: usize) {
        self.prev_op.in_len(default_len)
    }

    fn out_len(&self, default_len: usize) -> (r: usize) {
        let m = self.prev_op.out_len(default_len);
        self.curr_op.out_len(m)
    }

    fn op_name(&self) -> (r: String)
        ensures
            exists|a: String, b: String|
                call_ensures(U::op_name, (&self.prev_op,), a) && call_ensures(
                    S::op_name,
                    (&self.curr_op,),
                    b,
                ) && r@ == "Fused<"@ + a@ + ", "@ + b@ + ">"@,
    {
        fused_name(self.prev_op.op_name(), self.curr_op.op_name())
    }
}

// ---------------------------------------------------------------------------
// Stage implementations
// ---------------------------------------------------------------------------

impl<T: Float, U: ElementOp<T>, const INPUT_LEN: usize> Sealed<T> for Head<U, Element, INPUT_LEN> {

}

impl<T: Float, U: ElementOp<T>, const INPUT_LEN: usize> Stage<T> for Head<U, Element, INPUT_LEN> {
    const IN_LEN: usize = INPUT_LEN;

    const OUT_LEN: usize = INPUT_LEN;

    open spec fn spec_max_buf_size() -> usize {
        INPUT_LEN
    }

    open spec fn spec_run(&self, data: Seq<T>, cap: nat, handling: NanHandling) -> Result<
        Seq<T>,
        ErrorKind,
    > {
        if INPUT_LEN > 0 && data.len() != INPUT_LEN {
            Err(ErrorKind::InvalidInputSize)
        } else if cap < data.len() {
            Err(ErrorKind::InvalidOutputSize)
        } else {
            spec_element_stage(self.root_op, data, handling)
        }
    }

    open spec fn spec_describes(&self, text: Seq<char>) -> bool {
        spec_labels_element("Head<"@, self.root_op, text)
    }

    open spec fn spec_error_fits(&self, data: Seq<T>, cap: nat, handling: NanHandling, e: PipeError) -> bool {
        (INPUT_LEN > 0 && data.len() != INPUT_LEN) || cap < data.len() ==> (e.spec_snapshot() matches Some(t) && self.spec_describes(t))
    }

    open spec fn spec_max_buf_size_dynamic(&self, input_len: usize) -> usize {
        if INPUT_LEN > 0 {
            INPUT_LEN
        } else {
            input_len
        }
    }

    open spec fn spec_out_len_dynamic(&self, input_len: usize) -> usize {
        if INPUT_LEN > 0 {
            INPUT_LEN
        } else {
            input_len
        }
    }

    fn max_buf_size() -> (r: usize) {
        INPUT_LEN
    }

    proof fn lemma_max_buf_size_holds_output() {
    }

    fn execute<N: NanHandler>(&self, data: &[T], in_buf: &mut [T], out_buf: &mut [T]) -> (r:
        Result<usize, PipeError>) {
        self.root_op.setup();
        let exec_len = if INPUT_LEN > 0 {
            INPUT_LEN
        } else {
            data.len()
        };
        if exec_len != data.len() {
            return Err(PipeError::with_snapshot(ErrorKind::InvalidInputSize, self.snapshot()));
        }
        // Checked against the *actual* allocation, not only the static
        // constant
        if out_buf.len() < exec_len {
            return Err(PipeError::with_snapshot(ErrorKind::InvalidOutputSize, self.snapshot()));
        }
        match run_elements::<T, U, N>(&self.root_op, data, out_buf) {
            Ok(()) => Ok(exec_len),
            Err(e) => Err(e),
        }
    }

    fn snapshot(&self) -> (r: String) {
        labeled("Head<", self.root_op.op_name())
    }

    fn max_buf_size_dynamic(&self, input_len: usize) -> (r: usize) {
        if INPUT_LEN > 0 {
            INPUT_LEN
        } else {
            input_len
        }
    }

    fn out_len_dynamic(&self, input_len: usize) -> (r: usize) {
        if INPUT_LEN > 0 {
            INPUT_LEN
        } else {
            input_len
        }
    }
}

impl<T: Float, U: TransformOp<T>, const INPUT_LEN: usize> Sealed<T> for Head<
    U,
    Transform,
    INPUT_LEN,
> {

}

impl<T: Float, U: TransformOp<T>, const INPUT_LEN: usize> Stage<T> for Head<
    U,
    Transform,
    INPUT_LEN,
> {
    const IN_LEN: usize = U::IN_LEN;

    const OUT_LEN: usize = U::OUT_LEN;

    open spec fn spec_max_buf_size() -> usize {
        if INPUT_LEN > U::OUT_LEN {
            INPUT_LEN
        } else {
            U::OUT_LEN
        }
    }

    open spec fn spec_run(&self, data: Seq<T>, cap: nat, handling: NanHandling) -> Result<
        Seq<T>,
        ErrorKind,
    > {
        spec_transform_stage(self.root_op, U::IN_LEN, U::OUT_LEN, data, cap, handling)
    }

    open spec fn spec_describes(&self, text: Seq<char>) -> bool {
        spec_labels_transform("Head<"@, self.root_op, text)
    }

    open spec fn spec_error_fits(&self, data: Seq<T>, cap: nat, handling: NanHandling, e: PipeError) -> bool {
        spec_transform_fault(self.root_op, U::IN_LEN, U::OUT_LEN, data, cap) ==> (e.spec_snapshot() matches Some(t) && self.spec_describes(t))
    }

    open spec fn spec_max_buf_size_dynamic(&self, input_len: usize) -> usize {
        self.root_op.spec_out_len(input_len)
    }

    open spec fn spec_out_len_dynamic(&self, input_len: usize) -> usize {
        self.root_op.spec_out_len(input_len)
    }

    fn max_buf_size() -> (r: usize) {
        crate::_const_max_usize(INPUT_LEN, U::OUT_LEN)
    }

    proof fn lemma_max_buf_size_holds_output() {
    }

    fn execute<N: NanHandler>(&self, data: &[T], in_buf: &mut [T], out_buf: &mut [T]) -> (r:
        Result<usize, PipeError>) {
        run_transform::<T, U, N>(&self.root_op, U::IN_LEN, U::OUT_LEN, data, out_buf, "Head<")
    }

    fn snapshot(&self) -> (r: String) {
        labeled("Head<", self.root_op.op_name())
    }

    fn max_buf_size_dynamic(&self, input_len: usize) -> (r: usize) {
        self.root_op.out_len(input_len)
    }

    fn out_len_dynamic(&self, input_len: usize) -> (r: usize) {
        self.root_op.out_len(input_len)
    }
}

impl<T: Float, U: TransformOp<T>, S: Stage<T>> Sealed<T> for Link<U, S, Transform, T> {

}

impl<T: Float, U: TransformOp<T>, S: Stage<T>> Stage<T> for Link<U, S, Transform, T> {
    const IN_LEN: usize = S::OUT_LEN;

    const OUT_LEN: usize = U::OUT_LEN;

    open spec fn spec_max_buf_size() -> usize {
        if S::spec_max_buf_size() > U::OUT_LEN {
            S::spec_max_buf_size()
        } else {
            U::OUT_LEN
        }
    }

    open spec fn spec_run(&self, data: Seq<T>, cap: nat, handling: NanHandling) -> Result<
        Seq<T>,
        ErrorKind,
    > {
        match self.prev_stage.spec_run(data, cap, handling) {
            Ok(p) => spec_transform_stage(self.curr_op, S::OUT_LEN, U::OUT_LEN, p, cap, handling),
            Err(e) => Err(e),
        }
    }

    open spec fn spec_describes(&self, text: Seq<char>) -> bool {
        spec_labels_transform("Link<"@, self.curr_op, text)
    }

    open spec fn spec_error_fits(&self, data: Seq<T>, cap: nat, handling: NanHandling, e: PipeError) -> bool {
        match self.prev_stage.spec_run(data, cap, handling) {
            Err(_) => self.prev_stage.spec_error_fits(data, cap, handling, e),
            Ok(p) => spec_transform_fault(self.curr_op, S::OUT_LEN, U::OUT_LEN, p, cap) ==> (e.spec_snapshot() matches Some(t) && self.spec_describes(t)),
        }
    }

    open spec fn spec_max_buf_size_dynamic(&self, input_len: usize) -> usize {
        let prev_max = self.prev_stage.spec_max_buf_size_dynamic(input_len);
        let curr_out = self.curr_op.spec_out_len(self.prev_stage.spec_out_len_dynamic(input_len));
        if prev_max > curr_out {
            prev_max
        } else {
            curr_out
        }
    }

    open spec fn spec_out_len_dynamic(&self, input_len: usize) -> usize {
        self.curr_op.spec_out_len(self.prev_stage.spec_out_len_dynamic(input_len))
    }

    fn max_buf_size() -> (r: usize) {
        crate::_const_max_usize(S::max_buf_size(), U::OUT_LEN)
    }

    proof fn lemma_max_buf_size_holds_output() {
    }

    fn execute<N: NanHandler>(&self, data: &[T], in_buf: &mut [T], out_buf: &mut [T]) -> (r:
        Result<usize, PipeError>) {
        // The previous stage writes into `in_buf`, this one into `out_buf`
        let m = match self.prev_stage.execute::<N>(data, out_buf, in_buf) {
            Ok(m) => m,
            Err(e) => return Err(e),
        };
        let prev_out = vstd::slice::slice_subrange(in_buf, 0, m);
        assert(prev_out@ =~= in_buf@.take(m as int));
        run_transform::<T, U, N>(&self.curr_op, S::OUT_LEN, U::OUT_LEN, prev_out, out_buf, "Link<")
    }

    fn snapshot(&self) -> (r: String) {
        labeled("Link<", self.curr_op.op_name())
    }

    fn max_buf_size_dynamic(&self, input_len: usize) -> (r: usize) {
        let prev_max = self.prev_stage.max_buf_size_dynamic(input_len);
        let prev_out_len = self.prev_stage.out_len_dynamic(input_len);
        let curr_out = self.curr_op.out_len(prev_out_len);
        crate::_const_max_usize(prev_max, curr_out)
    }

    fn out_len_dynamic(&self, input_len: usize) -> (r: usize) {
        let prev_out_len = self.prev_stage.out_len_dynamic(input_len);
        self.curr_op.out_len(prev_out_len)
    }
}

impl<T: Float, U: ElementOp<T>, S: Stage<T>> Sealed<T> for Link<U, S, Element, T> {

}

impl<T: Float, U: ElementOp<T>, S: Stage<T>> Stage<T> for Link<U, S, Element, T> {
    const IN_LEN: usize = S::OUT_LEN;

    const OUT_LEN: usize = S::OUT_LEN;

    open spec fn spec_max_buf_size() -> usize {
        S::spec_max_buf_size()
    }

    open spec fn spec_run(&self, data: Seq<T>, cap: nat, handling: NanHandling) -> Result<
        Seq<T>,
        ErrorKind,
    > {
        match self.prev_stage.spec_run(data, cap, handling) {
            Ok(p) => if cap < p.len() {
                Err(ErrorKind::InvalidOutputSize)
            } else {
                spec_element_stage(self.curr_op, p, handling)
            },
            Err(e) => Err(e),
        }
    }

    open spec fn spec_describes(&self, text: Seq<char>) -> bool {
        spec_labels_element("Link<"@, self.curr_op, text)
    }

    open spec fn spec_error_fits(&self, data: Seq<T>, cap: nat, handling: NanHandling, e: PipeError) -> bool {
        match self.prev_stage.spec_run(data, cap, handling) {
            Err(_) => self.prev_stage.spec_error_fits(data, cap, handling, e),
            Ok(p) => cap < p.len() ==> (e.spec_snapshot() matches Some(t) && self.spec_describes(t)),
        }
    }

    open spec fn spec_max_buf_size_dynamic(&self, input_len: usize) -> usize {
        self.prev_stage.spec_max_buf_size_dynamic(input_len)
    }

    open spec fn spec_out_len_dynamic(&self, input_len: usize) -> usize {
        self.prev_stage.spec_out_len_dynamic(input_len)
    }

    fn max_buf_size() -> (r: usize) {
        S::max_buf_size()
    }

    proof fn lemma_max_buf_size_holds_output() {
        S::lemma_max_buf_size_holds_output();
    }

    fn execute<N: NanHandler>(&self, data: &[T], in_buf: &mut [T], out_buf: &mut [T]) -> (r:
        Result<usize, PipeError>) {
        let m = match self.prev_stage.execute::<N>(data, out_buf, in_buf) {
            Ok(m) => m,
            Err(e) => return Err(e),
        };
        let prev_out = vstd::slice::slice_subrange(in_buf, 0, m);
        self.curr_op.setup();
        // Checked against the *actual* allocation
        if out_buf.len() < m {
            return Err(PipeError::with_snapshot(ErrorKind::InvalidOutputSize, self.snapshot()));
        }
        match run_elements::<T, U, N>(&self.curr_op, prev_out, out_buf) {
            Ok(()) => Ok(m),
            Err(e) => Err(e),
        }
    }

    fn snapshot(&self) -> (r: String) {
        labeled("Link<", self.curr_op.op_name())
    }

    fn max_buf_size_dynamic(&self, input_len: usize) -> (r: usize) {
        self.prev_stage.max_buf_size_dynamic(input_len)
    }

    fn out_len_dynamic(&self, input_len: usize) -> (r: usize) {
        self.prev_stage.out_len_dynamic(input_len)
    }
}

/// Extension trait for index-remapping TransformOps that can be fused
pub trait IndexRemappable<T: Float>: TransformOp<T> where Self::IndexRemapping: IsTrue {
    fn fuse_transform<U>(self, op: U) -> (f: Fused<Self, U, TransformTransform>) where
        U: TransformOp<T>,
        U::IndexRemapping: IsTrue,

        ensures
            f.prev_op == self,
            f.curr_op == op,
    {
        Fused { prev_op: self, curr_op: op, marker: core::marker::PhantomData }
    }
}

/// Any TransformOp with IndexRemapping = True is IndexRemappable
impl<T: Float, U> IndexRemappable<T> for U where U: TransformOp<T>, U::IndexRemapping: IsTrue {

}

} // verus!
verus! {

/// The static lengths of fused operations and of pipeline stages (visible
/// to verified callers, which the pipe-construction requirements speak of).
pub proof fn lemma_transform_element_static_lengths<T: Float, U: TransformOp<T>, S: ElementOp<T>>()
    ensures
        <Fused<U, S, TransformElement> as TransformOp<T>>::IN_LEN == U::IN_LEN,
        <Fused<U, S, TransformElement> as TransformOp<T>>::OUT_LEN == U::OUT_LEN,
        <Fused<U, S, TransformElement> as TransformOp<T>>::INTERNAL_IS_VALID
            == U::INTERNAL_IS_VALID,
{
}

/// The static lengths of two fused index remappings.
pub proof fn lemma_transform_transform_static_lengths<
    T: Float,
    U: TransformOp<T>,
    S: TransformOp<T>,
>() where U::IndexRemapping: IsTrue, S::IndexRemapping: IsTrue
    ensures
        <Fused<U, S, TransformTransform> as TransformOp<T>>::IN_LEN == U::IN_LEN,
        <Fused<U, S, TransformTransform> as TransformOp<T>>::OUT_LEN == S::OUT_LEN,
        <Fused<U, S, TransformTransform> as TransformOp<T>>::INTERNAL_IS_VALID == (S::IN_LEN
            == U::OUT_LEN || S::IN_LEN == 0 || U::IN_LEN == 0),
{
}

/// The static lengths of a point-wise pipeline head.
pub proof fn lemma_element_head_static_lengths<T: Float, E: ElementOp<T>, const INPUT_LEN: usize>()
    ensures
        <Head<E, Element, INPUT_LEN> as Stage<T>>::IN_LEN == INPUT_LEN,
        <Head<E, Element, INPUT_LEN> as Stage<T>>::OUT_LEN == INPUT_LEN,
{
}

/// The static lengths of a transform pipeline head.
pub proof fn lemma_transform_head_static_lengths<T: Float, U: TransformOp<T>, const INPUT_LEN: usize>()
    ensures
        <Head<U, Transform, INPUT_LEN> as Stage<T>>::IN_LEN == U::IN_LEN,
        <Head<U, Transform, INPUT_LEN> as Stage<T>>::OUT_LEN == U::OUT_LEN,
{
}

/// The static lengths of a transform link.
pub proof fn lemma_transform_link_static_lengths<T: Float, U: TransformOp<T>, S: Stage<T>>()
    ensures
        <Link<U, S, Transform, T> as Stage<T>>::IN_LEN == S::OUT_LEN,
        <Link<U, S, Transform, T> as Stage<T>>::OUT_LEN == U::OUT_LEN,
{
}

/// The static lengths of a point-wise link.
pub proof fn lemma_element_link_static_lengths<T: Float, E: ElementOp<T>, S: Stage<T>>()
    ensures
        <Link<E, S, Element, T> as Stage<T>>::IN_LEN == S::OUT_LEN,
        <Link<E, S, Element, T> as Stage<T>>::OUT_LEN == S::OUT_LEN,
{
}

} // verus!
