//! Typestate pipeline builder and the executable pipeline.
use vstd::prelude::*;
use crate::errors::{spec_cast_failure_text, CastFailure, ErrorKind, FailOnNan, NanHandler, NanHandling, PipeError};
use crate::traits::{
    fuse_element, fuse_transform, Element, ElementElement, ElementOp, Float, Fused, Head,
    IndexRemappable, IsTrue, Link, Stage, Transform, TransformElement, TransformOp,
    TransformTransform,
};

verus! {

/// Markers for pipeline type - internal use only
#[derive(Debug, Clone, Copy, PartialEq, Eq, PartialOrd, Ord, Hash, Default)]
pub struct Static;

#[derive(Debug, Clone, Copy, PartialEq, Eq, PartialOrd, Ord, Hash, Default)]
pub struct Dynamic;

/// Initializer
#[derive(Debug, Default, Clone, Copy)]
pub struct Pipeline;

/// Wrapper for the pipeline stages
///
/// The `N` type parameter is the pipeline-wide NaN policy
/// ([`NanHandler`]); it is chosen once at construction time and is threaded
/// through every stage / operation.
#[derive(Debug, Clone, Default)]
pub struct Pipe<T, F, State, N = FailOnNan> where T: Stage<F>, F: Float, N: NanHandler {
    stages: T,
    marker: core::marker::PhantomData<(State, F, N)>,
}

impl<T, F, State, N> Pipe<T, F, State, N> where T: Stage<F>, F: Float, N: NanHandler {
    /// The stages built so far
    pub closed spec fn spec_stages(&self) -> T {
        self.stages
    }
}

/// Executable pipeline with allocated buffers
///
/// Scratch buffers `in_buf` and `out_buf` hold the intermediate results
/// between `Link<...>` stages, as the caller's input buffer cannot be
/// reused.
#[derive(Debug)]
pub struct PipeExec<T, N, F> where T: Stage<F>, F: Float, N: NanHandler {
    stages: T,
    max_expected_input_length: Option<usize>,
    // The (input, output) scratch buffers, allocated only at the build stage
    buffers: (Vec<F>, Vec<F>),
    marker: core::marker::PhantomData<N>,
}

impl<T, N, F> PipeExec<T, N, F> where T: Stage<F>, F: Float, N: NanHandler {
    /// Both scratch buffers always have the same length
    #[verifier::type_invariant]
    spec fn buffers_match(self) -> bool {
        self.buffers.0@.len() == self.buffers.1@.len()
    }

    /// The stages this pipeline runs
    pub closed spec fn spec_stages(&self) -> T {
        self.stages
    }

    /// Length of each scratch buffer
    pub closed spec fn spec_capacity(&self) -> nat {
        self.buffers.1@.len()
    }

    /// The input length the buffers were sized for (dynamic pipelines)
    pub closed spec fn spec_max_expected_input_length(&self) -> Option<usize> {
        self.max_expected_input_length
    }
}

impl<T, N, F> Clone for PipeExec<T, N, F> where T: Stage<F> + Clone, F: Float, N: NanHandler {
    /// A copy of the pipeline with its own scratch buffers
    fn clone(&self) -> (r: Self)
        ensures
            r.spec_capacity() == self.spec_capacity(),
            r.spec_max_expected_input_length() == self.spec_max_expected_input_length(),
    {
        proof {
            use_type_invariant(self);
        }
        PipeExec {
            stages: self.stages.clone(),
            max_expected_input_length: self.max_expected_input_length,
            buffers: (self.buffers.0.clone(), self.buffers.1.clone()),
            marker: core::marker::PhantomData,
        }
    }
}

impl<T, N, F> Default for PipeExec<T, N, F> where T: Stage<F> + Default, F: Float, N: NanHandler {
    /// A pipeline of default stages without scratch buffers
    fn default() -> (r: Self)
        ensures
            r.spec_capacity() == 0,
            r.spec_max_expected_input_length() == None::<usize>,
    {
        PipeExec {
            stages: T::default(),
            max_expected_input_length: None,
            buffers: (Vec::new(), Vec::new()),
            marker: core::marker::PhantomData,
        }
    }
}

/// A vector of `n` default values.
fn filled<F: Float>(n: usize) -> (v: Vec<F>)
    ensures
        v@.len() == n,
{
    let mut v: Vec<F> = Vec::new();
    let mut i: usize = 0;
    while i < n
        invariant
            i <= n,
            v@.len() == i,
        decreases n - i,
    {
        v.push(F::default());
        i += 1;
    }
    v
}

/// Static pipeline initializer - internal use only
#[derive(Debug, Default, Clone, Copy, PartialEq, Eq)]
pub struct PipelineStatic<F: Float, N: NanHandler = FailOnNan> {
    marker: core::marker::PhantomData<(Static, F, N)>,
}

/// Dynamic pipeline initializer - internal use only
#[derive(Debug, Default, Clone, Copy, PartialEq, Eq)]
pub struct PipelineDynamic<F: Float, N: NanHandler = FailOnNan> {
    marker: core::marker::PhantomData<(Dynamic, F, N)>,
}

impl Pipeline {
    /// Static pipeline with the default (fail fast) NaN policy
    pub fn new<T: Float>() -> (r: PipelineStatic<T, FailOnNan>) {
        PipelineStatic { marker: core::marker::PhantomData }
    }

    /// Static pipeline with an explicit, pipeline-wide NaN policy
    pub fn new_with<T: Float, N: NanHandler>() -> (r: PipelineStatic<T, N>) {
        PipelineStatic { marker: core::marker::PhantomData }
    }

    /// Dynamic pipeline with the default (fail fast) NaN policy
    pub fn with_dynamic<T: Float>() -> (r: PipelineDynamic<T, FailOnNan>) {
        PipelineDynamic { marker: core::marker::PhantomData }
    }

    /// Dynamic pipeline with an explicit, pipeline-wide NaN policy
    pub fn with_dynamic_and<T: Float, N: NanHandler>() -> (r: PipelineDynamic<T, N>) {
        PipelineDynamic { marker: core::marker::PhantomData }
    }
}

impl<F: Float, N: NanHandler> PipelineStatic<F, N> {
    /// Select the pipeline-wide NaN policy before adding any operation
    pub fn nan_handling<N2: NanHandler>(self) -> (r: PipelineStatic<F, N2>) {
        PipelineStatic { marker: core::marker::PhantomData }
    }

    /// Creates the initialized pipe implicitly (with size)
    pub fn apply_element<T, const INPUT_LEN: usize>(self, op: T) -> (r: Pipe<
        Head<T, Element, INPUT_LEN>,
        F,
        Static,
        N,
    >) where T: ElementOp<F>
        ensures
            r.spec_stages().root_op == op,
    {
        Pipe {
            stages: Head { root_op: op, marker: core::marker::PhantomData },
            marker: core::marker::PhantomData,
        }
    }

    /// Creates the initialized pipe implicitly (with size implied -> the
    /// transform operation must be static)
    pub fn apply_transform<T>(self, op: T) -> (r: Pipe<Head<T, Transform, 0>, F, Static, N>) where
        T: TransformOp<F>,

        requires
            T::IN_LEN > 0 && T::OUT_LEN > 0,
            T::INTERNAL_IS_VALID,
        ensures
            r.spec_stages().root_op == op,
    {
        Pipe {
            stages: Head { root_op: op, marker: core::marker::PhantomData },
            marker: core::marker::PhantomData,
        }
    }
}

impl<F: Float, N: NanHandler> PipelineDynamic<F, N> {
    /// Select the pipeline-wide NaN policy before adding any operation
    pub fn nan_handling<N2: NanHandler>(self) -> (r: PipelineDynamic<F, N2>) {
        PipelineDynamic { marker: core::marker::PhantomData }
    }

    /// Creates the initialized pipe implicitly
    pub fn apply_element<T>(self, op: T) -> (r: Pipe<Head<T, Element, 0>, F, Dynamic, N>) where
        T: ElementOp<F>,

        ensures
            r.spec_stages().root_op == op,
    {
        Pipe {
            stages: Head { root_op: op, marker: core::marker::PhantomData },
            marker: core::marker::PhantomData,
        }
    }

    /// Creates the initialized pipe implicitly
    pub fn apply_transform<T>(self, op: T) -> (r: Pipe<Head<T, Transform, 0>, F, Dynamic, N>) where
        T: TransformOp<F>,

        requires
            T::INTERNAL_IS_VALID,
        ensures
            r.spec_stages().root_op == op,
    {
        Pipe {
            stages: Head { root_op: op, marker: core::marker::PhantomData },
            marker: core::marker::PhantomData,
        }
    }
}

impl<T, F, N> Pipe<T, F, Static, N> where T: Stage<F>, F: Float, N: NanHandler {
    /// Allocates the scratch buffers; the input data dimensions must be
    /// known at this point.
    ///
    /// `max_buf_size` is the maximum of every stage's static output length
    /// (and the head's input length), so each stage's intermediate result
    /// fits into either scratch buffer.
    pub fn build(self) -> (r: PipeExec<T, N, F>)
        requires
            T::spec_max_buf_size() > 0,
        ensures
            r.spec_stages() == self.spec_stages(),
            r.spec_capacity() == T::spec_max_buf_size(),
            r.spec_max_expected_input_length() == None::<usize>,
    {
        let buf_size = T::max_buf_size();
        PipeExec {
            buffers: (filled(buf_size), filled(buf_size)),
            stages: self.stages,
            max_expected_input_length: None,
            marker: core::marker::PhantomData,
        }
    }
}

impl<T, F, N> Pipe<T, F, Dynamic, N> where T: Stage<F>, F: Float, N: NanHandler {
    /// Dynamic bound checking
    ///
    /// Buffers are sized for `max_expected_input_length` by walking the
    /// stages with `max_buf_size_dynamic`. An actual input whose
    /// intermediate results exceed the allocation is rejected at runtime
    /// with `InvalidInputSize` / `InvalidOutputSize`.
    pub fn build_dynamic(self, max_expected_input_length: usize) -> (r: PipeExec<T, N, F>)
        ensures
            r.spec_stages() == self.spec_stages(),
            r.spec_capacity() == self.spec_stages().spec_max_buf_size_dynamic(
                max_expected_input_length,
            ),
            r.spec_max_expected_input_length() == Some(max_expected_input_length),
    {
        let buf_size = self.stages.max_buf_size_dynamic(max_expected_input_length);
        PipeExec {
            buffers: (filled(buf_size), filled(buf_size)),
            stages: self.stages,
            max_expected_input_length: Some(max_expected_input_length),
            marker: core::marker::PhantomData,
        }
    }
}

/// The outcome of running a built pipeline: the stages' result when it
/// fits into the output buffer of `out_len` elements.
pub open spec fn spec_exec_outcome<F>(run: Result<Seq<F>, ErrorKind>, out_len: nat) -> Result<
    Seq<F>,
    ErrorKind,
> {
    match run {
        Ok(s) => if s.len() > out_len {
            Err(ErrorKind::InvalidOutputSize)
        } else {
            Ok(s)
        },
        Err(k) => Err(k),
    }
}

/// Whether a pipeline run with stage outcome `run` returned `r` and left
/// `new_out` in an output buffer that held `old_out`: on success the result
/// is written to the front of the buffer and its length returned; on
/// failure the buffer is unchanged.
pub open spec fn spec_exec_matches<F>(
    run: Result<Seq<F>, ErrorKind>,
    old_out: Seq<F>,
    new_out: Seq<F>,
    r: Result<usize, PipeError>,
) -> bool {
    match spec_exec_outcome(run, old_out.len()) {
        Ok(s) => r == Ok::<usize, PipeError>(s.len() as usize) && new_out == s + old_out.skip(
            s.len() as int,
        ),
        Err(k) => r matches Err(e) && e.spec_kind() == k && new_out == old_out,
    }
}

/// `bytemuck::try_cast_slice`: reinterprets the bytes as values of `F`.
/// When it succeeds, the values span exactly the input bytes; when the
/// byte length is not a whole number of values it fails. It fails only for
/// a misaligned input or, with `OutputSliceWouldHaveSlop`, for a byte
/// length that is not a whole number of values. Which values the bytes
/// encode, and whether the input address is aligned for `F`, are left
/// unsaid.
#[verifier::external_body]
fn cast_bytes<F: Float + bytemuck::Pod>(input: &[u8]) -> (r: Result<&[F], CastFailure>)
    ensures
        r matches Ok(values) ==> values@.len() * vstd::layout::size_of::<F>() == input@.len(),
        spec_not_whole::<F>(input@.len()) ==> r is Err,
        r matches Err(f) ==> f == CastFailure::TargetAlignmentGreaterAndInputNotAligned || (f
            == CastFailure::OutputSliceWouldHaveSlop && spec_not_whole::<F>(input@.len())),
{
    match bytemuck::try_cast_slice::<u8, F>(input) {
        Ok(values) => Ok(values),
        Err(bytemuck::PodCastError::TargetAlignmentGreaterAndInputNotAligned) => Err(
            CastFailure::TargetAlignmentGreaterAndInputNotAligned,
        ),
        Err(bytemuck::PodCastError::OutputSliceWouldHaveSlop) => Err(
            CastFailure::OutputSliceWouldHaveSlop,
        ),
        Err(bytemuck::PodCastError::SizeMismatch) => Err(CastFailure::SizeMismatch),
        Err(bytemuck::PodCastError::AlignmentMismatch) => Err(CastFailure::AlignmentMismatch),
    }
}

/// Whether `len` bytes are not a whole number of values of `F`.
pub open spec fn spec_not_whole<F>(len: nat) -> bool {
    (vstd::layout::size_of::<F>() == 0 && len > 0) || (vstd::layout::size_of::<F>() > 0 && len
        % vstd::layout::size_of::<F>() != 0)
}

impl<T, N, F> PipeExec<T, N, F> where T: Stage<F>, F: Float, N: NanHandler {
    /// Runs the pipeline on `input` and writes the result to the front of
    /// `output_buf`, returning its length. On failure `output_buf` is left
    /// unchanged.
    pub fn execute(&mut self, input: &[F], output_buf: &mut [F]) -> (r: Result<usize, PipeError>)
        ensures
            final(self).spec_stages() == old(self).spec_stages(),
            final(self).spec_capacity() == old(self).spec_capacity(),
            final(self).spec_max_expected_input_length() == old(
                self,
            ).spec_max_expected_input_length(),
            final(output_buf)@.len() == old(output_buf)@.len(),
            spec_exec_matches(
                old(self).spec_stages().spec_run(input@, old(self).spec_capacity(), N::HANDLING),
                old(output_buf)@,
                final(output_buf)@,
                r,
            ),
            old(self).spec_stages().spec_run(input@, old(self).spec_capacity(), N::HANDLING) is Err
                ==> (r matches Err(e) && old(self).spec_stages().spec_error_fits(
                input@,
                old(self).spec_capacity(),
                N::HANDLING,
                e,
            )),
            old(self).spec_stages().spec_run(input@, old(self).spec_capacity(), N::HANDLING) matches Ok(
                s,
            ) && s.len() > old(output_buf)@.len() ==> (r matches Err(e) && e.spec_snapshot() is None
                && e.spec_message() is None),
    {
        proof {
            use_type_invariant(&*self);
        }
        // Borrow the scratch buffers for the run; they are put back below
        let mut bufs: (Vec<F>, Vec<F>) = (Vec::new(), Vec::new());
        core::mem::swap(&mut bufs, &mut self.buffers);
        let run = self.stages.execute::<N>(input, bufs.0.as_mut_slice(), bufs.1.as_mut_slice());
        let exec_len = match run {
            Ok(m) => m,
            Err(e) => {
                core::mem::swap(&mut bufs, &mut self.buffers);
                return Err(e);
            },
        };
        if output_buf.len() < exec_len {
            core::mem::swap(&mut bufs, &mut self.buffers);
            return Err(PipeError::new(ErrorKind::InvalidOutputSize));
        }
        let ghost old_out = output_buf@;
        let mut i: usize = 0;
        while i < exec_len
            invariant
                i <= exec_len,
                exec_len <= output_buf@.len(),
                exec_len <= bufs.1@.len(),
                output_buf@.len() == old_out.len(),
                forall|j: int| 0 <= j < i ==> output_buf@[j] == bufs.1@[j],
                forall|j: int| i <= j < old_out.len() ==> output_buf@[j] == old_out[j],
            decreases exec_len - i,
        {
            output_buf[i] = bufs.1[i];
            i += 1;
        }
        assert(output_buf@ =~= bufs.1@.take(exec_len as int) + old_out.skip(exec_len as int));
        core::mem::swap(&mut bufs, &mut self.buffers);
        Ok(exec_len)
    }

    /// Runs the pipeline on the values encoded by the `input` bytes.
    ///
    /// Either the bytes could not be reinterpreted as values (an
    /// [`ErrorKind::InvalidByteInput`] naming the cast failure, with
    /// `output_buf` unchanged), or the outcome is that of [`Self::execute`]
    /// on values spanning exactly the input bytes.
    pub fn execute_from_bytes(&mut self, input: &[u8], output_buf: &mut [F]) -> (r: Result<
        usize,
        PipeError,
    >) where F: bytemuck::Pod
        ensures
            final(self).spec_stages() == old(self).spec_stages(),
            final(self).spec_capacity() == old(self).spec_capacity(),
            final(self).spec_max_expected_input_length() == old(
                self,
            ).spec_max_expected_input_length(),
            final(output_buf)@.len() == old(output_buf)@.len(),
            spec_not_whole::<F>(input@.len()) ==> (r matches Err(e) && e.spec_kind()
                == ErrorKind::InvalidByteInput && final(output_buf)@ == old(output_buf)@),
            ({
                ||| exists|failure: CastFailure|
                    (failure == CastFailure::TargetAlignmentGreaterAndInputNotAligned || failure
                        == CastFailure::OutputSliceWouldHaveSlop) && (r matches Err(e)
                        && e.spec_kind() == ErrorKind::InvalidByteInput
                        && e.spec_message() == Some(#[trigger] spec_cast_failure_text(failure))
                        && final(output_buf)@ == old(output_buf)@)
                ||| exists|values: Seq<F>|
                    values.len() * vstd::layout::size_of::<F>() == input@.len()
                        && #[trigger] spec_exec_matches(
                        old(self).spec_stages().spec_run(
                            values,
                            old(self).spec_capacity(),
                            N::HANDLING,
                        ),
                        old(output_buf)@,
                        final(output_buf)@,
                        r,
                    )
            }),
    {
        match cast_bytes::<F>(input) {
            Ok(values) => self.execute(values, output_buf),
            Err(failure) => Err(PipeError::from_cast_failure(failure)),
        }
    }

    /// The output length for the expected input length (0 for static
    /// pipelines, whose lengths are fixed)
    pub fn output_len(&self) -> (r: usize)
        ensures
            r == self.spec_stages().spec_out_len_dynamic(
                match self.spec_max_expected_input_length() {
                    Some(l) => l,
                    None => 0,
                },
            ),
    {
        let len = match self.max_expected_input_length {
            Some(l) => l,
            None => 0,
        };
        self.stages.out_len_dynamic(len)
    }

    /// The (compile-time selected) NaN policy of this pipeline
    pub fn nan_handling(&self) -> (r: NanHandling)
        ensures
            r == N::HANDLING,
    {
        N::HANDLING
    }

    /// Length of each scratch buffer: no result of the pipeline is longer
    pub fn capacity(&self) -> (r: usize)
        ensures
            r == self.spec_capacity(),
    {
        self.buffers.1.len()
    }
}

impl<T, F, N, const INPUT_LEN: usize, State> Pipe<Head<T, Element, INPUT_LEN>, F, State, N> where
    T: ElementOp<F>,
    F: Float,
    N: NanHandler,
 {
    /// Fuses a point-wise operation into the head
    pub fn apply_element<U>(self, op: U) -> (r: Pipe<
        Head<Fused<T, U, ElementElement>, Element, INPUT_LEN>,
        F,
        State,
        N,
    >) where U: ElementOp<F>
        ensures
            r.spec_stages().root_op.prev_op == self.spec_stages().root_op,
            r.spec_stages().root_op.curr_op == op,
    {
        let prev_head = self.stages;
        Pipe {
            stages: Head {
                marker: core::marker::PhantomData,
                root_op: fuse_element(prev_head.root_op, op),
            },
            marker: core::marker::PhantomData,
        }
    }

    /// Adds a transform stage that runs on what the point-wise head
    /// produces (the operations run in the order they were added)
    pub fn apply_transform<U>(self, op: U) -> (r: Pipe<
        Link<U, Head<T, Element, INPUT_LEN>, Transform, F>,
        F,
        State,
        N,
    >) where U: TransformOp<F>
        requires
            U::INTERNAL_IS_VALID,
            INPUT_LEN == 0 || U::IN_LEN == 0 || U::IN_LEN == INPUT_LEN,
        ensures
            r.spec_stages().prev_stage == self.spec_stages(),
            r.spec_stages().curr_op == op,
    {
        let prev_head = self.stages;
        Pipe {
            stages: Link { prev_stage: prev_head, curr_op: op, marker: core::marker::PhantomData },
            marker: core::marker::PhantomData,
        }
    }
}

impl<T, F, N, const INPUT_LEN: usize, State> Pipe<Head<T, Transform, INPUT_LEN>, F, State, N> where
    T: TransformOp<F>,
    F: Float,
    N: NanHandler,
 {
    /// Fuses a point-wise operation behind the head transform
    pub fn apply_element<U>(self, op: U) -> (r: Pipe<
        Head<Fused<T, U, TransformElement>, Transform, INPUT_LEN>,
        F,
        State,
        N,
    >) where U: ElementOp<F>
        ensures
            r.spec_stages().root_op.prev_op == self.spec_stages().root_op,
            r.spec_stages().root_op.curr_op == op,
    {
        let prev_head = self.stages;
        Pipe {
            stages: Head {
                marker: core::marker::PhantomData,
                root_op: prev_head.root_op.fuse_element(op),
            },
            marker: core::marker::PhantomData,
        }
    }

    /// Adds a transform stage that runs on what the head produces
    pub fn apply_transform<U>(self, op: U) -> (r: Pipe<
        Link<U, Head<T, Transform, INPUT_LEN>, Transform, F>,
        F,
        State,
        N,
    >) where U: TransformOp<F>
        requires
            U::INTERNAL_IS_VALID,
            T::OUT_LEN == U::IN_LEN || T::OUT_LEN == 0 || U::IN_LEN == 0,
        ensures
            r.spec_stages().prev_stage == self.spec_stages(),
            r.spec_stages().curr_op == op,
    {
        let prev_head = self.stages;
        Pipe {
            stages: Link {
                curr_op: op,
                prev_stage: prev_head,
                marker: core::marker::PhantomData,
            },
            marker: core::marker::PhantomData,
        }
    }
}

impl<T, F, N, const INPUT_LEN: usize, State> Pipe<Head<T, Transform, INPUT_LEN>, F, State, N> where
    T: TransformOp<F> + IndexRemappable<F>,
    T::IndexRemapping: IsTrue,
    F: Float,
    N: NanHandler,
 {
    /// Fuses two index remappings into one pass
    pub fn apply_transform_fusable<U>(self, op: U) -> (r: Pipe<
        Head<Fused<T, U, TransformTransform>, Transform, INPUT_LEN>,
        F,
        State,
        N,
    >) where U: TransformOp<F>, U::IndexRemapping: IsTrue
        requires
            U::INTERNAL_IS_VALID,
            T::OUT_LEN == U::IN_LEN || T::OUT_LEN == 0 || U::IN_LEN == 0,
        ensures
            r.spec_stages().root_op.prev_op == self.spec_stages().root_op,
            r.spec_stages().root_op.curr_op == op,
    {
        let prev_head = self.stages;
        Pipe {
            stages: Head {
                marker: core::marker::PhantomData,
                root_op: prev_head.root_op.fuse_transform(op),
            },
            marker: core::marker::PhantomData,
        }
    }
}

impl<T, S, F, N, State> Pipe<Link<T, S, Element, F>, F, State, N> where
    T: ElementOp<F>,
    S: Stage<F>,
    F: Float,
    N: NanHandler,
 {
    /// Fuses a point-wise operation into the last stage
    pub fn apply_element<U>(self, op: U) -> (r: Pipe<
        Link<Fused<T, U, ElementElement>, S, Element, F>,
        F,
        State,
        N,
    >) where U: ElementOp<F>
        ensures
            r.spec_stages().prev_stage == self.spec_stages().prev_stage,
            r.spec_stages().curr_op.prev_op == self.spec_stages().curr_op,
            r.spec_stages().curr_op.curr_op == op,
    {
        let stages = self.stages;
        Pipe {
            stages: Link {
                prev_stage: stages.prev_stage,
                curr_op: fuse_element(stages.curr_op, op),
                marker: core::marker::PhantomData,
            },
            marker: core::marker::PhantomData,
        }
    }

    /// Adds a transform stage that runs on what the point-wise last stage
    /// produces (the operations run in the order they were added)
    pub fn apply_transform<U>(self, op: U) -> (r: Pipe<
        Link<U, Link<T, S, Element, F>, Transform, F>,
        F,
        State,
        N,
    >) where U: TransformOp<F>
        requires
            U::INTERNAL_IS_VALID,
            S::OUT_LEN == U::IN_LEN || S::OUT_LEN == 0 || U::IN_LEN == 0,
        ensures
            r.spec_stages().prev_stage == self.spec_stages(),
            r.spec_stages().curr_op == op,
    {
        let stages = self.stages;
        Pipe {
            stages: Link { prev_stage: stages, curr_op: op, marker: core::marker::PhantomData },
            marker: core::marker::PhantomData,
        }
    }
}

impl<T, S, F, N, State> Pipe<Link<T, S, Transform, F>, F, State, N> where
    T: TransformOp<F>,
    S: Stage<F>,
    F: Float,
    N: NanHandler,
 {
    /// Fuses a point-wise operation behind the last transform
    pub fn apply_element<U>(self, op: U) -> (r: Pipe<
        Link<Fused<T, U, TransformElement>, S, Transform, F>,
        F,
        State,
        N,
    >) where U: ElementOp<F>
        ensures
            r.spec_stages().prev_stage == self.spec_stages().prev_stage,
            r.spec_stages().curr_op.prev_op == self.spec_stages().curr_op,
            r.spec_stages().curr_op.curr_op == op,
    {
        let stages = self.stages;
        Pipe {
            stages: Link {
                prev_stage: stages.prev_stage,
                curr_op: stages.curr_op.fuse_element(op),
                marker: core::marker::PhantomData,
            },
            marker: core::marker::PhantomData,
        }
    }

    /// Adds a transform stage that runs on what the pipe produces so far
    pub fn apply_transform<U>(self, op: U) -> (r: Pipe<
        Link<U, Link<T, S, Transform, F>, Transform, F>,
        F,
        State,
        N,
    >) where U: TransformOp<F>
        requires
            U::INTERNAL_IS_VALID,
            T::OUT_LEN == U::IN_LEN || T::OUT_LEN == 0 || U::IN_LEN == 0,
        ensures
            r.spec_stages().prev_stage == self.spec_stages(),
            r.spec_stages().curr_op == op,
    {
        let stages = self.stages;
        Pipe {
            stages: Link { prev_stage: stages, curr_op: op, marker: core::marker::PhantomData },
            marker: core::marker::PhantomData,
        }
    }
}

impl<T, S, F, N, State> Pipe<Link<T, S, Transform, F>, F, State, N> where
    T: TransformOp<F> + IndexRemappable<F>,
    T::IndexRemapping: IsTrue,
    S: Stage<F>,
    F: Float,
    N: NanHandler,
 {
    /// Fuses two index remappings into one pass
    pub fn apply_transform_fusable<U>(self, op: U) -> (r: Pipe<
        Link<Fused<T, U, TransformTransform>, S, Transform, F>,
        F,
        State,
        N,
    >) where U: TransformOp<F>, U::IndexRemapping: IsTrue
        requires
            U::INTERNAL_IS_VALID,
            T::OUT_LEN == U::IN_LEN || T::OUT_LEN == 0 || U::IN_LEN == 0,
        ensures
            r.spec_stages().prev_stage == self.spec_stages().prev_stage,
            r.spec_stages().curr_op.prev_op == self.spec_stages().curr_op,
            r.spec_stages().curr_op.curr_op == op,
    {
        let stages = self.stages;
        Pipe {
            stages: Link {
                marker: core::marker::PhantomData,
                curr_op: stages.curr_op.fuse_transform(op),
                prev_stage: stages.prev_stage,
            },
            marker: core::marker::PhantomData,
        }
    }
}

/// Object-safe, type-erased view of a built pipeline executor
///
/// The concrete type of a `PipeExec` encodes the full stage composition.
/// `PipeExecutor` erases that type behind a vtable while keeping the
/// pipeline itself fully static internally: the only runtime cost is a
/// single dynamic dispatch per `execute` call.
///
/// The spec functions name what an executor does: `spec_outcome` is the
/// outcome of its stages on an input, `spec_output_len` its output length
/// and `spec_handling` its NaN policy. An implementation that does not
/// define them leaves them unspecified.
pub trait PipeExecutor<F: Float> {
    /// The outcome of the executor's stages on `input`
    open spec fn spec_outcome(&self, input: Seq<F>) -> Result<Seq<F>, ErrorKind> {
        vstd::pervasive::arbitrary()
    }

    /// The output length for the expected input length
    open spec fn spec_output_len(&self) -> usize {
        vstd::pervasive::arbitrary()
    }

    /// The NaN policy of the executor
    open spec fn spec_handling(&self) -> NanHandling {
        vstd::pervasive::arbitrary()
    }

    /// See [`PipeExec::execute`]: the outcome is written to the front of
    /// `output_buf` and its length returned; on failure `output_buf` is
    /// unchanged. Running does not change what the executor does.
    fn execute(&mut self, input: &[F], output_buf: &mut [F]) -> (r: Result<usize, PipeError>)
        ensures
            final(output_buf)@.len() == old(output_buf)@.len(),
            spec_exec_matches(old(self).spec_outcome(input@), old(output_buf)@, final(output_buf)@, r),
            forall|x: Seq<F>| #[trigger] final(self).spec_outcome(x) == old(self).spec_outcome(x),
            final(self).spec_output_len() == old(self).spec_output_len(),
            final(self).spec_handling() == old(self).spec_handling(),
    ;

    /// See [`PipeExec::output_len`]
    fn output_len(&self) -> (r: usize)
        ensures
            r == self.spec_output_len(),
    ;

    /// The (compile-time selected) NaN policy of this pipeline
    fn nan_handling(&self) -> (r: NanHandling)
        ensures
            r == self.spec_handling(),
    ;
}

/// Convenience alias for a boxed, type-erased pipeline executor
pub type BoxedPipeExec<F> = Box<dyn PipeExecutor<F>>;

/// Every built pipeline executor is a (type-erasable) `PipeExecutor`
impl<T, N, F> PipeExecutor<F> for PipeExec<T, N, F> where T: Stage<F>, F: Float, N: NanHandler {
    open spec fn spec_outcome(&self, input: Seq<F>) -> Result<Seq<F>, ErrorKind> {
        self.spec_stages().spec_run(input, self.spec_capacity(), N::HANDLING)
    }

    open spec fn spec_output_len(&self) -> usize {
        self.spec_stages().spec_out_len_dynamic(
            match self.spec_max_expected_input_length() {
                Some(l) => l,
                None => 0,
            },
        )
    }

    open spec fn spec_handling(&self) -> NanHandling {
        N::HANDLING
    }

    fn execute(&mut self, input: &[F], output_buf: &mut [F]) -> (r: Result<usize, PipeError>)
        ensures
            final(self).spec_stages() == old(self).spec_stages(),
            final(self).spec_capacity() == old(self).spec_capacity(),
            final(output_buf)@.len() == old(output_buf)@.len(),
            spec_exec_matches(
                old(self).spec_stages().spec_run(input@, old(self).spec_capacity(), N::HANDLING),
                old(output_buf)@,
                final(output_buf)@,
                r,
            ),
    {
        PipeExec::execute(self, input, output_buf)
    }

    fn output_len(&self) -> (r: usize)
        ensures
            r == self.spec_stages().spec_out_len_dynamic(
                match self.spec_max_expected_input_length() {
                    Some(l) => l,
                    None => 0,
                },
            ),
    {
        PipeExec::output_len(self)
    }

    fn nan_handling(&self) -> (r: NanHandling)
        ensures
            r == N::HANDLING,
    {
        N::HANDLING
    }
}

impl<T, N, F> PipeExec<T, N, F> where T: Stage<F> + 'static, F: Float + 'static, N: NanHandler {
    /// Erase the concrete pipeline type behind a [`PipeExecutor`] vtable.
    pub fn boxed(self) -> (r: BoxedPipeExec<F>) {
        Box::new(self)
    }
}

} // verus!
