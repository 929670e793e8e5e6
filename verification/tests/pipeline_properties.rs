#![allow(clippy::needless_range_loop)]

//! Concrete checks of the library's laws, error kinds and helpers.

use featurize_core::audio::mel_frame_count;
use featurize_core::errors::{
    CastFailure, ErrorKind, FailOnNan, NanHandler, NanHandling, PipeError, PropagateNan, ZeroOnNan,
};
use featurize_core::image::{
    bilinear_taps, channel_of, pixel_of, volume, ChannelLayout, ChwToHwc, Crop, FlipHorizontal, FlipVertical, HwcToChw,
    Letterbox, Rotate90, Scale2D,
};
use featurize_core::ops::{area, Pad, Reverse, Transpose, Truncate};
use featurize_core::pipeline::{PipeExecutor, Pipeline};
use featurize_core::traits::{fuse_element, fuse_transform, ElementOp, TransformOp};

/// Scales by a factor, applying the pipeline's NaN policy
#[derive(Debug, Clone, Copy)]
struct Scale(f32);

impl ElementOp<f32> for Scale {
    fn compute<N: NanHandler>(&self, data: f32) -> Result<f32, PipeError> {
        let v = data * self.0;
        N::resolve(v, v.is_finite(), 0.0)
    }
}

/// Adds an offset, applying the pipeline's NaN policy
#[derive(Debug, Clone, Copy)]
struct Offset(f32);

impl ElementOp<f32> for Offset {
    fn compute<N: NanHandler>(&self, data: f32) -> Result<f32, PipeError> {
        let v = data + self.0;
        N::resolve(v, v.is_finite(), 0.0)
    }
}

fn ramp(n: usize) -> Vec<f32> {
    (0..n).map(|i| i as f32).collect()
}

// Remappings undone by their counterpart

#[test]
fn flip_horizontal_twice_is_identity_separate_and_fused() {
    let input = ramp(24);
    let mut separate = vec![0f32; 24];
    let mut pipe = Pipeline::new()
        .apply_transform(FlipHorizontal::<4, 2, 3, f32>::new())
        .apply_transform(FlipHorizontal::<4, 2, 3, f32>::new())
        .build();
    assert_eq!(pipe.execute(&input, &mut separate).unwrap(), 24);
    assert_eq!(separate, input);

    let mut fused = vec![0f32; 24];
    let mut pipe = Pipeline::new()
        .apply_transform(FlipHorizontal::<4, 2, 3, f32>::new())
        .apply_transform_fusable(FlipHorizontal::<4, 2, 3, f32>::new())
        .build();
    assert_eq!(pipe.execute(&input, &mut fused).unwrap(), 24);
    assert_eq!(fused, input);
}

#[test]
fn flip_vertical_twice_is_identity_separate_and_fused() {
    let input = ramp(18);
    let mut separate = vec![0f32; 18];
    let mut pipe = Pipeline::new()
        .apply_transform(FlipVertical::<2, 3, 3, f32>::new())
        .apply_transform(FlipVertical::<2, 3, 3, f32>::new())
        .build();
    assert_eq!(pipe.execute(&input, &mut separate).unwrap(), 18);
    assert_eq!(separate, input);

    let mut fused = vec![0f32; 18];
    let mut pipe = Pipeline::new()
        .apply_transform(FlipVertical::<2, 3, 3, f32>::new())
        .apply_transform_fusable(FlipVertical::<2, 3, 3, f32>::new())
        .build();
    assert_eq!(pipe.execute(&input, &mut fused).unwrap(), 18);
    assert_eq!(fused, input);
}

#[test]
fn rotate90_twice_is_half_turn() {
    // 3x2 image with 2 channels; the half turn reverses the pixel order
    // and keeps each pixel's channels
    let input = ramp(12);
    let expected = vec![10.0, 11.0, 8.0, 9.0, 6.0, 7.0, 4.0, 5.0, 2.0, 3.0, 0.0, 1.0];

    let mut separate = vec![0f32; 12];
    let mut pipe = Pipeline::new()
        .apply_transform(Rotate90::<3, 2, 2, f32>::new())
        .apply_transform(Rotate90::<2, 3, 2, f32>::new())
        .build();
    assert_eq!(pipe.execute(&input, &mut separate).unwrap(), 12);
    assert_eq!(separate, expected);

    let mut fused = vec![0f32; 12];
    let mut pipe = Pipeline::new()
        .apply_transform(Rotate90::<3, 2, 2, f32>::new())
        .apply_transform_fusable(Rotate90::<2, 3, 2, f32>::new())
        .build();
    assert_eq!(pipe.execute(&input, &mut fused).unwrap(), 12);
    assert_eq!(fused, expected);
}

#[test]
fn layout_conversions_undo_each_other() {
    let input = ramp(24);

    let mut out = vec![0f32; 24];
    let mut pipe = Pipeline::new()
        .apply_transform(ChwToHwc::<4, 2, 3, f32>::new())
        .apply_transform_fusable(HwcToChw::<4, 2, 3, f32>::new())
        .build();
    assert_eq!(pipe.execute(&input, &mut out).unwrap(), 24);
    assert_eq!(out, input);

    let mut out = vec![0f32; 24];
    let mut pipe = Pipeline::new()
        .apply_transform(HwcToChw::<4, 2, 3, f32>::new())
        .apply_transform(ChwToHwc::<4, 2, 3, f32>::new())
        .build();
    assert_eq!(pipe.execute(&input, &mut out).unwrap(), 24);
    assert_eq!(out, input);
}

#[test]
fn transpose_twice_is_identity() {
    let input = ramp(6);
    let mut out = vec![0f32; 6];
    let mut pipe = Pipeline::new()
        .apply_transform(Transpose::<2, 3>::new())
        .apply_transform_fusable(Transpose::<3, 2>::new())
        .build();
    assert_eq!(pipe.execute(&input, &mut out).unwrap(), 6);
    assert_eq!(out, input);

    let mut once = vec![0f32; 6];
    let mut pipe = Pipeline::new().apply_transform(Transpose::<2, 3>::new()).build();
    pipe.execute(&input, &mut once).unwrap();
    assert_eq!(once, vec![0.0, 3.0, 1.0, 4.0, 2.0, 5.0]);
}

#[test]
fn reverse_twice_is_identity_dynamic() {
    let input = vec![3.0f32, -1.0, 7.5, 2.0, 0.0];
    let mut out = vec![0f32; 5];
    let mut pipe = Pipeline::with_dynamic()
        .apply_transform(Reverse::<0>::new())
        .apply_transform(Reverse::<0>::new())
        .build_dynamic(5);
    assert_eq!(pipe.execute(&input, &mut out).unwrap(), 5);
    assert_eq!(out, input);

    let mut fused = vec![0f32; 5];
    let mut pipe = Pipeline::with_dynamic()
        .apply_transform(Reverse::<0>::new())
        .apply_transform_fusable(Reverse::<0>::new())
        .build_dynamic(5);
    assert_eq!(pipe.execute(&input, &mut fused).unwrap(), 5);
    assert_eq!(fused, input);
}

// Fusion changes nothing but the number of passes

#[test]
fn element_fusion_matches_separate_stages() {
    let input = vec![1.0f32, -2.0, 3.5, 10.0];
    let mut fused = vec![0f32; 4];
    let mut pipe = Pipeline::new()
        .apply_element::<_, 4>(Scale(3.0))
        .apply_element(Offset(-1.0))
        .build();
    pipe.execute(&input, &mut fused).unwrap();

    let mut mid = vec![0f32; 4];
    let mut first = Pipeline::new().apply_element::<_, 4>(Scale(3.0)).build();
    first.execute(&input, &mut mid).unwrap();
    let mut separate = vec![0f32; 4];
    let mut second = Pipeline::new().apply_element::<_, 4>(Offset(-1.0)).build();
    second.execute(&mid, &mut separate).unwrap();

    assert_eq!(fused, separate);
    assert_eq!(fused, vec![2.0, -7.0, 9.5, 29.0]);
}

#[test]
fn transform_element_fusion_matches_separate_stages() {
    let input = ramp(6);
    let mut fused = vec![0f32; 6];
    let mut pipe = Pipeline::new()
        .apply_transform(Reverse::<6>::new())
        .apply_element(Scale(2.0))
        .build();
    pipe.execute(&input, &mut fused).unwrap();
    assert_eq!(fused, vec![10.0, 8.0, 6.0, 4.0, 2.0, 0.0]);

    let mut mid = vec![0f32; 6];
    let mut first = Pipeline::new().apply_transform(Reverse::<6>::new()).build();
    first.execute(&input, &mut mid).unwrap();
    let mut separate = vec![0f32; 6];
    let mut second = Pipeline::new().apply_element::<_, 6>(Scale(2.0)).build();
    second.execute(&mid, &mut separate).unwrap();
    assert_eq!(fused, separate);
}

#[test]
fn transform_fusion_matches_separate_stages() {
    let input = ramp(12);
    let mut fused = vec![0f32; 12];
    let mut pipe = Pipeline::new()
        .apply_transform(Transpose::<3, 4>::new())
        .apply_transform_fusable(Reverse::<12>::new())
        .build();
    pipe.execute(&input, &mut fused).unwrap();

    let mut separate = vec![0f32; 12];
    let mut pipe = Pipeline::new()
        .apply_transform(Transpose::<3, 4>::new())
        .apply_transform(Reverse::<12>::new())
        .build();
    pipe.execute(&input, &mut separate).unwrap();

    assert_eq!(fused, separate);
    assert_eq!(fused, vec![11.0, 7.0, 3.0, 10.0, 6.0, 2.0, 9.0, 5.0, 1.0, 8.0, 4.0, 0.0]);
}

#[test]
fn fused_transform_reports_element_failure() {
    // The point-wise operation after a transform still applies the policy
    let input = vec![1.0f32, f32::NAN, 3.0];
    let mut out = vec![0f32; 3];
    let mut pipe = Pipeline::new()
        .apply_transform(Reverse::<3>::new())
        .apply_element(Scale(1.0))
        .build();
    let err = pipe.execute(&input, &mut out).unwrap_err();
    assert_eq!(err.kind(), ErrorKind::NaN);
    assert_eq!(out, vec![0.0, 0.0, 0.0]);
}

// Static and dynamic pipelines

#[test]
fn static_and_dynamic_element_heads_agree() {
    let input = vec![0.5f32, 1.5, -2.0, 4.0, 8.0];
    let mut out_static = vec![0f32; 5];
    let mut out_dynamic = vec![0f32; 5];
    let mut pipe_static = Pipeline::new().apply_element::<_, 5>(Scale(4.0)).build();
    let mut pipe_dynamic = Pipeline::with_dynamic().apply_element(Scale(4.0)).build_dynamic(5);
    pipe_static.execute(&input, &mut out_static).unwrap();
    pipe_dynamic.execute(&input, &mut out_dynamic).unwrap();
    assert_eq!(out_static, out_dynamic);
    assert_eq!(out_static, vec![2.0, 6.0, -8.0, 16.0, 32.0]);
}

#[test]
fn static_pipeline_rejects_wrong_lengths() {
    let mut out = vec![0f32; 8];
    let mut pipe = Pipeline::new().apply_element::<_, 4>(Scale(1.0)).build();
    let err = pipe.execute(&[1.0, 2.0, 3.0], &mut out).unwrap_err();
    assert_eq!(err.kind(), ErrorKind::InvalidInputSize);
    let err = pipe.execute(&[1.0, 2.0, 3.0, 4.0, 5.0], &mut out).unwrap_err();
    assert_eq!(err.kind(), ErrorKind::InvalidInputSize);

    let mut pipe = Pipeline::new().apply_transform(Truncate::<4, 2>::new()).build();
    let err = pipe.execute(&[1.0, 2.0, 3.0], &mut out).unwrap_err();
    assert_eq!(err.kind(), ErrorKind::InvalidInputSize);
    // The failure names the stage
    assert_eq!(err.snapshot().unwrap(), "Head<Truncate>");
}

#[test]
fn repeated_runs_give_identical_results() {
    let input = ramp(7);
    let mut pipe = Pipeline::new()
        .apply_transform(Pad::<f32, 7, 9>::new(-1.0))
        .apply_element(Scale(2.0))
        .apply_transform(Reverse::<9>::new())
        .build();
    let mut first = vec![0f32; 9];
    let mut second = vec![0f32; 9];
    let n1 = pipe.execute(&input, &mut first).unwrap();
    let n2 = pipe.execute(&input, &mut second).unwrap();
    assert_eq!(n1, n2);
    assert_eq!(first, second);
    assert_eq!(first, vec![-2.0, -2.0, 12.0, 10.0, 8.0, 6.0, 4.0, 2.0, 0.0]);
}

#[test]
fn failed_run_leaves_output_untouched() {
    let mut out = vec![7.0f32; 4];
    let mut pipe = Pipeline::new().apply_element::<_, 4>(Scale(1.0)).build();
    let err = pipe.execute(&[1.0, f32::INFINITY, 2.0, 3.0], &mut out).unwrap_err();
    assert_eq!(err.kind(), ErrorKind::NaN);
    assert_eq!(out, vec![7.0; 4]);

    // Too small output: nothing written either
    let mut small = vec![7.0f32; 3];
    let err = pipe.execute(&[1.0, 2.0, 3.0, 4.0], &mut small).unwrap_err();
    assert_eq!(err.kind(), ErrorKind::InvalidOutputSize);
    assert_eq!(small, vec![7.0; 3]);
}

#[test]
fn dynamic_intermediate_larger_than_buffers_fails() {
    // Sized for 4 inputs: reversing 6 inputs does not fit the buffers
    let mut pipe = Pipeline::with_dynamic()
        .apply_transform(Reverse::<0>::new())
        .build_dynamic(4);
    let mut out = vec![0f32; 6];
    let err = pipe.execute(&ramp(6), &mut out).unwrap_err();
    assert_eq!(err.kind(), ErrorKind::InvalidOutputSize);
    assert_eq!(pipe.execute(&ramp(4), &mut out).unwrap(), 4);
    assert_eq!(&out[..4], &[3.0, 2.0, 1.0, 0.0]);
}

#[test]
fn output_len_reports_the_expected_length() {
    let pipe = Pipeline::with_dynamic::<f32>()
        .apply_transform(Reverse::<0>::new())
        .apply_transform(Truncate::<10, 4>::new())
        .build_dynamic(10);
    assert_eq!(pipe.output_len(), 4);

    let pipe = Pipeline::with_dynamic::<f32>()
        .apply_transform(Reverse::<0>::new())
        .apply_element(Scale(1.0))
        .build_dynamic(10);
    assert_eq!(pipe.output_len(), 10);

    let pipe = Pipeline::new::<f32>()
        .apply_transform(Truncate::<8, 3>::new())
        .build();
    assert_eq!(pipe.output_len(), 3);
}

#[test]
fn nan_policies_are_reported() {
    let pipe = Pipeline::new().apply_element::<_, 1>(Scale(1.0)).build();
    assert_eq!(pipe.nan_handling(), NanHandling::Fail);
    let pipe = Pipeline::new_with::<f32, PropagateNan>()
        .apply_element::<_, 1>(Scale(1.0))
        .build();
    assert_eq!(pipe.nan_handling(), NanHandling::Propagate);
    let pipe = Pipeline::with_dynamic_and::<f32, ZeroOnNan>()
        .apply_element(Scale(1.0))
        .build_dynamic(1);
    assert_eq!(pipe.nan_handling(), NanHandling::Zero);
    let pipe = Pipeline::with_dynamic::<f32>()
        .nan_handling::<PropagateNan>()
        .apply_element(Scale(1.0))
        .build_dynamic(1);
    assert_eq!(pipe.nan_handling(), NanHandling::Propagate);
    assert_eq!(FailOnNan::HANDLING, NanHandling::Fail);
}

#[test]
fn boxed_pipeline_runs_through_the_vtable() {
    let mut boxed = Pipeline::new()
        .apply_transform(Reverse::<3>::new())
        .apply_element(Offset(1.0))
        .build()
        .boxed();
    let mut out = vec![0f32; 3];
    assert_eq!(boxed.execute(&[1.0, 2.0, 3.0], &mut out).unwrap(), 3);
    assert_eq!(out, vec![4.0, 3.0, 2.0]);
    assert_eq!(boxed.output_len(), 3);
    assert_eq!(boxed.nan_handling(), NanHandling::Fail);
}

// Byte input

#[test]
fn execute_from_bytes_decodes_values() {
    let values = vec![1.0f32, -2.0, 3.5];
    let bytes: &[u8] = bytemuck::cast_slice(values.as_slice());
    let mut out = vec![0f32; 3];
    let mut pipe = Pipeline::new()
        .apply_transform(Reverse::<3>::new())
        .build();
    assert_eq!(pipe.execute_from_bytes(bytes, &mut out).unwrap(), 3);
    assert_eq!(out, vec![3.5, -2.0, 1.0]);
}

#[test]
fn execute_from_bytes_rejects_partial_values() {
    let values = vec![1.0f32, 2.0];
    let bytes: &[u8] = bytemuck::cast_slice(values.as_slice());
    let mut out = vec![9.0f32; 2];
    let mut pipe = Pipeline::with_dynamic()
        .apply_element(Scale(1.0))
        .build_dynamic(2);
    let err = pipe.execute_from_bytes(&bytes[..7], &mut out).unwrap_err();
    assert_eq!(err.kind(), ErrorKind::InvalidByteInput);
    assert_eq!(out, vec![9.0, 9.0]);
    let message = err.message().unwrap().clone();
    assert!(
        message == "OutputSliceWouldHaveSlop"
            || message == "TargetAlignmentGreaterAndInputNotAligned"
    );
}

#[test]
fn cast_failures_are_named_like_bytemuck() {
    assert_eq!(CastFailure::SizeMismatch.text(), "SizeMismatch");
    assert_eq!(CastFailure::AlignmentMismatch.text(), "AlignmentMismatch");
    let e = PipeError::from_cast_failure(CastFailure::OutputSliceWouldHaveSlop);
    assert_eq!(e.kind(), ErrorKind::InvalidByteInput);
    assert_eq!(e.message().unwrap(), "OutputSliceWouldHaveSlop");
    assert!(e.snapshot().is_none());
}

// Errors and NaN policies

#[test]
fn pipe_error_constructors() {
    let e = PipeError::new(ErrorKind::InvalidOutputSize);
    assert_eq!(e.kind(), ErrorKind::InvalidOutputSize);
    assert!(e.message().is_none() && e.snapshot().is_none());
    let e = PipeError::with_message(ErrorKind::NaN, "bad".to_string());
    assert_eq!(e.kind(), ErrorKind::NaN);
    assert_eq!(e.message().unwrap(), "bad");
    assert!(e.snapshot().is_none());
    let e = PipeError::with_snapshot(ErrorKind::InvalidInputSize, "Head<x>".to_string());
    assert_eq!(e.snapshot().unwrap(), "Head<x>");
    assert!(e.message().is_none());
}

#[test]
fn nan_handling_resolves_values() {
    assert_eq!(NanHandling::default(), NanHandling::Fail);
    assert_eq!(NanHandling::Fail.resolve(1.5f32, true, 0.0).unwrap(), 1.5);
    assert_eq!(NanHandling::Fail.resolve(f32::NAN, false, 0.0).unwrap_err().kind(), ErrorKind::NaN);
    assert_eq!(NanHandling::Zero.resolve(f32::NAN, false, 0.0).unwrap(), 0.0);
    assert!(NanHandling::Propagate.resolve(f32::NAN, false, 0.0).unwrap().is_nan());
    assert_eq!(ZeroOnNan::resolve(f32::INFINITY, false, 0.0).unwrap(), 0.0);
    assert_eq!(FailOnNan::resolve(f32::INFINITY, false, 0.0).unwrap_err().kind(), ErrorKind::NaN);
    assert_eq!(PropagateNan::resolve(f32::INFINITY, false, 0.0).unwrap(), f32::INFINITY);
}

// Image geometry

#[test]
fn crop_offsets() {
    let input = ramp(20);
    let mut out = vec![0f32; 6];
    let mut pipe = Pipeline::new()
        .apply_transform(Crop::<5, 4, 1, 3, 2, f32>::new(2, 1))
        .build();
    assert_eq!(pipe.execute(&input, &mut out).unwrap(), 6);
    assert_eq!(out, vec![7.0, 8.0, 9.0, 12.0, 13.0, 14.0]);

    // Centered crop with two channels keeps the channels of each pixel
    let input = ramp(18);
    let mut out = vec![0f32; 2];
    let mut pipe = Pipeline::new()
        .apply_transform(Crop::<3, 3, 2, 1, 1, f32>::centered())
        .build();
    assert_eq!(pipe.execute(&input, &mut out).unwrap(), 2);
    assert_eq!(out, vec![8.0, 9.0]);
}

#[test]
fn letterbox_geometry() {
    // Tall input: scale 2 along the width-limited axis
    let lb = Letterbox::<2, 3, 1, 7, 6, f32>::new(0.0);
    assert_eq!(lb.scaled_size(), (4, 6));
    assert_eq!(lb.offsets(), (1, 0));
    // Input larger than the output: scale 4/10, the whole output
    let lb = Letterbox::<10, 10, 1, 4, 4, f32>::new(0.0);
    assert_eq!(lb.scaled_size(), (4, 4));
    assert_eq!(lb.offsets(), (0, 0));
    // 4x4 into 2x2: scale 1/2
    let lb = Letterbox::<4, 4, 1, 2, 2, f32>::new(0.0);
    assert_eq!(lb.scaled_size(), (2, 2));
    assert_eq!(lb.offsets(), (0, 0));
    // 3x2 into 2x2: scale 2/3, height 4/3 rounds to 1
    let lb = Letterbox::<3, 2, 1, 2, 2, f32>::new(0.0);
    assert_eq!(lb.scaled_size(), (2, 1));
    assert_eq!(lb.offsets(), (0, 0));
    // 4x3 into 8x8: scale 2, height rounds exactly; 5x3 into 2x2: scale
    // 2/5, height 6/5 rounds to 1
    let lb = Letterbox::<4, 3, 1, 8, 8, f32>::new(0.0);
    assert_eq!(lb.scaled_size(), (8, 6));
    assert_eq!(lb.offsets(), (0, 1));
    let lb = Letterbox::<5, 3, 1, 2, 2, f32>::new(0.0);
    assert_eq!(lb.scaled_size(), (2, 1));
    // 2x5 into 3x3: scale 3/5, width 6/5 rounds to 1; 4x5 into 3x3:
    // width 12/5 rounds to 2; 3x4 into 2x2: width 3/2 rounds half up to 2
    let lb = Letterbox::<2, 5, 1, 3, 3, f32>::new(0.0);
    assert_eq!(lb.scaled_size(), (1, 3));
    assert_eq!(lb.offsets(), (1, 0));
    let lb = Letterbox::<4, 5, 1, 3, 3, f32>::new(0.0);
    assert_eq!(lb.scaled_size(), (2, 3));
    let lb = Letterbox::<3, 4, 1, 2, 2, f32>::new(0.0);
    assert_eq!(lb.scaled_size(), (2, 2));
}

#[test]
fn letterbox_downscale_samples_nearest() {
    // 4x4 ramp into 2x2: every other pixel of every other row
    let input = ramp(16);
    let mut out = vec![0f32; 4];
    let mut pipe = Pipeline::new()
        .apply_transform(Letterbox::<4, 4, 1, 2, 2, f32>::new(-1.0))
        .build();
    assert_eq!(pipe.execute(&input, &mut out).unwrap(), 4);
    assert_eq!(out, vec![input[0], input[2], input[8], input[10]]);
}

#[test]
fn letterbox_samples_nearest_inside_window() {
    // 2x1 input into 4x4: scale 2, window 4x2 centered vertically
    let input = vec![1.0f32, 2.0];
    let mut out = vec![0f32; 16];
    let mut pipe = Pipeline::new()
        .apply_transform(Letterbox::<2, 1, 1, 4, 4, f32>::new(-1.0))
        .build();
    assert_eq!(pipe.execute(&input, &mut out).unwrap(), 16);
    assert_eq!(&out[0..4], &[-1.0; 4]);
    assert_eq!(&out[4..8], &[1.0, 1.0, 2.0, 2.0]);
    assert_eq!(&out[8..12], &[1.0, 1.0, 2.0, 2.0]);
    assert_eq!(&out[12..16], &[-1.0; 4]);
}

#[test]
fn scale2d_nearest_downscale_multichannel() {
    // 4x2 image with 2 channels to 2x1 with 2 channels
    let input = ramp(16);
    let mut out = vec![0f32; 4];
    let mut pipe = Pipeline::new()
        .apply_transform(Scale2D::<4, 2, 2, 2, 1, 2, f32>::new())
        .build();
    assert_eq!(pipe.execute(&input, &mut out).unwrap(), 4);
    assert_eq!(out, vec![0.0, 1.0, 4.0, 5.0]);
}

#[test]
fn channel_of_both_layouts() {
    // 2x2 image with 3 channels
    assert_eq!(channel_of(ChannelLayout::Hwc, 0, 2, 2, 3), 0);
    assert_eq!(channel_of(ChannelLayout::Hwc, 5, 2, 2, 3), 2);
    assert_eq!(channel_of(ChannelLayout::Hwc, 7, 2, 2, 3), 1);
    assert_eq!(channel_of(ChannelLayout::Chw, 3, 2, 2, 3), 0);
    assert_eq!(channel_of(ChannelLayout::Chw, 4, 2, 2, 3), 1);
    assert_eq!(channel_of(ChannelLayout::Chw, 11, 2, 2, 3), 2);
    assert_eq!(ChannelLayout::default(), ChannelLayout::Hwc);
}

#[test]
fn lengths_saturate_to_zero_on_overflow() {
    assert_eq!(volume(4, 3, 2), 24);
    assert_eq!(volume(usize::MAX, 2, 1), 0);
    assert_eq!(area(6, 7), 42);
    assert_eq!(area(usize::MAX, usize::MAX), 0);
}

#[test]
fn op_lengths_and_remaps() {
    let t = Transpose::<2, 3>::new();
    assert_eq!(TransformOp::<f32>::in_len(&t, 0), 6);
    assert_eq!(TransformOp::<f32>::map_index(&t, 1, 6), 3);
    let r = Reverse::<0>::new();
    assert_eq!(TransformOp::<f32>::out_len(&r, 9), 9);
    assert_eq!(TransformOp::<f32>::map_index(&r, 2, 9), 6);
    let p = Pad::<f32, 3, 5>::new(0.0);
    assert_eq!(p.out_len(3), 5);
    let h = HwcToChw::<2, 2, 3, f32>::new();
    assert_eq!(h.map_index(1, 12), 3);
    let c = ChwToHwc::<2, 2, 3, f32>::new();
    assert_eq!(c.map_index(3, 12), 1);
}

// Remappings only reorder the data

fn sorted(mut v: Vec<f32>) -> Vec<f32> {
    v.sort_by(|a, b| a.partial_cmp(b).unwrap());
    v
}

#[test]
fn transpose_and_rotation_only_reorder() {
    let input = vec![5.0f32, -1.0, 3.0, 3.0, 0.5, 9.0, -7.0, 2.0, 2.0, 8.0, 1.0, 4.0];
    let mut out = vec![0f32; 12];
    let mut pipe = Pipeline::new().apply_transform(Transpose::<3, 4>::new()).build();
    pipe.execute(&input, &mut out).unwrap();
    assert_ne!(out, input);
    assert_eq!(sorted(out.clone()), sorted(input.clone()));

    let mut pipe = Pipeline::new()
        .apply_transform(Rotate90::<3, 2, 2, f32>::new())
        .build();
    pipe.execute(&input, &mut out).unwrap();
    assert_eq!(sorted(out), sorted(input));
}

// Audio frame bookkeeping

#[test]
fn mel_frame_count_pads_to_blocks() {
    // 100 frames, already a multiple of the 50-frame block, plus one block
    assert_eq!(mel_frame_count(1000, 10, 1), Some(150));
    // 101 frames round up to 150, plus one block
    assert_eq!(mel_frame_count(1010, 10, 1), Some(200));
    // Fewer samples than one hop: no frames and an empty block
    assert_eq!(mel_frame_count(5, 10, 0), Some(0));
    // The block size overflows
    assert_eq!(mel_frame_count(10, 1, usize::MAX), None);
}

// Error text, capacity, copies

#[test]
fn pipe_error_describe() {
    assert_eq!(PipeError::new(ErrorKind::NaN).describe(), "PipeError");
    assert_eq!(
        PipeError::with_message(ErrorKind::NaN, "bad value".to_string()).describe(),
        "PipeError: bad value"
    );
    assert_eq!(
        PipeError::with_snapshot(ErrorKind::InvalidInputSize, "Head<Pad>".to_string()).describe(),
        "PipeError (Head<Pad>)"
    );
}

#[test]
fn capacity_covers_every_stage() {
    let pipe = Pipeline::new::<f32>()
        .apply_transform(Pad::<f32, 3, 5>::new(0.0))
        .apply_transform(Truncate::<5, 2>::new())
        .build();
    assert_eq!(pipe.capacity(), 5);
    let pipe = Pipeline::with_dynamic::<f32>()
        .apply_transform(Reverse::<0>::new())
        .build_dynamic(7);
    assert_eq!(pipe.capacity(), 7);
}

#[test]
fn cloned_pipeline_runs_alike() {
    let mut pipe = Pipeline::new()
        .apply_transform(Reverse::<4>::new())
        .apply_element(Scale(0.5))
        .build();
    let mut copy = pipe.clone();
    let input = vec![2.0f32, 4.0, 6.0, 8.0];
    let mut a = vec![0f32; 4];
    let mut b = vec![0f32; 4];
    pipe.execute(&input, &mut a).unwrap();
    copy.execute(&input, &mut b).unwrap();
    assert_eq!(a, b);
    assert_eq!(a, vec![4.0, 3.0, 2.0, 1.0]);
}

#[test]
fn pixel_of_splits_interleaved_index() {
    // 4 x 3 image, 3 channels: element 23 is pixel (3, 1), channel 2
    assert_eq!(pixel_of(23, 4, 3, 3), (3, 1, 2));
    assert_eq!(pixel_of(0, 4, 3, 3), (0, 0, 0));
    assert_eq!(pixel_of(35, 4, 3, 3), (3, 2, 2));
    // single channel: the index is the pixel
    assert_eq!(pixel_of(6, 4, 3, 1), (2, 1, 0));
}

#[test]
fn bilinear_taps_stay_inside_the_image() {
    // interior position: the 2 x 2 neighbourhood to the right and below
    let t = bilinear_taps(1, 1, 4, 3, 3, 1);
    assert_eq!((t.x0, t.y0), (1, 1));
    assert_eq!(t.top_left, (1 * 4 + 1) * 3 + 1);
    assert_eq!(t.top_right, (1 * 4 + 2) * 3 + 1);
    assert_eq!(t.bottom_left, (2 * 4 + 1) * 3 + 1);
    assert_eq!(t.bottom_right, (2 * 4 + 2) * 3 + 1);
    // past the right / bottom edge: clamped to the last column and row
    let t = bilinear_taps(5, 7, 4, 3, 3, 1);
    assert_eq!((t.x0, t.y0), (3, 2));
    assert_eq!(t.top_left, (2 * 4 + 3) * 3 + 1);
    assert_eq!(t.top_right, t.top_left);
    assert_eq!(t.bottom_left, t.top_left);
    assert_eq!(t.bottom_right, t.top_left);
    assert!(t.bottom_right < 4 * 3 * 3);
    // top edge, second to last column: the right neighbour is the last column
    let t = bilinear_taps(2, 0, 4, 3, 3, 0);
    assert_eq!(t.top_left, 6);
    assert_eq!(t.top_right, 9);
    assert_eq!(t.bottom_left, (4 + 2) * 3);
    assert_eq!(t.bottom_right, (4 + 3) * 3);
}

#[test]
fn operations_name_themselves() {
    assert_eq!(TransformOp::<f32>::op_name(&Rotate90::<2, 3, 1, f32>::new()), "Rotate90");
    assert_eq!(TransformOp::<f32>::op_name(&Pad::<f32, 2, 4>::new(0.0)), "Pad");
    assert_eq!(TransformOp::<f32>::op_name(&Reverse::<4>::new()), "Reverse");
    // operations without a name of their own, and the default policy
    assert_eq!(Scale(2.0).op_name(), "ElementOp");
    assert_eq!(Scale(2.0).nan_handling(), NanHandling::Fail);
    // fused operations carry both names
    let fused = fuse_element::<f32, _, _>(Scale(2.0), Offset(1.0));
    assert_eq!(ElementOp::<f32>::op_name(&fused), "Fused<ElementOp, ElementOp>");
    let fused = fuse_transform::<f32, _, _>(FlipHorizontal::<2, 2, 1, f32>::new(), Scale(2.0));
    assert_eq!(TransformOp::<f32>::op_name(&fused), "Fused<FlipHorizontal, ElementOp>");
}

#[test]
fn element_before_transform_keeps_declared_order() {
    // The point-wise operation runs before the padding: the pad value is
    // written as given
    let input = vec![1.0f32, 2.0];
    let mut out = vec![0f32; 4];
    let mut pipe = Pipeline::new()
        .apply_element::<_, 2>(Scale(2.0))
        .apply_transform(Pad::<f32, 2, 4>::new(1.0))
        .build();
    assert_eq!(pipe.execute(&input, &mut out).unwrap(), 4);
    assert_eq!(out, vec![2.0, 4.0, 1.0, 1.0]);
    // the same after a transform stage
    let mut out = vec![0f32; 4];
    let mut pipe = Pipeline::new()
        .apply_transform(Reverse::<2>::new())
        .apply_element(Scale(2.0))
        .apply_transform(Pad::<f32, 2, 4>::new(1.0))
        .build();
    assert_eq!(pipe.execute(&input, &mut out).unwrap(), 4);
    assert_eq!(out, vec![4.0, 2.0, 1.0, 1.0]);
}

#[test]
fn length_check_errors_name_their_stage() {
    let input = vec![1.0f32];
    let mut out = vec![0f32; 4];
    let mut pipe = Pipeline::new().apply_transform(Reverse::<4>::new()).build();
    let err = pipe.execute(&input, &mut out).unwrap_err();
    assert_eq!(err.kind(), ErrorKind::InvalidInputSize);
    assert_eq!(err.snapshot().unwrap(), "Head<Reverse>");
}

#[test]
fn layout_conversions_keep_channels() {
    // 3 x 2 image with 4 channels
    let to_planar = HwcToChw::<3, 2, 4, f32>::new();
    let to_interleaved = ChwToHwc::<3, 2, 4, f32>::new();
    for i in 0..24 {
        let from_interleaved = TransformOp::<f32>::map_index(&to_planar, i, 0);
        let from_planar = TransformOp::<f32>::map_index(&to_interleaved, i, 0);
        assert!(from_interleaved < 24 && from_planar < 24);
        assert_eq!(TransformOp::<f32>::map_index(&to_interleaved, from_interleaved, 0), i);
        assert_eq!(TransformOp::<f32>::map_index(&to_planar, from_planar, 0), i);
        assert_eq!(
            channel_of(ChannelLayout::Chw, i, 3, 2, 4),
            channel_of(ChannelLayout::Hwc, from_interleaved, 3, 2, 4)
        );
        assert_eq!(
            channel_of(ChannelLayout::Hwc, i, 3, 2, 4),
            channel_of(ChannelLayout::Chw, from_planar, 3, 2, 4)
        );
    }
}

#[test]
fn fusing_remappings_matches_separate_stages() {
    let input = ramp(12);
    let mut fused_out = vec![0f32; 12];
    let mut separate_out = vec![0f32; 12];
    let mut fused = Pipeline::new()
        .apply_transform(Transpose::<3, 4>::new())
        .apply_transform_fusable(Reverse::<12>::new())
        .build();
    let mut separate = Pipeline::new()
        .apply_transform(Transpose::<3, 4>::new())
        .apply_transform(Reverse::<12>::new())
        .build();
    assert_eq!(fused.execute(&input, &mut fused_out).unwrap(), 12);
    assert_eq!(separate.execute(&input, &mut separate_out).unwrap(), 12);
    assert_eq!(fused_out, separate_out);
}

#[test]
fn length_remappings_name_themselves() {
    assert_eq!(TransformOp::<f32>::op_name(&Truncate::<4, 2>::new()), "Truncate");
    assert_eq!(TransformOp::<f32>::op_name(&Transpose::<2, 3>::new()), "Transpose");
    assert_eq!(TransformOp::<f32>::op_name(&Reverse::<0>::new()), "Reverse");
    // the name does not depend on the element type
    assert_eq!(TransformOp::<f64>::op_name(&Truncate::<4, 2>::new()), "Truncate");
    let input = vec![1.0f32, 2.0];
    let mut out = vec![0f32; 2];
    let mut pipe = Pipeline::new().apply_transform(Truncate::<4, 2>::new()).build();
    let err = pipe.execute(&input, &mut out).unwrap_err();
    assert_eq!(err.snapshot().unwrap(), "Head<Truncate>");
}

#[test]
fn repeated_runs_into_buffers_of_other_lengths() {
    let input = ramp(6);
    let mut pipe = Pipeline::with_dynamic::<f32>()
        .apply_transform(Reverse::<0>::new())
        .build_dynamic(8);
    let mut first = vec![0f32; 6];
    let mut longer = vec![-1f32; 9];
    assert_eq!(pipe.execute(&input, &mut first).unwrap(), 6);
    // an unrelated, shorter run in between
    let mut other = vec![0f32; 3];
    assert_eq!(pipe.execute(&ramp(3), &mut other).unwrap(), 3);
    assert_eq!(pipe.execute(&input, &mut longer).unwrap(), 6);
    assert_eq!(&longer[..6], &first[..]);
    assert_eq!(&longer[6..], &[-1.0; 3]);
}
