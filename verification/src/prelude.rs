//! The items most pipelines need, in one import.
pub use crate::errors::{
    ErrorKind, FailOnNan, NanHandler, NanHandling, PipeError, PropagateNan, ZeroOnNan,
};
pub use crate::image::{
    ChannelLayout, ChwToHwc, Crop, FlipHorizontal, FlipVertical, HwcToChw, Letterbox, Rotate90,
    Scale2D,
};
pub use crate::ops::{Pad, Reverse, Transpose, Truncate};
pub use crate::pipeline::{BoxedPipeExec, PipeExecutor, Pipeline};
pub use crate::traits::{ElementOp, Float, IndexRemappable, TransformOp};
pub use crate::DYNAMIC_SIZE;
