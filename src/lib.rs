//! Weighted kernel aggregation over coordinate dimensions.
//!
//! The library holds the data model (coordinate matrices, kernels,
//! dimensions and the weave that combines them), the integer parts of the
//! distance and kernel families, the validation of every configuration at
//! construction time, and the bookkeeping that hands query rows out to
//! workers and collects one result per row.
pub mod columns;
pub mod config;
pub mod dimension;
pub mod distance;
pub mod error;
pub mod kernel;
pub mod matrix;
pub mod schedule;
pub mod weave;

pub use columns::{select_columns, ColumnSchema, PhysicalType};
pub use config::{partialord_min_max, Input, InputData, InputPred, Output};
pub use dimension::{
    group_by_distance, Coords, CoordsData, Dimension, DimensionHandle, DimensionKind, Kernel,
};
pub use distance::hierarchical;
pub use error::{ColumnError, ConfigError, ShapeError};
pub use kernel::{DepthCODEm, DepthWeight, Exponential, Tricubic};
pub use matrix::Matrix;
pub use schedule::{ResultBuffer, StoreError, TaskQueue};
pub use weave::Weave;
