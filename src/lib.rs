pub mod counters;
pub mod error;
pub mod matrix;
pub mod metrics;
pub mod text;
pub mod vector;

pub use error::{MatrixError, MetricsError};
pub use matrix::{multiply, Matrix, MsgInput, MsgOutput};
pub use metrics::amap::AmapMetrics;
pub use metrics::Metrics;
pub use vector::{dot_product, Vector};
