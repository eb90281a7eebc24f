//! Fitting a line `y = m*x + b` to sample points with three single-sample
//! update rules, in exact fixed-point arithmetic.
//!
//! Every quantity is a [`Fixed`]: a signed 64-bit count of billionths. Products
//! are rounded down to the next billionth. A result that does not fit is never
//! wrapped or clamped: the function that would produce it says so.

pub mod dataset;
pub mod evaluator;
pub mod fixed;
pub mod model;
pub mod random;
pub mod rule_laws;
pub mod rules;
pub mod trainer;
pub mod training_laws;

pub use crate::dataset::{build_vector, grid_position, noisy_point, points_on_line, DatasetError};
pub use crate::evaluator::{test_line, EvalError, Metrics};
pub use crate::fixed::Fixed;
pub use crate::model::{Line, Point};
pub use crate::rules::{absolute_trick, simple_trick, square_trick, UpdateRule};
pub use crate::trainer::{
    run_epoch, run_sample, train_model, ConfigError, Convergence, Mode, Outcome, Progress,
    Training, TrainerConfig,
};
