//! A facade over a gradient-boosting engine: validated booster parameters, prediction
//! requests and output shapes, the engine's evaluation lines, feature maps, and the
//! progress report of training.
pub mod booster;
pub mod error;
pub mod eval;
pub mod feature_map;
pub mod ordered;
pub mod parameters;
pub mod predict;
pub mod report;
pub mod text;
