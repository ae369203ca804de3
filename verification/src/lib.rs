//! A uniform interface to neural-network inference engines.
//!
//! An [`InferenceEngine`] is a loaded model: it reports the shapes of its input
//! and output tensors, lets them be set where the model leaves them open, binds
//! the buffers that hold the tensors, and runs inference. The engines
//! themselves live in native libraries; this crate holds what is common to all
//! of them.

pub mod calls;
pub mod engine;
pub mod error;
pub mod result_code;
pub mod shape;

pub use engine::InferenceEngine;
pub use error::Error;
pub use result_code::InferenceEngineResultCode;
pub use shape::element_count;
