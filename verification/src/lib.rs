//! OCR preprocessing pipeline: validated run options, a deterministic
//! image-normalization stage, and the contracts that tie them together.

pub mod contrast;
pub mod digits;
pub mod options;
pub mod pipeline;
