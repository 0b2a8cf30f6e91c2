//! Character-level name models: the symbol alphabet, the corpus encoder that
//! turns a list of names into sliding-window training pairs, mini-batching,
//! categorical sampling from integer weights, and the autoregressive
//! generation loop driven by an arbitrary predictor.
pub mod vocab;
pub mod corpus;
pub mod sampler;
pub mod batch;
pub mod generate;
