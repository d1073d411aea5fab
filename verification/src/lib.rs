//! Logic of a small tabular-model workbench: data formats, dataset and model
//! identities, prediction export, diagnostics and the state of the graphical
//! session, each with a contract that Verus checks.

pub mod atomic_write;
pub mod batch_predict;
pub mod blackbox;
pub mod config;
pub mod data;
pub mod diagnostics;
pub mod encoders;
pub mod epoch_sweep;
pub mod fingerprint;
pub mod generate;
pub mod gui;
pub mod heads;
pub mod interpret;
pub mod lifecycle;
pub mod schema;
pub mod single;
pub mod stack;
pub mod sweep;
pub mod text;
pub mod tnum;
