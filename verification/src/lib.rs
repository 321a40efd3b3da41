pub mod apply;
pub mod argument_laws;
pub mod bench;
pub mod case_laws;
pub mod cli;
pub mod config;
pub mod confirm;
pub mod diff;
pub mod edit_laws;
pub mod edits;
pub mod encoding;
pub mod engine;
pub mod error;
pub mod files;
pub mod globs;
pub mod human;
pub mod input_laws;
pub mod job_laws;
pub mod json_run;
pub mod laws;
pub mod lines;
pub mod matcher;
pub mod modes;
pub mod multiline;
pub mod needles;
pub mod offsets;
pub mod operation;
pub mod pattern_laws;
pub mod pipe;
pub mod process;
pub mod range;
pub mod request;
pub mod request_laws;
pub mod rex;
pub mod run;
pub mod run_laws;
pub mod script;
pub mod script_laws;
pub mod spans;
pub mod splice;
pub mod splice_laws;
pub mod step_laws;
pub mod stream;
pub mod stream_laws;
pub mod strings;
pub mod transform;
pub mod undo;
pub mod writer;
