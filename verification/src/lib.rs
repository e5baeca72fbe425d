//! A verified front end for CPython 3.14 compiled bytecode artifacts.
//!
//! The pipeline has three stages: unmarshalling the serialized object graph
//! into a flat, index-addressed object region; lifting the raw bytecode
//! stream into a typed, version-agnostic instruction list with absolute jump
//! targets; and abstract interpretation of the lifted instructions into a
//! block-structured program with explicit control-flow terminators.

pub mod abstract_interpretation;
pub mod stack_ir;
pub mod unmarshal;
