//! Control library of the namiashi quadruped.
//!
//! [`hal`] holds the hardware layer: joints, buses, sensors and their
//! configuration. [`control`] holds what runs above it: the operator's input, the
//! state machine that moves the robot, diagnosis and calibration. Both compute
//! with [`double::Double`] and build their messages with [`text`].
pub mod arith;
pub mod control;
pub mod double;
pub mod hal;
pub mod measure;
pub mod reckon;
pub mod root;
pub mod rounding;
pub mod text;
