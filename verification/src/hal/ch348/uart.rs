//! The UART numbers of the board, by role.
use vstd::prelude::*;

verus! {

/// LEG1 to LEG4 (RS485).
pub const LEGS: [u16; 4] = [0, 1, 2, 3];

/// ARMA (RS485 or TTL).
pub const ARM_A: u16 = 4;

/// The IMU (TTL).
pub const IMU: u16 = 5;

/// S.BUS (inverted TTL, receive only).
pub const SBUS: u16 = 6;

/// ARMB (RS485 or TTL).
pub const ARM_B: u16 = 7;

} // verus!
