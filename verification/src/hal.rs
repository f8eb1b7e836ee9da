//! The hardware layer: the eight UARTs of the board, by role.
//!
//! ```text
//!  UART0..3  RS485         LEG1..4  three motors each (hip, thigh, calf)
//!  UART4     RS485 / TTL   ARMA     arm servo
//!  UART5     TTL           IMU
//!  UART6     inverted TTL  S.BUS    receive only
//!  UART7     RS485 / TTL   ARMB     spare
//! ```
//!
//! RS485 is a half-duplex request and response, so each bus has a thread of its
//! own that runs at its own pace. The control loop never waits for a bus: it
//! leaves a target and reads the newest feedback.
pub mod bus;
pub mod ch348;
pub mod config;
pub mod drive;
pub mod error;
pub mod joint;
pub mod legs;
pub mod worker;
pub mod arm;
pub mod imu;
pub mod sbus;
pub mod wait;
