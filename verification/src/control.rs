//! What runs above the hardware layer.
pub mod calib;
pub mod chicken;
pub mod cli;
pub mod conduct;
pub mod config;
pub mod controller;
pub mod diag;
pub mod dump;
pub mod handling;
pub mod jointvec;
pub mod lean;
pub mod pose;
pub mod runner;
pub mod session;
pub mod stick;
pub mod teleop;
pub mod timing;
pub mod robot;
pub mod viz;
pub mod tilting;
pub mod walking;
