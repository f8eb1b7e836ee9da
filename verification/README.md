# namiashi

The control program of the quadruped robot *namiashi*, with its decisions verified
in Verus.

The robot has four legs of three motors each, an IMU, an S.BUS receiver and a
receiver-driven arm, all behind one USB-to-UART board. The program holds a start
pose, walks by remote control, plays poses, and calibrates the joints.

## Layout

- `src/double.rs`, `src/rounding.rs`, `src/arith.rs`, `src/root.rs`: double-precision
  arithmetic on bit patterns, proved to round to nearest; `src/measure.rs`: how far
  that strays from real arithmetic.
- `src/hal/`: the hardware layer. Joints, ports, configuration, the state machine of
  a leg bus (`worker.rs`), IMU and receiver records, waiting with a deadline.
- `src/control/`: the program. Command line, teleoperation, poses, the controller's
  state machine (`controller.rs`, its laws in `conduct.rs`), one period of the control
  loop (`session.rs`, `runner.rs`), calibration (`calib/`), diagnostics, live view.
- `app/`: what talks to the outside. Serial ports, motors, threads, the clock, files,
  Zenoh, and the gait and kinematics libraries.
- `tests/`: the library from outside.

## How the parts meet

The library performs no I/O. Where decisions and outside work alternate, it is a
machine that says what to do next and is told what came of it: `BusWorker` for a leg
bus, `Controller` for the gait, `Jog` and `steps` for calibration. Times are
nanoseconds of a steady clock, handed in by the caller. Numbers with a fraction are
`Double`s, which carry the bits of an `f64`; where a message shows one, the caller
passes its text.

The functions named `law_...` state what holds across calls: that a lost link never
asks for more activity, that a relax request takes effect from any state, that every
joint that still answers is released when a bus stops.
