# asahi-brightness

Auto-brightness daemon for Apple Silicon laptops on Linux. It reads the ambient
light sensor, drives the display's and the keyboard's backlight, and stays out of
the way of manual sliders and idle daemons.

What the daemon decides is a library written in Verus: every function of it is
proved to do what its contract says. What it reads, writes and waits for is
ordinary Rust around the library.

- `src/` is the library. It takes what was read as plain values, and answers with
  what is to be done.
- `app/` is the program: the command line, the socket, sysfs, Wayland and the
  timers.
- `tests/` runs the library on concrete values.

## What is proved

- Single-precision arithmetic is done on integers, and every operation returns the
  exact result rounded to nearest, ties to even (`src/single.rs`). Brightness
  curves, smoothing and hysteresis are stated over these numbers.
- A transition never turns back, stays between its ends and ends at its target
  (`src/ramp.rs`).
- A manual change suspends its own channel only. The suspension ends by its
  deadline or by a change of the light, and the value set by hand does not bring it
  back (`src/channel.rs`, `src/reactor.rs`, `src/daemon.rs`).
- While the seat is idle, in the time left to others after that, and during a
  pause, nothing is started and nothing is written, not even the rest of a
  transition.
- A nudge lasts until the light changes.

## Command line

```
asahi-brightness            # run the daemon (default; run --single-thread: no runtime)
asahi-brightness status     # JSON: lux, current %s, override, idle and pause flags
asahi-brightness pause [N]  # pause both channels for N seconds (0 = until resume)
asahi-brightness resume     # clear pause and overrides
asahi-brightness nudge ±N   # shift the display's target by N % until lux changes
asahi-brightness dump-config
```
