# duenger

Monitor for a fertiliser spreader: it counts wheel and roller signals,
works out kilograms per hectare and serves the settings over HTTP.

- `src/` is the verified library (Verus): the signal ring buffer and its
  laws, the tick logic of the simulated signal source, and what the
  settings handlers answer.
- `app/` is the program around it: GPIO interrupts, threads, the clock,
  the floating-point rate computation and the warp web server.
- `tests/` runs the library on concrete values.
