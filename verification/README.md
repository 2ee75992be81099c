# The Ange Synthesizer

A realtime engine sound synthesizer. The engine is simulated stroke by stroke, cylinder by
cylinder; what its valves breathe is sent through headers, an exhaust pipe and an intake box, and
played. A panel in the terminal sets the throttle, the number of cylinders and the displacement.

* `src/` is the verified core. It computes with any number type that has the operations of a
  floating-point unit (`number::Real`) and takes its random draws as arguments. Its contracts say
  which operations give each result; its laws (`law_...`) say what holds over whole runs: the
  spark cut at the rev limit, the even firing orders, the constant delay of the headers, the
  independence of the sound from the block size, the range of the controls. Laws on the numbers
  that come out say what they ask of the number type (`premises`). Most of it is IEEE 754
  arithmetic; the rest, such as the precision of a cube root or that equal arguments of a sine
  give equal results, rests on the mathematical library in use and is not proved here.
* `app/` is the program: the arithmetic of doubles, the random draws, the atomics between the
  threads, the sound device and the terminal.
* `tests/` runs the core on doubles, beside the same physics and the same signal path written out
  directly.
