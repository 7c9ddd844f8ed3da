# ripple

A real-time 2D fluid playground: several fluid models in one window, switched
with the number keys. The solvers, the controls and the plans of what the
graphics processor is asked to do are a Verus library; the window around them is
ordinary Rust.

1. **CPU SPH**: a liquid of particles, advanced in parallel.
2. **smoke**: a gas on a grid, carried by its own flow and made incompressible.
3. **FLIP water**: particles and a grid together, with a free surface.
4. **GPU SPH**, 5. **GPU smoke**, 6. **GPU FLIP**: the same three fluids in compute
   shaders.

## Layout

- `src/scalar.rs`: the number type. The library holds no floats: the solvers are
  generic over `Scalar`, and contracts say which operations are performed on which
  operands.
- `src/sim.rs`, `src/neighbors.rs`, `src/parallel.rs`: the SPH liquid.
- `src/smoke.rs`: the smoke. `src/flip.rs`: the water.
- `src/gpu/`: the keyboard and mouse, the backends, and the passes, buffers and
  parameters of the solvers on the graphics processor.
- `src/shell.rs`: what keys do to the window, and unattended runs.
- `tests/`: tests of the library, with single-precision floats as the number type.
- `app/`: the window, the device and the panel. Shaders are read from `shaders/` at
  the start of a fluid.

What holds of the library as a whole is stated in the public proof functions whose
names begin with `law_`. The library holds no floats, so a law that rests on the
arithmetic asks for the facts about it by name: that zero is neutral, that sums go
with the order, that a rounding stays within a limit.

## Controls

| Key | Action |
|-----|--------|
| 1-6 | Switch fluid |
| Left / Right | Shake the liquid sideways |
| Space | Shake the liquid upward |
| Up / Down | Gravity strength |
| C | Toggle container shape (SPH) |
| M | Cycle render mode (GPU SPH) |
| S / V | Toggle bottom source / vorticity (smoke) |
| Mouse drag | Inject smoke / push water |
| P | Save a picture into `assets/` |
| R | Reset |
| Esc | Quit |

With `RIPPLE_CAPTURE` set, the program takes a picture of each of the three fluids
on the graphics processor and ends.
