# FractalX

An explorer for fractals: escape-time sets with deep zoom, iterated function
systems, L-systems, strange attractors, and fractal terrain.

The library under `src/` holds the rules of the explorer, with contracts that
Verus proves. The application under `app/` holds what computes with
floating-point numbers or talks to the outside: the window and its panels, the
GPU, files, and JSON.

## The library

| Module | What it decides |
| --- | --- |
| `float`, `text` | numbers by their bits and their order; numbers as text |
| `bigfloat`, `deep` | arbitrary-precision coordinates, their decimal text, the reference orbit |
| `lsystem`, `raster` | rewriting under a symbol cap, the turtle, clipping, painting |
| `density`, `ifs`, `attractor` | dealing points to lanes, histograms, tone mapping, presets |
| `palette`, `terrain`, `mandelbrot` | color coefficients, lattice hashing, the GPU's uniforms and rows |
| `ladder`, `progress`, `julia` | what a frame renders next, and what it keeps |
| `session`, `explorer`, `controls` | the view, and what each command does to it |
| `export`, `journal` | PNG files that carry their view, and their order |

Floating-point numbers cross into the library as bits (`Double`, `Single`), so
that comparing, clamping and rounding to a pixel are proved, while sums and
products are left to the application.

Public proof functions whose names begin with `law_` state what holds of the
library as a whole; the tests under `tests/` show each on concrete values.

What is trusted rather than proved stands in functions marked
`external_body`, and in one `assume_specification` of a function of the
standard library. Each has a comment that names the function it calls or
specifies.
