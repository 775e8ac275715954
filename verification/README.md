# gc2607-isp

Software ISP for the GalaxyCore GC2607 colour camera: raw Bayer frames in, colour
images and webcam frames out, with auto-exposure driven on the sensor.

The library (`src/`) is verified with Verus. Every function states what it does in
its contract, and the properties that span functions are stated and proved as
`law_*` proof functions beside the code they are about.

| Module | What stands there |
|--------|-------------------|
| `raw`, `rows` | capture buffers, black level; row-parallel grids |
| `tuning` | reading the calibration grids |
| `pipeline` | Bayer planes, lens shading, white balance, debayer, rendering, the live processor |
| `order` | order keys of real numbers, order statistics |
| `ae` | exposure-priority allocation of light, and that the loop converges |
| `output` | RGB to YUYV, denoising, the loopback device's format |
| `sensor`, `camera`, `gpu` | sub-device control, camera choice, GPU schedule and layout |
| `video` | engine, live loop, supervision, apply-delay measurement, raw capture |
| `recovery` | retry policy for lost camera sessions |
| `cli`, `text`, `picture` | command lines, numbers and text, PPM and PNG |

Samples are integers until real-valued gains apply. The stages from there on take
the arithmetic through the traits `Scene`, `Debayer` and `Kernels` and are generic in
the number types: what the library proves is which samples, gains, matrices and
positions meet where, and what is chosen by the results. The arithmetic itself is in
`app/kernels.rs`.

`app/` holds the three programs: `gc2607-isp` (offline), `gc2607-video` (live
webcam) and `gc2607-capture` (raw capture). They read the tuning from
`/usr/share/gc2607-isp`, or from the directory that `GC2607_DATA` names:
`tables.bin`, `lsc_grids.bin` and `lca_grids.bin`, all little-endian
single-precision numbers.
