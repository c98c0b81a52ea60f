# lib: verified pixel drawing

A small drawing library on a canvas of RGB pixels (`Vec<Vec<[u8; 3]>>`, indexed
`pixels[y][x]`), verified with Verus.

- `src/geometry.rs`: points, `sign`, `min`/`max` of three, `add_vector`.
- `src/canvas.rs`: creating a white canvas, filled squares, and the `painted`
  relation in which every drawing contract is stated: the new canvas has the old
  shape, the pixels of a region hold the colour, all other pixels are unchanged.
- `src/line.rs`: Bresenham lines, with the line's pixels given in closed form
  (after `i` major steps the line has moved `i * minor / major` minor steps,
  rounded to nearest, halves down), and laws on end points, connectivity and
  bounding box.
- `src/raster.rs`: triangle rasterization by edge functions, with the exact range
  in which its `isize` arithmetic is safe, and laws on vertex rotation and
  orientation.
- `src/shapes.rs`: `Triangle` and `Quadrangle` behind the `Object` trait (fill,
  outline, displace), quadrangle untangling, and the integer parts of turning a
  shape (centre, offsets, placement).
- `src/ppm.rs`: the bytes of a binary PPM image of a canvas.
- `app/main.rs`: the demo program; it turns shapes by a floating-point angle and
  writes `Output.ppm`.
