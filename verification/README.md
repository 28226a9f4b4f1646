# aflak

Building blocks of aflak, a visual environment for astronomical data, written
in Verus with their behaviour stated in contracts and proved.

`src/` is the verified library:

- `homogen`: SI base and composed units, their algebra and how they are written.
- `unit_text`, `derived_unit`, `unit`: units written as text ("1E-17 erg/s/cm^2"),
  read into named units with exponents and a decimal scale, multiplied, divided
  and written back; values with a unit and the flag that tells whether the unit
  is still known to be right.
- `transform`, `dst`: transformations, the feeding of their inputs, and the
  graph of transformations, kept free of cycles.
- `interactions`, `input_state`, `units`, `imshow`, `three`, `util`, `zscale`:
  the logic of the plotting widgets (interaction identifiers, regions of
  interest, axis names, color map names, color packing, bad-pixel growth).
- `roi`, `export`, `download`, `charpoly`, `file_explorer`, `text`: regions of
  interest in images, export errors, the decisions of a cached download, the
  characteristic-polynomial coefficient sums of a matrix, file extensions, and
  number formatting.

`app/` holds what works on floating-point values, files and the network, on
top of the library. `tests/` exercises the library.
