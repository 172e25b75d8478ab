# meshgen

A structured quad-mesh generator and the decision logic of its desktop front
end, written in Verus. The library states what each function returns in
`requires` / `ensures` contracts and Verus proves them.

## Layout

- `src/` — the verified library.
  - `input_parser` — the project file and the token layout of geometry files.
  - `scanline_rasterizer` — the row and column scanline fill of the cell grid
    and the quad mesh built from the active cells.
  - `fill_laws`, `mesh_laws`, `zone_laws` — laws of the fill, the quad mesh
    and the structured-zone output.
  - `geometry_core` — assignment of holes to the outer boundaries that hold them.
  - `output_text`, `output_tecplot`, `output_vtk`, `xml_structure` — the line
    layout of the text and Tecplot outputs and the VTK XML document.
  - `state`, `validation`, `runner`, `session` — the front end's state, its
    validation rules, the EasyMesh input and command line, and the transitions
    of the application on user actions and worker messages.
  - `text` — decimal text of integers, trimming and integer parsing.
- `tests/` — tests of the library on concrete values.
- `app/` — the program around the library: the command line, the GUI, file
  and process I/O, and the floating-point geometry.
