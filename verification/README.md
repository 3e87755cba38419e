# p4est

Two-dimensional quadtree forest meshes on top of the p4est library, with
the mesh logic written in Verus and proved against its contracts.

`src/` is the verified library:

- `basetree`: the coarse mesh (nodes and elements), element order and
  corners, and the connectivity arrays handed to the forest library.
- `su2`, `text`: reading a coarse mesh from the lines of an SU2 file.
- `ordering`, `roots`: VTK node orderings and the integer square roots that
  give an element's order.
- `faces`: which faces one face visit of the forest iterator produces, and
  in which order their cells come.
- `corners`: the corners of each face of a cell.
- `nodes`: numbering the nodes of a mesh from its faces.
- `transfer`: matching the quadrants of a tree before and after an
  adaptation, to carry cell data over.
- `cells`: cell data and its local, global and ghost ids.

`app/` holds what calls the forest library and MPI through raw pointers,
the floating-point geometry (basis functions, node coordinates) and the
program's `main`.
