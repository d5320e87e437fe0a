# gmrf

Gaussian Markov random fields for latent Gaussian models: latent priors (AR(1),
random walks, IID, Besag/BYM2, block-diagonal and Kronecker compositions),
finite element SPDE discretizations on 2D meshes, observation models with
Laplace approximations, and mesh plots.

The crate is split in two.

* `src/` is the verified library (Verus). It holds the parts of the project that
  are exact: the Gmsh text scanner and mesh connectivity validation, the index
  structure of finite element assembly, the sparsity structure of the latent
  priors (chain stencils, graph Laplacians over a `petgraph` neighbourhood graph,
  block-diagonal and Kronecker placement), the Jacobi diagonal selection, the
  column walk over compressed sparse storage, solver and error vocabularies, and
  the shape checks of observations and plotted fields. Each public function states
  its result in its contract, and the laws that relate them (handshake, zero row
  sums of intrinsic precisions, invertible Kronecker placement, assembly staying
  inside the mesh, record counts of a Gmsh scan) are proof functions.
* `app/` is the numerical layer around it: floating-point linear algebra on
  `faer` and `nalgebra`, sampling with `rand`, densities, quadrature, Newton
  iterations, SVG output with `plotters`, file reading and the `thiserror`
  copies of the error types. It calls the library for every decision above.

`tests/` exercises the library on concrete values.
