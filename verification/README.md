# ternary reservoir

Reservoir computing with ternary nodes: echo state networks whose reservoir
state lives in {-1, 0, +1}.

- `src/` is the verified integer core: ternary values and their quantization
  (`ternary`), the linear congruential generator (`lcg`), the sign patterns of
  the reservoir and input weight matrices with their laws (`sign_matrix`), and
  the collection of reservoir states with washout (`washout`).
- `app/` is the floating-point layer built on it: weight scaling by spectral
  radius, reservoir updates, ridge regression readout, echo state network and
  mean squared error.
- `tests/` exercises the library.
