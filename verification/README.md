# libm

A floating-point math library whose integer-level logic is verified with
Verus, and whose floating-point evaluation is ordinary Rust around it.

## Layout

- `src/` — the verified library. Floating-point values are passed as their
  IEEE 754 bit patterns (`u16`, `u32`, `u64`).
  - `dint`, `dint_laws`, `log_tables` — `DInt64`, the 128-bit-significand
    software float of the correctly rounded logarithm: addition,
    multiplication, multiplication by an integer, the polynomial, exact
    conversion from binary64 and rounding back, with their error bounds and
    algebraic laws.
  - `log` — the correctly rounded logarithm's first step (special
    arguments, argument reduction and table interval) and its accurate path
    in `DInt64`.
  - `log_laws` — what holds of the accurate path for every positive finite
    argument: its reduction steps never overflow, and on powers of two it
    runs through and gives `k * log(2)` rounded once.
  - `log_split` — the first step of the binary, decimal and binary32
    natural logarithms and of `log1p`, `log1pf`: special arguments and
    exact reduction into `[sqrt(2)/2, sqrt(2))`.
  - `power` — the decisions of `pow` and `powf`: special arguments, whether
    the exponent is an odd or even integer, the sign of the result, and the
    ranges that surely overflow or underflow.
  - `limbs` — the multi-limb integers of the Payne-Hanek argument reduction:
    where its chunks of `2/pi` start, when more of them are needed, and the
    zero limbs dropped at the end.
  - `pow_result` — the overflow and underflow tests of `pow` and `powf` on
    the bits of `y * log2|x|`, and the scaling of the result.
  - `lgamma` — the special arguments, intervals and reflection of `lgamma`
    and `lgammaf`.
  - `hypotf` — the ordering, special arguments and scaling of `hypotf`.
  - `trig_reduction`, `expm1f` — the bit-pattern decisions of the reduction
    by multiples of `pi/2`, of `sincosf`, and of `expm1f`.
  - `rintf16`, `ceilf`, `floorf`, `fabs`, `ilogb`, `words`,
    `rounding_laws` — the bit-level rounding and classification routines.
  - `float_bits`, `arith` — the fields of the formats, and shared facts.
- `tests/` — tests of the library on concrete values.
- `app/` — the floating-point entry points (`log`, `pow`, `powf`, the
  trigonometric, exponential and logarithmic functions of the musl and
  newlib families), calling the library for what it verifies.
