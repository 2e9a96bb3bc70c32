# faer (verified subset)

Dense matrix algorithms with machine-checked contracts, written in Verus:

- `linalg::polyval`: evaluation of a matrix polynomial
  `p(A) = c_0 I + c_1 A + ... + c_n A^n` by Horner's method (`polyval`) and by
  the Paterson-Stockmeyer algorithm (`polyval_ps`). Both are proved to return
  exactly `Σ c_k A^k`.
- `linalg::qr::sketched::factor`: the sketched column-pivoted QR
  factorization. The sketch product `B = S A`, the in-place application of the
  column permutation by cycle walking, and the restoration of `col_perm` are
  proved; the two QR kernels (column-pivoted on the sketch, unpivoted on the
  permuted matrix) are passed in as functions. The transposition count is
  that of the permutation (columns minus cycles), and with kernels that
  answer the same input the same way two runs give the same result.
- `stats::pca`: principal component analysis. Centering, truncation of the
  decomposition to `k` components, projection, reconstruction, explained
  variance and its ratio to the total variance of all components are proved;
  the thin SVD is passed in as a function. Given a thin SVD, the components
  are orthonormal, `transform` undoes `inverse_transform`, reconstruction is
  a projection, keeping all components reconstructs the data exactly, and
  keeping `k` components keeps a prefix of keeping all of them.

Layout:

- `src/scalar.rs`: the `Scalar` trait (a commutative ring with conjugation and
  division-like operations) and its verified instance, `i64` with wrapping
  arithmetic (the integers modulo 2^64).
- `src/algebra.rs`: the mathematical model (finite sums, matrix sums,
  products, powers, polynomials) and its laws: associativity of the matrix
  product, `A^x A^y = A^(x+y)`, Horner's scheme, the block splitting of a
  polynomial, `p(I)` and `p(0)`.
- `src/mat.rs`: the dense matrix type `Mat<T>` and its basic operations.
- `app/lib.rs`: a double-precision instance of `Scalar` and the Gaussian
  sketch drawn with `rand_distr`, which are floating point and stay outside
  the verified library.
