use num::complex::Complex;
use vstd::prelude::*;

verus! {

/// `num::complex::Complex`, a pair of public fields `re` and `im`.
#[verifier::external_type_specification]
#[verifier::reject_recursive_types(T)]
pub struct ExComplex<T>(Complex<T>);

/// `Complex::new(re, im)` builds the number with those two parts.
pub assume_specification<T>[ Complex::<T>::new ](re: T, im: T) -> (c: Complex<T>)
    ensures
        c.re == re,
        c.im == im,
;

} // verus!
