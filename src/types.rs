use vstd::prelude::*;

verus! {

/// The type-level unsigned integer 60000, the number of MNIST training images.
pub type U60000 = typenum::UInt<typenum::UInt<typenum::UInt<typenum::UInt<typenum::UInt<typenum::UInt<typenum::UInt<typenum::UInt<typenum::UInt<typenum::UInt<typenum::UInt<typenum::UInt<typenum::UInt<typenum::UInt<typenum::UInt<typenum::UInt<typenum::UTerm, typenum::B1>, typenum::B1>, typenum::B1>, typenum::B0>, typenum::B1>, typenum::B0>, typenum::B1>, typenum::B0>, typenum::B0>, typenum::B1>, typenum::B1>, typenum::B0>, typenum::B0>, typenum::B0>, typenum::B0>, typenum::B0>;

} // verus!
