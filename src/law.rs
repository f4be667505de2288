use vstd::prelude::*;

verus! {

/// statrs::distribution::Exp, carried as an opaque value; it is only sampled
/// outside the verified code.
#[verifier::external_type_specification]
#[verifier::external_body]
pub struct ExExp(statrs::distribution::Exp);

/// statrs::distribution::Weibull, carried as an opaque value.
#[verifier::external_type_specification]
#[verifier::external_body]
pub struct ExWeibull(statrs::distribution::Weibull);

/// statrs::distribution::Gamma, carried as an opaque value.
#[verifier::external_type_specification]
#[verifier::external_body]
pub struct ExGamma(statrs::distribution::Gamma);

/// A probability law for the length of a failure or repair interval.
/// `NoRepair` means "never repaired" and is valid only as a repair law.
#[derive(Clone, Copy, Debug)]
pub enum Law {
    Exp(statrs::distribution::Exp),
    Weibull(statrs::distribution::Weibull),
    Gamma(statrs::distribution::Gamma),
    NoRepair,
}

impl Law {
    /// Whether this law can yield a failure interval.
    pub fn can_fail(&self) -> (r: bool)
        ensures
            r == !(*self is NoRepair),
    {
        match self {
            Law::NoRepair => false,
            _ => true,
        }
    }
}

} // verus!
