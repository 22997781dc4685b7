use vstd::prelude::*;

verus! {

/// The error kinds surfaced by the token core.
///
/// Every gate or operator failure (including a self-transfer and an
/// unrecognized mint-settlement id) is `Unauthorized`; malformed input is
/// `ValidationError`; a checked-math trip is `ArithmeticOverflow` or
/// `ArithmeticUnderflow` (never silently clamped, since clamping would let
/// the ranked index drift away from the balance store); `Std` carries a
/// platform or collaborator failure through unchanged.
#[derive(Clone, Debug, PartialEq, Eq)]
pub enum ContractError {
    Std { msg: String },
    Unauthorized { reason: String },
    ValidationError { reason: String },
    ArithmeticOverflow,
    ArithmeticUnderflow,
    LogoTooBig,
    InvalidXmlPreamble,
    InvalidPngHeader,
}

} // verus!
