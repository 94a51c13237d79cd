//! The curve pallet's calls: the alt_bn128 operations on raw input bytes, announcing the
//! resulting point for the signer.
use vstd::prelude::*;
use crate::alt_bn128;
use crate::alt_bn128::{g1_sum_output, g1_multiexp_bytes, pairing_check_output};

verus! {

/// What the curve pallet announces: an encoded point and the account that asked for it.
#[derive(Debug, Clone, PartialEq, Eq)]
pub enum CurveEvent {
    EcPoint(Vec<u8>, u64),
}

/// Why a curve call is refused.
#[derive(Debug, Clone, Copy, PartialEq, Eq)]
pub enum CurveCallError {
    /// The call is not signed by an account.
    BadOrigin,
    /// The operation refused its input.
    AltBn128Error,
}

/// The outcome of a call that announces the encoded point `out` for `origin`.
pub open spec fn point_call_outcome(
    out: Option<Seq<u8>>,
    origin: Option<u64>,
    r: Result<CurveEvent, CurveCallError>,
) -> bool {
    match out {
        None => r == Err::<CurveEvent, CurveCallError>(CurveCallError::AltBn128Error),
        Some(b) => match origin {
            None => r == Err::<CurveEvent, CurveCallError>(CurveCallError::BadOrigin),
            Some(w) => r matches Ok(CurveEvent::EcPoint(v, who)) && v@ == b && who == w,
        },
    }
}

/// The pairing check on `data`, which needs no signer: `Some(1)` where the pairing product
/// is one, `Some(0)` where it is not.
pub fn alt_bn128_pairing_check(data: &[u8]) -> (r: Result<Option<u64>, CurveCallError>)
    ensures
        match pairing_check_output(data@) {
            Some(b) => r == Ok::<Option<u64>, CurveCallError>(
                Some(
                    if b {
                        1u64
                    } else {
                        0u64
                    },
                ),
            ),
            None => r == Err::<Option<u64>, CurveCallError>(CurveCallError::AltBn128Error),
        },
{
    match alt_bn128::alt_bn128_pairing_check(data) {
        Err(_) => Err(CurveCallError::AltBn128Error),
        Ok(res) => Ok(
            Some(
                if res {
                    1
                } else {
                    0
                },
            ),
        ),
    }
}

/// The multi-exponentiation of `data`, announced for the signer; the input is checked
/// before the signer.
pub fn alt_bn128_g1_multiexp(origin: Option<u64>, data: &[u8]) -> (r: Result<
    CurveEvent,
    CurveCallError,
>)
    ensures
        point_call_outcome(g1_multiexp_bytes(data@), origin, r),
{
    match alt_bn128::alt_bn128_g1_multiexp(data) {
        Err(_) => Err(CurveCallError::AltBn128Error),
        Ok(res) => match origin {
            None => Err(CurveCallError::BadOrigin),
            Some(who) => Ok(CurveEvent::EcPoint(res, who)),
        },
    }
}

/// The sum of the signed points of `data`, announced for the signer; the input is checked
/// before the signer.
pub fn alt_bn128_g1_sum(origin: Option<u64>, data: &[u8]) -> (r: Result<
    CurveEvent,
    CurveCallError,
>)
    ensures
        point_call_outcome(g1_sum_output(data@), origin, r),
{
    match alt_bn128::alt_bn128_g1_sum(data) {
        Err(_) => Err(CurveCallError::AltBn128Error),
        Ok(res) => match origin {
            None => Err(CurveCallError::BadOrigin),
            Some(who) => Ok(CurveEvent::EcPoint(res, who)),
        },
    }
}

} // verus!
