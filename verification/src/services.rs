//! The service capabilities an anchor can declare, and their stable on-chain codes.

use vstd::prelude::*;

verus! {

pub const SERVICE_DEPOSITS: u32 = 1;
pub const SERVICE_WITHDRAWALS: u32 = 2;
pub const SERVICE_QUOTES: u32 = 3;
pub const SERVICE_KYC: u32 = 4;

/// A service capability an anchor can support. Each variant maps to a stable `u32` code;
/// use [`ServiceType::as_u32`] to convert before passing one to contract functions.
#[derive(Clone, Copy, Debug, PartialEq, Eq, Structural)]
pub enum ServiceType {
    Deposits,
    Withdrawals,
    Quotes,
    KYC,
}

/// The code of a service.
pub open spec fn service_code(s: ServiceType) -> u32 {
    match s {
        ServiceType::Deposits => SERVICE_DEPOSITS,
        ServiceType::Withdrawals => SERVICE_WITHDRAWALS,
        ServiceType::Quotes => SERVICE_QUOTES,
        ServiceType::KYC => SERVICE_KYC,
    }
}

impl ServiceType {
    /// The stable code of the service.
    pub fn as_u32(&self) -> (code: u32)
        ensures
            code == service_code(*self),
    {
        match self {
            ServiceType::Deposits => SERVICE_DEPOSITS,
            ServiceType::Withdrawals => SERVICE_WITHDRAWALS,
            ServiceType::Quotes => SERVICE_QUOTES,
            ServiceType::KYC => SERVICE_KYC,
        }
    }
}

/// Distinct services have distinct codes, and every code lies in 1..=4.
pub proof fn law_service_codes_distinct(a: ServiceType, b: ServiceType)
    ensures
        service_code(a) == service_code(b) <==> a == b,
        1 <= service_code(a) <= 4,
{
}

} // verus!
