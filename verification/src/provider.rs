//! The errors of the provider-neutral market-data boundary.
use vstd::prelude::*;

use crate::market_data::{validation_message, MarketDataValidationError};
use crate::text::{decimal_digits, joined, u64_text};

verus! {

#[derive(Clone, Debug, PartialEq, Eq)]
pub enum ProviderError {
    InvalidResponse(String),
    InvalidFixture(String),
    InvalidRequest(MarketDataValidationError),
    RateLimited { retry_after_seconds: Option<u64> },
    RequestLimitExceeded { requested: u32, maximum: u32 },
    RuntimeUnavailable,
    Transport(String),
    UnsupportedOperation(&'static str),
    UnknownInterval(String),
    UnknownProvider(String),
    UnknownSymbol(String),
}

/// The human-readable text of a provider error.
pub open spec fn provider_message(e: ProviderError) -> Seq<char> {
    match e {
        ProviderError::InvalidResponse(m) => "invalid provider response: "@ + m@,
        ProviderError::InvalidFixture(m) => "invalid provider fixture: "@ + m@,
        ProviderError::InvalidRequest(v) => "invalid market-data request: "@ + validation_message(v),
        ProviderError::RateLimited { retry_after_seconds } => match retry_after_seconds {
            Some(seconds) => "provider rate limit; retry after "@ + decimal_digits(seconds as nat)
                + "s"@,
            None => "provider rate limit"@,
        },
        ProviderError::RequestLimitExceeded { requested, maximum } => "requested "@
            + decimal_digits(requested as nat) + " candles, but provider maximum is "@
            + decimal_digits(maximum as nat),
        ProviderError::RuntimeUnavailable => "a Tokio runtime is required to subscribe"@,
        ProviderError::Transport(m) => "provider transport failed: "@ + m@,
        ProviderError::UnsupportedOperation(op) => "provider operation is not implemented: "@
            + op@,
        ProviderError::UnknownInterval(i) => "unknown interval: "@ + i@,
        ProviderError::UnknownProvider(p) => "unknown provider: "@ + p@,
        ProviderError::UnknownSymbol(s) => "unknown symbol: "@ + s@,
    }
}

impl ProviderError {
    /// The human-readable text of this error.
    pub fn describe(&self) -> (r: String)
        ensures
            r@ == provider_message(*self),
    {
        match self {
            ProviderError::InvalidResponse(m) => joined("invalid provider response: ", m.as_str()),
            ProviderError::InvalidFixture(m) => joined("invalid provider fixture: ", m.as_str()),
            ProviderError::InvalidRequest(v) => {
                let detail = v.describe();
                joined("invalid market-data request: ", detail.as_str())
            },
            ProviderError::RateLimited { retry_after_seconds } => match retry_after_seconds {
                Some(seconds) => {
                    let digits = u64_text(*seconds);
                    let mut out = joined("provider rate limit; retry after ", digits.as_str());
                    out.append("s");
                    out
                },
                None => String::from_str("provider rate limit"),
            },
            ProviderError::RequestLimitExceeded { requested, maximum } => {
                let asked = u64_text(*requested as u64);
                let most = u64_text(*maximum as u64);
                let mut out = joined("requested ", asked.as_str());
                out.append(" candles, but provider maximum is ");
                out.append(most.as_str());
                out
            },
            ProviderError::RuntimeUnavailable => String::from_str(
                "a Tokio runtime is required to subscribe",
            ),
            ProviderError::Transport(m) => joined("provider transport failed: ", m.as_str()),
            ProviderError::UnsupportedOperation(op) => joined(
                "provider operation is not implemented: ",
                op,
            ),
            ProviderError::UnknownInterval(i) => joined("unknown interval: ", i.as_str()),
            ProviderError::UnknownProvider(p) => joined("unknown provider: ", p.as_str()),
            ProviderError::UnknownSymbol(s) => joined("unknown symbol: ", s.as_str()),
        }
    }
}

impl From<MarketDataValidationError> for ProviderError {
    fn from(error: MarketDataValidationError) -> (r: Self) {
        ProviderError::InvalidRequest(error)
    }
}

impl vstd::std_specs::convert::FromSpecImpl<MarketDataValidationError> for ProviderError {
    open spec fn obeys_from_spec() -> bool {
        true
    }

    open spec fn from_spec(v: MarketDataValidationError) -> Self {
        ProviderError::InvalidRequest(v)
    }
}

} // verus!
