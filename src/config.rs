use vstd::prelude::*;
use crate::decimal::{decimal_micros, parse_decimal};
use crate::table::Holding;

verus! {

/// Why a holding in the configuration cannot be used.
#[derive(Clone, Copy, Debug, PartialEq, Eq, Structural)]
pub enum ConfigError {
    /// The holding gives no quantity.
    MissingQuantity,
    /// The holding gives no cost basis.
    MissingCostBasis,
    /// The quantity is not a decimal number the library can hold.
    BadQuantity,
    /// The cost basis is not a decimal number the library can hold.
    BadCostBasis,
}

/// Builds the holding of `symbol` from the text of its quantity and cost
/// basis fields, as found (or not) in the configuration.
pub fn holding_from_fields(symbol: String, quantity: Option<&str>, cost_basis: Option<&str>) -> (r:
    Result<Holding, ConfigError>)
    ensures
        match (quantity, cost_basis) {
            (None, _) => r == Err::<Holding, ConfigError>(ConfigError::MissingQuantity),
            (Some(_), None) => r == Err::<Holding, ConfigError>(ConfigError::MissingCostBasis),
            (Some(qt), Some(ct)) => match (decimal_micros(qt@), decimal_micros(ct@)) {
                (None, _) => r == Err::<Holding, ConfigError>(ConfigError::BadQuantity),
                (Some(_), None) => r == Err::<Holding, ConfigError>(ConfigError::BadCostBasis),
                (Some(q), Some(c)) => match r {
                    Ok(h) => h.symbol@ == symbol@ && h.quantity.micros == q && h.cost_basis.micros
                        == c && h.quantity.wf() && h.cost_basis.wf(),
                    Err(_) => false,
                },
            },
        },
{
    let qt = match quantity {
        Some(t) => t,
        None => return Err(ConfigError::MissingQuantity),
    };
    let ct = match cost_basis {
        Some(t) => t,
        None => return Err(ConfigError::MissingCostBasis),
    };
    let q = match parse_decimal(qt) {
        Some(a) => a,
        None => return Err(ConfigError::BadQuantity),
    };
    let c = match parse_decimal(ct) {
        Some(a) => a,
        None => return Err(ConfigError::BadCostBasis),
    };
    Ok(Holding { symbol, quantity: q, cost_basis: c })
}

} // verus!
