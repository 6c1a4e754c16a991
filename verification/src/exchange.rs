//! The exchange-selector type and its parser.

use crate::json::str_eq;
use vstd::prelude::*;

verus! {

/// Which exchange a client should talk to. Only Bybit has a client
/// implementation; the other members are valid selections whose
/// construction fails until one is added.
#[derive(Debug, Clone, Copy, PartialEq, Eq, Structural)]
pub enum ExchangeType {
    Bybit,
    Binance,
    Ftx,
}

/// The exchange a configuration name stands for.
pub open spec fn spec_exchange_from_string(s: Seq<char>) -> Option<ExchangeType> {
    if s == "bybit"@ {
        Some(ExchangeType::Bybit)
    } else if s == "FTX"@ || s == "Ftx"@ {
        Some(ExchangeType::Ftx)
    } else if s == "Binance"@ {
        Some(ExchangeType::Binance)
    } else {
        None
    }
}

/// Reads an exchange selector from its configuration name; any other
/// name is reported back in the error message.
pub fn exchange_from_string(exchange: &str) -> (r: Result<ExchangeType, String>)
    ensures
        match r {
            Ok(e) => spec_exchange_from_string(exchange@) == Some(e),
            Err(m) => spec_exchange_from_string(exchange@) == None::<ExchangeType> && m@
                == exchange@ + " <- is not a exchange type"@,
        },
{
    if str_eq(exchange, "bybit") {
        Ok(ExchangeType::Bybit)
    } else if str_eq(exchange, "FTX") {
        Ok(ExchangeType::Ftx)
    } else if str_eq(exchange, "Ftx") {
        Ok(ExchangeType::Ftx)
    } else if str_eq(exchange, "Binance") {
        Ok(ExchangeType::Binance)
    } else {
        let msg = exchange.to_owned().concat(" <- is not a exchange type");
        Err(msg)
    }
}

} // verus!
