//! The market-data providers: an offline replay of fixed data and the
//! Binance Spot adapter.
use vstd::prelude::*;

use crate::market_data::{Instrument, InstrumentModel};
use crate::text::joined;

pub mod binance;
pub mod mock;

verus! {

/// The base assets of the five configured USDT pairs, in catalog order.
pub open spec fn usdt_bases() -> Seq<Seq<char>> {
    seq!["BTC"@, "ETH"@, "BNB"@, "SOL"@, "XRP"@]
}

/// The instrument of a USDT pair at one provider.
pub open spec fn usdt_instrument(provider: Seq<char>, base: Seq<char>) -> InstrumentModel {
    InstrumentModel {
        provider: provider,
        symbol: base + "USDT"@,
        base_asset: base,
        quote_asset: "USDT"@,
    }
}

/// The configured USDT pairs of a provider.
pub open spec fn usdt_catalog(provider: Seq<char>) -> Seq<InstrumentModel> {
    usdt_bases().map_values(|base: Seq<char>| usdt_instrument(provider, base))
}

pub open spec fn instrument_models(v: Seq<Instrument>) -> Seq<InstrumentModel> {
    v.map_values(|i: Instrument| i@)
}

/// Builds the configured USDT pairs of a provider.
pub fn usdt_instruments(provider: &str) -> (r: Vec<Instrument>)
    ensures
        instrument_models(r@) == usdt_catalog(provider@),
{
    let bases = ["BTC", "ETH", "BNB", "SOL", "XRP"];
    let mut out: Vec<Instrument> = Vec::new();
    let mut i: usize = 0;
    while i < 5
        invariant
            i <= 5,
            out@.len() == i,
            bases@.len() == 5,
            bases@[0]@ == "BTC"@,
            bases@[1]@ == "ETH"@,
            bases@[2]@ == "BNB"@,
            bases@[3]@ == "SOL"@,
            bases@[4]@ == "XRP"@,
            instrument_models(out@) == usdt_catalog(provider@).take(i as int),
        decreases 5 - i,
    {
        let base = bases[i];
        let instrument = Instrument {
            provider: String::from_str(provider),
            symbol: joined(base, "USDT"),
            base_asset: String::from_str(base),
            quote_asset: String::from_str("USDT"),
        };
        let ghost before = out@;
        out.push(instrument);
        proof {
            assert(usdt_bases()[i as int] == base@);
            assert(instrument_models(out@) =~= usdt_catalog(provider@).take(i + 1)) by {
                assert(instrument_models(out@)[i as int] == instrument@);
                assert forall|k: int| 0 <= k < i implies instrument_models(out@)[k]
                    == instrument_models(before)[k] by {
                    assert(out@[k] == before[k]);
                }
            }
        }
        i = i + 1;
    }
    proof {
        assert(usdt_catalog(provider@).take(5) =~= usdt_catalog(provider@));
    }
    out
}

} // verus!
