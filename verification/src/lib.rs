//! A lending protocol: loan lifecycle, multi-asset collateral vault,
//! multisig pause control, governance-controlled fees and flash-loan terms.
pub mod types;
pub mod rates;
pub mod state;
pub mod median;
pub mod account_map;
pub mod model;
pub mod vault;
pub mod laws;
pub mod stored;
pub mod credit_laws;
