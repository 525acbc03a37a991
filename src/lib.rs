//! A mock ledger and transaction-result model for running contract scenarios,
//! with the codec between that model and the scenario text format.

pub mod decode;
pub mod finish;
pub mod ledger;
pub mod raw;
pub mod scenario;
pub mod text;
pub mod tx_result;
