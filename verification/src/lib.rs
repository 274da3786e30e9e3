//! A namespaced registry mapping a logical identity — (contract name, target
//! chain, version) — to an immutable artifact descriptor (a numeric code id
//! plus a content checksum), with a reverse index from (chain, code id) back
//! to the same descriptor.
//!
//! The registry keeps the two indices in lockstep, resolves "latest version"
//! queries by the lexicographically greatest version string, and admits
//! mutation only by a single admin identity. State is held in an explicit
//! [`Registry`] value: the host environment supplies the current
//! persisted value at call entry and persists the value handed back.

pub mod contract;
pub mod error;
pub mod laws;
pub mod msg;
pub mod order;
pub mod state;

pub use contract::execute;
pub use contract::execute_register;
pub use contract::execute_unregister;
pub use contract::execute_update_admin;
pub use contract::instantiate;
pub use contract::query;
pub use contract::query_admin;
pub use contract::query_get_code_id_info;
pub use contract::query_get_registration;
pub use contract::query_list_registrations;
pub use error::ContractError;
pub use msg::ExecuteMsg;
pub use msg::GetRegistrationResponse;
pub use msg::InstantiateMsg;
pub use msg::ListRegistrationsResponse;
pub use msg::QueryMsg;
pub use msg::QueryResponse;
pub use state::Registration;
pub use state::Registry;
