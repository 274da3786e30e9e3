//! The typed requests the registry answers and the payloads it answers with.

use vstd::prelude::*;

use crate::state::Registration;

verus! {

/// The one input initialization takes: the initial admin identity, already
/// validated by the host's identity rules.
#[derive(Debug, Clone, PartialEq, Eq)]
pub struct InstantiateMsg {
    pub admin: String,
}

/// A mutation request; every variant requires the caller to be the admin.
#[derive(Debug, Clone, PartialEq, Eq)]
pub enum ExecuteMsg {
    /// Register a code id under both index keys.
    Register {
        contract_name: String,
        version: String,
        chain_id: String,
        code_id: u64,
        checksum: String,
    },
    /// Remove a registration from both index keys; idempotent.
    Unregister { contract_name: String, chain_id: String, code_id: u64, version: String },
    /// Replace the admin identity.
    UpdateAdmin { admin: String },
}

/// A read-only request.
#[derive(Debug, Clone, PartialEq, Eq)]
pub enum QueryMsg {
    /// The current admin identity.
    Admin,
    /// One registration: the given version, or with no version the latest
    /// one registered under `(name, chain_id)`.
    GetRegistration { name: String, chain_id: String, version: Option<String> },
    /// The registration occupying `(chain_id, code_id)`.
    GetCodeIdInfo { chain_id: String, code_id: u64 },
    /// Every registration under `(name, chain_id)`, in ascending version
    /// order.
    ListRegistrations { name: String, chain_id: String },
}

/// The answer to a single-record query.
#[derive(Debug, PartialEq, Eq)]
pub struct GetRegistrationResponse {
    pub registration: Registration,
}

/// The answer to a listing query.
#[derive(Debug, PartialEq, Eq)]
pub struct ListRegistrationsResponse {
    pub registrations: Vec<Registration>,
}

/// The payload answering each query variant.
#[derive(Debug, PartialEq, Eq)]
pub enum QueryResponse {
    Admin(String),
    Registration(GetRegistrationResponse),
    Registrations(ListRegistrationsResponse),
}

} // verus!
