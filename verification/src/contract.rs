//! The registration engine and the query resolver: admin-gated mutation of
//! the two indices, exact and latest-version lookups, and listings.
//!
//! Each operation takes the registry state as an explicit value and says in
//! its contract, over the two map views, exactly what it returns and how the
//! state after relates to the state before.

use vstd::prelude::*;

use crate::error::ContractError;
use crate::msg::{
    ExecuteMsg, GetRegistrationResponse, InstantiateMsg, ListRegistrationsResponse, QueryMsg,
    QueryResponse,
};
use crate::order::{lex_leq, lex_lt};
use crate::state::{matches_prefix, Registration, RegistrationView, Registry};

verus! {

/// The record a successful register call commits under both keys and returns.
pub open spec fn new_registration(
    contract_name: Seq<char>,
    version: Seq<char>,
    chain_id: Seq<char>,
    code_id: u64,
    checksum: Seq<char>,
) -> RegistrationView {
    RegistrationView { contract_name, version, chain_id, code_id, checksum }
}

/// Neither index nor the admin slot changed.
pub open spec fn unchanged(pre: Registry, post: Registry) -> bool {
    &&& post.code_map() == pre.code_map()
    &&& post.name_map() == pre.name_map()
    &&& post.admin_id() == pre.admin_id()
}

/// A register call that was accepted: the caller is the admin, the code-id
/// key was free, and the new record now stands under both keys.
pub open spec fn register_accepted(
    pre: Registry,
    post: Registry,
    sender: Seq<char>,
    contract_name: Seq<char>,
    version: Seq<char>,
    chain_id: Seq<char>,
    code_id: u64,
    checksum: Seq<char>,
) -> bool {
    let r = new_registration(contract_name, version, chain_id, code_id, checksum);
    &&& sender == pre.admin_id()
    &&& !pre.code_map().dom().contains((chain_id, code_id))
    &&& post.code_map() == pre.code_map().insert((chain_id, code_id), r)
    &&& post.name_map() == pre.name_map().insert((contract_name, chain_id, version), r)
    &&& post.admin_id() == pre.admin_id()
}

/// A register call that was refused: the state is unchanged and the error
/// says exactly why. Only a non-admin caller or an occupied code-id key
/// refuses a registration.
pub open spec fn register_rejected(
    pre: Registry,
    post: Registry,
    sender: Seq<char>,
    chain_id: Seq<char>,
    code_id: u64,
    e: ContractError,
) -> bool {
    &&& unchanged(pre, post)
    &&& if sender != pre.admin_id() {
        e == ContractError::UnauthorizedRegistration
    } else {
        &&& pre.code_map().dom().contains((chain_id, code_id))
        &&& e matches ContractError::CodeIDAlreadyRegistered(c, ch) && c == code_id && ch@
            == chain_id
    }
}

/// The full outcome of a register call.
pub open spec fn register_post(
    pre: Registry,
    post: Registry,
    sender: Seq<char>,
    contract_name: Seq<char>,
    version: Seq<char>,
    chain_id: Seq<char>,
    code_id: u64,
    checksum: Seq<char>,
    r: Result<Registration, ContractError>,
) -> bool {
    match r {
        Ok(reg) => {
            &&& reg@ == new_registration(contract_name, version, chain_id, code_id, checksum)
            &&& register_accepted(
                pre,
                post,
                sender,
                contract_name,
                version,
                chain_id,
                code_id,
                checksum,
            )
        },
        Err(e) => register_rejected(pre, post, sender, chain_id, code_id, e),
    }
}

/// A successful unregister call: both keys are now free, whether or not they
/// were occupied (deletion is idempotent).
pub open spec fn unregister_accepted(
    pre: Registry,
    post: Registry,
    sender: Seq<char>,
    contract_name: Seq<char>,
    chain_id: Seq<char>,
    code_id: u64,
    version: Seq<char>,
) -> bool {
    &&& sender == pre.admin_id()
    &&& post.code_map() == pre.code_map().remove((chain_id, code_id))
    &&& post.name_map() == pre.name_map().remove((contract_name, chain_id, version))
    &&& post.admin_id() == pre.admin_id()
}

/// The full outcome of an unregister call: it succeeds if and only if the
/// caller is the admin.
pub open spec fn unregister_post(
    pre: Registry,
    post: Registry,
    sender: Seq<char>,
    contract_name: Seq<char>,
    chain_id: Seq<char>,
    code_id: u64,
    version: Seq<char>,
    r: Result<(), ContractError>,
) -> bool {
    match r {
        Ok(_) => unregister_accepted(pre, post, sender, contract_name, chain_id, code_id, version),
        Err(e) => {
            &&& unchanged(pre, post)
            &&& sender != pre.admin_id()
            &&& e == ContractError::UnauthorizedRegistration
        },
    }
}

/// The full outcome of an admin change: it succeeds if and only if the caller
/// is the current admin, and touches nothing but the admin slot.
pub open spec fn update_admin_post(
    pre: Registry,
    post: Registry,
    sender: Seq<char>,
    new_admin: Seq<char>,
    r: Result<(), ContractError>,
) -> bool {
    match r {
        Ok(_) => {
            &&& sender == pre.admin_id()
            &&& post.admin_id() == new_admin
            &&& post.code_map() == pre.code_map()
            &&& post.name_map() == pre.name_map()
        },
        Err(e) => {
            &&& unchanged(pre, post)
            &&& sender != pre.admin_id()
            &&& e == ContractError::UnauthorizedUpdateAdmin
        },
    }
}

/// Set up an empty registry owned by the given admin identity. The identity
/// is validated by the host before it is handed in.
pub fn instantiate(msg: InstantiateMsg) -> (r: Registry)
    ensures
        r.wf(),
        r.admin_id() == msg.admin@,
        r.code_map() == Map::<(Seq<char>, u64), RegistrationView>::empty(),
        r.name_map() == Map::<(Seq<char>, Seq<char>, Seq<char>), RegistrationView>::empty(),
{
    Registry::new(msg.admin)
}

/// Register a code id: admin-only, never overwrites an occupied
/// `(chain_id, code_id)` key, and writes the new record under both keys.
/// Re-registering an occupied `(contract_name, chain_id, version)` key is
/// allowed and replaces that name-index entry.
pub fn execute_register(
    registry: &mut Registry,
    sender: &str,
    contract_name: String,
    version: String,
    chain_id: String,
    code_id: u64,
    checksum: String,
) -> (r: Result<Registration, ContractError>)
    requires
        old(registry).wf(),
    ensures
        final(registry).wf(),
        register_post(
            *old(registry),
            *final(registry),
            sender@,
            contract_name@,
            version@,
            chain_id@,
            code_id,
            checksum@,
            r,
        ),
{
    if !registry.is_admin(sender) {
        return Err(ContractError::UnauthorizedRegistration);
    }
    if registry.code_get(chain_id.as_str(), code_id).is_some() {
        return Err(ContractError::CodeIDAlreadyRegistered(code_id, chain_id));
    }
    let registration = Registration { contract_name, version, chain_id, code_id, checksum };
    registry.code_put(registration.clone());
    registry.name_put(registration.clone());
    Ok(registration)
}

/// Remove the registration addressed by the four identifying fields from
/// both indices: admin-only, and a no-op on keys nothing occupies.
pub fn execute_unregister(
    registry: &mut Registry,
    sender: &str,
    contract_name: String,
    chain_id: String,
    code_id: u64,
    version: String,
) -> (r: Result<(), ContractError>)
    requires
        old(registry).wf(),
    ensures
        final(registry).wf(),
        unregister_post(
            *old(registry),
            *final(registry),
            sender@,
            contract_name@,
            chain_id@,
            code_id,
            version@,
            r,
        ),
{
    if !registry.is_admin(sender) {
        return Err(ContractError::UnauthorizedRegistration);
    }
    registry.name_delete(contract_name.as_str(), chain_id.as_str(), version.as_str());
    registry.code_delete(chain_id.as_str(), code_id);
    Ok(())
}

/// Replace the admin identity: only the current admin may do so. The new
/// identity is validated by the host before it is handed in.
pub fn execute_update_admin(registry: &mut Registry, sender: &str, new_admin: String) -> (r: Result<
    (),
    ContractError,
>)
    requires
        old(registry).wf(),
    ensures
        final(registry).wf(),
        update_admin_post(*old(registry), *final(registry), sender@, new_admin@, r),
{
    if !registry.is_admin(sender) {
        return Err(ContractError::UnauthorizedUpdateAdmin);
    }
    registry.set_admin(new_admin);
    Ok(())
}

/// Dispatch a mutation request to the operation it names.
pub fn execute(registry: &mut Registry, sender: &str, msg: ExecuteMsg) -> (r: Result<
    (),
    ContractError,
>)
    requires
        old(registry).wf(),
    ensures
        final(registry).wf(),
        match msg {
            ExecuteMsg::Register { contract_name, version, chain_id, code_id, checksum } => match r {
                Ok(_) => register_accepted(
                    *old(registry),
                    *final(registry),
                    sender@,
                    contract_name@,
                    version@,
                    chain_id@,
                    code_id,
                    checksum@,
                ),
                Err(e) => register_rejected(
                    *old(registry),
                    *final(registry),
                    sender@,
                    chain_id@,
                    code_id,
                    e,
                ),
            },
            ExecuteMsg::Unregister { contract_name, chain_id, code_id, version } => unregister_post(
                *old(registry),
                *final(registry),
                sender@,
                contract_name@,
                chain_id@,
                code_id,
                version@,
                r,
            ),
            ExecuteMsg::UpdateAdmin { admin } => update_admin_post(
                *old(registry),
                *final(registry),
                sender@,
                admin@,
                r,
            ),
        },
{
    match msg {
        ExecuteMsg::Register { contract_name, version, chain_id, code_id, checksum } => {
            match execute_register(
                registry,
                sender,
                contract_name,
                version,
                chain_id,
                code_id,
                checksum,
            ) {
                Ok(_) => Ok(()),
                Err(e) => Err(e),
            }
        },
        ExecuteMsg::Unregister { contract_name, chain_id, code_id, version } => execute_unregister(
            registry,
            sender,
            contract_name,
            chain_id,
            code_id,
            version,
        ),
        ExecuteMsg::UpdateAdmin { admin } => execute_update_admin(registry, sender, admin),
    }
}

/// The record stored under an exact name key.
pub open spec fn found_exact(
    s: Registry,
    contract_name: Seq<char>,
    chain_id: Seq<char>,
    version: Seq<char>,
    resp: GetRegistrationResponse,
) -> bool {
    &&& s.name_map().dom().contains((contract_name, chain_id, version))
    &&& resp.registration@ == s.name_map()[(contract_name, chain_id, version)]
}

/// The name key is free.
pub open spec fn no_exact(
    s: Registry,
    contract_name: Seq<char>,
    chain_id: Seq<char>,
    version: Seq<char>,
) -> bool {
    !s.name_map().dom().contains((contract_name, chain_id, version))
}

/// The latest record under the prefix: stored there, and of a version no
/// stored version under the prefix exceeds.
pub open spec fn found_latest(
    s: Registry,
    contract_name: Seq<char>,
    chain_id: Seq<char>,
    resp: GetRegistrationResponse,
) -> bool {
    let rv = resp.registration@;
    &&& matches_prefix(rv, contract_name, chain_id)
    &&& s.name_map().dom().contains((contract_name, chain_id, rv.version))
    &&& s.name_map()[(contract_name, chain_id, rv.version)] == rv
    &&& forall|v: Seq<char>|
        #[trigger] s.name_map().dom().contains((contract_name, chain_id, v)) ==> lex_leq(
            v,
            rv.version,
        )
}

/// No version at all is stored under the prefix.
pub open spec fn no_prefix(s: Registry, contract_name: Seq<char>, chain_id: Seq<char>) -> bool {
    forall|v: Seq<char>| !(#[trigger] s.name_map().dom().contains((contract_name, chain_id, v)))
}

/// The full outcome of an exact-version lookup.
pub open spec fn exact_lookup_post(
    s: Registry,
    contract_name: Seq<char>,
    chain_id: Seq<char>,
    version: Seq<char>,
    r: Result<GetRegistrationResponse, ContractError>,
) -> bool {
    match r {
        Ok(resp) => found_exact(s, contract_name, chain_id, version, resp),
        Err(e) => no_exact(s, contract_name, chain_id, version) && e == ContractError::NotFound,
    }
}

/// The full outcome of a latest-version lookup.
pub open spec fn latest_lookup_post(
    s: Registry,
    contract_name: Seq<char>,
    chain_id: Seq<char>,
    r: Result<GetRegistrationResponse, ContractError>,
) -> bool {
    match r {
        Ok(resp) => found_latest(s, contract_name, chain_id, resp),
        Err(e) => no_prefix(s, contract_name, chain_id) && e == ContractError::NotFound,
    }
}

/// The full outcome of a code-id lookup.
pub open spec fn code_lookup_post(
    s: Registry,
    chain_id: Seq<char>,
    code_id: u64,
    r: Result<GetRegistrationResponse, ContractError>,
) -> bool {
    match r {
        Ok(resp) => s.code_map().dom().contains((chain_id, code_id)) && resp.registration@
            == s.code_map()[(chain_id, code_id)],
        Err(e) => !s.code_map().dom().contains((chain_id, code_id)) && e
            == ContractError::NotFound,
    }
}

/// A complete listing: exactly the records under the prefix, each under its
/// own stored key, in strictly ascending version order.
pub open spec fn list_post(
    s: Registry,
    contract_name: Seq<char>,
    chain_id: Seq<char>,
    rs: Seq<Registration>,
) -> bool {
    &&& forall|p: int|
        0 <= p < rs.len() ==> matches_prefix(#[trigger] rs[p]@, contract_name, chain_id)
            && s.name_map().dom().contains((contract_name, chain_id, rs[p]@.version))
            && s.name_map()[(contract_name, chain_id, rs[p]@.version)] == rs[p]@
    &&& forall|v: Seq<char>|
        #[trigger] s.name_map().dom().contains((contract_name, chain_id, v)) ==> exists|p: int|
            0 <= p < rs.len() && (#[trigger] rs[p]@).version == v
    &&& forall|p: int, q: int|
        0 <= p < q < rs.len() ==> lex_lt((#[trigger] rs[p]@).version, (#[trigger] rs[q]@).version)
}

/// Look up one registration: the given version exactly, or with no version
/// the latest one stored under `(contract_name, chain_id)`.
pub fn query_get_registration(
    registry: &Registry,
    contract_name: &str,
    chain_id: &str,
    version: Option<String>,
) -> (r: Result<GetRegistrationResponse, ContractError>)
    requires
        registry.wf(),
    ensures
        match version {
            Some(v) => exact_lookup_post(*registry, contract_name@, chain_id@, v@, r),
            None => latest_lookup_post(*registry, contract_name@, chain_id@, r),
        },
{
    match version {
        Some(v) => match registry.name_get(contract_name, chain_id, v.as_str()) {
            Some(reg) => Ok(GetRegistrationResponse { registration: reg }),
            None => Err(ContractError::NotFound),
        },
        None => {
            let mut found = registry.scan_name_prefix(contract_name, chain_id);
            let ghost scan = found@;
            let len = found.len();
            if len == 0 {
                proof {
                    assert forall|v: Seq<char>|
                        !(#[trigger] registry.name_map().dom().contains(
                            (contract_name@, chain_id@, v),
                        )) by {
                        if registry.name_map().dom().contains((contract_name@, chain_id@, v)) {
                            let p = choose|p: int|
                                0 <= p < scan.len() && (scan[p]@).version == v;
                            assert(false);
                        }
                    }
                }
                Err(ContractError::NotFound)
            } else {
                match found.pop() {
                    Some(reg) => {
                        proof {
                            assert(reg == scan[scan.len() - 1]);
                            assert forall|v: Seq<char>|
                                #[trigger] registry.name_map().dom().contains(
                                    (contract_name@, chain_id@, v),
                                ) implies lex_leq(v, reg@.version) by {
                                let p = choose|p: int|
                                    0 <= p < scan.len() && ((#[trigger] scan[p]@)).version == v;
                                if p < scan.len() - 1 {
                                    assert(lex_lt(scan[p]@.version, scan[scan.len() - 1]@.version));
                                }
                            }
                        }
                        Ok(GetRegistrationResponse { registration: reg })
                    },
                    None => Err(ContractError::NotFound),
                }
            }
        },
    }
}

/// Look up the registration occupying `(chain_id, code_id)`.
pub fn query_get_code_id_info(registry: &Registry, chain_id: &str, code_id: u64) -> (r: Result<
    GetRegistrationResponse,
    ContractError,
>)
    requires
        registry.wf(),
    ensures
        code_lookup_post(*registry, chain_id@, code_id, r),
{
    match registry.code_get(chain_id, code_id) {
        Some(reg) => Ok(GetRegistrationResponse { registration: reg }),
        None => Err(ContractError::NotFound),
    }
}

/// List every registration under `(contract_name, chain_id)`, in ascending
/// version order and without pagination.
pub fn query_list_registrations(registry: &Registry, contract_name: &str, chain_id: &str) -> (r:
    ListRegistrationsResponse)
    requires
        registry.wf(),
    ensures
        list_post(*registry, contract_name@, chain_id@, r.registrations@),
{
    ListRegistrationsResponse { registrations: registry.scan_name_prefix(contract_name, chain_id) }
}

/// The current admin identity.
pub fn query_admin(registry: &Registry) -> (r: String)
    ensures
        r@ == registry.admin_id(),
{
    registry.admin().clone()
}

/// Dispatch a read-only request to the resolver it names.
pub fn query(registry: &Registry, msg: QueryMsg) -> (r: Result<QueryResponse, ContractError>)
    requires
        registry.wf(),
    ensures
        match msg {
            QueryMsg::Admin => r matches Ok(QueryResponse::Admin(a)) && a@ == registry.admin_id(),
            QueryMsg::GetRegistration { name, chain_id, version } => match r {
                Ok(QueryResponse::Registration(g)) => match version {
                    Some(v) => found_exact(*registry, name@, chain_id@, v@, g),
                    None => found_latest(*registry, name@, chain_id@, g),
                },
                Ok(_) => false,
                Err(e) => e == ContractError::NotFound && match version {
                    Some(v) => no_exact(*registry, name@, chain_id@, v@),
                    None => no_prefix(*registry, name@, chain_id@),
                },
            },
            QueryMsg::GetCodeIdInfo { chain_id, code_id } => match r {
                Ok(QueryResponse::Registration(g)) => code_lookup_post(
                    *registry,
                    chain_id@,
                    code_id,
                    Ok(g),
                ),
                Ok(_) => false,
                Err(e) => code_lookup_post(*registry, chain_id@, code_id, Err(e)),
            },
            QueryMsg::ListRegistrations { name, chain_id } => r matches Ok(
                QueryResponse::Registrations(lr),
            ) && list_post(*registry, name@, chain_id@, lr.registrations@),
        },
{
    match msg {
        QueryMsg::Admin => Ok(QueryResponse::Admin(query_admin(registry))),
        QueryMsg::GetRegistration { name, chain_id, version } => {
            match query_get_registration(registry, name.as_str(), chain_id.as_str(), version) {
                Ok(g) => Ok(QueryResponse::Registration(g)),
                Err(e) => Err(e),
            }
        },
        QueryMsg::GetCodeIdInfo { chain_id, code_id } => {
            match query_get_code_id_info(registry, chain_id.as_str(), code_id) {
                Ok(g) => Ok(QueryResponse::Registration(g)),
                Err(e) => Err(e),
            }
        },
        QueryMsg::ListRegistrations { name, chain_id } => {
            Ok(
                QueryResponse::Registrations(
                    query_list_registrations(registry, name.as_str(), chain_id.as_str()),
                ),
            )
        },
    }
}

} // verus!
