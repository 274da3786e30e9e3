//! End-to-end exercises of the registry through its public operations.

use cw_code_id_registry::{
    execute, execute_register, execute_unregister, execute_update_admin, instantiate, query,
    query_admin, query_get_code_id_info, query_get_registration, query_list_registrations,
    ContractError, ExecuteMsg, InstantiateMsg, QueryMsg, QueryResponse, Registration, Registry,
};

const USER_ADDR: &str = "user";
const ADMIN_ADDR: &str = "admin";
const CHAIN_ID: &str = "chain-id";

fn setup() -> Registry {
    instantiate(InstantiateMsg { admin: ADMIN_ADDR.to_string() })
}

fn register(
    registry: &mut Registry,
    sender: &str,
    name: &str,
    version: &str,
    code_id: u64,
    checksum: &str,
) -> Result<Registration, ContractError> {
    execute_register(
        registry,
        sender,
        name.to_string(),
        version.to_string(),
        CHAIN_ID.to_string(),
        code_id,
        checksum.to_string(),
    )
}

fn expected(name: &str, version: &str, code_id: u64, checksum: &str) -> Registration {
    Registration {
        contract_name: name.to_string(),
        version: version.to_string(),
        chain_id: CHAIN_ID.to_string(),
        code_id,
        checksum: checksum.to_string(),
    }
}

#[test]
fn test_instantiate() {
    let registry = setup();
    assert_eq!(query_admin(&registry), ADMIN_ADDR.to_string());
}

#[test]
fn test_register() {
    let mut registry = setup();
    let name: &str = "Name";
    let version: &str = "0.0.1";
    let code_id: u64 = 1;

    register(&mut registry, ADMIN_ADDR, name, version, code_id, version).unwrap();

    // Check registration with and without version.
    let resp_without_version =
        query_get_registration(&registry, name, CHAIN_ID, None).unwrap();
    let resp_with_version =
        query_get_registration(&registry, name, CHAIN_ID, Some(version.to_string())).unwrap();
    assert_eq!(
        resp_without_version.registration,
        expected(name, version, code_id, version)
    );
    assert_eq!(
        resp_without_version.registration,
        resp_with_version.registration,
    );

    // A second register call on the occupied code-id key is refused.
    let err = register(&mut registry, ADMIN_ADDR, name, version, code_id, version).unwrap_err();
    assert_eq!(
        err,
        ContractError::CodeIDAlreadyRegistered(code_id, CHAIN_ID.to_string())
    );
}

#[test]
fn index_parity_after_register_and_unregister() {
    let mut registry = setup();
    register(&mut registry, ADMIN_ADDR, "contract", "1.0.0", 7, "sum7").unwrap();

    // Both index keys answer with the same record.
    let by_code = query_get_code_id_info(&registry, CHAIN_ID, 7).unwrap();
    let by_name =
        query_get_registration(&registry, "contract", CHAIN_ID, Some("1.0.0".to_string()))
            .unwrap();
    assert_eq!(by_code.registration, by_name.registration);
    assert_eq!(by_code.registration, expected("contract", "1.0.0", 7, "sum7"));

    // After a consistent unregister, both index keys are free.
    execute_unregister(
        &mut registry,
        ADMIN_ADDR,
        "contract".to_string(),
        CHAIN_ID.to_string(),
        7,
        "1.0.0".to_string(),
    )
    .unwrap();
    assert_eq!(
        query_get_code_id_info(&registry, CHAIN_ID, 7).unwrap_err(),
        ContractError::NotFound
    );
    assert_eq!(
        query_get_registration(&registry, "contract", CHAIN_ID, Some("1.0.0".to_string()))
            .unwrap_err(),
        ContractError::NotFound
    );
}

#[test]
fn code_id_free_again_after_unregister() {
    let mut registry = setup();
    register(&mut registry, ADMIN_ADDR, "Name", "0.0.1", 1, "sumA").unwrap();
    execute_unregister(
        &mut registry,
        ADMIN_ADDR,
        "Name".to_string(),
        CHAIN_ID.to_string(),
        1,
        "0.0.1".to_string(),
    )
    .unwrap();
    // The code id may be registered again once it was freed.
    register(&mut registry, ADMIN_ADDR, "Name", "0.0.1", 1, "sumB").unwrap();
    assert_eq!(
        query_get_code_id_info(&registry, CHAIN_ID, 1).unwrap().registration,
        expected("Name", "0.0.1", 1, "sumB")
    );
}

#[test]
fn unauthorized_callers_change_nothing() {
    let mut registry = setup();
    register(&mut registry, ADMIN_ADDR, "Name", "0.0.1", 1, "sumA").unwrap();

    let err = register(&mut registry, USER_ADDR, "Name", "0.0.2", 2, "sumB").unwrap_err();
    assert_eq!(err, ContractError::UnauthorizedRegistration);

    let err = execute_unregister(
        &mut registry,
        USER_ADDR,
        "Name".to_string(),
        CHAIN_ID.to_string(),
        1,
        "0.0.1".to_string(),
    )
    .unwrap_err();
    assert_eq!(err, ContractError::UnauthorizedRegistration);

    let err =
        execute_update_admin(&mut registry, USER_ADDR, USER_ADDR.to_string()).unwrap_err();
    assert_eq!(err, ContractError::UnauthorizedUpdateAdmin);

    // The registered record and the admin are untouched.
    assert_eq!(query_admin(&registry), ADMIN_ADDR.to_string());
    assert_eq!(
        query_get_code_id_info(&registry, CHAIN_ID, 1).unwrap().registration,
        expected("Name", "0.0.1", 1, "sumA")
    );
    assert_eq!(
        query_get_code_id_info(&registry, CHAIN_ID, 2).unwrap_err(),
        ContractError::NotFound
    );
}

#[test]
fn update_admin_hands_over_control() {
    let mut registry = setup();
    execute_update_admin(&mut registry, ADMIN_ADDR, USER_ADDR.to_string()).unwrap();
    assert_eq!(query_admin(&registry), USER_ADDR.to_string());

    // The old admin lost its rights; the new one may mutate.
    let err = register(&mut registry, ADMIN_ADDR, "Name", "0.0.1", 1, "sumA").unwrap_err();
    assert_eq!(err, ContractError::UnauthorizedRegistration);
    register(&mut registry, USER_ADDR, "Name", "0.0.1", 1, "sumA").unwrap();
}

#[test]
fn latest_version_is_greatest_by_byte_order() {
    let mut registry = setup();
    register(&mut registry, ADMIN_ADDR, "Name", "0.0.2", 2, "sum2").unwrap();
    register(&mut registry, ADMIN_ADDR, "Name", "0.0.1", 1, "sum1").unwrap();
    register(&mut registry, ADMIN_ADDR, "Name", "0.0.3", 3, "sum3").unwrap();

    let latest = query_get_registration(&registry, "Name", CHAIN_ID, None).unwrap();
    assert_eq!(latest.registration, expected("Name", "0.0.3", 3, "sum3"));
    let explicit =
        query_get_registration(&registry, "Name", CHAIN_ID, Some("0.0.3".to_string())).unwrap();
    assert_eq!(latest.registration, explicit.registration);
}

#[test]
fn latest_version_is_not_numeric_order() {
    let mut registry = setup();
    register(&mut registry, ADMIN_ADDR, "Name", "0.0.9", 9, "sum9").unwrap();
    register(&mut registry, ADMIN_ADDR, "Name", "0.0.10", 10, "sum10").unwrap();

    // "0.0.10" sorts below "0.0.9" byte-wise: callers must zero-pad.
    let latest = query_get_registration(&registry, "Name", CHAIN_ID, None).unwrap();
    assert_eq!(latest.registration, expected("Name", "0.0.9", 9, "sum9"));
}

#[test]
fn unregister_is_idempotent() {
    let mut registry = setup();
    register(&mut registry, ADMIN_ADDR, "Name", "0.0.1", 1, "sumA").unwrap();

    execute_unregister(
        &mut registry,
        ADMIN_ADDR,
        "Name".to_string(),
        CHAIN_ID.to_string(),
        1,
        "0.0.1".to_string(),
    )
    .unwrap();
    assert_eq!(
        query_get_code_id_info(&registry, CHAIN_ID, 1).unwrap_err(),
        ContractError::NotFound
    );
    // Deleting the same key again succeeds as a no-op.
    execute_unregister(
        &mut registry,
        ADMIN_ADDR,
        "Name".to_string(),
        CHAIN_ID.to_string(),
        1,
        "0.0.1".to_string(),
    )
    .unwrap();
    assert_eq!(
        query_get_code_id_info(&registry, CHAIN_ID, 1).unwrap_err(),
        ContractError::NotFound
    );
}

#[test]
fn listing_returns_what_remains_in_order() {
    let mut registry = setup();
    register(&mut registry, ADMIN_ADDR, "Name", "0.0.2", 2, "sum2").unwrap();
    register(&mut registry, ADMIN_ADDR, "Name", "0.0.3", 3, "sum3").unwrap();
    register(&mut registry, ADMIN_ADDR, "Name", "0.0.1", 1, "sum1").unwrap();
    // A record under another name does not show up in the listing.
    register(&mut registry, ADMIN_ADDR, "Other", "9.9.9", 99, "sum99").unwrap();

    let listed = query_list_registrations(&registry, "Name", CHAIN_ID).registrations;
    assert_eq!(
        listed,
        vec![
            expected("Name", "0.0.1", 1, "sum1"),
            expected("Name", "0.0.2", 2, "sum2"),
            expected("Name", "0.0.3", 3, "sum3"),
        ]
    );

    // Unregister one of the three: exactly the other two remain.
    execute_unregister(
        &mut registry,
        ADMIN_ADDR,
        "Name".to_string(),
        CHAIN_ID.to_string(),
        2,
        "0.0.2".to_string(),
    )
    .unwrap();
    let listed = query_list_registrations(&registry, "Name", CHAIN_ID).registrations;
    assert_eq!(
        listed,
        vec![
            expected("Name", "0.0.1", 1, "sum1"),
            expected("Name", "0.0.3", 3, "sum3"),
        ]
    );
}

#[test]
fn listing_of_unknown_prefix_is_empty() {
    let registry = setup();
    let listed = query_list_registrations(&registry, "Name", CHAIN_ID).registrations;
    assert_eq!(listed.len(), 0);
    assert_eq!(
        query_get_registration(&registry, "Name", CHAIN_ID, None).unwrap_err(),
        ContractError::NotFound
    );
}

#[test]
fn reregistering_a_name_key_replaces_its_record() {
    let mut registry = setup();
    register(&mut registry, ADMIN_ADDR, "Name", "0.0.1", 1, "sumA").unwrap();
    // The same name triple may be re-registered with a free code id.
    register(&mut registry, ADMIN_ADDR, "Name", "0.0.1", 2, "sumB").unwrap();

    let by_name =
        query_get_registration(&registry, "Name", CHAIN_ID, Some("0.0.1".to_string())).unwrap();
    assert_eq!(by_name.registration, expected("Name", "0.0.1", 2, "sumB"));
    // The old code-id entry is not cleaned up: only the code-id key is guarded.
    let by_code = query_get_code_id_info(&registry, CHAIN_ID, 1).unwrap();
    assert_eq!(by_code.registration, expected("Name", "0.0.1", 1, "sumA"));
}

#[test]
fn dispatch_through_messages() {
    let mut registry = setup();
    execute(
        &mut registry,
        ADMIN_ADDR,
        ExecuteMsg::Register {
            contract_name: "Name".to_string(),
            version: "0.0.1".to_string(),
            chain_id: CHAIN_ID.to_string(),
            code_id: 1,
            checksum: "sumA".to_string(),
        },
    )
    .unwrap();

    let admin = query(&registry, QueryMsg::Admin).unwrap();
    assert_eq!(admin, QueryResponse::Admin(ADMIN_ADDR.to_string()));

    let info = query(
        &registry,
        QueryMsg::GetCodeIdInfo { chain_id: CHAIN_ID.to_string(), code_id: 1 },
    )
    .unwrap();
    match info {
        QueryResponse::Registration(resp) => {
            assert_eq!(resp.registration, expected("Name", "0.0.1", 1, "sumA"));
        }
        _ => panic!("a code-id query answers with a single registration"),
    }

    execute(
        &mut registry,
        ADMIN_ADDR,
        ExecuteMsg::Unregister {
            contract_name: "Name".to_string(),
            chain_id: CHAIN_ID.to_string(),
            code_id: 1,
            version: "0.0.1".to_string(),
        },
    )
    .unwrap();
    let err = query(
        &registry,
        QueryMsg::GetRegistration {
            name: "Name".to_string(),
            chain_id: CHAIN_ID.to_string(),
            version: None,
        },
    )
    .unwrap_err();
    assert_eq!(err, ContractError::NotFound);

    execute(
        &mut registry,
        ADMIN_ADDR,
        ExecuteMsg::UpdateAdmin { admin: USER_ADDR.to_string() },
    )
    .unwrap();
    assert_eq!(query_admin(&registry), USER_ADDR.to_string());
}

#[test]
fn full_lifecycle_scenario() {
    let mut registry = instantiate(InstantiateMsg { admin: "admin".to_string() });

    let reg = execute_register(
        &mut registry,
        "admin",
        "Name".to_string(),
        "0.0.1".to_string(),
        "chain-A".to_string(),
        1,
        "sumA".to_string(),
    )
    .unwrap();
    assert_eq!(reg.code_id, 1);

    let err = execute_register(
        &mut registry,
        "admin",
        "Name".to_string(),
        "0.0.1".to_string(),
        "chain-A".to_string(),
        1,
        "sumB".to_string(),
    )
    .unwrap_err();
    assert_eq!(err, ContractError::CodeIDAlreadyRegistered(1, "chain-A".to_string()));

    let err = execute_register(
        &mut registry,
        "attacker",
        "Name".to_string(),
        "0.0.2".to_string(),
        "chain-A".to_string(),
        2,
        "sumC".to_string(),
    )
    .unwrap_err();
    assert_eq!(err, ContractError::UnauthorizedRegistration);

    let latest = query_get_registration(&registry, "Name", "chain-A", None).unwrap();
    assert_eq!(
        latest.registration,
        Registration {
            contract_name: "Name".to_string(),
            version: "0.0.1".to_string(),
            chain_id: "chain-A".to_string(),
            code_id: 1,
            checksum: "sumA".to_string(),
        }
    );
}

#[test]
fn chains_are_independent_namespaces() {
    let mut registry = setup();
    register(&mut registry, ADMIN_ADDR, "Name", "0.0.1", 1, "sumA").unwrap();
    // The same code id is free on another chain.
    execute_register(
        &mut registry,
        ADMIN_ADDR,
        "Name".to_string(),
        "0.0.1".to_string(),
        "other-chain".to_string(),
        1,
        "sumB".to_string(),
    )
    .unwrap();
    assert_eq!(
        query_get_code_id_info(&registry, CHAIN_ID, 1).unwrap().registration.checksum,
        "sumA".to_string()
    );
    assert_eq!(
        query_get_code_id_info(&registry, "other-chain", 1).unwrap().registration.checksum,
        "sumB".to_string()
    );
    // The listing keys on the chain as well as the name.
    let listed = query_list_registrations(&registry, "Name", "other-chain").registrations;
    assert_eq!(listed.len(), 1);
}
