//! The registry's governing laws, proved once and for all from the operation
//! contracts: index parity across the two views, uniqueness of code-id keys,
//! the authorization gate, latest-version resolution, idempotent deletion,
//! and complete listings.

use vstd::prelude::*;

use crate::contract::{
    code_lookup_post, exact_lookup_post, found_latest, list_post, new_registration,
    register_accepted, register_post, unchanged, unregister_accepted, unregister_post,
    update_admin_post,
};
use crate::error::ContractError;
use crate::msg::GetRegistrationResponse;
use crate::order::lemma_lex_lt_asymmetric;
use crate::state::{
    code_key, lemma_code_map_keyed, lemma_name_map_keyed, name_key, Registration,
    RegistrationView, Registry,
};

verus! {

/// Index parity: a record stands under its code-id key if and only if the
/// same record stands under its name key. Both views describe one record set.
pub open spec fn index_parity(s: Registry) -> bool {
    &&& forall|k: (Seq<char>, u64)| #[trigger]
        s.code_map().dom().contains(k) ==> s.name_map().dom().contains(
            name_key(s.code_map()[k]),
        ) && s.name_map()[name_key(s.code_map()[k])] == s.code_map()[k]
    &&& forall|k: (Seq<char>, Seq<char>, Seq<char>)| #[trigger]
        s.name_map().dom().contains(k) ==> s.code_map().dom().contains(
            code_key(s.name_map()[k]),
        ) && s.code_map()[code_key(s.name_map()[k])] == s.name_map()[k]
}

/// A freshly instantiated registry holds no record under either view, so it
/// satisfies index parity.
pub proof fn lemma_empty_parity(s: Registry)
    requires
        s.code_map() == Map::<(Seq<char>, u64), RegistrationView>::empty(),
        s.name_map() == Map::<(Seq<char>, Seq<char>, Seq<char>), RegistrationView>::empty(),
    ensures
        index_parity(s),
{
}

/// An accepted registration under a fresh name key preserves index parity.
/// (Re-registering an occupied name key with a new code id is the one accepted
/// mutation that breaks parity: the old record keeps its code-id entry while
/// its name entry is replaced. A rejected call changes nothing, so parity
/// carries over there as well.)
pub proof fn lemma_register_preserves_parity(
    pre: Registry,
    post: Registry,
    sender: Seq<char>,
    contract_name: Seq<char>,
    version: Seq<char>,
    chain_id: Seq<char>,
    code_id: u64,
    checksum: Seq<char>,
)
    requires
        index_parity(pre),
        register_accepted(pre, post, sender, contract_name, version, chain_id, code_id, checksum),
        !pre.name_map().dom().contains((contract_name, chain_id, version)),
    ensures
        index_parity(post),
{
    let r = new_registration(contract_name, version, chain_id, code_id, checksum);
    let ck = (chain_id, code_id);
    let nk = (contract_name, chain_id, version);
    assert(code_key(r) == ck && name_key(r) == nk);
    assert forall|k: (Seq<char>, u64)| post.code_map().dom().contains(k) implies post.name_map(
    ).dom().contains(name_key(post.code_map()[k])) && post.name_map()[name_key(post.code_map()[k])]
        == post.code_map()[k] by {
        if k == ck {
            assert(post.code_map()[k] == r);
            assert(post.name_map()[nk] == r);
        } else {
            assert(pre.code_map().dom().contains(k));
            let v = pre.code_map()[k];
            if name_key(v) == nk {
                assert(pre.name_map().dom().contains(nk));
            }
        }
    }
    assert forall|k: (Seq<char>, Seq<char>, Seq<char>)| post.name_map().dom().contains(
        k,
    ) implies post.code_map().dom().contains(code_key(post.name_map()[k]))
        && post.code_map()[code_key(post.name_map()[k])] == post.name_map()[k] by {
        if k == nk {
            assert(post.name_map()[k] == r);
            assert(post.code_map()[ck] == r);
        } else {
            assert(pre.name_map().dom().contains(k));
            let v = pre.name_map()[k];
            if code_key(v) == ck {
                assert(pre.code_map().dom().contains(ck));
            }
        }
    }
}

/// The four fields of an unregister call address one logical record, or none:
/// whatever occupies either of the two keys carries the other key too.
pub open spec fn consistent_unregister(
    s: Registry,
    contract_name: Seq<char>,
    chain_id: Seq<char>,
    code_id: u64,
    version: Seq<char>,
) -> bool {
    &&& s.code_map().dom().contains((chain_id, code_id)) ==> name_key(
        s.code_map()[(chain_id, code_id)],
    ) == (contract_name, chain_id, version)
    &&& s.name_map().dom().contains((contract_name, chain_id, version)) ==> code_key(
        s.name_map()[(contract_name, chain_id, version)],
    ) == (chain_id, code_id)
}

/// An unregister call whose four fields address one logical record preserves
/// index parity. (The engine deletes both keys without cross-checking them;
/// a mismatched tuple can orphan one entry of each of two records.)
pub proof fn lemma_unregister_preserves_parity(
    pre: Registry,
    post: Registry,
    sender: Seq<char>,
    contract_name: Seq<char>,
    chain_id: Seq<char>,
    code_id: u64,
    version: Seq<char>,
)
    requires
        index_parity(pre),
        consistent_unregister(pre, contract_name, chain_id, code_id, version),
        unregister_accepted(pre, post, sender, contract_name, chain_id, code_id, version),
    ensures
        index_parity(post),
{
    let ck = (chain_id, code_id);
    let nk = (contract_name, chain_id, version);
    lemma_code_map_keyed(pre);
    lemma_name_map_keyed(pre);
    assert forall|k: (Seq<char>, u64)| post.code_map().dom().contains(k) implies post.name_map(
    ).dom().contains(name_key(post.code_map()[k])) && post.name_map()[name_key(post.code_map()[k])]
        == post.code_map()[k] by {
        assert(k != ck);
        assert(pre.code_map().dom().contains(k));
        let v = pre.code_map()[k];
        assert(pre.name_map().dom().contains(name_key(v)) && pre.name_map()[name_key(v)] == v);
        if name_key(v) == nk {
            assert(code_key(v) == ck);
            assert(code_key(v) == k);
        }
    }
    assert forall|k: (Seq<char>, Seq<char>, Seq<char>)| post.name_map().dom().contains(
        k,
    ) implies post.code_map().dom().contains(code_key(post.name_map()[k]))
        && post.code_map()[code_key(post.name_map()[k])] == post.name_map()[k] by {
        assert(k != nk);
        assert(pre.name_map().dom().contains(k));
        let v = pre.name_map()[k];
        assert(pre.code_map().dom().contains(code_key(v)) && pre.code_map()[code_key(v)] == v);
        if code_key(v) == ck {
            assert(name_key(v) == nk);
            assert(name_key(v) == k);
        }
    }
}

/// Uniqueness: once a register call placed a record at `(chain_id, code_id)`,
/// a second register attempt on the same key by the admin is refused with the
/// duplicate-code-id error and changes nothing. Only an unregister of that
/// key frees it.
pub proof fn lemma_code_id_unique(
    s0: Registry,
    s1: Registry,
    s2: Registry,
    sender1: Seq<char>,
    sender2: Seq<char>,
    name1: Seq<char>,
    version1: Seq<char>,
    checksum1: Seq<char>,
    name2: Seq<char>,
    version2: Seq<char>,
    checksum2: Seq<char>,
    chain_id: Seq<char>,
    code_id: u64,
    r2: Result<Registration, ContractError>,
)
    requires
        register_accepted(s0, s1, sender1, name1, version1, chain_id, code_id, checksum1),
        register_post(s1, s2, sender2, name2, version2, chain_id, code_id, checksum2, r2),
        sender2 == s1.admin_id(),
    ensures
        r2 matches Err(ContractError::CodeIDAlreadyRegistered(c, ch)) && c == code_id && ch@
            == chain_id,
        unchanged(s1, s2),
{
    assert(s1.code_map().dom().contains((chain_id, code_id)));
}

/// The authorization gate for registration: any register call by an identity
/// other than the current admin fails with the unauthorized error and leaves
/// the state unchanged.
pub proof fn lemma_register_requires_admin(
    pre: Registry,
    post: Registry,
    sender: Seq<char>,
    contract_name: Seq<char>,
    version: Seq<char>,
    chain_id: Seq<char>,
    code_id: u64,
    checksum: Seq<char>,
    r: Result<Registration, ContractError>,
)
    requires
        register_post(pre, post, sender, contract_name, version, chain_id, code_id, checksum, r),
        sender != pre.admin_id(),
    ensures
        r matches Err(e) && e == ContractError::UnauthorizedRegistration,
        unchanged(pre, post),
{
}

/// The authorization gate for unregistration.
pub proof fn lemma_unregister_requires_admin(
    pre: Registry,
    post: Registry,
    sender: Seq<char>,
    contract_name: Seq<char>,
    chain_id: Seq<char>,
    code_id: u64,
    version: Seq<char>,
    r: Result<(), ContractError>,
)
    requires
        unregister_post(pre, post, sender, contract_name, chain_id, code_id, version, r),
        sender != pre.admin_id(),
    ensures
        r matches Err(e) && e == ContractError::UnauthorizedRegistration,
        unchanged(pre, post),
{
}

/// The authorization gate for admin replacement.
pub proof fn lemma_update_admin_requires_admin(
    pre: Registry,
    post: Registry,
    sender: Seq<char>,
    new_admin: Seq<char>,
    r: Result<(), ContractError>,
)
    requires
        update_admin_post(pre, post, sender, new_admin, r),
        sender != pre.admin_id(),
    ensures
        r matches Err(e) && e == ContractError::UnauthorizedUpdateAdmin,
        unchanged(pre, post),
{
}

/// Latest-version resolution: the record the version-less lookup returns is
/// the one an explicit lookup of its (lexicographically greatest) version
/// returns.
pub proof fn lemma_latest_matches_explicit(
    s: Registry,
    contract_name: Seq<char>,
    chain_id: Seq<char>,
    resp: GetRegistrationResponse,
    r2: Result<GetRegistrationResponse, ContractError>,
)
    requires
        found_latest(s, contract_name, chain_id, resp),
        exact_lookup_post(s, contract_name, chain_id, resp.registration@.version, r2),
    ensures
        r2 matches Ok(g) && g.registration@ == resp.registration@,
{
}

/// Idempotent deletion: unregistering the same key twice succeeds both times,
/// the second call finds both keys already free and changes nothing, and in
/// between a code-id lookup reports not-found.
pub proof fn lemma_unregister_idempotent(
    s0: Registry,
    s1: Registry,
    s2: Registry,
    sender: Seq<char>,
    contract_name: Seq<char>,
    chain_id: Seq<char>,
    code_id: u64,
    version: Seq<char>,
    r1: Result<(), ContractError>,
    r2: Result<(), ContractError>,
    rq: Result<GetRegistrationResponse, ContractError>,
)
    requires
        sender == s0.admin_id(),
        unregister_post(s0, s1, sender, contract_name, chain_id, code_id, version, r1),
        unregister_post(s1, s2, sender, contract_name, chain_id, code_id, version, r2),
        code_lookup_post(s1, chain_id, code_id, rq),
    ensures
        r1 matches Ok(_),
        r2 matches Ok(_),
        rq matches Err(e) && e == ContractError::NotFound,
        unchanged(s1, s2),
{
    assert(s2.code_map() =~= s1.code_map());
    assert(s2.name_map() =~= s1.name_map());
}

/// The version labels stored under a `(contract_name, chain_id)` prefix.
pub open spec fn prefix_versions(
    s: Registry,
    contract_name: Seq<char>,
    chain_id: Seq<char>,
) -> Set<Seq<char>> {
    Set::new(|v: Seq<char>| s.name_map().dom().contains((contract_name, chain_id, v)))
}

/// Listing completeness: a listing holds exactly one record per stored
/// version under its prefix, so its length is the number of those versions.
pub proof fn lemma_list_counts_versions(
    s: Registry,
    contract_name: Seq<char>,
    chain_id: Seq<char>,
    rs: Seq<Registration>,
)
    requires
        list_post(s, contract_name, chain_id, rs),
    ensures
        prefix_versions(s, contract_name, chain_id).finite(),
        rs.len() == prefix_versions(s, contract_name, chain_id).len(),
{
    broadcast use vstd::seq_lib::seq_to_set_is_finite;

    let versions = rs.map_values(|r: Registration| r@.version);
    assert(versions.len() == rs.len());
    assert forall|p: int, q: int|
        0 <= p < versions.len() && 0 <= q < versions.len() && p != q implies versions[p]
        != versions[q] by {
        if p < q {
            lemma_lex_lt_asymmetric(rs[p]@.version, rs[q]@.version);
        } else {
            lemma_lex_lt_asymmetric(rs[q]@.version, rs[p]@.version);
        }
    }
    assert(versions.no_duplicates());
    assert forall|v: Seq<char>| #[trigger]
        versions.to_set().contains(v) implies prefix_versions(s, contract_name, chain_id).contains(
        v,
    ) by {
        let p = choose|p: int| 0 <= p < versions.len() && versions[p] == v;
        assert(s.name_map().dom().contains((contract_name, chain_id, rs[p]@.version)));
    }
    assert forall|v: Seq<char>| #[trigger]
        prefix_versions(s, contract_name, chain_id).contains(v) implies versions.to_set().contains(
        v,
    ) by {
        let p = choose|p: int| 0 <= p < rs.len() && (rs[p]@).version == v;
        assert(versions[p] == v);
        assert(versions.contains(v));
    }
    assert(versions.to_set() =~= prefix_versions(s, contract_name, chain_id));
    versions.unique_seq_to_set();
}

/// An accepted registration adds exactly its own version to its own prefix
/// and leaves every other prefix as it was.
pub proof fn lemma_register_versions(
    pre: Registry,
    post: Registry,
    sender: Seq<char>,
    contract_name: Seq<char>,
    version: Seq<char>,
    chain_id: Seq<char>,
    code_id: u64,
    checksum: Seq<char>,
)
    requires
        register_accepted(pre, post, sender, contract_name, version, chain_id, code_id, checksum),
    ensures
        prefix_versions(post, contract_name, chain_id) == prefix_versions(
            pre,
            contract_name,
            chain_id,
        ).insert(version),
        forall|n: Seq<char>, c: Seq<char>|
            n != contract_name || c != chain_id ==> #[trigger] prefix_versions(post, n, c)
                == prefix_versions(pre, n, c),
{
    assert(prefix_versions(post, contract_name, chain_id) =~= prefix_versions(
        pre,
        contract_name,
        chain_id,
    ).insert(version));
    assert forall|n: Seq<char>, c: Seq<char>| n != contract_name || c
        != chain_id implies #[trigger] prefix_versions(post, n, c) == prefix_versions(
        pre,
        n,
        c,
    ) by {
        assert(prefix_versions(post, n, c) =~= prefix_versions(pre, n, c));
    }
}

/// An accepted unregistration removes exactly its own version from its own
/// prefix and leaves every other prefix as it was.
pub proof fn lemma_unregister_versions(
    pre: Registry,
    post: Registry,
    sender: Seq<char>,
    contract_name: Seq<char>,
    chain_id: Seq<char>,
    code_id: u64,
    version: Seq<char>,
)
    requires
        unregister_accepted(pre, post, sender, contract_name, chain_id, code_id, version),
    ensures
        prefix_versions(post, contract_name, chain_id) == prefix_versions(
            pre,
            contract_name,
            chain_id,
        ).remove(version),
        forall|n: Seq<char>, c: Seq<char>|
            n != contract_name || c != chain_id ==> #[trigger] prefix_versions(post, n, c)
                == prefix_versions(pre, n, c),
{
    assert(prefix_versions(post, contract_name, chain_id) =~= prefix_versions(
        pre,
        contract_name,
        chain_id,
    ).remove(version));
    assert forall|n: Seq<char>, c: Seq<char>| n != contract_name || c
        != chain_id implies #[trigger] prefix_versions(post, n, c) == prefix_versions(
        pre,
        n,
        c,
    ) by {
        assert(prefix_versions(post, n, c) =~= prefix_versions(pre, n, c));
    }
}

} // verus!
