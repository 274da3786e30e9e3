//! The record store: the persisted registration record, the registry state
//! holding the two composite-keyed indices and the admin slot, and the store
//! primitives that keep each index's mathematical map view in step with it.

use vstd::prelude::*;

use crate::order::lex_lt;

verus! {

/// A committed registration: one deployment artifact descriptor, addressable
/// both by `(chain_id, code_id)` and by `(contract_name, chain_id, version)`.
#[derive(Debug, PartialEq, Eq)]
pub struct Registration {
    /// Logical name of the deployable artifact.
    pub contract_name: String,
    /// Free-form version label, compared only by lexicographic order.
    pub version: String,
    /// Identifier of the chain the code id is valid on.
    pub chain_id: String,
    /// The artifact's numeric identifier on that chain.
    pub code_id: u64,
    /// Content hash of the artifact, for out-of-band integrity checks.
    pub checksum: String,
}

/// The mathematical value of a [`Registration`]: the same fields, with each
/// string as its character sequence.
pub struct RegistrationView {
    pub contract_name: Seq<char>,
    pub version: Seq<char>,
    pub chain_id: Seq<char>,
    pub code_id: u64,
    pub checksum: Seq<char>,
}

impl View for Registration {
    type V = RegistrationView;

    open spec fn view(&self) -> RegistrationView {
        RegistrationView {
            contract_name: self.contract_name@,
            version: self.version@,
            chain_id: self.chain_id@,
            code_id: self.code_id,
            checksum: self.checksum@,
        }
    }
}

impl Clone for Registration {
    fn clone(&self) -> (r: Self)
        ensures
            r == *self,
    {
        Registration {
            contract_name: self.contract_name.clone(),
            version: self.version.clone(),
            chain_id: self.chain_id.clone(),
            code_id: self.code_id,
            checksum: self.checksum.clone(),
        }
    }
}

/// The key a registration occupies in the code-id index.
pub open spec fn code_key(r: RegistrationView) -> (Seq<char>, u64) {
    (r.chain_id, r.code_id)
}

/// The key a registration occupies in the name index.
pub open spec fn name_key(r: RegistrationView) -> (Seq<char>, Seq<char>, Seq<char>) {
    (r.contract_name, r.chain_id, r.version)
}

/// Within the code-id index, every key is occupied at most once.
pub open spec fn code_keys_unique(entries: Seq<Registration>) -> bool {
    forall|i: int, j: int|
        0 <= i < j < entries.len() ==> #[trigger] code_key(entries[i]@) != #[trigger] code_key(
            entries[j]@,
        )
}

/// Within the name index, every key is occupied at most once.
pub open spec fn name_keys_unique(entries: Seq<Registration>) -> bool {
    forall|i: int, j: int|
        0 <= i < j < entries.len() ==> #[trigger] name_key(entries[i]@) != #[trigger] name_key(
            entries[j]@,
        )
}

/// Some entry occupies the code-id key `k`.
pub open spec fn has_code_key(entries: Seq<Registration>, k: (Seq<char>, u64)) -> bool {
    exists|i: int| 0 <= i < entries.len() && #[trigger] code_key(entries[i]@) == k
}

/// The position of the entry occupying the code-id key `k`.
pub open spec fn code_entry_at(entries: Seq<Registration>, k: (Seq<char>, u64)) -> int {
    choose|i: int| 0 <= i < entries.len() && #[trigger] code_key(entries[i]@) == k
}

/// The code-id index as a map from key to record.
pub open spec fn code_map_of(entries: Seq<Registration>) -> Map<
    (Seq<char>, u64),
    RegistrationView,
> {
    Map::new(
        |k: (Seq<char>, u64)| has_code_key(entries, k),
        |k: (Seq<char>, u64)| entries[code_entry_at(entries, k)]@,
    )
}

/// Some entry occupies the name key `k`.
pub open spec fn has_name_key(entries: Seq<Registration>, k: (Seq<char>, Seq<char>, Seq<char>)) -> bool {
    exists|i: int| 0 <= i < entries.len() && #[trigger] name_key(entries[i]@) == k
}

/// The position of the entry occupying the name key `k`.
pub open spec fn name_entry_at(entries: Seq<Registration>, k: (Seq<char>, Seq<char>, Seq<char>)) -> int {
    choose|i: int| 0 <= i < entries.len() && #[trigger] name_key(entries[i]@) == k
}

/// The name index as a map from key to record.
pub open spec fn name_map_of(entries: Seq<Registration>) -> Map<
    (Seq<char>, Seq<char>, Seq<char>),
    RegistrationView,
> {
    Map::new(
        |k: (Seq<char>, Seq<char>, Seq<char>)| has_name_key(entries, k),
        |k: (Seq<char>, Seq<char>, Seq<char>)| entries[name_entry_at(entries, k)]@,
    )
}

/// The entry at a position is what the map holds for its key.
pub proof fn lemma_code_map_entry(entries: Seq<Registration>, i: int)
    requires
        code_keys_unique(entries),
        0 <= i < entries.len(),
    ensures
        code_map_of(entries).dom().contains(code_key(entries[i]@)),
        code_map_of(entries)[code_key(entries[i]@)] == entries[i]@,
{
    let k = code_key(entries[i]@);
    assert(has_code_key(entries, k));
    let j = code_entry_at(entries, k);
    assert(0 <= j < entries.len() && code_key(entries[j]@) == k);
    if i < j {
        assert(code_key(entries[i]@) != code_key(entries[j]@));
    } else if j < i {
        assert(code_key(entries[j]@) != code_key(entries[i]@));
    }
}

/// A key no entry occupies is not in the map.
pub proof fn lemma_code_map_absent(entries: Seq<Registration>, k: (Seq<char>, u64))
    requires
        forall|i: int| 0 <= i < entries.len() ==> #[trigger] code_key(entries[i]@) != k,
    ensures
        !code_map_of(entries).dom().contains(k),
{
}

pub proof fn lemma_name_map_entry(entries: Seq<Registration>, i: int)
    requires
        name_keys_unique(entries),
        0 <= i < entries.len(),
    ensures
        name_map_of(entries).dom().contains(name_key(entries[i]@)),
        name_map_of(entries)[name_key(entries[i]@)] == entries[i]@,
{
    let k = name_key(entries[i]@);
    assert(has_name_key(entries, k));
    let j = name_entry_at(entries, k);
    assert(0 <= j < entries.len() && name_key(entries[j]@) == k);
    if i < j {
        assert(name_key(entries[i]@) != name_key(entries[j]@));
    } else if j < i {
        assert(name_key(entries[j]@) != name_key(entries[i]@));
    }
}

pub proof fn lemma_name_map_absent(entries: Seq<Registration>, k: (Seq<char>, Seq<char>, Seq<char>))
    requires
        forall|i: int| 0 <= i < entries.len() ==> #[trigger] name_key(entries[i]@) != k,
    ensures
        !name_map_of(entries).dom().contains(k),
{
}

/// Appending an entry under a fresh key inserts it into the map view.
pub proof fn lemma_code_map_push(entries: Seq<Registration>, r: Registration)
    requires
        code_keys_unique(entries),
        !has_code_key(entries, code_key(r@)),
    ensures
        code_keys_unique(entries.push(r)),
        code_map_of(entries.push(r)) == code_map_of(entries).insert(code_key(r@), r@),
{
    let e2 = entries.push(r);
    let n = entries.len() as int;
    let m1 = code_map_of(e2);
    let m2 = code_map_of(entries).insert(code_key(r@), r@);
    assert forall|i: int, j: int| 0 <= i < j < e2.len() implies code_key(e2[i]@) != code_key(
        e2[j]@,
    ) by {
        if j < n {
            assert(e2[i] == entries[i] && e2[j] == entries[j]);
        } else {
            assert(e2[i] == entries[i] && e2[j] == r);
            if code_key(entries[i]@) == code_key(r@) {
                assert(has_code_key(entries, code_key(r@)));
            }
        }
    }
    assert forall|k: (Seq<char>, u64)| m1.dom().contains(k) implies m2.dom().contains(k) && m1[k]
        == m2[k] by {
        let i = code_entry_at(e2, k);
        assert(0 <= i < e2.len() && code_key(e2[i]@) == k);
        if i == n {
            assert(e2[i] == r);
            assert(m1[k] == r@);
        } else {
            assert(e2[i] == entries[i]);
            assert(has_code_key(entries, k));
            if k == code_key(r@) {
                assert(false);
            }
            lemma_code_map_entry(entries, i);
            assert(m1[k] == e2[i]@);
        }
    }
    assert forall|k: (Seq<char>, u64)| m2.dom().contains(k) implies m1.dom().contains(k) by {
        if k == code_key(r@) {
            assert(e2[n] == r);
            assert(code_key(e2[n]@) == k);
            assert(has_code_key(e2, k));
        } else {
            let i = code_entry_at(entries, k);
            assert(0 <= i < entries.len() && code_key(entries[i]@) == k);
            assert(e2[i] == entries[i]);
            assert(code_key(e2[i]@) == k);
            assert(has_code_key(e2, k));
        }
    }
    assert(m1 =~= m2);
}

pub proof fn lemma_name_map_push(entries: Seq<Registration>, r: Registration)
    requires
        name_keys_unique(entries),
        !has_name_key(entries, name_key(r@)),
    ensures
        name_keys_unique(entries.push(r)),
        name_map_of(entries.push(r)) == name_map_of(entries).insert(name_key(r@), r@),
{
    let e2 = entries.push(r);
    let n = entries.len() as int;
    let m1 = name_map_of(e2);
    let m2 = name_map_of(entries).insert(name_key(r@), r@);
    assert forall|i: int, j: int| 0 <= i < j < e2.len() implies name_key(e2[i]@) != name_key(
        e2[j]@,
    ) by {
        if j < n {
            assert(e2[i] == entries[i] && e2[j] == entries[j]);
        } else {
            assert(e2[i] == entries[i] && e2[j] == r);
            if name_key(entries[i]@) == name_key(r@) {
                assert(has_name_key(entries, name_key(r@)));
            }
        }
    }
    assert forall|k: (Seq<char>, Seq<char>, Seq<char>)| m1.dom().contains(k) implies m2.dom(
    ).contains(k) && m1[k] == m2[k] by {
        let i = name_entry_at(e2, k);
        assert(0 <= i < e2.len() && name_key(e2[i]@) == k);
        if i == n {
            assert(e2[i] == r);
            assert(m1[k] == r@);
        } else {
            assert(e2[i] == entries[i]);
            assert(has_name_key(entries, k));
            if k == name_key(r@) {
                assert(false);
            }
            lemma_name_map_entry(entries, i);
            assert(m1[k] == e2[i]@);
        }
    }
    assert forall|k: (Seq<char>, Seq<char>, Seq<char>)| m2.dom().contains(k) implies m1.dom(
    ).contains(k) by {
        if k == name_key(r@) {
            assert(e2[n] == r);
            assert(name_key(e2[n]@) == k);
            assert(has_name_key(e2, k));
        } else {
            let i = name_entry_at(entries, k);
            assert(0 <= i < entries.len() && name_key(entries[i]@) == k);
            assert(e2[i] == entries[i]);
            assert(name_key(e2[i]@) == k);
            assert(has_name_key(e2, k));
        }
    }
    assert(m1 =~= m2);
}

/// Swapping the last entry into position `i` and dropping the tail removes
/// exactly the key at position `i` from the map view.
pub proof fn lemma_code_map_swap_remove(entries: Seq<Registration>, i: int)
    requires
        code_keys_unique(entries),
        0 <= i < entries.len(),
    ensures
        code_keys_unique(entries.update(i, entries.last()).drop_last()),
        code_map_of(entries.update(i, entries.last()).drop_last()) == code_map_of(entries).remove(
            code_key(entries[i]@),
        ),
{
    let t = entries.update(i, entries.last()).drop_last();
    let n = entries.len() as int;
    let k0 = code_key(entries[i]@);
    let m1 = code_map_of(t);
    let m2 = code_map_of(entries).remove(k0);
    assert(t.len() == n - 1);
    assert forall|j: int| 0 <= j < n - 1 implies t[j] == (if j == i {
        entries[n - 1]
    } else {
        entries[j]
    }) by {}
    assert forall|p: int, q: int| 0 <= p < q < t.len() implies code_key(t[p]@) != code_key(
        t[q]@,
    ) by {
        let fp: int = if p == i {
            n - 1
        } else {
            p
        };
        let fq: int = if q == i {
            n - 1
        } else {
            q
        };
        assert(t[p] == entries[fp] && t[q] == entries[fq]);
        if fp < fq {
            assert(code_key(entries[fp]@) != code_key(entries[fq]@));
        } else {
            assert(code_key(entries[fq]@) != code_key(entries[fp]@));
        }
    }
    assert forall|k: (Seq<char>, u64)| m1.dom().contains(k) implies m2.dom().contains(k) && m1[k]
        == m2[k] by {
        let p = code_entry_at(t, k);
        assert(0 <= p < t.len() && code_key(t[p]@) == k);
        let fp: int = if p == i {
            n - 1
        } else {
            p
        };
        assert(t[p] == entries[fp]);
        assert(code_key(entries[fp]@) == k);
        assert(has_code_key(entries, k));
        if fp < i {
            assert(code_key(entries[fp]@) != code_key(entries[i]@));
        } else if i < fp {
            assert(code_key(entries[i]@) != code_key(entries[fp]@));
        }
        lemma_code_map_entry(entries, fp);
        lemma_code_map_entry(t, p);
    }
    assert forall|k: (Seq<char>, u64)| m2.dom().contains(k) implies m1.dom().contains(k) by {
        let j = code_entry_at(entries, k);
        assert(0 <= j < entries.len() && code_key(entries[j]@) == k);
        if j < i {
            assert(code_key(entries[j]@) != code_key(entries[i]@));
        } else if i < j {
            assert(code_key(entries[i]@) != code_key(entries[j]@));
        }
        let p: int = if j == n - 1 {
            i
        } else {
            j
        };
        assert(0 <= p < t.len() && t[p] == entries[j]);
        assert(code_key(t[p]@) == k);
        assert(has_code_key(t, k));
    }
    assert(m1 =~= m2);
}

pub proof fn lemma_name_map_swap_remove(entries: Seq<Registration>, i: int)
    requires
        name_keys_unique(entries),
        0 <= i < entries.len(),
    ensures
        name_keys_unique(entries.update(i, entries.last()).drop_last()),
        name_map_of(entries.update(i, entries.last()).drop_last()) == name_map_of(entries).remove(
            name_key(entries[i]@),
        ),
{
    let t = entries.update(i, entries.last()).drop_last();
    let n = entries.len() as int;
    let k0 = name_key(entries[i]@);
    let m1 = name_map_of(t);
    let m2 = name_map_of(entries).remove(k0);
    assert(t.len() == n - 1);
    assert forall|j: int| 0 <= j < n - 1 implies t[j] == (if j == i {
        entries[n - 1]
    } else {
        entries[j]
    }) by {}
    assert forall|p: int, q: int| 0 <= p < q < t.len() implies name_key(t[p]@) != name_key(
        t[q]@,
    ) by {
        let fp: int = if p == i {
            n - 1
        } else {
            p
        };
        let fq: int = if q == i {
            n - 1
        } else {
            q
        };
        assert(t[p] == entries[fp] && t[q] == entries[fq]);
        if fp < fq {
            assert(name_key(entries[fp]@) != name_key(entries[fq]@));
        } else {
            assert(name_key(entries[fq]@) != name_key(entries[fp]@));
        }
    }
    assert forall|k: (Seq<char>, Seq<char>, Seq<char>)| m1.dom().contains(k) implies m2.dom(
    ).contains(k) && m1[k] == m2[k] by {
        let p = name_entry_at(t, k);
        assert(0 <= p < t.len() && name_key(t[p]@) == k);
        let fp: int = if p == i {
            n - 1
        } else {
            p
        };
        assert(t[p] == entries[fp]);
        assert(name_key(entries[fp]@) == k);
        assert(has_name_key(entries, k));
        if fp < i {
            assert(name_key(entries[fp]@) != name_key(entries[i]@));
        } else if i < fp {
            assert(name_key(entries[i]@) != name_key(entries[fp]@));
        }
        lemma_name_map_entry(entries, fp);
        lemma_name_map_entry(t, p);
    }
    assert forall|k: (Seq<char>, Seq<char>, Seq<char>)| m2.dom().contains(k) implies m1.dom(
    ).contains(k) by {
        let j = name_entry_at(entries, k);
        assert(0 <= j < entries.len() && name_key(entries[j]@) == k);
        if j < i {
            assert(name_key(entries[j]@) != name_key(entries[i]@));
        } else if i < j {
            assert(name_key(entries[i]@) != name_key(entries[j]@));
        }
        let p: int = if j == n - 1 {
            i
        } else {
            j
        };
        assert(0 <= p < t.len() && t[p] == entries[j]);
        assert(name_key(t[p]@) == k);
        assert(has_name_key(t, k));
    }
    assert(m1 =~= m2);
}

/// Every record in the code-id map stands under the key its own fields
/// derive: the map cannot hold a record at a foreign key.
pub proof fn lemma_code_map_keyed(s: Registry)
    ensures
        forall|k: (Seq<char>, u64)| #[trigger]
            s.code_map().dom().contains(k) ==> code_key(s.code_map()[k]) == k,
{
    assert forall|k: (Seq<char>, u64)| s.code_map().dom().contains(k) implies code_key(
        s.code_map()[k],
    ) == k by {
        let entries = s.code_index@;
        assert(has_code_key(entries, k));
        let i = code_entry_at(entries, k);
        assert(0 <= i < entries.len() && code_key(entries[i]@) == k);
    }
}

/// Every record in the name map stands under the key its own fields derive.
pub proof fn lemma_name_map_keyed(s: Registry)
    ensures
        forall|k: (Seq<char>, Seq<char>, Seq<char>)| #[trigger]
            s.name_map().dom().contains(k) ==> name_key(s.name_map()[k]) == k,
{
    assert forall|k: (Seq<char>, Seq<char>, Seq<char>)| s.name_map().dom().contains(
        k,
    ) implies name_key(s.name_map()[k]) == k by {
        let entries = s.name_index@;
        assert(has_name_key(entries, k));
        let i = name_entry_at(entries, k);
        assert(0 <= i < entries.len() && name_key(entries[i]@) == k);
    }
}

/// The registry state: the single admin slot and the two composite-keyed
/// indices over the same logical record set. The host supplies the current
/// value at call entry and persists the value handed back; no state lives
/// anywhere else.
pub struct Registry {
    admin: String,
    code_index: Vec<Registration>,
    name_index: Vec<Registration>,
}

impl Registry {
    /// The identity allowed to mutate the registry.
    pub closed spec fn admin_id(self) -> Seq<char> {
        self.admin@
    }

    /// The code-id index: records keyed by `(chain_id, code_id)`.
    pub closed spec fn code_map(self) -> Map<(Seq<char>, u64), RegistrationView> {
        code_map_of(self.code_index@)
    }

    /// The name index: records keyed by `(contract_name, chain_id, version)`.
    pub closed spec fn name_map(self) -> Map<(Seq<char>, Seq<char>, Seq<char>), RegistrationView> {
        name_map_of(self.name_index@)
    }

    /// Well-formed: within each index, every key is occupied at most once.
    pub closed spec fn wf(self) -> bool {
        code_keys_unique(self.code_index@) && name_keys_unique(self.name_index@)
    }

    /// An empty registry owned by `admin`.
    pub fn new(admin: String) -> (r: Registry)
        ensures
            r.wf(),
            r.admin_id() == admin@,
            r.code_map() == Map::<(Seq<char>, u64), RegistrationView>::empty(),
            r.name_map() == Map::<(Seq<char>, Seq<char>, Seq<char>), RegistrationView>::empty(),
    {
        let r = Registry { admin, code_index: Vec::new(), name_index: Vec::new() };
        proof {
            assert(r.code_map() =~= Map::<(Seq<char>, u64), RegistrationView>::empty());
            assert(r.name_map() =~= Map::<
                (Seq<char>, Seq<char>, Seq<char>),
                RegistrationView,
            >::empty());
        }
        r
    }

    /// The stored admin identity.
    pub fn admin(&self) -> (r: &String)
        ensures
            r@ == self.admin_id(),
    {
        &self.admin
    }

    /// Whether `sender` is the stored admin identity.
    pub fn is_admin(&self, sender: &str) -> (r: bool)
        ensures
            r == (sender@ == self.admin_id()),
    {
        crate::order::str_eq(sender, self.admin.as_str())
    }

    /// Replace the admin identity; the indices are untouched.
    pub fn set_admin(&mut self, new_admin: String)
        ensures
            final(self).admin_id() == new_admin@,
            final(self).code_map() == old(self).code_map(),
            final(self).name_map() == old(self).name_map(),
            old(self).wf() ==> final(self).wf(),
    {
        self.admin = new_admin;
    }

    /// Direct lookup on the code-id index.
    pub fn code_get(&self, chain_id: &str, code_id: u64) -> (r: Option<Registration>)
        requires
            self.wf(),
        ensures
            match r {
                Some(reg) => self.code_map().dom().contains((chain_id@, code_id)) && reg@
                    == self.code_map()[(chain_id@, code_id)],
                None => !self.code_map().dom().contains((chain_id@, code_id)),
            },
    {
        match find_code(&self.code_index, chain_id, code_id) {
            Some(i) => {
                proof {
                    lemma_code_map_entry(self.code_index@, i as int);
                }
                Some(self.code_index[i].clone())
            },
            None => {
                proof {
                    lemma_code_map_absent(self.code_index@, (chain_id@, code_id));
                }
                None
            },
        }
    }

    /// Direct lookup on the name index.
    pub fn name_get(&self, contract_name: &str, chain_id: &str, version: &str) -> (r: Option<
        Registration,
    >)
        requires
            self.wf(),
        ensures
            match r {
                Some(reg) => self.name_map().dom().contains((contract_name@, chain_id@, version@))
                    && reg@ == self.name_map()[(contract_name@, chain_id@, version@)],
                None => !self.name_map().dom().contains((contract_name@, chain_id@, version@)),
            },
    {
        match find_name(&self.name_index, contract_name, chain_id, version) {
            Some(i) => {
                proof {
                    lemma_name_map_entry(self.name_index@, i as int);
                }
                Some(self.name_index[i].clone())
            },
            None => {
                proof {
                    lemma_name_map_absent(
                        self.name_index@,
                        (contract_name@, chain_id@, version@),
                    );
                }
                None
            },
        }
    }

    /// Write `r` under its code-id key, replacing any record there.
    pub fn code_put(&mut self, r: Registration)
        requires
            old(self).wf(),
        ensures
            final(self).wf(),
            final(self).code_map() == old(self).code_map().insert(code_key(r@), r@),
            final(self).name_map() == old(self).name_map(),
            final(self).admin_id() == old(self).admin_id(),
    {
        let ghost m0 = self.code_map();
        let ghost k = code_key(r@);
        match find_code(&self.code_index, r.chain_id.as_str(), r.code_id) {
            Some(i) => {
                proof {
                    lemma_code_map_swap_remove(self.code_index@, i as int);
                }
                self.code_index.swap_remove(i);
                proof {
                    lemma_code_map_push(self.code_index@, r);
                }
                self.code_index.push(r);
                proof {
                    assert(m0.remove(k).insert(k, r@) =~= m0.insert(k, r@));
                }
            },
            None => {
                proof {
                    lemma_code_map_push(self.code_index@, r);
                }
                self.code_index.push(r);
            },
        }
    }

    /// Write `r` under its name key, replacing any record there.
    pub fn name_put(&mut self, r: Registration)
        requires
            old(self).wf(),
        ensures
            final(self).wf(),
            final(self).name_map() == old(self).name_map().insert(name_key(r@), r@),
            final(self).code_map() == old(self).code_map(),
            final(self).admin_id() == old(self).admin_id(),
    {
        let ghost m0 = self.name_map();
        let ghost k = name_key(r@);
        match find_name(
            &self.name_index,
            r.contract_name.as_str(),
            r.chain_id.as_str(),
            r.version.as_str(),
        ) {
            Some(i) => {
                proof {
                    lemma_name_map_swap_remove(self.name_index@, i as int);
                }
                self.name_index.swap_remove(i);
                proof {
                    lemma_name_map_push(self.name_index@, r);
                }
                self.name_index.push(r);
                proof {
                    assert(m0.remove(k).insert(k, r@) =~= m0.insert(k, r@));
                }
            },
            None => {
                proof {
                    lemma_name_map_push(self.name_index@, r);
                }
                self.name_index.push(r);
            },
        }
    }

    /// Delete whatever occupies the code-id key; absent keys are a no-op.
    pub fn code_delete(&mut self, chain_id: &str, code_id: u64)
        requires
            old(self).wf(),
        ensures
            final(self).wf(),
            final(self).code_map() == old(self).code_map().remove((chain_id@, code_id)),
            final(self).name_map() == old(self).name_map(),
            final(self).admin_id() == old(self).admin_id(),
    {
        match find_code(&self.code_index, chain_id, code_id) {
            Some(i) => {
                proof {
                    lemma_code_map_swap_remove(self.code_index@, i as int);
                }
                self.code_index.swap_remove(i);
            },
            None => {
                proof {
                    lemma_code_map_absent(self.code_index@, (chain_id@, code_id));
                    assert(self.code_map() =~= self.code_map().remove((chain_id@, code_id)));
                }
            },
        }
    }

    /// Delete whatever occupies the name key; absent keys are a no-op.
    pub fn name_delete(&mut self, contract_name: &str, chain_id: &str, version: &str)
        requires
            old(self).wf(),
        ensures
            final(self).wf(),
            final(self).name_map() == old(self).name_map().remove(
                (contract_name@, chain_id@, version@),
            ),
            final(self).code_map() == old(self).code_map(),
            final(self).admin_id() == old(self).admin_id(),
    {
        match find_name(&self.name_index, contract_name, chain_id, version) {
            Some(i) => {
                proof {
                    lemma_name_map_swap_remove(self.name_index@, i as int);
                }
                self.name_index.swap_remove(i);
            },
            None => {
                proof {
                    lemma_name_map_absent(
                        self.name_index@,
                        (contract_name@, chain_id@, version@),
                    );
                    assert(self.name_map() =~= self.name_map().remove(
                        (contract_name@, chain_id@, version@),
                    ));
                }
            },
        }
    }
}

/// Whether a record lies under the `(contract_name, chain_id)` prefix of the
/// name index.
pub open spec fn matches_prefix(
    r: RegistrationView,
    contract_name: Seq<char>,
    chain_id: Seq<char>,
) -> bool {
    r.contract_name == contract_name && r.chain_id == chain_id
}

/// `x` is one of the first `bound` entries.
spec fn among_entries(entries: Seq<Registration>, bound: int, x: Registration) -> bool {
    exists|j: int| 0 <= j < bound && x == entries[j]
}

/// `x` occurs in `out`.
spec fn among_out(out: Seq<Registration>, x: Registration) -> bool {
    exists|p: int| 0 <= p < out.len() && out[p] == x
}

impl Registry {
    /// Ascending prefix scan of the name index: every record stored under
    /// `(contract_name, chain_id, _)`, in strictly ascending version order.
    pub fn scan_name_prefix(&self, contract_name: &str, chain_id: &str) -> (out: Vec<Registration>)
        requires
            self.wf(),
        ensures
            forall|p: int|
                0 <= p < out@.len() ==> matches_prefix(
                    #[trigger] out@[p]@,
                    contract_name@,
                    chain_id@,
                ) && self.name_map().dom().contains(
                    (contract_name@, chain_id@, out@[p]@.version),
                ) && self.name_map()[(contract_name@, chain_id@, out@[p]@.version)] == out@[p]@,
            forall|v: Seq<char>|
                #[trigger] self.name_map().dom().contains((contract_name@, chain_id@, v))
                    ==> exists|p: int| 0 <= p < out@.len() && (#[trigger] out@[p]@).version == v,
            forall|p: int, q: int|
                0 <= p < q < out@.len() ==> lex_lt(
                    (#[trigger] out@[p]@).version,
                    (#[trigger] out@[q]@).version,
                ),
    {
        let n = self.name_index.len();
        let mut out: Vec<Registration> = Vec::new();
        let mut idx: usize = 0;
        while idx < n
            invariant
                0 <= idx <= n,
                n == self.name_index@.len(),
                self.wf(),
                forall|p: int|
                    0 <= p < out@.len() ==> among_entries(
                        self.name_index@,
                        idx as int,
                        #[trigger] out@[p],
                    ),
                forall|p: int|
                    0 <= p < out@.len() ==> matches_prefix(
                        #[trigger] out@[p]@,
                        contract_name@,
                        chain_id@,
                    ),
                forall|j: int|
                    0 <= j < idx && matches_prefix(
                        #[trigger] self.name_index@[j]@,
                        contract_name@,
                        chain_id@,
                    ) ==> among_out(out@, self.name_index@[j]),
                forall|p: int, q: int|
                    0 <= p < q < out@.len() ==> lex_lt(
                        (#[trigger] out@[p]@).version,
                        (#[trigger] out@[q]@).version,
                    ),
            decreases n - idx,
        {
            let e = &self.name_index[idx];
            if crate::order::str_eq(e.contract_name.as_str(), contract_name)
                && crate::order::str_eq(e.chain_id.as_str(), chain_id) {
                let ghost ev = e@.version;
                let mut pos: usize = 0;
                while pos < out.len() && crate::order::str_lt(
                    out[pos].version.as_str(),
                    e.version.as_str(),
                )
                    invariant
                        0 <= pos <= out@.len(),
                        forall|q: int| 0 <= q < pos ==> lex_lt((#[trigger] out@[q]@).version, ev),
                        ev == e@.version,
                    decreases out@.len() - pos,
                {
                    pos = pos + 1;
                }
                proof {
                    // Every collected version differs from the new record's:
                    // collected records come from earlier positions of the name
                    // index, which share the prefix, and name keys are unique.
                    assert forall|q: int| 0 <= q < out@.len() implies (out@[q]@).version != ev by {
                        let j = choose|j: int|
                            0 <= j < idx as int && out@[q] == self.name_index@[j];
                        assert(0 <= j < idx as int && out@[q] == self.name_index@[j]);
                        assert(name_key(self.name_index@[j]@) != name_key(
                            self.name_index@[idx as int]@,
                        ));
                    }
                    if pos < out.len() {
                        crate::order::lemma_lex_lt_connected(ev, out@[pos as int]@.version);
                        assert(lex_lt(ev, out@[pos as int]@.version));
                        assert forall|q: int| pos < q < out@.len() implies lex_lt(
                            ev,
                            (out@[q]@).version,
                        ) by {
                            crate::order::lemma_lex_lt_transitive(
                                ev,
                                out@[pos as int]@.version,
                                out@[q]@.version,
                            );
                        }
                    }
                }
                let ghost old_out = out@;
                let item = e.clone();
                out.insert(pos, item);
                proof {
                    old_out.insert_ensures(pos as int, item);
                    assert(out@.len() == old_out.len() + 1);
                    // each old element keeps its identity at its shifted position
                    assert forall|p: int| 0 <= p < out@.len() implies out@[p] == (if p < pos as int {
                        old_out[p]
                    } else if p == pos as int {
                        item
                    } else {
                        old_out[p - 1]
                    }) by {}
                    // the collection still draws from the scanned entries
                    assert forall|p: int| 0 <= p < out@.len() implies among_entries(
                        self.name_index@,
                        idx as int + 1,
                        out@[p],
                    ) by {
                        if p == pos as int {
                            assert(out@[p] == self.name_index@[idx as int]);
                        } else {
                            let p0: int = if p < pos as int {
                                p
                            } else {
                                p - 1
                            };
                            assert(among_entries(self.name_index@, idx as int, old_out[p0]));
                            let j = choose|j: int|
                                0 <= j < idx as int && old_out[p0] == self.name_index@[j];
                            assert(0 <= j < idx as int + 1 && out@[p] == self.name_index@[j]);
                        }
                    }
                    // every matching entry seen so far is collected
                    assert forall|j: int|
                        0 <= j < idx as int + 1 && matches_prefix(
                            self.name_index@[j]@,
                            contract_name@,
                            chain_id@,
                        ) implies among_out(out@, self.name_index@[j]) by {
                        if j == idx as int {
                            assert(out@[pos as int] == self.name_index@[j]);
                        } else {
                            assert(among_out(old_out, self.name_index@[j]));
                            let p0 = choose|p0: int|
                                0 <= p0 < old_out.len() && old_out[p0] == self.name_index@[j];
                            let p: int = if p0 < pos as int {
                                p0
                            } else {
                                p0 + 1
                            };
                            assert(0 <= p < out@.len() && out@[p] == self.name_index@[j]);
                        }
                    }
                    // strict ordering is preserved around the insertion point
                    assert forall|p: int, q: int| 0 <= p < q < out@.len() implies lex_lt(
                        (out@[p]@).version,
                        (out@[q]@).version,
                    ) by {}
                }
            }
            idx = idx + 1;
        }
        proof {
            // soundness against the map view
            assert forall|p: int| 0 <= p < out@.len() implies matches_prefix(
                out@[p]@,
                contract_name@,
                chain_id@,
            ) && self.name_map().dom().contains((contract_name@, chain_id@, out@[p]@.version))
                && self.name_map()[(contract_name@, chain_id@, out@[p]@.version)] == out@[p]@ by {
                let j = choose|j: int| 0 <= j < idx as int && out@[p] == self.name_index@[j];
                assert(0 <= j < self.name_index@.len() && out@[p] == self.name_index@[j]);
                lemma_name_map_entry(self.name_index@, j);
                assert(name_key(self.name_index@[j]@) == (
                    contract_name@,
                    chain_id@,
                    out@[p]@.version,
                ));
            }
            // completeness against the map view
            assert forall|v: Seq<char>|
                self.name_map().dom().contains(
                    (contract_name@, chain_id@, v),
                ) implies exists|p: int| 0 <= p < out@.len() && (#[trigger] out@[p]@).version
                == v by {
                let k = (contract_name@, chain_id@, v);
                assert(has_name_key(self.name_index@, k));
                let j = name_entry_at(self.name_index@, k);
                assert(0 <= j < self.name_index@.len() && name_key(self.name_index@[j]@) == k);
                assert(matches_prefix(self.name_index@[j]@, contract_name@, chain_id@));
                assert(among_out(out@, self.name_index@[j]));
                let p = choose|p: int| 0 <= p < out@.len() && out@[p] == self.name_index@[j];
                assert(0 <= p < out@.len() && (out@[p]@).version == v);
            }
        }
        out
    }
}

/// The position of the entry under `(chain_id, code_id)`, if any.
fn find_code(entries: &Vec<Registration>, chain_id: &str, code_id: u64) -> (r: Option<usize>)
    ensures
        match r {
            Some(i) => 0 <= i < entries@.len() && code_key(entries@[i as int]@) == (
                chain_id@,
                code_id,
            ),
            None => forall|i: int|
                0 <= i < entries@.len() ==> #[trigger] code_key(entries@[i]@) != (
                    chain_id@,
                    code_id,
                ),
        },
{
    let n = entries.len();
    let mut i: usize = 0;
    while i < n
        invariant
            0 <= i <= n,
            n == entries@.len(),
            forall|j: int|
                0 <= j < i ==> #[trigger] code_key(entries@[j]@) != (chain_id@, code_id),
        decreases n - i,
    {
        let e = &entries[i];
        if e.code_id == code_id && crate::order::str_eq(e.chain_id.as_str(), chain_id) {
            proof {
                assert(code_key(entries@[i as int]@) == (chain_id@, code_id));
            }
            return Some(i);
        }
        i = i + 1;
    }
    None
}

/// The position of the entry under `(contract_name, chain_id, version)`, if any.
fn find_name(entries: &Vec<Registration>, contract_name: &str, chain_id: &str, version: &str) -> (r:
    Option<usize>)
    ensures
        match r {
            Some(i) => 0 <= i < entries@.len() && name_key(entries@[i as int]@) == (
                contract_name@,
                chain_id@,
                version@,
            ),
            None => forall|i: int|
                0 <= i < entries@.len() ==> #[trigger] name_key(entries@[i]@) != (
                    contract_name@,
                    chain_id@,
                    version@,
                ),
        },
{
    let n = entries.len();
    let mut i: usize = 0;
    while i < n
        invariant
            0 <= i <= n,
            n == entries@.len(),
            forall|j: int|
                0 <= j < i ==> #[trigger] name_key(entries@[j]@) != (
                    contract_name@,
                    chain_id@,
                    version@,
                ),
        decreases n - i,
    {
        let e = &entries[i];
        if crate::order::str_eq(e.contract_name.as_str(), contract_name) && crate::order::str_eq(
            e.chain_id.as_str(),
            chain_id,
        ) && crate::order::str_eq(e.version.as_str(), version) {
            proof {
                assert(name_key(entries@[i as int]@) == (contract_name@, chain_id@, version@));
            }
            return Some(i);
        }
        i = i + 1;
    }
    None
}

} // verus!
