//! Validators and the registry of who may propose, approve and submit.
use vstd::prelude::*;

use crate::crypto::{public_key_valid, signature_check, verify_public_key, verify_signature};
use crate::error::{ErrorSpec, MiniChainError, outcome};
use crate::text::{TextKeyed, texts};
use crate::transaction::{Timestamp, copy_bytes};

verus! {

/// What a validator may do.
#[derive(Clone, Copy, Debug, PartialEq, Eq, Structural, PartialOrd, Ord, Hash)]
pub enum Permission {
    ProposeBlocks,
    ApproveBlocks,
    SubmitTransactions,
}

/// The name of a permission.
pub open spec fn permission_name(p: Permission) -> Seq<char> {
    match p {
        Permission::ProposeBlocks => "propose_blocks"@,
        Permission::ApproveBlocks => "approve_blocks"@,
        Permission::SubmitTransactions => "submit_transactions"@,
    }
}

impl Permission {
    /// The name of this permission.
    pub fn name(&self) -> (text: String)
        ensures
            text@ == permission_name(*self),
    {
        match self {
            Permission::ProposeBlocks => "propose_blocks".to_owned(),
            Permission::ApproveBlocks => "approve_blocks".to_owned(),
            Permission::SubmitTransactions => "submit_transactions".to_owned(),
        }
    }
}

/// A validator known to the network.
#[derive(Debug, PartialEq, Eq)]
pub struct Validator {
    pub id: String,
    pub public_key: Vec<u8>,
    pub active: bool,
    pub permissions: Vec<Permission>,
    pub last_heartbeat: Option<Timestamp>,
    pub block_height: u64,
    pub network_address: String,
}

/// The value of a validator.
pub struct ValidatorView {
    pub id: Seq<char>,
    pub public_key: Seq<u8>,
    pub active: bool,
    pub permissions: Set<Permission>,
    pub last_heartbeat: Option<Timestamp>,
    pub block_height: u64,
    pub network_address: Seq<char>,
}

impl View for Validator {
    type V = ValidatorView;

    open spec fn view(&self) -> ValidatorView {
        ValidatorView {
            id: self.id@,
            public_key: self.public_key@,
            active: self.active,
            permissions: self.permissions@.to_set(),
            last_heartbeat: self.last_heartbeat,
            block_height: self.block_height,
            network_address: self.network_address@,
        }
    }
}

fn has_permission(permissions: &Vec<Permission>, p: Permission) -> (r: bool)
    ensures
        r == permissions@.contains(p),
{
    let mut i: usize = 0;
    while i < permissions.len()
        invariant
            i <= permissions@.len(),
            forall|k: int| 0 <= k < i ==> permissions@[k] != p,
        decreases permissions@.len() - i,
    {
        if permissions[i] == p {
            return true;
        }
        i = i + 1;
    }
    false
}

fn copy_permissions(permissions: &Vec<Permission>) -> (r: Vec<Permission>)
    ensures
        r@ == permissions@,
{
    let mut out: Vec<Permission> = Vec::new();
    let mut i: usize = 0;
    while i < permissions.len()
        invariant
            i <= permissions@.len(),
            out@ =~= permissions@.subrange(0, i as int),
        decreases permissions@.len() - i,
    {
        out.push(permissions[i]);
        i = i + 1;
    }
    assert(permissions@.subrange(0, permissions@.len() as int) =~= permissions@);
    out
}

/// Validators are listed by ID.
impl TextKeyed for Validator {
    open spec fn text_key(&self) -> Seq<char> {
        self.id@
    }

    fn key(&self) -> (k: &str) {
        self.id.as_str()
    }
}

impl Clone for Validator {
    fn clone(&self) -> (r: Self)
        ensures
            r@ == self@,
    {
        Validator {
            id: self.id.clone(),
            public_key: copy_bytes(self.public_key.as_slice()),
            active: self.active,
            permissions: copy_permissions(&self.permissions),
            last_heartbeat: self.last_heartbeat,
            block_height: self.block_height,
            network_address: self.network_address.clone(),
        }
    }
}

impl Validator {
    /// An active validator with the given key and permissions, if the key is valid.
    pub fn new(id: &str, public_key: Vec<u8>, network_address: &str, permissions: Vec<Permission>) -> (r:
        Result<Self, MiniChainError>)
        ensures
            r is Ok <==> public_key_valid(public_key@),
            r matches Err(e) ==> e == MiniChainError::InvalidPublicKey,
            r matches Ok(v) ==> {
                &&& v@.id == id@
                &&& v@.public_key == public_key@
                &&& v@.active
                &&& v@.permissions == permissions@.to_set()
                &&& v@.last_heartbeat is None
                &&& v@.block_height == 0
                &&& v@.network_address == network_address@
            },
    {
        verify_public_key(public_key.as_slice())?;
        Ok(
            Validator {
                id: id.to_owned(),
                public_key,
                active: true,
                permissions,
                last_heartbeat: None,
                block_height: 0,
                network_address: network_address.to_owned(),
            },
        )
    }

    /// Checks that the validator's key is a valid Ed25519 key.
    pub fn validate(&self) -> (r: Result<(), MiniChainError>)
        ensures
            r is Ok <==> public_key_valid(self@.public_key),
            r matches Err(e) ==> e == MiniChainError::InvalidPublicKey,
    {
        verify_public_key(self.public_key.as_slice())
    }
}

/// Whether some validator of `validators` has `id`.
pub open spec fn has_id(validators: Seq<ValidatorView>, id: Seq<char>) -> bool {
    exists|i: int| 0 <= i < validators.len() && (#[trigger] validators[i]).id == id
}

/// The validators of a registry, by ID.
pub open spec fn registry_map(validators: Seq<ValidatorView>) -> Map<Seq<char>, ValidatorView> {
    Map::new(
        |id: Seq<char>| has_id(validators, id),
        |id: Seq<char>|
            validators[choose|i: int| 0 <= i < validators.len() && (#[trigger] validators[i]).id == id],
    )
}

/// The values of a sequence of validators.
pub open spec fn validators_view(validators: Seq<Validator>) -> Seq<ValidatorView> {
    Seq::new(validators.len(), |i: int| validators[i]@)
}

/// Whether no two validators share an ID.
pub open spec fn unique_ids(validators: Seq<ValidatorView>) -> bool {
    forall|i: int, j: int|
        0 <= i < validators.len() && 0 <= j < validators.len() && i != j ==> (#[trigger] validators[i]).id
            != (#[trigger] validators[j]).id
}

/// Whether a validator is active and may approve blocks.
pub open spec fn active_approver(v: ValidatorView) -> bool {
    v.active && v.permissions.contains(Permission::ApproveBlocks)
}

/// The IDs of the active validators that may approve blocks.
pub open spec fn approver_set(validators: Map<Seq<char>, ValidatorView>) -> Set<Seq<char>> {
    Set::new(|id: Seq<char>| validators.contains_key(id) && active_approver(validators[id]))
}

/// The approvers of a registry are exactly its registered validators that are
/// active and hold the permission to approve blocks: an inactive validator, or
/// one without that permission, is never counted toward a quorum.
pub proof fn lemma_approvers_are_active_with_approval(validators: Map<Seq<char>, ValidatorView>)
    ensures
        approver_set(validators) == Set::new(
            |id: Seq<char>|
                validators.contains_key(id) && validators[id].active && validators[id].permissions.contains(
                    Permission::ApproveBlocks,
                ),
        ),
        forall|id: Seq<char>|
            #[trigger] approver_set(validators).contains(id) <==> (validators.contains_key(id)
                && validators[id].active && validators[id].permissions.contains(
                Permission::ApproveBlocks,
            )),
{
    assert(approver_set(validators) =~= Set::new(
        |id: Seq<char>|
            validators.contains_key(id) && validators[id].active && validators[id].permissions.contains(
                Permission::ApproveBlocks,
            ),
    ));
}

/// The IDs of the active approvers among `validators`, in order.
pub open spec fn approver_seq(validators: Seq<ValidatorView>) -> Seq<Seq<char>>
    decreases validators.len(),
{
    if validators.len() == 0 {
        Seq::empty()
    } else {
        let rest = approver_seq(validators.drop_last());
        if active_approver(validators.last()) {
            rest.push(validators.last().id)
        } else {
            rest
        }
    }
}

/// The outcome of authorizing a validator for a permission.
pub open spec fn authorize_check(
    validators: Map<Seq<char>, ValidatorView>,
    id: Seq<char>,
    permission: Permission,
) -> Result<ValidatorView, ErrorSpec> {
    if !validators.contains_key(id) {
        Err(ErrorSpec::UnknownValidator { id })
    } else if !validators[id].active {
        Err(ErrorSpec::InactiveValidator { id })
    } else if !validators[id].permissions.contains(permission) {
        Err(ErrorSpec::ValidatorPermissionDenied { id, permission: permission_name(permission) })
    } else {
        Ok(validators[id])
    }
}

/// The outcome of checking a validator's signature for a permission.
pub open spec fn verify_check(
    validators: Map<Seq<char>, ValidatorView>,
    id: Seq<char>,
    permission: Permission,
    message: Seq<u8>,
    signature: Seq<u8>,
) -> Result<(), ErrorSpec> {
    match authorize_check(validators, id, permission) {
        Err(e) => Err(e),
        Ok(v) => signature_check(v.public_key, message, signature),
    }
}

proof fn lemma_registry_map(validators: Seq<ValidatorView>)
    requires
        unique_ids(validators),
    ensures
        forall|i: int|
            0 <= i < validators.len() ==> registry_map(validators).contains_key(
                (#[trigger] validators[i]).id,
            ) && registry_map(validators)[validators[i].id] == validators[i],
{
    assert forall|i: int| 0 <= i < validators.len() implies registry_map(validators).contains_key(
        (#[trigger] validators[i]).id,
    ) && registry_map(validators)[validators[i].id] == validators[i] by {
        let id = validators[i].id;
        assert(has_id(validators, id));
        let j = choose|j: int| 0 <= j < validators.len() && (#[trigger] validators[j]).id == id;
        assert(j == i);
    }
}

proof fn lemma_registry_push(before: Seq<ValidatorView>, v: ValidatorView)
    requires
        unique_ids(before),
        !has_id(before, v.id),
    ensures
        unique_ids(before.push(v)),
        registry_map(before.push(v)) == registry_map(before).insert(v.id, v),
{
    let after = before.push(v);
    assert forall|i: int, j: int|
        0 <= i < after.len() && 0 <= j < after.len() && i != j implies (#[trigger] after[i]).id
        != (#[trigger] after[j]).id by {
        if i < before.len() && j < before.len() {
            assert(after[i] == before[i] && after[j] == before[j]);
        } else if i < before.len() {
            assert(after[i] == before[i]);
        } else {
            assert(after[j] == before[j]);
        }
    }
    lemma_registry_map(before);
    lemma_registry_map(after);
    let m = registry_map(before).insert(v.id, v);
    assert forall|id: Seq<char>| #[trigger] registry_map(after).contains_key(id) <==> m.contains_key(
        id,
    ) by {
        if has_id(after, id) {
            let k = choose|k: int| 0 <= k < after.len() && (#[trigger] after[k]).id == id;
            if k < before.len() {
                assert(before[k] == after[k]);
            }
        }
        if has_id(before, id) {
            let k = choose|k: int| 0 <= k < before.len() && (#[trigger] before[k]).id == id;
            assert(after[k] == before[k]);
        }
        if id == v.id {
            assert(after[before.len() as int] == v);
        }
    }
    assert forall|id: Seq<char>| #[trigger] registry_map(after).contains_key(id) implies registry_map(
        after,
    )[id] == m[id] by {
        let k = choose|k: int| 0 <= k < after.len() && (#[trigger] after[k]).id == id;
        if k < before.len() {
            assert(before[k] == after[k]);
        }
    }
    assert(registry_map(after) =~= m);
}

proof fn lemma_registry_update(before: Seq<ValidatorView>, i: int, v: ValidatorView)
    requires
        unique_ids(before),
        0 <= i < before.len(),
        v.id == before[i].id,
    ensures
        unique_ids(before.update(i, v)),
        registry_map(before.update(i, v)) == registry_map(before).insert(v.id, v),
{
    let after = before.update(i, v);
    assert forall|a: int, b: int|
        0 <= a < after.len() && 0 <= b < after.len() && a != b implies (#[trigger] after[a]).id
        != (#[trigger] after[b]).id by {
        assert(after[a].id == before[a].id);
        assert(after[b].id == before[b].id);
    }
    lemma_registry_map(before);
    lemma_registry_map(after);
    let m = registry_map(before).insert(v.id, v);
    assert forall|id: Seq<char>| #[trigger] registry_map(after).contains_key(id) <==> m.contains_key(
        id,
    ) by {
        if has_id(after, id) {
            let k = choose|k: int| 0 <= k < after.len() && (#[trigger] after[k]).id == id;
            assert(before[k].id == id);
        }
        if has_id(before, id) {
            let k = choose|k: int| 0 <= k < before.len() && (#[trigger] before[k]).id == id;
            assert(after[k].id == id);
        }
        if id == v.id {
            assert(after[i] == v);
        }
    }
    assert forall|id: Seq<char>| #[trigger] registry_map(after).contains_key(id) implies registry_map(
        after,
    )[id] == m[id] by {
        let k = choose|k: int| 0 <= k < after.len() && (#[trigger] after[k]).id == id;
        assert(before[k].id == id);
        if k != i {
            assert(after[k] == before[k]);
        }
    }
    assert(registry_map(after) =~= m);
}

proof fn lemma_approver_seq(validators: Seq<ValidatorView>)
    requires
        unique_ids(validators),
    ensures
        approver_seq(validators).no_duplicates(),
        forall|id: Seq<char>|
            approver_seq(validators).contains(id) <==> exists|i: int|
                0 <= i < validators.len() && active_approver(#[trigger] validators[i])
                    && validators[i].id == id,
    decreases validators.len(),
{
    if validators.len() > 0 {
        let rest = validators.drop_last();
        assert forall|i: int, j: int|
            0 <= i < rest.len() && 0 <= j < rest.len() && i != j implies (#[trigger] rest[i]).id
            != (#[trigger] rest[j]).id by {
            assert(rest[i] == validators[i] && rest[j] == validators[j]);
        }
        lemma_approver_seq(rest);
        let last = validators.last();
        let n = validators.len() - 1;
        assert forall|id: Seq<char>|
            approver_seq(validators).contains(id) <==> exists|i: int|
                0 <= i < validators.len() && active_approver(#[trigger] validators[i])
                    && validators[i].id == id by {
            if approver_seq(validators).contains(id) {
                if approver_seq(rest).contains(id) {
                    let i = choose|i: int|
                        0 <= i < rest.len() && active_approver(#[trigger] rest[i]) && rest[i].id == id;
                    assert(validators[i] == rest[i]);
                } else {
                    let k = choose|k: int|
                        0 <= k < approver_seq(validators).len() && approver_seq(validators)[k] == id;
                    if active_approver(last) {
                        if k < approver_seq(rest).len() {
                            assert(approver_seq(rest)[k] == id);
                        }
                        assert(validators[n] == last);
                    }
                }
            }
            if exists|i: int|
                0 <= i < validators.len() && active_approver(#[trigger] validators[i])
                    && validators[i].id == id {
                let i = choose|i: int|
                    0 <= i < validators.len() && active_approver(#[trigger] validators[i])
                        && validators[i].id == id;
                if i < n {
                    assert(rest[i] == validators[i]);
                    assert(approver_seq(rest).contains(id));
                    let k = choose|k: int|
                        0 <= k < approver_seq(rest).len() && approver_seq(rest)[k] == id;
                    if active_approver(last) {
                        assert(approver_seq(validators)[k] == id);
                    }
                } else {
                    assert(approver_seq(validators)[approver_seq(rest).len() as int] == id);
                }
            }
        }
        if active_approver(last) {
            assert forall|i: int| 0 <= i < rest.len() implies (#[trigger] rest[i]).id != last.id by {
                assert(rest[i] == validators[i]);
                assert(validators[n] == last);
            }
            if approver_seq(rest).contains(last.id) {
                let i = choose|i: int|
                    0 <= i < rest.len() && active_approver(#[trigger] rest[i]) && rest[i].id == last.id;
                assert(false);
            }
            let s = approver_seq(validators);
            assert forall|a: int, b: int| 0 <= a < s.len() && 0 <= b < s.len() && a != b implies s[a]
                != s[b] by {
                let r = approver_seq(rest);
                if a < r.len() && b < r.len() {
                    assert(s[a] == r[a] && s[b] == r[b]);
                } else if a < r.len() {
                    assert(s[a] == r[a]);
                    assert(r.contains(s[a]));
                } else if b < r.len() {
                    assert(s[b] == r[b]);
                    assert(r.contains(s[b]));
                }
            }
        }
    }
}

/// The validators known to a node, by ID.
#[derive(Clone, Debug)]
pub struct ValidatorRegistry {
    validators: Vec<Validator>,
}

impl Default for ValidatorRegistry {
    fn default() -> (r: Self)
        ensures
            r.valid(),
            r.validators() == Map::<Seq<char>, ValidatorView>::empty(),
    {
        let r = ValidatorRegistry { validators: Vec::new() };
        assert(r.validators() =~= Map::<Seq<char>, ValidatorView>::empty());
        r
    }
}

impl ValidatorRegistry {
    /// The registered validators, by ID.
    pub closed spec fn validators(&self) -> Map<Seq<char>, ValidatorView> {
        registry_map(validators_view(self.validators@))
    }

    /// Well-formedness: IDs are unique.
    pub closed spec fn valid(&self) -> bool {
        unique_ids(validators_view(self.validators@))
    }

    /// The IDs of the active validators that may approve blocks.
    pub open spec fn approver_ids(&self) -> Set<Seq<char>> {
        approver_set(self.validators())
    }

    /// An empty registry.
    pub fn new() -> (r: Self)
        ensures
            r.valid(),
            r.validators() == Map::<Seq<char>, ValidatorView>::empty(),
    {
        let r = ValidatorRegistry { validators: Vec::new() };
        assert(r.validators() =~= Map::<Seq<char>, ValidatorView>::empty());
        r
    }

    fn position(&self, id: &str) -> (r: Option<usize>)
        requires
            self.valid(),
        ensures
            r matches Some(i) ==> i < self.validators@.len() && self.validators@[i as int]@.id
                == id@,
            r is None <==> !self.validators().contains_key(id@),
            r matches Some(i) ==> self.validators()[id@] == self.validators@[i as int]@,
    {
        let ghost all = validators_view(self.validators@);
        proof {
            lemma_registry_map(all);
        }
        let mut i: usize = 0;
        while i < self.validators.len()
            invariant
                all == validators_view(self.validators@),
                unique_ids(all),
                i <= self.validators@.len(),
                forall|k: int| 0 <= k < i ==> self.validators@[k]@.id != id@,
            decreases self.validators@.len() - i,
        {
            if crate::text::same_text(self.validators[i].id.as_str(), id) {
                proof {
                    lemma_registry_map(all);
                    assert(all[i as int] == self.validators@[i as int]@);
                }
                return Some(i);
            }
            i = i + 1;
        }
        proof {
            if has_id(all, id@) {
                let k = choose|k: int| 0 <= k < all.len() && (#[trigger] all[k]).id == id@;
                assert(all[k] == self.validators@[k]@);
            }
        }
        None
    }

    /// Registers a validator under a new ID.
    pub fn register(&mut self, validator: Validator) -> (r: Result<(), MiniChainError>)
        requires
            old(self).valid(),
        ensures
            final(self).valid(),
            r is Err <==> old(self).validators().contains_key(validator@.id),
            r matches Err(e) ==> e@ == (ErrorSpec::DuplicateValidator { id: validator@.id }),
            r is Ok ==> final(self).validators() == old(self).validators().insert(
                validator@.id,
                validator@,
            ),
            r is Err ==> final(self).validators() == old(self).validators(),
    {
        if self.position(validator.id.as_str()).is_some() {
            return Err(MiniChainError::DuplicateValidator { id: validator.id.clone() });
        }
        let ghost before = validators_view(self.validators@);
        let ghost v = validator@;
        self.validators.push(validator);
        proof {
            assert(validators_view(self.validators@) =~= before.push(v));
            lemma_registry_push(before, v);
        }
        Ok(())
    }

    /// The validator with `id`, if registered.
    pub fn get(&self, id: &str) -> (r: Option<&Validator>)
        requires
            self.valid(),
        ensures
            r is Some <==> self.validators().contains_key(id@),
            r matches Some(v) ==> v@ == self.validators()[id@],
    {
        match self.position(id) {
            Some(i) => Some(&self.validators[i]),
            None => None,
        }
    }

    /// Sets whether the validator with `id` is active.
    pub fn set_active(&mut self, id: &str, active: bool) -> (r: Result<(), MiniChainError>)
        requires
            old(self).valid(),
        ensures
            final(self).valid(),
            r is Err <==> !old(self).validators().contains_key(id@),
            r matches Err(e) ==> e@ == (ErrorSpec::UnknownValidator { id: id@ }),
            r is Ok ==> final(self).validators() == old(self).validators().insert(
                id@,
                (ValidatorView { active, ..old(self).validators()[id@] }),
            ),
            r is Err ==> final(self).validators() == old(self).validators(),
    {
        match self.position(id) {
            Some(i) => {
                let mut v = self.validators[i].clone();
                v.active = active;
                self.replace_at(i, v);
                Ok(())
            },
            None => Err(MiniChainError::UnknownValidator { id: id.to_owned() }),
        }
    }

    /// Records a heartbeat of the validator with `id`: its height and when it was seen.
    pub fn heartbeat(&mut self, id: &str, height: u64, observed_at: Timestamp) -> (r: Result<
        (),
        MiniChainError,
    >)
        requires
            old(self).valid(),
        ensures
            final(self).valid(),
            r is Err <==> !old(self).validators().contains_key(id@),
            r matches Err(e) ==> e@ == (ErrorSpec::UnknownValidator { id: id@ }),
            r is Ok ==> final(self).validators() == old(self).validators().insert(
                id@,
                (ValidatorView {
                    last_heartbeat: Some(observed_at),
                    block_height: height,
                    ..old(self).validators()[id@]
                }),
            ),
            r is Err ==> final(self).validators() == old(self).validators(),
    {
        match self.position(id) {
            Some(i) => {
                let mut v = self.validators[i].clone();
                v.last_heartbeat = Some(observed_at);
                v.block_height = height;
                self.replace_at(i, v);
                Ok(())
            },
            None => Err(MiniChainError::UnknownValidator { id: id.to_owned() }),
        }
    }

    fn replace_at(&mut self, i: usize, v: Validator)
        requires
            old(self).valid(),
            i < old(self).validators@.len(),
            v@.id == old(self).validators@[i as int]@.id,
        ensures
            final(self).valid(),
            final(self).validators() == old(self).validators().insert(v@.id, v@),
    {
        let ghost before = validators_view(self.validators@);
        let ghost w = v@;
        self.validators.set(i, v);
        proof {
            assert(validators_view(self.validators@) =~= before.update(i as int, w));
            lemma_registry_update(before, i as int, w);
        }
    }

    /// The validator with `id`, if it is registered, active and has `permission`.
    pub fn authorize(&self, id: &str, permission: Permission) -> (r: Result<&Validator, MiniChainError>)
        requires
            self.valid(),
        ensures
            match r {
                Ok(v) => authorize_check(self.validators(), id@, permission) == Ok::<
                    ValidatorView,
                    ErrorSpec,
                >(v@),
                Err(e) => authorize_check(self.validators(), id@, permission) == Err::<
                    ValidatorView,
                    ErrorSpec,
                >(e@),
            },
    {
        let validator = match self.get(id) {
            Some(v) => v,
            None => {
                return Err(MiniChainError::UnknownValidator { id: id.to_owned() });
            },
        };
        if !validator.active {
            return Err(MiniChainError::InactiveValidator { id: id.to_owned() });
        }
        if !has_permission(&validator.permissions, permission) {
            return Err(
                MiniChainError::ValidatorPermissionDenied { id: id.to_owned(), permission: permission.name() },
            );
        }
        Ok(validator)
    }

    /// Checks that the validator with `id` may act with `permission` and signed `message`.
    pub fn verify(&self, id: &str, permission: Permission, message: &[u8], signature: &[u8]) -> (r:
        Result<(), MiniChainError>)
        requires
            self.valid(),
        ensures
            outcome(r) == verify_check(self.validators(), id@, permission, message@, signature@),
    {
        let validator = self.authorize(id, permission)?;
        verify_signature(validator.public_key.as_slice(), message, signature)
    }

    /// The number of active validators that may approve blocks.
    pub fn active_approver_count(&self) -> (n: usize)
        requires
            self.valid(),
        ensures
            n == self.approver_ids().len(),
            n == Set::new(
                |id: Seq<char>|
                    self.validators().contains_key(id) && self.validators()[id].active
                        && self.validators()[id].permissions.contains(Permission::ApproveBlocks),
            ).len(),
    {
        let ids = self.active_approver_ids();
        proof {
            texts(ids@).unique_seq_to_set();
            lemma_approvers_are_active_with_approval(self.validators());
        }
        ids.len()
    }

    /// The IDs of the active validators that may approve blocks, each once.
    pub fn active_approver_ids(&self) -> (ids: Vec<String>)
        requires
            self.valid(),
        ensures
            texts(ids@).no_duplicates(),
            texts(ids@).to_set() == self.approver_ids(),
            forall|id: Seq<char>|
                #![trigger texts(ids@).contains(id)]
                texts(ids@).contains(id) <==> (self.validators().contains_key(id)
                    && self.validators()[id].active && self.validators()[id].permissions.contains(
                    Permission::ApproveBlocks,
                )),
    {
        let ghost all = validators_view(self.validators@);
        let mut ids: Vec<String> = Vec::new();
        let mut i: usize = 0;
        while i < self.validators.len()
            invariant
                all == validators_view(self.validators@),
                i <= self.validators@.len(),
                texts(ids@) == approver_seq(all.subrange(0, i as int)),
            decreases self.validators@.len() - i,
        {
            let v = &self.validators[i];
            assert(all.subrange(0, i + 1).drop_last() =~= all.subrange(0, i as int));
            assert(all.subrange(0, i + 1).last() == v@);
            if v.active && has_permission(&v.permissions, Permission::ApproveBlocks) {
                ids.push(v.id.clone());
            }
            assert(texts(ids@) =~= approver_seq(all.subrange(0, i + 1)));
            i = i + 1;
        }
        proof {
            assert(all.subrange(0, all.len() as int) =~= all);
            lemma_approver_seq(all);
            lemma_registry_map(all);
            let m = texts(ids@);
            assert forall|id: Seq<char>| m.to_set().contains(id) <==> self.approver_ids().contains(id) by {
                if m.to_set().contains(id) {
                    assert(m.contains(id));
                    let i = choose|i: int|
                        0 <= i < all.len() && active_approver(#[trigger] all[i]) && all[i].id == id;
                }
                if self.approver_ids().contains(id) {
                    let k = choose|k: int| 0 <= k < all.len() && (#[trigger] all[k]).id == id;
                    assert(active_approver(all[k]));
                }
            }
            assert(m.to_set() =~= self.approver_ids());
            lemma_approvers_are_active_with_approval(self.validators());
            assert forall|id: Seq<char>| #[trigger] m.contains(id) <==> self.approver_ids().contains(id) by {
                if m.contains(id) {
                    assert(m.to_set().contains(id));
                }
                if self.approver_ids().contains(id) {
                    assert(m.to_set().contains(id));
                }
            }
        }
        ids
    }
}

} // verus!
