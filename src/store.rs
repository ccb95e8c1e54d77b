//! The encrypted item collection and its key-wrapping metadata.
use vstd::prelude::*;
use vstd::string::StringSliceAdditionalSpecFns;

use crate::crypto::{aes_gcm_open, aes_gcm_seal, argon2_key, derive_key, wrap, MAX_PASSPHRASE_LEN};
use crate::diff;
use crate::error::PassManagerErr;
use crate::manager::{Manager, MIN_PASSPHRASE_LEN};

verus! {

/// One secret, sealed under the master key with its own nonce.
#[derive(Clone)]
pub struct Item {
    pub nonce: [u8; 12],
    pub password: Vec<u8>,
}

impl View for Item {
    /// The nonce and the ciphertext.
    type V = (Seq<u8>, Seq<u8>);

    open spec fn view(&self) -> (Seq<u8>, Seq<u8>) {
        (self.nonce@, self.password@)
    }
}

impl Item {
    pub fn new(nonce: [u8; 12], password: Vec<u8>) -> (r: Self)
        ensures
            r.nonce == nonce,
            r.password == password,
    {
        Self { nonce, password }
    }

    /// A copy of this item.
    pub fn duplicate(&self) -> (r: Self)
        ensures
            r@ == self@,
    {
        let password = self.password.clone();
        assert(password@ =~= self.password@);
        Self { nonce: self.nonce, password }
    }

    /// Whether both items hold the same nonce and ciphertext.
    pub fn same_as(&self, other: &Item) -> (r: bool)
        ensures
            r == (self@ == other@),
    {
        let mut i: usize = 0;
        while i < 12
            invariant
                0 <= i <= 12,
                forall|j: int| 0 <= j < i ==> self.nonce@[j] == other.nonce@[j],
            decreases 12 - i,
        {
            if self.nonce[i] != other.nonce[i] {
                return false;
            }
            i = i + 1;
        }
        assert(self.nonce@ =~= other.nonce@);
        if self.password.len() != other.password.len() {
            return false;
        }
        let mut k: usize = 0;
        while k < self.password.len()
            invariant
                0 <= k <= self.password@.len(),
                self.password@.len() == other.password@.len(),
                forall|j: int| 0 <= j < k ==> self.password@[j] == other.password@[j],
            decreases self.password@.len() - k,
        {
            if self.password[k] != other.password[k] {
                return false;
            }
            k = k + 1;
        }
        assert(self.password@ =~= other.password@);
        true
    }
}

impl PartialEq for Item {
    fn eq(&self, other: &Item) -> (r: bool) {
        self.same_as(other)
    }
}

impl vstd::std_specs::cmp::PartialEqSpecImpl for Item {
    open spec fn obeys_eq_spec() -> bool {
        true
    }

    open spec fn eq_spec(&self, other: &Item) -> bool {
        self@ == other@
    }
}

impl Eq for Item {

}

/// The items of a store by label, kept in a `hashbrown::HashMap<String, Item>`.
#[verifier::external_body]
pub struct ItemMap {
    map: hashbrown::HashMap<String, Item>,
}

/// Labels with the nonce and ciphertext of each item.
pub type ItemEntries = Map<Seq<char>, (Seq<u8>, Seq<u8>)>;

/// What an item map holds: each label with its item's nonce and ciphertext.
pub uninterp spec fn item_entries(m: ItemMap) -> Map<Seq<char>, (Seq<u8>, Seq<u8>)>;

impl View for ItemMap {
    type V = Map<Seq<char>, (Seq<u8>, Seq<u8>)>;

    open spec fn view(&self) -> Map<Seq<char>, (Seq<u8>, Seq<u8>)> {
        item_entries(*self)
    }
}

impl ItemMap {
    /// Relies on `hashbrown::HashMap::new`: the new map is empty.
    #[verifier::external_body]
    pub fn new() -> (r: Self)
        ensures
            item_entries(r) == ItemEntries::empty(),
    {
        ItemMap { map: hashbrown::HashMap::new() }
    }

    /// Relies on `hashbrown::HashMap::is_empty`: true exactly when no label is present.
    #[verifier::external_body]
    pub fn is_empty(&self) -> (r: bool)
        ensures
            r == (item_entries(*self) == ItemEntries::empty()),
    {
        self.map.is_empty()
    }

    /// Relies on `hashbrown::HashMap::get`: the item stored under `label`, if any.
    #[verifier::external_body]
    pub fn get(&self, label: &str) -> (r: Option<&Item>)
        ensures
            r is Some <==> item_entries(*self).contains_key(label@),
            r matches Some(v) ==> item_entries(*self)[label@] == v@,
    {
        self.map.get(label)
    }

    /// Relies on `hashbrown::HashMap::insert`: `label` maps to `item` afterwards, the rest
    /// is unchanged.
    #[verifier::external_body]
    pub fn insert(&mut self, label: String, item: Item)
        ensures
            item_entries(*final(self)) == item_entries(*old(self)).insert(label@, item@),
    {
        self.map.insert(label, item);
    }

    /// Relies on `hashbrown::HashMap::remove`: `label` is absent afterwards, the rest is
    /// unchanged, and the removed item comes back.
    #[verifier::external_body]
    pub fn remove(&mut self, label: &str) -> (r: Option<Item>)
        ensures
            item_entries(*final(self)) == item_entries(*old(self)).remove(label@),
            r is Some <==> item_entries(*old(self)).contains_key(label@),
            r matches Some(v) ==> item_entries(*old(self))[label@] == v@,
    {
        self.map.remove(label)
    }

    /// Relies on `hashbrown::HashMap::keys`: each label once, in no particular order.
    #[verifier::external_body]
    pub fn labels(&self) -> (r: Vec<String>)
        ensures
            forall|i: int| 0 <= i < r@.len() ==> item_entries(*self).contains_key(#[trigger] r@[i]@),
            forall|k: Seq<char>| #[trigger]
                item_entries(*self).contains_key(k) ==> exists|i: int| 0 <= i < r@.len() && r@[i]@ == k,
            forall|i: int, j: int| 0 <= i < j < r@.len() ==> r@[i]@ != r@[j]@,
    {
        self.map.keys().cloned().collect()
    }
}

/// The store: the wrapped master key, the parameters to unwrap it, and the items.
pub struct Store {
    pub key: Vec<u8>,
    pub nonce: [u8; 12],
    pub salt: [u8; 16],
    pub items: ItemMap,
}

impl Store {
    /// An empty store around a wrapped master key.
    pub fn new(key: Vec<u8>, salt: [u8; 16], nonce: [u8; 12]) -> (r: Self)
        ensures
            r.key == key,
            r.salt == salt,
            r.nonce == nonce,
            r.items@ == ItemEntries::empty(),
    {
        Self { nonce, key, salt, items: ItemMap::new() }
    }

    pub fn is_empty(&self) -> (r: bool)
        ensures
            r == (self.items@ == ItemEntries::empty()),
    {
        self.items.is_empty()
    }

    /// Removes `label`; true when it was present.
    pub fn delete(&mut self, label: &str) -> (r: bool)
        ensures
            final(self).items@ == old(self).items@.remove(label@),
            r == old(self).items@.contains_key(label@),
            final(self).key == old(self).key,
            final(self).nonce == old(self).nonce,
            final(self).salt == old(self).salt,
    {
        self.items.remove(label).is_some()
    }
}

/// `local` after the selected changes: added and modified labels take the remote item,
/// deleted ones leave.
pub open spec fn apply_changes(
    local: ItemEntries,
    remote: ItemEntries,
    selected: Seq<diff::Item<String>>,
) -> ItemEntries
    decreases selected.len(),
{
    if selected.len() == 0 {
        local
    } else {
        let m = apply_changes(local, remote, selected.drop_last());
        match selected.last() {
            diff::Item::Added(k) => m.insert(k@, remote[k@]),
            diff::Item::Modified(k) => m.insert(k@, remote[k@]),
            diff::Item::Deleted(k) => m.remove(k@),
        }
    }
}

/// Whether every added or modified change names a label that `remote` holds.
pub open spec fn changes_available(remote: ItemEntries, selected: Seq<diff::Item<String>>) -> bool {
    forall|i: int|
        0 <= i < selected.len() ==> match #[trigger] selected[i] {
            diff::Item::Added(k) => remote.contains_key(k@),
            diff::Item::Modified(k) => remote.contains_key(k@),
            diff::Item::Deleted(_) => true,
        }
}

/// The values at the given positions, in the order of `indices`.
pub fn get_values_from_indices<T: Clone>(indices: &[usize], values: &[T]) -> (r: Vec<T>)
    requires
        forall|i: int| 0 <= i < indices@.len() ==> #[trigger] indices@[i] < values@.len(),
    ensures
        r@.len() == indices@.len(),
        forall|i: int| 0 <= i < indices@.len() ==> cloned(values@[#[trigger] indices@[i] as int], r@[i]),
{
    let mut r: Vec<T> = Vec::new();
    let mut i: usize = 0;
    while i < indices.len()
        invariant
            0 <= i <= indices@.len(),
            r@.len() == i,
            forall|i: int| 0 <= i < indices@.len() ==> #[trigger] indices@[i] < values@.len(),
            forall|j: int| 0 <= j < i ==> cloned(values@[#[trigger] indices@[j] as int], r@[j]),
        decreases indices@.len() - i,
    {
        r.push(values[indices[i]].clone());
        i = i + 1;
    }
    r
}

/// The refspec that pushes the local history; a forced push may rewrite the remote's.
pub fn push_refspec(force: bool) -> (r: &'static str)
    ensures
        r@ == if force {
            "+refs/heads/main:refs/heads/main"@
        } else {
            "refs/heads/main:refs/heads/main"@
        },
{
    if force {
        "+refs/heads/main:refs/heads/main"
    } else {
        "refs/heads/main:refs/heads/main"
    }
}

impl Manager {
    /// Removes every item once the user has confirmed; nothing changes otherwise.
    pub fn reset(&mut self, confirmed: bool)
        requires
            old(self).wf(),
        ensures
            final(self).wf(),
            final(self).same_session(old(self)),
            confirmed ==> final(self).store.items@ == ItemEntries::empty() && final(self).fs_dirty,
            !confirmed ==> final(self).store.items@ == old(self).store.items@ && final(self).fs_dirty
                == old(self).fs_dirty,
    {
        if confirmed {
            self.store.items = ItemMap::new();
            self.fs_dirty = true;
            self.success_message = Some(String::from_str("Successfully reset store"));
        }
    }

    /// Rekeys: wraps the same master key under the key derived from `new_passphrase`, with a
    /// fresh salt and nonce. Items are untouched.
    pub fn modify(&mut self, new_passphrase: &str) -> (r: Result<(), PassManagerErr>)
        requires
            old(self).wf(),
        ensures
            final(self).wf(),
            final(self).master_key == old(self).master_key,
            final(self).store.items@ == old(self).store.items@,
            final(self).user == old(self).user,
            new_passphrase@.len() < MIN_PASSPHRASE_LEN ==> r matches Err(
                PassManagerErr::PassphraseTooShort,
            ),
            new_passphrase@.len() >= MIN_PASSPHRASE_LEN && new_passphrase.spec_bytes().len()
                <= MAX_PASSPHRASE_LEN ==> r is Ok,
            r is Err ==> final(self).store.key == old(self).store.key && final(self).store.nonce
                == old(self).store.nonce && final(self).store.salt == old(self).store.salt
                && final(self).derived_key == old(self).derived_key && final(self).fs_dirty == old(self).fs_dirty,
            r is Ok ==> final(self).store.key@ == aes_gcm_seal(
                final(self).derived_key@,
                final(self).store.nonce@,
                final(self).master_key@,
            ),
            r is Ok ==> final(self).derived_key@ == argon2_key(
                new_passphrase.spec_bytes(),
                final(self).store.salt@,
            ) && aes_gcm_open(
                argon2_key(new_passphrase.spec_bytes(), final(self).store.salt@),
                final(self).store.nonce@,
                final(self).store.key@,
            ) == Some(old(self).master_key@) && final(self).fs_dirty,
    {
        if new_passphrase.unicode_len() < MIN_PASSPHRASE_LEN {
            return Err(PassManagerErr::PassphraseTooShort);
        }
        let new_salt: [u8; 16] = rand::random();
        let new_nonce: [u8; 12] = rand::random();
        let new_derived = match derive_key(new_passphrase.as_bytes(), &new_salt) {
            Ok(k) => k,
            Err(e) => {
                return Err(e);
            },
        };
        let new_key = wrap(&new_derived, &new_nonce, &self.master_key);
        self.store.nonce = new_nonce;
        self.store.salt = new_salt;
        self.store.key = new_key;
        self.derived_key = new_derived;
        self.fs_dirty = true;
        self.success_message = Some(String::from_str("Successfully modified store key"));
        Ok(())
    }

    /// Applies the changes the user picked from a pull: added and modified labels are copied
    /// from the remote items, deleted ones are removed. Fails, changing nothing, when a label
    /// to copy is missing from the remote items.
    pub fn apply_pull(&mut self, remote: &ItemMap, selected: Vec<diff::Item<String>>) -> (r:
        Result<(), PassManagerErr>)
        requires
            old(self).wf(),
        ensures
            final(self).wf(),
            final(self).same_session(old(self)),
            r is Ok <==> changes_available(remote@, selected@),
            r is Ok ==> final(self).store.items@ == apply_changes(
                old(self).store.items@,
                remote@,
                selected@,
            ) && final(self).fs_dirty,
            r is Err ==> final(self).store.items@ == old(self).store.items@ && final(self).fs_dirty
                == old(self).fs_dirty,
    {
        let mut i: usize = 0;
        while i < selected.len()
            invariant
                0 <= i <= selected@.len(),
                *self == *old(self),
                old(self).wf(),
                forall|j: int| 0 <= j < i ==> match #[trigger] selected@[j] {
                    diff::Item::Added(k) => remote@.contains_key(k@),
                    diff::Item::Modified(k) => remote@.contains_key(k@),
                    diff::Item::Deleted(_) => true,
                },
            decreases selected@.len() - i,
        {
            let missing = match &selected[i] {
                diff::Item::Added(k) => remote.get(k.as_str()).is_none(),
                diff::Item::Modified(k) => remote.get(k.as_str()).is_none(),
                diff::Item::Deleted(_) => false,
            };
            if missing {
                let label = match &selected[i] {
                    diff::Item::Added(k) => k.clone(),
                    diff::Item::Modified(k) => k.clone(),
                    diff::Item::Deleted(k) => k.clone(),
                };
                return Err(PassManagerErr::PreviousVersion { bin: label });
            }
            i = i + 1;
        }
        let ghost start = self.store.items@;
        let mut i: usize = 0;
        while i < selected.len()
            invariant
                0 <= i <= selected@.len(),
                self.wf(),
                self.same_session(old(self)),
                changes_available(remote@, selected@),
                self.store.items@ == apply_changes(start, remote@, selected@.subrange(0, i as int)),
            decreases selected@.len() - i,
        {
            proof {
                assert(selected@.subrange(0, i + 1).drop_last() =~= selected@.subrange(0, i as int));
                assert(selected@.subrange(0, i + 1).last() == selected@[i as int]);
            }
            match &selected[i] {
                diff::Item::Added(k) | diff::Item::Modified(k) => {
                    match remote.get(k.as_str()) {
                        Some(v) => {
                            self.store.items.insert(k.clone(), v.duplicate());
                        },
                        None => {},
                    }
                },
                diff::Item::Deleted(k) => {
                    self.store.items.remove(k.as_str());
                },
            }
            i = i + 1;
        }
        assert(selected@.subrange(0, selected@.len() as int) =~= selected@);
        self.fs_dirty = true;
        self.success_message = Some(String::from_str("Successfully pulled store from remote"));
        Ok(())
    }
}

} // verus!
