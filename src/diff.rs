//! Which labels were added, modified or deleted between two item maps.
use vstd::prelude::*;

use crate::store::{ItemEntries, ItemMap};

verus! {

/// A set of labels, kept in a `hashbrown::HashSet<String>`.
#[verifier::external_body]
pub struct LabelSet {
    set: hashbrown::HashSet<String>,
}

/// The labels that a label set holds.
pub uninterp spec fn label_set_contents(s: LabelSet) -> Set<Seq<char>>;

impl View for LabelSet {
    type V = Set<Seq<char>>;

    open spec fn view(&self) -> Set<Seq<char>> {
        label_set_contents(*self)
    }
}

impl LabelSet {
    /// Relies on `hashbrown::HashSet::new`: the new set is empty.
    #[verifier::external_body]
    pub(crate) fn new() -> (r: Self)
        ensures
            label_set_contents(r) == Set::<Seq<char>>::empty(),
    {
        LabelSet { set: hashbrown::HashSet::new() }
    }

    /// Relies on `hashbrown::HashSet::insert`: `label` is present afterwards.
    #[verifier::external_body]
    pub(crate) fn insert(&mut self, label: String)
        ensures
            label_set_contents(*final(self)) == label_set_contents(*old(self)).insert(label@),
    {
        self.set.insert(label);
    }

    /// Relies on `hashbrown::HashSet::into_iter`: each label once, in no particular order.
    #[verifier::external_body]
    pub(crate) fn into_vec(self) -> (r: Vec<String>)
        ensures
            forall|i: int| 0 <= i < r@.len() ==> label_set_contents(self).contains(#[trigger] r@[i]@),
            forall|k: Seq<char>| #[trigger]
                label_set_contents(self).contains(k) ==> exists|i: int| 0 <= i < r@.len() && r@[i]@ == k,
            forall|i: int, j: int| 0 <= i < j < r@.len() ==> r@[i]@ != r@[j]@,
    {
        self.set.into_iter().collect()
    }
}

/// The labels present in `new` only.
pub open spec fn added_labels(old: ItemEntries, new: ItemEntries) -> Set<Seq<char>> {
    new.dom().difference(old.dom())
}

/// The labels present in `old` only.
pub open spec fn deleted_labels(old: ItemEntries, new: ItemEntries) -> Set<Seq<char>> {
    old.dom().difference(new.dom())
}

/// The labels present in both with different items.
pub open spec fn modified_labels(old: ItemEntries, new: ItemEntries) -> Set<Seq<char>> {
    Set::new(|k: Seq<char>| old.contains_key(k) && new.contains_key(k) && old[k] != new[k])
}

/// The labels present in both with the same item.
pub open spec fn unchanged_labels(old: ItemEntries, new: ItemEntries) -> Set<Seq<char>> {
    Set::new(|k: Seq<char>| old.contains_key(k) && new.contains_key(k) && old[k] == new[k])
}

/// The outcome of a diff: three disjoint sets of labels.
pub struct Result {
    pub added: LabelSet,
    pub modified: LabelSet,
    pub deleted: LabelSet,
}

/// One change, tagged with its kind.
#[derive(Clone)]
pub enum Item<T> {
    Added(T),
    Modified(T),
    Deleted(T),
}

/// The rank of a kind in presentation order: added, modified, deleted.
pub open spec fn kind_rank<T>(it: Item<T>) -> int {
    match it {
        Item::Added(_) => 0,
        Item::Modified(_) => 1,
        Item::Deleted(_) => 2,
    }
}

/// The label that a change is about.
pub open spec fn item_label(it: Item<String>) -> Seq<char> {
    match it {
        Item::Added(k) => k@,
        Item::Modified(k) => k@,
        Item::Deleted(k) => k@,
    }
}

/// Whether `it` is one of the changes that `r` records.
pub open spec fn records(r: Result, it: Item<String>) -> bool {
    match it {
        Item::Added(k) => r.added@.contains(k@),
        Item::Modified(k) => r.modified@.contains(k@),
        Item::Deleted(k) => r.deleted@.contains(k@),
    }
}

impl Item<String> {
    /// A copy of this change.
    pub fn duplicate(&self) -> (r: Self)
        ensures
            r == *self,
    {
        match self {
            Item::Added(k) => Item::Added(k.clone()),
            Item::Modified(k) => Item::Modified(k.clone()),
            Item::Deleted(k) => Item::Deleted(k.clone()),
        }
    }

    /// The change in words: `added 'x'`, `modified 'x'` or `deleted 'x'`.
    pub fn to_string(&self) -> (r: String)
        ensures
            r@ == match self {
                Item::Added(k) => "added '"@ + k@ + "'"@,
                Item::Modified(k) => "modified '"@ + k@ + "'"@,
                Item::Deleted(k) => "deleted '"@ + k@ + "'"@,
            },
    {
        let (mut r, k) = match self {
            Item::Added(k) => (String::from_str("added '"), k),
            Item::Modified(k) => (String::from_str("modified '"), k),
            Item::Deleted(k) => (String::from_str("deleted '"), k),
        };
        r.append(k.as_str());
        r.append("'");
        r
    }
}

impl Result {
    /// All changes in one list: the added ones first, then the modified, then the deleted.
    pub fn concat(self) -> (r: Vec<Item<String>>)
        ensures
            forall|i: int| 0 <= i < r@.len() ==> records(self, #[trigger] r@[i]),
            forall|i: int, j: int|
                0 <= i < j < r@.len() ==> kind_rank(#[trigger] r@[i]) <= kind_rank(#[trigger] r@[j]),
            forall|i: int, j: int|
                0 <= i < j < r@.len() && kind_rank(r@[i]) == kind_rank(r@[j]) ==> item_label(
                    #[trigger] r@[i],
                ) != item_label(#[trigger] r@[j]),
            forall|k: Seq<char>| #[trigger]
                self.added@.contains(k) ==> exists|i: int|
                    0 <= i < r@.len() && r@[i] is Added && item_label(r@[i]) == k,
            forall|k: Seq<char>| #[trigger]
                self.modified@.contains(k) ==> exists|i: int|
                    0 <= i < r@.len() && r@[i] is Modified && item_label(r@[i]) == k,
            forall|k: Seq<char>| #[trigger]
                self.deleted@.contains(k) ==> exists|i: int|
                    0 <= i < r@.len() && r@[i] is Deleted && item_label(r@[i]) == k,
    {
        let ghost this = self;
        let added = self.added.into_vec();
        let modified = self.modified.into_vec();
        let deleted = self.deleted.into_vec();
        let mut r: Vec<Item<String>> = Vec::new();
        let mut i: usize = 0;
        while i < added.len()
            invariant
                0 <= i <= added@.len(),
                r@.len() == i,
                forall|j: int| 0 <= j < i ==> #[trigger] r@[j] == Item::Added(added@[j]),
            decreases added@.len() - i,
        {
            r.push(Item::Added(added[i].clone()));
            i = i + 1;
        }
        let mut i: usize = 0;
        while i < modified.len()
            invariant
                0 <= i <= modified@.len(),
                r@.len() == added@.len() + i,
                forall|j: int| 0 <= j < added@.len() ==> #[trigger] r@[j] == Item::Added(added@[j]),
                forall|j: int|
                    0 <= j < i ==> #[trigger] r@[added@.len() + j] == Item::Modified(modified@[j]),
            decreases modified@.len() - i,
        {
            r.push(Item::Modified(modified[i].clone()));
            i = i + 1;
        }
        let mut i: usize = 0;
        while i < deleted.len()
            invariant
                0 <= i <= deleted@.len(),
                r@.len() == added@.len() + modified@.len() + i,
                forall|j: int| 0 <= j < added@.len() ==> #[trigger] r@[j] == Item::Added(added@[j]),
                forall|j: int|
                    0 <= j < modified@.len() ==> #[trigger] r@[added@.len() + j] == Item::Modified(
                        modified@[j],
                    ),
                forall|j: int|
                    0 <= j < i ==> #[trigger] r@[added@.len() + modified@.len() + j]
                        == Item::Deleted(deleted@[j]),
            decreases deleted@.len() - i,
        {
            r.push(Item::Deleted(deleted[i].clone()));
            i = i + 1;
        }
        let ghost na = added@.len();
        let ghost nm = modified@.len();
        assert forall|i: int| 0 <= i < r@.len() implies records(this, #[trigger] r@[i]) by {
            if i < na {
                assert(r@[i] == Item::Added(added@[i]));
            } else if i < na + nm {
                assert(r@[na + (i - na)] == Item::Modified(modified@[i - na]));
            } else {
                assert(r@[na + nm + (i - na - nm)] == Item::Deleted(deleted@[i - na - nm]));
            }
        }
        assert forall|i: int, j: int| 0 <= i < j < r@.len() implies kind_rank(#[trigger] r@[i])
            <= kind_rank(#[trigger] r@[j]) by {
            if i < na {
                assert(r@[i] == Item::Added(added@[i]));
            } else if i < na + nm {
                assert(r@[na + (i - na)] == Item::Modified(modified@[i - na]));
            } else {
                assert(r@[na + nm + (i - na - nm)] == Item::Deleted(deleted@[i - na - nm]));
            }
            if j < na {
                assert(r@[j] == Item::Added(added@[j]));
            } else if j < na + nm {
                assert(r@[na + (j - na)] == Item::Modified(modified@[j - na]));
            } else {
                assert(r@[na + nm + (j - na - nm)] == Item::Deleted(deleted@[j - na - nm]));
            }
        }
        assert forall|i: int, j: int|
            0 <= i < j < r@.len() && kind_rank(r@[i]) == kind_rank(r@[j]) implies item_label(
            #[trigger] r@[i],
        ) != item_label(#[trigger] r@[j]) by {
            if i < na {
                assert(r@[i] == Item::Added(added@[i]));
            } else if i < na + nm {
                assert(r@[na + (i - na)] == Item::Modified(modified@[i - na]));
            } else {
                assert(r@[na + nm + (i - na - nm)] == Item::Deleted(deleted@[i - na - nm]));
            }
            if j < na {
                assert(r@[j] == Item::Added(added@[j]));
            } else if j < na + nm {
                assert(r@[na + (j - na)] == Item::Modified(modified@[j - na]));
            } else {
                assert(r@[na + nm + (j - na - nm)] == Item::Deleted(deleted@[j - na - nm]));
            }
        }
        assert forall|k: Seq<char>| #[trigger] this.added@.contains(k) implies exists|i: int|
            0 <= i < r@.len() && r@[i] is Added && item_label(r@[i]) == k by {
            let i = choose|i: int| 0 <= i < added@.len() && added@[i]@ == k;
            assert(r@[i] == Item::Added(added@[i]));
        }
        assert forall|k: Seq<char>| #[trigger] this.modified@.contains(k) implies exists|i: int|
            0 <= i < r@.len() && r@[i] is Modified && item_label(r@[i]) == k by {
            let i = choose|i: int| 0 <= i < modified@.len() && modified@[i]@ == k;
            assert(r@[na + i] == Item::Modified(modified@[i]));
        }
        assert forall|k: Seq<char>| #[trigger] this.deleted@.contains(k) implies exists|i: int|
            0 <= i < r@.len() && r@[i] is Deleted && item_label(r@[i]) == k by {
            let i = choose|i: int| 0 <= i < deleted@.len() && deleted@[i]@ == k;
            assert(r@[na + nm + i] == Item::Deleted(deleted@[i]));
        }
        r
    }
}

/// Compares two item maps: `added` holds the labels only in `rhs`, `deleted` those only in
/// `lhs`, and `modified` those in both whose items differ.
pub fn diff(lhs: &ItemMap, rhs: &ItemMap) -> (r: Result)
    ensures
        r.added@ == added_labels(lhs@, rhs@),
        r.modified@ == modified_labels(lhs@, rhs@),
        r.deleted@ == deleted_labels(lhs@, rhs@),
{
    let mut added = LabelSet::new();
    let mut modified = LabelSet::new();
    let mut deleted = LabelSet::new();

    let old_labels = lhs.labels();
    let mut i: usize = 0;
    while i < old_labels.len()
        invariant
            0 <= i <= old_labels@.len(),
            forall|j: int| 0 <= j < old_labels@.len() ==> lhs@.contains_key(#[trigger] old_labels@[j]@),
            forall|k: Seq<char>|
                #[trigger] deleted@.contains(k) <==> (exists|j: int| 0 <= j < i && old_labels@[j]@ == k)
                    && !rhs@.contains_key(k),
        decreases old_labels@.len() - i,
    {
        let key = &old_labels[i];
        let ghost prev = deleted@;
        if rhs.get(key.as_str()).is_none() {
            deleted.insert(key.clone());
        }
        assert(deleted@ == if rhs@.contains_key(key@) { prev } else { prev.insert(key@) });
        proof {
            assert forall|k: Seq<char>|
                #[trigger] deleted@.contains(k) <==> (exists|j: int| 0 <= j < i + 1 && old_labels@[j]@ == k)
                    && !rhs@.contains_key(k) by {
                if k == old_labels@[i as int]@ {
                    assert(0 <= i < i + 1 && old_labels@[i as int]@ == k);
                } else {
                    if exists|j: int| 0 <= j < i + 1 && old_labels@[j]@ == k {
                        let j = choose|j: int| 0 <= j < i + 1 && old_labels@[j]@ == k;
                        assert(j != i);
                        assert(0 <= j < i && old_labels@[j]@ == k);
                    }
                }
            }
        }
        i = i + 1;
    }

    let new_labels = rhs.labels();
    let mut i: usize = 0;
    while i < new_labels.len()
        invariant
            0 <= i <= new_labels@.len(),
            forall|j: int| 0 <= j < new_labels@.len() ==> rhs@.contains_key(#[trigger] new_labels@[j]@),
            forall|k: Seq<char>|
                #[trigger] added@.contains(k) <==> (exists|j: int| 0 <= j < i && new_labels@[j]@ == k)
                    && !lhs@.contains_key(k),
            forall|k: Seq<char>|
                #[trigger] modified@.contains(k) <==> (exists|j: int| 0 <= j < i && new_labels@[j]@ == k)
                    && lhs@.contains_key(k) && lhs@[k] != rhs@[k],
            forall|k: Seq<char>|
                #[trigger] deleted@.contains(k) <==> (exists|j: int| 0 <= j < old_labels@.len() && old_labels@[j]@ == k)
                    && !rhs@.contains_key(k),
        decreases new_labels@.len() - i,
    {
        let key = &new_labels[i];
        let ghost prev_added = added@;
        let ghost prev_modified = modified@;
        let new_value = rhs.get(key.as_str());
        match lhs.get(key.as_str()) {
            None => {
                added.insert(key.clone());
            },
            Some(old_value) => {
                match new_value {
                    Some(v) => {
                        if !v.same_as(old_value) {
                            modified.insert(key.clone());
                        }
                    },
                    None => {},
                }
            },
        }
        assert(added@ == if lhs@.contains_key(key@) { prev_added } else { prev_added.insert(key@) });
        assert(modified@ == if lhs@.contains_key(key@) && lhs@[key@] != rhs@[key@] {
            prev_modified.insert(key@)
        } else {
            prev_modified
        });
        proof {
            assert forall|k: Seq<char>|
                #[trigger] added@.contains(k) <==> (exists|j: int| 0 <= j < i + 1 && new_labels@[j]@ == k)
                    && !lhs@.contains_key(k) by {
                if k != new_labels@[i as int]@ {
                    if exists|j: int| 0 <= j < i + 1 && new_labels@[j]@ == k {
                        let j = choose|j: int| 0 <= j < i + 1 && new_labels@[j]@ == k;
                        assert(j != i);
                        assert(0 <= j < i && new_labels@[j]@ == k);
                    }
                } else {
                    assert(0 <= i < i + 1 && new_labels@[i as int]@ == k);
                }
            }
            assert forall|k: Seq<char>|
                #[trigger] modified@.contains(k) <==> (exists|j: int| 0 <= j < i + 1 && new_labels@[j]@ == k)
                    && lhs@.contains_key(k) && lhs@[k] != rhs@[k] by {
                if k != new_labels@[i as int]@ {
                    if exists|j: int| 0 <= j < i + 1 && new_labels@[j]@ == k {
                        let j = choose|j: int| 0 <= j < i + 1 && new_labels@[j]@ == k;
                        assert(j != i);
                        assert(0 <= j < i && new_labels@[j]@ == k);
                    }
                } else {
                    assert(0 <= i < i + 1 && new_labels@[i as int]@ == k);
                }
            }
        }
        i = i + 1;
    }
    proof {
        assert(added@ =~= added_labels(lhs@, rhs@));
        assert(modified@ =~= modified_labels(lhs@, rhs@));
        assert(deleted@ =~= deleted_labels(lhs@, rhs@));
    }
    Result { added, modified, deleted }
}

/// Every label of either map falls in exactly one of added, modified, deleted and
/// unchanged; so no label is in two of added, modified and deleted.
pub proof fn lemma_diff_partition(old: ItemEntries, new: ItemEntries)
    ensures
        added_labels(old, new) + modified_labels(old, new) + deleted_labels(old, new)
            + unchanged_labels(old, new) == old.dom() + new.dom(),
        added_labels(old, new).disjoint(modified_labels(old, new)),
        added_labels(old, new).disjoint(deleted_labels(old, new)),
        added_labels(old, new).disjoint(unchanged_labels(old, new)),
        modified_labels(old, new).disjoint(deleted_labels(old, new)),
        modified_labels(old, new).disjoint(unchanged_labels(old, new)),
        deleted_labels(old, new).disjoint(unchanged_labels(old, new)),
{
    assert(added_labels(old, new) + modified_labels(old, new) + deleted_labels(old, new)
        + unchanged_labels(old, new) =~= old.dom() + new.dom());
}

/// The changes at the given positions, in the order of `indices`: what the user picked.
pub fn select_changes(indices: &[usize], changes: &[Item<String>]) -> (r: Vec<Item<String>>)
    requires
        forall|i: int| 0 <= i < indices@.len() ==> #[trigger] indices@[i] < changes@.len(),
    ensures
        r@.len() == indices@.len(),
        forall|i: int| 0 <= i < indices@.len() ==> r@[i] == changes@[#[trigger] indices@[i] as int],
{
    let mut r: Vec<Item<String>> = Vec::new();
    let mut i: usize = 0;
    while i < indices.len()
        invariant
            0 <= i <= indices@.len(),
            r@.len() == i,
            forall|i: int| 0 <= i < indices@.len() ==> #[trigger] indices@[i] < changes@.len(),
            forall|j: int| 0 <= j < i ==> r@[j] == changes@[#[trigger] indices@[j] as int],
        decreases indices@.len() - i,
    {
        r.push(changes[indices[i]].duplicate());
        i = i + 1;
    }
    r
}

} // verus!
