//! The session over one installation: it owns the store, the user record and the keys, and
//! carries out the item operations.
use rand::seq::SliceRandom;
use vstd::prelude::*;
use vstd::string::StringSliceAdditionalSpecFns;
use vstd::utf8::{decode_utf8, valid_utf8};

use crate::crypto::{
    aes_gcm_open, aes_gcm_seal, argon2_key, decrypt, derive_key, encrypt, unwrap, wrap,
    MAX_PASSPHRASE_LEN, MAX_PLAINTEXT_LEN,
};
use crate::error::PassManagerErr;
use crate::store::{ItemEntries, Item, Store};
use crate::table::Table;
use crate::cmd::{add_message, field_list, fields_text};
use crate::text::{
    concat3, lemma_split_append_plain, lemma_split_append_sep, split_on, split_spec, str_eq,
    strings_view, utf8_string,
};
use crate::user::{seal_user_blob, User};

verus! {

/// The fewest characters a passphrase may have.
pub const MIN_PASSPHRASE_LEN: usize = 8;

/// Accepts a passphrase of at least eight characters.
pub fn length_validator(inp: &str) -> (r: Result<(), String>)
    ensures
        r is Ok <==> inp@.len() >= MIN_PASSPHRASE_LEN,
        r matches Err(m) ==> m@ == "Password must be longer than 8"@,
{
    if inp.unicode_len() >= MIN_PASSPHRASE_LEN {
        Ok(())
    } else {
        Err(String::from_str("Password must be longer than 8"))
    }
}

/// The byte at position `i` of the password alphabet: digits, upper case, lower case, then
/// the ASCII punctuation in code order.
pub open spec fn alphabet_byte(i: int) -> u8 {
    if i < 10 {
        (48 + i) as u8
    } else if i < 36 {
        (65 + i - 10) as u8
    } else if i < 62 {
        (97 + i - 36) as u8
    } else if i < 77 {
        (33 + i - 62) as u8
    } else if i < 84 {
        (58 + i - 77) as u8
    } else if i < 90 {
        (91 + i - 84) as u8
    } else {
        (123 + i - 90) as u8
    }
}

/// The alphabet a generated password draws from: 62 alphanumeric characters, or those and
/// the 32 punctuation characters.
pub open spec fn password_alphabet(special_chars: bool) -> Seq<u8> {
    Seq::new(if special_chars { 94 } else { 62 }, |i: int| alphabet_byte(i))
}

proof fn lemma_alphabet_distinct(special_chars: bool)
    ensures
        password_alphabet(special_chars).no_duplicates(),
{
    assert forall|i: int, j: int|
        0 <= i < j < password_alphabet(special_chars).len() implies password_alphabet(
        special_chars,
    )[i] != password_alphabet(special_chars)[j] by {
        assert(alphabet_byte(i) != alphabet_byte(j));
    }
}

fn password_charset(special_chars: bool) -> (r: Vec<u8>)
    ensures
        r@ == password_alphabet(special_chars),
{
    let n: u8 = if special_chars { 94 } else { 62 };
    let mut r: Vec<u8> = Vec::new();
    let mut i: u8 = 0;
    while i < n
        invariant
            n == password_alphabet(special_chars).len(),
            0 <= i <= n,
            r@ =~= password_alphabet(special_chars).subrange(0, i as int),
        decreases n - i,
    {
        let b: u8 = if i < 10 {
            48 + i
        } else if i < 36 {
            65 + i - 10
        } else if i < 62 {
            97 + i - 36
        } else if i < 77 {
            33 + i - 62
        } else if i < 84 {
            58 + i - 77
        } else if i < 90 {
            91 + i - 84
        } else {
            123 + i - 90
        };
        r.push(b);
        i = i + 1;
    }
    r
}

/// Relies on `SliceRandom::choose_multiple` (rand) with the thread-local generator: it picks
/// `amount` elements, or all of them when there are fewer, at distinct positions.
#[verifier::external_body]
fn choose_distinct(alphabet: &[u8], amount: usize) -> (r: Vec<u8>)
    requires
        alphabet@.no_duplicates(),
    ensures
        r@.len() == if amount < alphabet@.len() {
            amount as int
        } else {
            alphabet@.len() as int
        },
        forall|i: int| 0 <= i < r@.len() ==> alphabet@.contains(#[trigger] r@[i]),
        r@.no_duplicates(),
{
    alphabet.choose_multiple(&mut rand::thread_rng(), amount).copied().collect()
}

/// A random password of `len` characters (at most the alphabet's size), drawn without
/// replacement from the alphanumeric alphabet, or that and punctuation.
pub fn generate_password(len: usize, special_chars: bool) -> (r: Vec<u8>)
    ensures
        r@.len() == if len < password_alphabet(special_chars).len() {
            len as int
        } else {
            password_alphabet(special_chars).len() as int
        },
        forall|i: int| 0 <= i < r@.len() ==> password_alphabet(special_chars).contains(#[trigger] r@[i]),
        r@.no_duplicates(),
{
    let charset = password_charset(special_chars);
    proof {
        lemma_alphabet_distinct(special_chars);
    }
    choose_distinct(charset.as_slice(), len)
}

/// The keys of an unlocked session.
pub struct SessionKeys {
    pub derived_key: [u8; 32],
    pub master_key: [u8; 32],
}

/// The master key that `passphrase` unlocks in `store`, if any.
pub open spec fn unlocked_master(store: Store, passphrase: Seq<u8>) -> Option<Seq<u8>> {
    match aes_gcm_open(argon2_key(passphrase, store.salt@), store.nonce@, store.key@) {
        Some(m) => if m.len() == 32 {
            Some(m)
        } else {
            None
        },
        None => None,
    }
}

/// A session whose key was derived from `passphrase` (as `init` and `modify` leave it)
/// unlocks again with that passphrase, to the same master key.
pub proof fn lemma_unlock_round_trip(m: Manager, passphrase: Seq<u8>)
    requires
        m.wf(),
        m.derived_key@ == argon2_key(passphrase, m.store.salt@),
    ensures
        unlocked_master(m.store, passphrase) == Some(m.master_key@),
{
}

/// Derives the key from `passphrase` and unwraps the master key of `store` with it. A wrong
/// passphrase fails here, before anything changes.
pub fn unlock(store: &Store, passphrase: &str) -> (r: Result<SessionKeys, PassManagerErr>)
    ensures
        passphrase@.len() < MIN_PASSPHRASE_LEN ==> r matches Err(PassManagerErr::PassphraseTooShort),
        passphrase@.len() >= MIN_PASSPHRASE_LEN && passphrase.spec_bytes().len() <= MAX_PASSPHRASE_LEN
            ==> (r is Ok <==> unlocked_master(*store, passphrase.spec_bytes()) is Some),
        r matches Ok(k) ==> unlocked_master(*store, passphrase.spec_bytes()) == Some(k.master_key@),
        r matches Ok(k) ==> k.derived_key@ == argon2_key(passphrase.spec_bytes(), store.salt@),
        r matches Ok(k) ==> aes_gcm_open(k.derived_key@, store.nonce@, store.key@) == Some(
            k.master_key@,
        ),
{
    if passphrase.unicode_len() < MIN_PASSPHRASE_LEN {
        return Err(PassManagerErr::PassphraseTooShort);
    }
    let derived_key = match derive_key(passphrase.as_bytes(), &store.salt) {
        Ok(k) => k,
        Err(e) => {
            return Err(e);
        },
    };
    match unwrap(&derived_key, &store.nonce, store.key.as_slice()) {
        Ok(master_key) => Ok(SessionKeys { derived_key, master_key }),
        Err(e) => Err(e),
    }
}

/// The text of an item under `key`: its decryption, when that succeeds and is UTF-8.
pub open spec fn plaintext_of(key: Seq<u8>, item: (Seq<u8>, Seq<u8>)) -> Option<Seq<char>> {
    match aes_gcm_open(key, item.0, item.1) {
        Some(p) => if valid_utf8(p) {
            Some(decode_utf8(p))
        } else {
            None
        },
        None => None,
    }
}

/// `new` is `old` with `label` (re)stored: sealed under `key` with a nonce of its own, so that
/// it decrypts to `password`.
pub open spec fn stored_as(
    old: ItemEntries,
    new: ItemEntries,
    label: Seq<char>,
    key: Seq<u8>,
    password: Seq<u8>,
) -> bool {
    &&& new.contains_key(label)
    &&& new == old.insert(label, new[label])
    &&& new[label].1 == aes_gcm_seal(key, new[label].0, password)
    &&& aes_gcm_open(key, new[label].0, new[label].1) == Some(password)
}

/// Rows that list `items` under `key`: each label once, with its text.
pub open spec fn lists(items: ItemEntries, key: Seq<u8>, rows: Seq<[String; 2]>) -> bool {
    &&& forall|i: int|
        0 <= i < rows.len() ==> items.contains_key(#[trigger] rows[i][0]@) && plaintext_of(
            key,
            items[rows[i][0]@],
        ) == Some(rows[i][1]@)
    &&& forall|l: Seq<char>| #[trigger]
        items.contains_key(l) ==> exists|i: int| 0 <= i < rows.len() && rows[i][0]@ == l
    &&& forall|i: int, j: int| 0 <= i < j < rows.len() ==> rows[i][0]@ != rows[j][0]@
}

/// The label and text pairs that rows show.
pub open spec fn row_pairs(rows: Seq<[String; 2]>) -> Set<(Seq<char>, Seq<char>)> {
    Set::new(|p: (Seq<char>, Seq<char>)| exists|i: int| 0 <= i < rows.len() && p == (rows[i][0]@, rows[i][1]@))
}

/// Two listings of the same items under the same key show the same label and text pairs.
pub proof fn lemma_listing_deterministic(
    items: ItemEntries,
    key: Seq<u8>,
    a: Seq<[String; 2]>,
    b: Seq<[String; 2]>,
)
    requires
        lists(items, key, a),
        lists(items, key, b),
    ensures
        row_pairs(a) == row_pairs(b),
{
    assert forall|p: (Seq<char>, Seq<char>)| row_pairs(a).contains(p) implies row_pairs(b).contains(p) by {
        let i = choose|i: int| 0 <= i < a.len() && p == (a[i][0]@, a[i][1]@);
        assert(items.contains_key(a[i][0]@));
        let j = choose|j: int| 0 <= j < b.len() && b[j][0]@ == a[i][0]@;
        assert(items.contains_key(b[j][0]@));
        assert(p == (b[j][0]@, b[j][1]@));
    }
    assert forall|p: (Seq<char>, Seq<char>)| row_pairs(b).contains(p) implies row_pairs(a).contains(p) by {
        let i = choose|i: int| 0 <= i < b.len() && p == (b[i][0]@, b[i][1]@);
        assert(items.contains_key(b[i][0]@));
        let j = choose|j: int| 0 <= j < a.len() && a[j][0]@ == b[i][0]@;
        assert(items.contains_key(a[j][0]@));
        assert(p == (a[j][0]@, a[j][1]@));
    }
    assert(row_pairs(a) =~= row_pairs(b));
}

pub struct Manager {
    pub derived_key: [u8; 32],
    pub master_key: [u8; 32],
    pub store: Store,
    pub user: User,
    pub user_nonce: [u8; 12],
    pub fs_dirty: bool,
    pub success_message: Option<String>,
}

impl Manager {
    /// The store's wrapped key unwraps, under the derived key, to the master key in use.
    pub open spec fn wf(&self) -> bool {
        aes_gcm_open(self.derived_key@, self.store.nonce@, self.store.key@) == Some(
            self.master_key@,
        )
    }

    /// Same keys, same wrapping and same user record.
    pub open spec fn same_session(&self, other: &Manager) -> bool {
        &&& self.derived_key == other.derived_key
        &&& self.master_key == other.master_key
        &&& self.store.key == other.store.key
        &&& self.store.nonce == other.store.nonce
        &&& self.store.salt == other.store.salt
        &&& self.user == other.user
        &&& self.user_nonce == other.user_nonce
    }

    /// Opens a session on `store` with the key derived from the passphrase; fails when that
    /// key does not unwrap the store's master key.
    pub fn new(store: Store, derived_key: [u8; 32], user: User, user_nonce: [u8; 12]) -> (r:
        Result<Self, PassManagerErr>)
        ensures
            r is Ok <==> (aes_gcm_open(derived_key@, store.nonce@, store.key@) matches Some(m)
                && m.len() == 32),
            r matches Ok(m) ==> m.wf() && m.store == store && m.user == user && m.user_nonce
                == user_nonce && m.derived_key == derived_key && !m.fs_dirty
                && m.success_message is None,
    {
        match unwrap(&derived_key, &store.nonce, store.key.as_slice()) {
            Ok(master_key) => Ok(Self {
                derived_key,
                master_key,
                store,
                user,
                user_nonce,
                fs_dirty: false,
                success_message: None,
            }),
            Err(e) => Err(e),
        }
    }

    /// Creates a fresh installation: a random salt, master key and nonces, the master key
    /// wrapped under the key derived from `passphrase`, an empty store and a user record
    /// without a remote.
    pub fn init(passphrase: &str, name: String, email: String) -> (r: Result<
        Self,
        PassManagerErr,
    >)
        ensures
            passphrase@.len() < MIN_PASSPHRASE_LEN ==> r matches Err(
                PassManagerErr::PassphraseTooShort,
            ),
            passphrase@.len() >= MIN_PASSPHRASE_LEN && passphrase.spec_bytes().len()
                <= MAX_PASSPHRASE_LEN ==> r is Ok,
            r matches Ok(m) ==> m.wf() && m.derived_key@ == argon2_key(
                passphrase.spec_bytes(),
                m.store.salt@,
            ) && m.store.key@ == aes_gcm_seal(m.derived_key@, m.store.nonce@, m.master_key@)
                && m.store.items@ == ItemEntries::empty() && m.user.name == name && m.user.email
                == email && m.user.remote is None && !m.fs_dirty,
    {
        if passphrase.unicode_len() < MIN_PASSPHRASE_LEN {
            return Err(PassManagerErr::PassphraseTooShort);
        }
        let salt: [u8; 16] = rand::random();
        let derived_key = match derive_key(passphrase.as_bytes(), &salt) {
            Ok(k) => k,
            Err(e) => {
                return Err(e);
            },
        };
        let master_key: [u8; 32] = rand::random();
        let nonce: [u8; 12] = rand::random();
        let wrapped = wrap(&derived_key, &nonce, &master_key);
        let store = Store::new(wrapped, salt, nonce);
        let user = User::new(name, email);
        let user_nonce: [u8; 12] = rand::random();
        Ok(Self {
            derived_key,
            master_key,
            store,
            user,
            user_nonce,
            fs_dirty: false,
            success_message: None,
        })
    }

    /// Stores `password` under `label`, sealed with a fresh nonce. An existing label is
    /// replaced only when `overwrite` is set (the caller asks the user first); otherwise it
    /// is left untouched and nothing is marked for saving.
    pub fn add(&mut self, label: &str, password: &[u8], overwrite: bool) -> (r: Result<
        (),
        PassManagerErr,
    >)
        requires
            old(self).wf(),
        ensures
            final(self).wf(),
            final(self).same_session(old(self)),
            r is Ok <==> password@.len() <= MAX_PLAINTEXT_LEN,
            r is Err ==> final(self).store.items@ == old(self).store.items@ && final(self).fs_dirty
                == old(self).fs_dirty,
            r is Ok && (overwrite || !old(self).store.items@.contains_key(label@)) ==> stored_as(
                old(self).store.items@,
                final(self).store.items@,
                label@,
                old(self).master_key@,
                password@,
            ) && final(self).fs_dirty && (final(self).success_message matches Some(m) && m@
                == "Successfully added '"@ + label@ + "' to store"@),
            r is Ok && !overwrite && old(self).store.items@.contains_key(label@) ==> final(self).store.items@ == old(self).store.items@ && final(self).fs_dirty == old(self).fs_dirty,
    {
        let nonce: [u8; 12] = rand::random();
        let ciphertext = match encrypt(&self.master_key, &nonce, password) {
            Ok(c) => c,
            Err(e) => {
                return Err(e);
            },
        };
        if self.store.items.get(label).is_some() && !overwrite {
            return Ok(());
        }
        self.store.items.insert(String::from_str(label), Item::new(nonce, ciphertext));
        self.fs_dirty = true;
        self.success_message = Some(concat3("Successfully added '", label, "' to store"));
        Ok(())
    }

    /// Removes `label`; false, with nothing marked for saving, when it is absent.
    pub fn delete(&mut self, label: &str) -> (r: bool)
        requires
            old(self).wf(),
        ensures
            final(self).wf(),
            final(self).same_session(old(self)),
            r == old(self).store.items@.contains_key(label@),
            final(self).store.items@ == old(self).store.items@.remove(label@),
            r ==> final(self).fs_dirty && (final(self).success_message matches Some(m) && m@
                == "Successfully deleted '"@ + label@ + "' from store"@),
            !r ==> final(self).fs_dirty == old(self).fs_dirty,
    {
        if self.store.delete(label) {
            self.fs_dirty = true;
            self.success_message = Some(concat3("Successfully deleted '", label, "' from store"));
            true
        } else {
            false
        }
    }

    /// The text stored under `label`, for the clipboard; `None` when the label is absent.
    pub fn copy(&mut self, label: &str) -> (r: Result<Option<String>, PassManagerErr>)
        requires
            old(self).wf(),
        ensures
            final(self).wf(),
            final(self).same_session(old(self)),
            final(self).store.items@ == old(self).store.items@,
            final(self).fs_dirty == old(self).fs_dirty,
            !old(self).store.items@.contains_key(label@) ==> r matches Ok(None),
            old(self).store.items@.contains_key(label@) ==> (r is Ok <==> plaintext_of(
                old(self).master_key@,
                old(self).store.items@[label@],
            ) is Some),
            old(self).store.items@.contains_key(label@) ==> !(r matches Ok(None)),
            r matches Ok(Some(s)) ==> old(self).store.items@.contains_key(label@) && plaintext_of(
                old(self).master_key@,
                old(self).store.items@[label@],
            ) == Some(s@),
    {
        let plaintext = match self.store.items.get(label) {
            None => {
                return Ok(None);
            },
            Some(item) => match decrypt(&self.master_key, &item.nonce, item.password.as_slice()) {
                Ok(p) => p,
                Err(e) => {
                    return Err(e);
                },
            },
        };
        match utf8_string(plaintext) {
            Some(s) => {
                self.success_message = Some(
                    concat3("Successfully copied '", label, "' to clipboard"),
                );
                Ok(Some(s))
            },
            None => Err(PassManagerErr::Utf8),
        }
    }

    /// Every label with its text, as a table; `None` for an empty store.
    pub fn list(&self) -> (r: Result<Option<Table<2>>, PassManagerErr>)
        ensures
            self.store.items@ == ItemEntries::empty() ==> r matches Ok(None),
            self.store.items@ != ItemEntries::empty() ==> !(r matches Ok(None)),
            self.store.items@ != ItemEntries::empty() ==> (r is Ok <==> forall|l: Seq<char>|
                #[trigger] self.store.items@.contains_key(l) ==> plaintext_of(
                    self.master_key@,
                    self.store.items@[l],
                ) is Some),
            r matches Ok(Some(t)) ==> t.wf() && t.headers_spec()[0]@ == "Labels"@
                && t.headers_spec()[1]@ == "Passwords"@ && lists(
                self.store.items@,
                self.master_key@,
                t.rows_spec(),
            ),
    {
        if self.store.is_empty() {
            return Ok(None);
        }
        let mut table = Table::new([String::from_str("Labels"), String::from_str("Passwords")]);
        let labels = self.store.items.labels();
        let ghost items = self.store.items@;
        let ghost key = self.master_key@;
        let mut i: usize = 0;
        while i < labels.len()
            invariant
                0 <= i <= labels@.len(),
                items == self.store.items@,
                key == self.master_key@,
                table.wf(),
                table.headers_spec()[0]@ == "Labels"@,
                table.headers_spec()[1]@ == "Passwords"@,
                table.rows_spec().len() == i,
                forall|j: int| 0 <= j < labels@.len() ==> items.contains_key(#[trigger] labels@[j]@),
                forall|k: Seq<char>| #[trigger]
                    items.contains_key(k) ==> exists|j: int| 0 <= j < labels@.len() && labels@[j]@ == k,
                forall|j: int, k: int| 0 <= j < k < labels@.len() ==> labels@[j]@ != labels@[k]@,
                forall|j: int|
                    0 <= j < i ==> (#[trigger] table.rows_spec()[j])[0]@ == labels@[j]@
                        && plaintext_of(key, items[labels@[j]@]) == Some(table.rows_spec()[j][1]@),
                forall|j: int| 0 <= j < i ==> plaintext_of(key, items[#[trigger] labels@[j]@]) is Some,
            decreases labels@.len() - i,
        {
            let label = &labels[i];
            let item = match self.store.items.get(label.as_str()) {
                Some(it) => it,
                None => {
                    return Err(PassManagerErr::PreviousVersion { bin: label.clone() });
                },
            };
            let plaintext = match decrypt(&self.master_key, &item.nonce, item.password.as_slice()) {
                Ok(p) => p,
                Err(e) => {
                    return Err(e);
                },
            };
            let text = match utf8_string(plaintext) {
                Some(s) => s,
                None => {
                    return Err(PassManagerErr::Utf8);
                },
            };
            table.insert([label.clone(), text]);
            i = i + 1;
        }
        proof {
            assert forall|l: Seq<char>| #[trigger] items.contains_key(l) implies plaintext_of(
                key,
                items[l],
            ) is Some by {
                let j = choose|j: int| 0 <= j < labels@.len() && labels@[j]@ == l;
                assert(plaintext_of(key, items[labels@[j]@]) is Some);
            }
            assert forall|l: Seq<char>| #[trigger] items.contains_key(l) implies exists|i: int|
                0 <= i < table.rows_spec().len() && table.rows_spec()[i][0]@ == l by {
                let j = choose|j: int| 0 <= j < labels@.len() && labels@[j]@ == l;
                assert(table.rows_spec()[j][0]@ == labels@[j]@);
            }
            assert forall|a: int, b: int| 0 <= a < b < table.rows_spec().len() implies table.rows_spec()[a][0]@
                != table.rows_spec()[b][0]@ by {
                assert(table.rows_spec()[a][0]@ == labels@[a]@);
                assert(table.rows_spec()[b][0]@ == labels@[b]@);
            }
        }
        Ok(Some(table))
    }
}

/// The parts of a commit message: its space-separated words, with `-` as the value when
/// there are only two.
pub open spec fn commit_parts(message: Seq<char>) -> Seq<Seq<char>> {
    let p = split_spec(message, ' ');
    if p.len() == 2 {
        p.push(seq!['-'])
    } else {
        p
    }
}

/// Splits a commit message into `<area> <action> <value>`.
pub fn parse_commit_message(message: &str) -> (r: Vec<String>)
    ensures
        strings_view(r@) == commit_parts(message@),
{
    let mut commit_parts = split_on(message, ' ');
    if commit_parts.len() == 2 {
        proof {
            reveal_strlit("-");
            assert("-"@ =~= seq!['-']);
        }
        let ghost before = strings_view(commit_parts@);
        commit_parts.push(String::from_str("-"));
        assert(strings_view(commit_parts@) =~= before.push(seq!['-']));
    }
    commit_parts
}

/// What undoing a change does.
pub enum UndoPlan {
    /// Remove the label that was added.
    RemoveLabel(Seq<char>),
    /// Bring back the label, as the parent snapshot had it.
    RestoreLabel(Seq<char>),
    /// Bring back all items of the parent snapshot.
    RestoreItems,
    /// A rekey cannot be undone.
    Refused,
    /// Bring back the named fields of the parent snapshot's user record.
    RestoreUserFields(bool, bool, bool),
}

/// How to undo the change that a commit message records; `None` outside the grammar.
pub open spec fn undo_plan(parts: Seq<Seq<char>>) -> Option<UndoPlan> {
    if parts.len() != 3 {
        None
    } else if parts[0] == "store"@ {
        if parts[1] == "add"@ {
            Some(UndoPlan::RemoveLabel(parts[2]))
        } else if parts[1] == "delete"@ {
            Some(UndoPlan::RestoreLabel(parts[2]))
        } else if parts[1] == "reset"@ {
            Some(UndoPlan::RestoreItems)
        } else if parts[1] == "modify"@ {
            Some(UndoPlan::Refused)
        } else {
            None
        }
    } else if parts[0] == "user"@ && parts[1] == "set"@ {
        let fields = split_spec(parts[2], ',');
        Some(
            UndoPlan::RestoreUserFields(
                fields.contains("name"@),
                fields.contains("email"@),
                fields.contains("remote"@),
            ),
        )
    } else {
        None
    }
}

/// How to undo a change, as `plan_undo` reads it from the commit message.
pub enum UndoAction {
    RemoveLabel(String),
    RestoreLabel(String),
    RestoreItems,
    Refused,
    RestoreUserFields { name: bool, email: bool, remote: bool },
}

impl View for UndoAction {
    type V = UndoPlan;

    open spec fn view(&self) -> UndoPlan {
        match self {
            UndoAction::RemoveLabel(l) => UndoPlan::RemoveLabel(l@),
            UndoAction::RestoreLabel(l) => UndoPlan::RestoreLabel(l@),
            UndoAction::RestoreItems => UndoPlan::RestoreItems,
            UndoAction::Refused => UndoPlan::Refused,
            UndoAction::RestoreUserFields { name, email, remote } => UndoPlan::RestoreUserFields(
                *name,
                *email,
                *remote,
            ),
        }
    }
}

/// The commit message that records an undo, in the same grammar, so that it can be undone
/// in turn.
pub open spec fn undo_message(p: UndoPlan) -> Seq<char> {
    match p {
        UndoPlan::RemoveLabel(l) => "store delete "@ + l,
        UndoPlan::RestoreLabel(l) => add_message(l),
        UndoPlan::RestoreItems => "store reset"@,
        UndoPlan::Refused => Seq::<char>::empty(),
        UndoPlan::RestoreUserFields(n, e, r) => "user set "@ + field_list(n, e, r),
    }
}

impl UndoAction {
    pub fn commit_message(&self) -> (r: String)
        ensures
            r@ == undo_message(self@),
    {
        match self {
            UndoAction::RemoveLabel(l) => concat_two("store delete ", l.as_str()),
            UndoAction::RestoreLabel(l) => concat_two("store add ", l.as_str()),
            UndoAction::RestoreItems => String::from_str("store reset"),
            UndoAction::Refused => String::new(),
            UndoAction::RestoreUserFields { name, email, remote } => {
                let fields = fields_text(*name, *email, *remote);
                concat_two("user set ", fields.as_str())
            },
        }
    }
}

fn concat_two(a: &str, b: &str) -> (r: String)
    ensures
        r@ == a@ + b@,
{
    let mut r = String::from_str(a);
    r.append(b);
    r
}

/// Reads how to undo the change a commit records. `None` stands for a message that is not
/// UTF-8.
pub fn plan_undo(message: Option<&str>) -> (r: Result<UndoAction, PassManagerErr>)
    ensures
        message is None ==> r matches Err(PassManagerErr::InvalidCommitMessage),
        message matches Some(m) ==> (r is Ok <==> undo_plan(commit_parts(m@)) is Some),
        message matches Some(m) ==> (r matches Ok(a) ==> undo_plan(commit_parts(m@)) == Some(
            a@,
        )),
        message is Some && r is Err ==> r matches Err(PassManagerErr::CommitMsgFormat { .. }),
{
    let message = match message {
        Some(m) => m,
        None => {
            return Err(PassManagerErr::InvalidCommitMessage);
        },
    };
    let parts = parse_commit_message(message);
    let ghost p = strings_view(parts@);
    if parts.len() != 3 {
        return Err(PassManagerErr::CommitMsgFormat { message: String::from_str(message) });
    }
    assert(p[0] == parts@[0]@ && p[1] == parts@[1]@ && p[2] == parts@[2]@);
    let area = parts[0].as_str();
    let action = parts[1].as_str();
    if str_eq(area, "store") {
        if str_eq(action, "add") {
            return Ok(UndoAction::RemoveLabel(parts[2].clone()));
        } else if str_eq(action, "delete") {
            return Ok(UndoAction::RestoreLabel(parts[2].clone()));
        } else if str_eq(action, "reset") {
            return Ok(UndoAction::RestoreItems);
        } else if str_eq(action, "modify") {
            return Ok(UndoAction::Refused);
        }
    } else if str_eq(area, "user") && str_eq(action, "set") {
        let fields = split_on(parts[2].as_str(), ',');
        let ghost fv = strings_view(fields@);
        let mut name = false;
        let mut email = false;
        let mut remote = false;
        let mut i: usize = 0;
        while i < fields.len()
            invariant
                0 <= i <= fields@.len(),
                fv == strings_view(fields@),
                name == fv.subrange(0, i as int).contains("name"@),
                email == fv.subrange(0, i as int).contains("email"@),
                remote == fv.subrange(0, i as int).contains("remote"@),
            decreases fields@.len() - i,
        {
            let f = fields[i].as_str();
            let ghost sub = fv.subrange(0, i as int);
            let ghost sub1 = fv.subrange(0, i + 1);
            assert(sub1 =~= sub.push(fv[i as int]));
            assert(fv[i as int] == f@);
            if str_eq(f, "name") {
                name = true;
            }
            if str_eq(f, "email") {
                email = true;
            }
            if str_eq(f, "remote") {
                remote = true;
            }
            proof {
                assert(sub1.contains("name"@) == (sub.contains("name"@) || f@ == "name"@)) by {
                    if f@ == "name"@ {
                        assert(sub1[i as int] == f@);
                    }
                    if sub1.contains("name"@) && f@ != "name"@ {
                        let j = choose|j: int| 0 <= j < sub1.len() && sub1[j] == "name"@;
                        assert(sub[j] == "name"@);
                    }
                }
                assert(sub1.contains("email"@) == (sub.contains("email"@) || f@ == "email"@)) by {
                    if f@ == "email"@ {
                        assert(sub1[i as int] == f@);
                    }
                    if sub1.contains("email"@) && f@ != "email"@ {
                        let j = choose|j: int| 0 <= j < sub1.len() && sub1[j] == "email"@;
                        assert(sub[j] == "email"@);
                    }
                }
                assert(sub1.contains("remote"@) == (sub.contains("remote"@) || f@ == "remote"@)) by {
                    if f@ == "remote"@ {
                        assert(sub1[i as int] == f@);
                    }
                    if sub1.contains("remote"@) && f@ != "remote"@ {
                        let j = choose|j: int| 0 <= j < sub1.len() && sub1[j] == "remote"@;
                        assert(sub[j] == "remote"@);
                    }
                }
            }
            i = i + 1;
        }
        assert(fv.subrange(0, fv.len() as int) =~= fv);
        return Ok(UndoAction::RestoreUserFields { name, email, remote });
    }
    Err(PassManagerErr::CommitMsgFormat { message: String::from_str(message) })
}

/// Right after `label` was added to a store that lacked it, undoing the recorded change
/// removes it again and gives back exactly the items from before.
pub proof fn lemma_undo_of_add(
    items: ItemEntries,
    after: ItemEntries,
    label: Seq<char>,
    key: Seq<u8>,
    password: Seq<u8>,
)
    requires
        !items.contains_key(label),
        !label.contains(' '),
        stored_as(items, after, label, key, password),
    ensures
        undo_plan(commit_parts(add_message(label))) == Some(UndoPlan::RemoveLabel(label)),
        after.remove(label) == items,
{
    reveal_strlit("store");
    reveal_strlit("add");
    reveal_strlit("store add ");
    let store_word = "store"@;
    let add_word = "add"@;
    assert(!store_word.contains(' ')) by {
        assert(store_word =~= seq!['s', 't', 'o', 'r', 'e']);
    }
    assert(!add_word.contains(' ')) by {
        assert(add_word =~= seq!['a', 'd', 'd']);
    }
    assert("store add "@ =~= ((store_word.push(' ') + add_word).push(' ')));
    let e = Seq::<char>::empty();
    assert(split_spec(e, ' ') == seq![e]);
    lemma_split_append_plain(e, store_word, ' ');
    assert(e + store_word =~= store_word);
    assert(seq![e].update(0, e + store_word) =~= seq![store_word]);
    lemma_split_append_sep(store_word, ' ');
    lemma_split_append_plain(store_word.push(' '), add_word, ' ');
    assert(seq![store_word].push(e).update(1, e + add_word) =~= seq![store_word, add_word]);
    lemma_split_append_sep(store_word.push(' ') + add_word, ' ');
    let base = (store_word.push(' ') + add_word).push(' ');
    assert(split_spec(base, ' ') =~= seq![store_word, add_word, e]);
    lemma_split_append_plain(base, label, ' ');
    assert(seq![store_word, add_word, e].update(2, e + label) =~= seq![store_word, add_word, label]);
    assert(add_message(label) == base + label);
    assert(commit_parts(add_message(label)) == seq![store_word, add_word, label]);
    assert(after.remove(label) =~= items);
}

/// The name of the store's blob in each snapshot.
pub const STORE_BIN_PATH: &'static str = "pm_store.bin";

/// The name of the user record's blob in each snapshot.
pub const USER_BIN_PATH: &'static str = "user.bin";

/// The items after undoing `plan`, given the parent snapshot's items where the plan needs them.
pub open spec fn undone_items(plan: UndoPlan, items: ItemEntries, parent: ItemEntries) -> ItemEntries {
    match plan {
        UndoPlan::RemoveLabel(l) => items.remove(l),
        UndoPlan::RestoreLabel(l) => items.insert(l, parent[l]),
        UndoPlan::RestoreItems => parent,
        _ => items,
    }
}

impl Manager {
    /// Undoes a change in memory; the normal save path then records the result. Restoring
    /// needs the parent snapshot's store (for a deleted label or a reset) or user record
    /// (for user fields); without it, or without the label in it, this fails and changes
    /// nothing.
    pub fn undo(&mut self, action: UndoAction, parent_store: Option<Store>, parent_user: Option<
        User,
    >) -> (r: Result<(), PassManagerErr>)
        requires
            old(self).wf(),
        ensures
            final(self).wf(),
            final(self).derived_key == old(self).derived_key,
            final(self).master_key == old(self).master_key,
            final(self).store.key == old(self).store.key,
            final(self).store.nonce == old(self).store.nonce,
            final(self).store.salt == old(self).store.salt,
            r is Err ==> final(self).store.items@ == old(self).store.items@ && final(self).user
                == old(self).user && final(self).fs_dirty == old(self).fs_dirty,
            action@ is RestoreLabel ==> (r is Ok <==> (parent_store matches Some(p)
                && p.items@.contains_key(action@->RestoreLabel_0))),
            (action@ is RestoreItems || action@ is RestoreUserFields) ==> (r is Ok <==> (
            action@ is RestoreItems && parent_store is Some) || (action@ is RestoreUserFields
                && parent_user is Some)),
            (action@ is RemoveLabel || action@ is Refused) ==> r is Ok,
            r is Ok && !(action@ is RestoreUserFields) ==> final(self).store.items@ == undone_items(
                action@,
                old(self).store.items@,
                match parent_store {
                    Some(p) => p.items@,
                    None => ItemEntries::empty(),
                },
            ) && final(self).user == old(self).user,
            r is Ok && action@ is RestoreUserFields ==> final(self).store.items@ == old(
                self).store.items@ && (parent_user matches Some(p) && final(self).user.name == if action@->RestoreUserFields_0 {
                    p.name
                } else {
                    old(self).user.name
                } && final(self).user.email == if action@->RestoreUserFields_1 {
                    p.email
                } else {
                    old(self).user.email
                } && final(self).user.remote == if action@->RestoreUserFields_2 {
                    p.remote
                } else {
                    old(self).user.remote
                }),
            r is Ok && (action@ is RestoreLabel || action@ is RestoreItems || action@ is RestoreUserFields
                || (action@ matches UndoPlan::RemoveLabel(l) && old(self).store.items@.contains_key(l)))
                ==> final(self).fs_dirty,
    {
        match action {
            UndoAction::RemoveLabel(label) => {
                self.delete(label.as_str());
                Ok(())
            },
            UndoAction::RestoreLabel(label) => {
                let parent = match &parent_store {
                    Some(p) => p,
                    None => {
                        return Err(PassManagerErr::PreviousVersion { bin: String::from_str(STORE_BIN_PATH) });
                    },
                };
                let item = match parent.items.get(label.as_str()) {
                    Some(it) => it.duplicate(),
                    None => {
                        return Err(PassManagerErr::PreviousVersion { bin: label });
                    },
                };
                self.store.items.insert(label, item);
                self.fs_dirty = true;
                Ok(())
            },
            UndoAction::RestoreItems => {
                match parent_store {
                    Some(p) => {
                        self.store.items = p.items;
                        self.fs_dirty = true;
                        Ok(())
                    },
                    None => Err(PassManagerErr::PreviousVersion { bin: String::from_str(STORE_BIN_PATH) }),
                }
            },
            UndoAction::Refused => Ok(()),
            UndoAction::RestoreUserFields { name, email, remote } => {
                match parent_user {
                    Some(p) => {
                        if name {
                            self.user.name = p.name;
                        }
                        if email {
                            self.user.email = p.email;
                        }
                        if remote {
                            self.user.remote = p.remote;
                        }
                        self.fs_dirty = true;
                        Ok(())
                    },
                    None => Err(PassManagerErr::PreviousVersion { bin: String::from_str(USER_BIN_PATH) }),
                }
            },
        }
    }

    /// The commit message to record, when anything changed; `None` leaves the history as it is.
    pub fn save(&self, message: &str) -> (r: Option<String>)
        ensures
            r is Some <==> self.fs_dirty,
            r matches Some(m) ==> m@ == message@,
    {
        if self.fs_dirty {
            Some(String::from_str(message))
        } else {
            None
        }
    }

    /// Seals the serialized user record for saving, under a fresh nonce that it keeps.
    pub fn seal_user(&mut self, record: &[u8]) -> (r: Result<Vec<u8>, PassManagerErr>)
        requires
            old(self).wf(),
        ensures
            final(self).wf(),
            final(self).store == old(self).store,
            final(self).user == old(self).user,
            final(self).master_key == old(self).master_key,
            final(self).derived_key == old(self).derived_key,
            final(self).fs_dirty == old(self).fs_dirty,
            r is Ok <==> record@.len() <= MAX_PLAINTEXT_LEN,
            r matches Ok(b) ==> b@ == final(self).user_nonce@ + aes_gcm_seal(
                old(self).master_key@,
                final(self).user_nonce@,
                record@,
            ),
    {
        let nonce: [u8; 12] = rand::random();
        let blob = seal_user_blob(&self.master_key, &nonce, record);
        if blob.is_ok() {
            self.user_nonce = nonce;
        }
        blob
    }
}

/// What chrono shows for a commit time: `%e %b %y %H:%M` of the UTC instant `seconds`
/// moved by `offset_seconds`; `None` when either is out of range.
pub uninterp spec fn commit_time_text(seconds: int, offset_seconds: int) -> Option<Seq<char>>;

/// Relies on chrono's `NaiveDateTime::from_timestamp_opt`, `FixedOffset::east_opt`,
/// `NaiveDateTime::checked_add_offset` and `format`: the text depends on the two numbers alone.
#[verifier::external_body]
#[allow(deprecated)]
fn format_commit_time(seconds: i64, offset_seconds: i32) -> (r: Option<String>)
    ensures
        r matches Some(t) ==> commit_time_text(seconds as int, offset_seconds as int) == Some(t@),
        r is None ==> commit_time_text(seconds as int, offset_seconds as int) is None,
{
    let time = chrono::NaiveDateTime::from_timestamp_opt(seconds, 0)?;
    let tz = chrono::FixedOffset::east_opt(offset_seconds)?;
    time.checked_add_offset(tz).map(|t| t.format("%e %b %y %H:%M").to_string())
}

/// One row of the history: area, action, value, time and short id of a commit. `None`
/// stands for a message that is not UTF-8.
pub fn history_row(message: Option<&str>, seconds: i64, offset_minutes: i32, short_id: &str) -> (r:
    Result<[String; 5], PassManagerErr>)
    ensures
        message is None ==> r matches Err(PassManagerErr::InvalidCommitMessage),
        message matches Some(m) && commit_parts(m@).len() < 3 ==> r matches Err(
            PassManagerErr::CommitMsgFormat { .. },
        ),
        message matches Some(m) && commit_parts(m@).len() >= 3 && !(-2147483648 <= offset_minutes
            * 60 <= 2147483647 && commit_time_text(seconds as int, offset_minutes * 60) is Some)
            ==> r matches Err(PassManagerErr::Chrono { .. }),
        message matches Some(m) ==> (r is Ok <==> commit_parts(m@).len() >= 3
            && -2147483648 <= offset_minutes * 60 <= 2147483647 && commit_time_text(
            seconds as int,
            offset_minutes * 60,
        ) is Some),
        r matches Ok(row) ==> (message matches Some(m) && row[0]@ == commit_parts(m@)[0]
            && row[1]@ == commit_parts(m@)[1] && row[2]@ == commit_parts(m@)[2] && commit_time_text(
            seconds as int,
            offset_minutes * 60,
        ) == Some(row[3]@) && row[4]@ == short_id@),
{
    let message = match message {
        Some(m) => m,
        None => {
            return Err(PassManagerErr::InvalidCommitMessage);
        },
    };
    let parts = parse_commit_message(message);
    if parts.len() < 3 {
        return Err(PassManagerErr::CommitMsgFormat { message: String::from_str(message) });
    }
    let offset = offset_minutes as i64 * 60;
    if offset < -2147483648 || offset > 2147483647 {
        return Err(PassManagerErr::Chrono { item: String::from_str("offset") });
    }
    let time = match format_commit_time(seconds, offset as i32) {
        Some(t) => t,
        None => {
            return Err(PassManagerErr::Chrono { item: String::from_str("time") });
        },
    };
    assert(strings_view(parts@)[0] == parts@[0]@);
    assert(strings_view(parts@)[1] == parts@[1]@);
    assert(strings_view(parts@)[2] == parts@[2]@);
    Ok([parts[0].clone(), parts[1].clone(), parts[2].clone(), time, String::from_str(short_id)])
}

/// What the history shows of one commit, as read from the repository. A `message` of
/// `None` stands for one that is not UTF-8.
pub struct CommitInfo {
    pub message: Option<String>,
    pub seconds: i64,
    pub offset_minutes: i32,
    pub short_id: String,
}

/// Whether the history can show `c`: a UTF-8 message of at least three parts and a time
/// that chrono can show.
pub open spec fn history_readable(c: CommitInfo) -> bool {
    &&& c.message matches Some(m)
    &&& commit_parts(m@).len() >= 3
    &&& -2147483648 <= c.offset_minutes * 60 <= 2147483647
    &&& commit_time_text(c.seconds as int, c.offset_minutes * 60) is Some
}

/// Whether commit `i` is the first that the history cannot show.
pub open spec fn first_unreadable(commits: Seq<CommitInfo>, i: int) -> bool {
    &&& !history_readable(commits[i])
    &&& forall|j: int| 0 <= j < i ==> history_readable(#[trigger] commits[j])
}

/// Whether `row` is the history row of `c`.
pub open spec fn is_history_row(c: CommitInfo, row: [String; 5]) -> bool {
    &&& c.message matches Some(m)
    &&& commit_parts(m@).len() >= 3
    &&& row[0]@ == commit_parts(m@)[0]
    &&& row[1]@ == commit_parts(m@)[1]
    &&& row[2]@ == commit_parts(m@)[2]
    &&& -2147483648 <= c.offset_minutes * 60 <= 2147483647
    &&& commit_time_text(c.seconds as int, c.offset_minutes * 60) == Some(row[3]@)
    &&& row[4]@ == c.short_id@
}

impl Manager {
    /// The history as a table, one row per commit in the order given (newest first, as the
    /// repository walks it); fails on the first commit whose message or time cannot be read.
    pub fn history(&self, commits: &Vec<CommitInfo>) -> (r: Result<Table<5>, PassManagerErr>)
        ensures
            r matches Ok(t) ==> t.wf() && t.rows_spec().len() == commits@.len() && forall|i: int|
                0 <= i < commits@.len() ==> is_history_row(commits@[i], #[trigger] t.rows_spec()[i]),
            r is Ok <==> forall|i: int| 0 <= i < commits@.len() ==> history_readable(#[trigger] commits@[i]),
            forall|i: int|
                0 <= i < commits@.len() && first_unreadable(commits@, i) ==> match #[trigger] commits@[i].message {
                    None => r matches Err(PassManagerErr::InvalidCommitMessage),
                    Some(m) => if commit_parts(m@).len() < 3 {
                        r matches Err(PassManagerErr::CommitMsgFormat { .. })
                    } else {
                        r matches Err(PassManagerErr::Chrono { .. })
                    },
                },
    {
        let mut table = Table::new([
            String::from_str("Binary"),
            String::from_str("Action"),
            String::from_str("Value"),
            String::from_str("Time"),
            String::from_str("Id"),
        ]);
        let mut i: usize = 0;
        while i < commits.len()
            invariant
                0 <= i <= commits@.len(),
                table.wf(),
                table.rows_spec().len() == i,
                forall|j: int| 0 <= j < i ==> is_history_row(commits@[j], #[trigger] table.rows_spec()[j]),
                forall|j: int| 0 <= j < i ==> history_readable(#[trigger] commits@[j]),
            decreases commits@.len() - i,
        {
            let c = &commits[i];
            let message = match &c.message {
                Some(m) => Some(m.as_str()),
                None => None,
            };
            let row = match history_row(message, c.seconds, c.offset_minutes, c.short_id.as_str()) {
                Ok(row) => row,
                Err(e) => {
                    return Err(e);
                },
            };
            table.insert(row);
            i = i + 1;
        }
        Ok(table)
    }
}

} // verus!
