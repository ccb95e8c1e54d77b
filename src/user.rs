//! The user record: identity and remote connection details, sealed as one blob.
use vstd::prelude::*;

use crate::crypto::{aes_gcm_open, aes_gcm_seal, decrypt, encrypt, MAX_PLAINTEXT_LEN};
use crate::cmd::{field_list, fields_text};
use crate::error::PassManagerErr;
use crate::manager::Manager;
use crate::text::{concat3, split_on, split_spec, str_eq, strings_view};

verus! {

#[derive(Clone)]
pub struct Credentials {
    pub username: String,
    pub password: String,
}

#[derive(Clone)]
pub struct Remote {
    pub host: String,
    pub url: String,
    pub creds: Option<Credentials>,
}

#[derive(Clone)]
pub struct User {
    pub name: String,
    pub email: String,
    pub remote: Option<Remote>,
}

/// What `url::Url::parse` makes of `s`: `None` when it does not parse, else the URL's host,
/// if it has one, as text.
pub uninterp spec fn url_host(s: Seq<char>) -> Option<Option<Seq<char>>>;

/// Relies on `url::Url::parse`, `Url::host` and the host's `to_string`: the result depends
/// on `s` alone; a parse error comes back as its message.
#[verifier::external_body]
pub(crate) fn parse_url_host(s: &str) -> (r: Result<Option<String>, String>)
    ensures
        r is Ok <==> url_host(s@) is Some,
        r matches Ok(h) ==> url_host(s@) == Some(match h {
            Some(t) => Some(t@),
            None => None::<Seq<char>>,
        }),
{
    match url::Url::parse(s) {
        Ok(u) => Ok(u.host().map(|h| h.to_string())),
        Err(e) => Err(e.to_string()),
    }
}

/// The host of a remote URL; fails when the URL does not parse or has no host.
pub fn remote_host(remote: &str) -> (r: Result<String, PassManagerErr>)
    ensures
        r is Ok <==> url_host(remote@) matches Some(Some(_)),
        r matches Ok(h) ==> url_host(remote@) == Some(Some(h@)),
        r matches Err(PassManagerErr::Url { .. }) <==> url_host(remote@) is None,
        r matches Err(PassManagerErr::Host) <==> url_host(remote@) == Some(None::<Seq<char>>),
{
    match parse_url_host(remote) {
        Ok(Some(h)) => Ok(h),
        Ok(None) => Err(PassManagerErr::Host),
        Err(err) => Err(PassManagerErr::Url { err }),
    }
}

/// The view of an optional string.
pub open spec fn opt_view(o: Option<String>) -> Option<Seq<char>> {
    match o {
        Some(s) => Some(s@),
        None => None,
    }
}

impl User {
    pub fn new(name: String, email: String) -> (r: Self)
        ensures
            r.name == name,
            r.email == email,
            r.remote is None,
    {
        Self { name, email, remote: None }
    }

    /// Whether setting a remote should ask the credential helper: as `creds_required` says,
    /// or, when it says nothing, as the present remote did.
    pub fn needs_credentials(&self, creds_required: Option<bool>) -> (r: bool)
        ensures
            r == match creds_required {
                Some(b) => b,
                None => self.remote matches Some(rm) && rm.creds is Some,
            },
    {
        match creds_required {
            Some(b) => b,
            None => match &self.remote {
                Some(rm) => rm.creds.is_some(),
                None => false,
            },
        }
    }

    /// Sets the remote: `"-"` clears it; any other text must be a URL with a host, which is
    /// kept together with the URL and the given credentials.
    pub fn set_remote(&mut self, remote: &str, creds: Option<Credentials>) -> (r: Result<
        (),
        PassManagerErr,
    >)
        ensures
            final(self).name == old(self).name,
            final(self).email == old(self).email,
            remote@ == seq!['-'] ==> r is Ok && final(self).remote is None,
            remote@ != seq!['-'] ==> (r is Ok <==> url_host(remote@) matches Some(Some(_))),
            remote@ != seq!['-'] && r is Ok ==> (final(self).remote matches Some(rm) && url_host(
                remote@,
            ) == Some(Some(rm.host@)) && rm.url@ == remote@ && rm.creds == creds),
            r is Err ==> final(self).remote == old(self).remote,
    {
        proof {
            reveal_strlit("-");
            assert("-"@ =~= seq!['-']);
        }
        if str_eq(remote, "-") {
            self.remote = None;
            return Ok(());
        }
        let host = match remote_host(remote) {
            Ok(h) => h,
            Err(e) => {
                return Err(e);
            },
        };
        self.remote = Some(Remote { host, url: String::from_str(remote), creds });
        Ok(())
    }
}

/// The nonce and the record that a user-record blob holds under `key`, if it opens.
pub open spec fn opened_user_blob(key: Seq<u8>, blob: Seq<u8>) -> Option<(Seq<u8>, Seq<u8>)> {
    if blob.len() < 12 {
        None
    } else {
        match aes_gcm_open(key, blob.subrange(0, 12), blob.subrange(12, blob.len() as int)) {
            Some(p) => Some((blob.subrange(0, 12), p)),
            None => None,
        }
    }
}

/// A blob framed as `seal_user_blob` frames it (a 12-byte nonce, then a ciphertext that
/// opens under that nonce) opens to that nonce and record.
pub proof fn lemma_user_blob_round_trip(
    key: Seq<u8>,
    nonce: Seq<u8>,
    ciphertext: Seq<u8>,
    record: Seq<u8>,
)
    requires
        nonce.len() == 12,
        aes_gcm_open(key, nonce, ciphertext) == Some(record),
    ensures
        opened_user_blob(key, nonce + ciphertext) == Some((nonce, record)),
{
    assert((nonce + ciphertext).subrange(0, 12) =~= nonce);
    assert((nonce + ciphertext).subrange(12, (nonce + ciphertext).len() as int) =~= ciphertext);
}

/// Splits a user-record blob into its nonce and the decrypted record.
pub fn open_user_blob(master_key: &[u8; 32], blob: &[u8]) -> (r: Result<
    ([u8; 12], Vec<u8>),
    PassManagerErr,
>)
    ensures
        blob@.len() < 12 ==> r matches Err(PassManagerErr::TryFrom),
        blob@.len() >= 12 ==> (r is Ok <==> aes_gcm_open(
            master_key@,
            blob@.subrange(0, 12),
            blob@.subrange(12, blob@.len() as int),
        ) is Some),
        r matches Ok((n, p)) ==> opened_user_blob(master_key@, blob@) == Some((n@, p@)),
        r matches Ok((n, p)) ==> n@ == blob@.subrange(0, 12) && aes_gcm_open(
            master_key@,
            n@,
            blob@.subrange(12, blob@.len() as int),
        ) == Some(p@),
{
    if blob.len() < 12 {
        return Err(PassManagerErr::TryFrom);
    }
    let mut nonce = [0u8; 12];
    let mut i: usize = 0;
    while i < 12
        invariant
            blob@.len() >= 12,
            0 <= i <= 12,
            forall|j: int| 0 <= j < i ==> nonce@[j] == blob@[j],
        decreases 12 - i,
    {
        nonce[i] = blob[i];
        i = i + 1;
    }
    assert(nonce@ =~= blob@.subrange(0, 12));
    let mut ciphertext: Vec<u8> = Vec::new();
    let mut k: usize = 12;
    while k < blob.len()
        invariant
            12 <= k <= blob@.len(),
            ciphertext@ =~= blob@.subrange(12, k as int),
        decreases blob@.len() - k,
    {
        ciphertext.push(blob[k]);
        k = k + 1;
    }
    match decrypt(master_key, &nonce, ciphertext.as_slice()) {
        Ok(p) => Ok((nonce, p)),
        Err(e) => Err(e),
    }
}

/// Seals a serialized user record under the master key: the nonce, then the ciphertext.
pub fn seal_user_blob(master_key: &[u8; 32], nonce: &[u8; 12], record: &[u8]) -> (r: Result<
    Vec<u8>,
    PassManagerErr,
>)
    ensures
        r is Ok <==> record@.len() <= MAX_PLAINTEXT_LEN,
        r matches Ok(b) ==> b@ == nonce@ + aes_gcm_seal(master_key@, nonce@, record@),
        r matches Ok(b) ==> aes_gcm_open(master_key@, nonce@, b@.subrange(12, b@.len() as int))
            == Some(record@),
{
    let ciphertext = match encrypt(master_key, nonce, record) {
        Ok(c) => c,
        Err(e) => {
            return Err(e);
        },
    };
    let mut blob: Vec<u8> = Vec::new();
    let mut i: usize = 0;
    while i < 12
        invariant
            0 <= i <= 12,
            blob@ =~= nonce@.subrange(0, i as int),
        decreases 12 - i,
    {
        blob.push(nonce[i]);
        i = i + 1;
    }
    let mut k: usize = 0;
    while k < ciphertext.len()
        invariant
            0 <= k <= ciphertext@.len(),
            blob@ =~= nonce@ + ciphertext@.subrange(0, k as int),
        decreases ciphertext@.len() - k,
    {
        blob.push(ciphertext[k]);
        k = k + 1;
    }
    assert(ciphertext@.subrange(0, ciphertext@.len() as int) =~= ciphertext@);
    assert(blob@.subrange(12, blob@.len() as int) =~= ciphertext@);
    Ok(blob)
}

impl Manager {
    /// Sets the given fields of the user record. A remote of `"-"` clears it; any other
    /// remote must be a URL with a host, kept with `creds` (which the caller obtained from the
    /// credential helper when `User::needs_credentials` said so). On failure nothing changes.
    pub fn set_user(
        &mut self,
        name: &Option<String>,
        email: &Option<String>,
        remote: &Option<String>,
        creds: Option<Credentials>,
    ) -> (r: Result<(), PassManagerErr>)
        requires
            old(self).wf(),
        ensures
            final(self).wf(),
            final(self).store == old(self).store,
            final(self).master_key == old(self).master_key,
            final(self).derived_key == old(self).derived_key,
            r is Ok <==> match remote {
                Some(rm) => rm@ == seq!['-'] || url_host(rm@) matches Some(Some(_)),
                None => true,
            },
            r is Err ==> final(self).user == old(self).user && final(self).fs_dirty == old(
                self).fs_dirty,
            r is Ok ==> final(self).fs_dirty && final(self).user.name == match name {
                Some(n) => *n,
                None => old(self).user.name,
            } && final(self).user.email == match email {
                Some(e) => *e,
                None => old(self).user.email,
            },
            r is Ok && remote is None ==> final(self).user.remote == old(self).user.remote,
            r is Ok && (remote matches Some(rm) && rm@ == seq!['-']) ==> final(self).user.remote is None,
            r is Ok && (remote matches Some(rm) && rm@ != seq!['-']) ==> (final(self).user.remote matches Some(
                x,
            ) && url_host(remote->Some_0@) == Some(Some(x.host@)) && x.url@ == remote->Some_0@
                && x.creds == creds),
            r is Ok ==> (final(self).success_message matches Some(m) && m@ == "Successfully set user "@
                + field_list(name is Some, email is Some, remote is Some)),
    {
        match remote {
            Some(rm) => {
                let res = self.user.set_remote(rm.as_str(), creds);
                if res.is_err() {
                    return res;
                }
            },
            None => {},
        }
        match name {
            Some(n) => {
                self.user.name = n.clone();
            },
            None => {},
        }
        match email {
            Some(e) => {
                self.user.email = e.clone();
            },
            None => {},
        }
        let fields = fields_text(name.is_some(), email.is_some(), remote.is_some());
        let mut message = String::from_str("Successfully set user ");
        message.append(fields.as_str());
        self.fs_dirty = true;
        self.success_message = Some(message);
        Ok(())
    }
}

/// The lines of `s` as `str::split_terminator('\n')` gives them: no empty last line.
pub open spec fn terminated_lines(s: Seq<char>) -> Seq<Seq<char>> {
    let p = split_spec(s, '\n');
    if p.last().len() == 0 {
        p.drop_last()
    } else {
        p
    }
}

/// The position of the first `c` in `s`.
pub open spec fn first_index(s: Seq<char>, c: char) -> Option<int>
    decreases s.len(),
{
    if s.len() == 0 {
        None
    } else if s[0] == c {
        Some(0)
    } else {
        match first_index(s.drop_first(), c) {
            Some(i) => Some(i + 1),
            None => None,
        }
    }
}

/// `s` cut at its first `c`, as `str::split_once` does.
pub open spec fn split_once_spec(s: Seq<char>, c: char) -> Option<(Seq<char>, Seq<char>)> {
    match first_index(s, c) {
        Some(i) => Some((s.subrange(0, i), s.subrange(i + 1, s.len() as int))),
        None => None,
    }
}

/// The username and password that `key=value` lines give, the last of each winning;
/// `None` when a line has no `=`.
pub open spec fn scan_credentials(lines: Seq<Seq<char>>) -> Option<
    (Option<Seq<char>>, Option<Seq<char>>),
>
    decreases lines.len(),
{
    if lines.len() == 0 {
        Some((None, None))
    } else {
        match scan_credentials(lines.drop_last()) {
            None => None,
            Some((u, p)) => match split_once_spec(lines.last(), '=') {
                None => None,
                Some((k, v)) => if k == "username"@ {
                    Some((Some(v), p))
                } else if k == "password"@ {
                    Some((u, Some(v)))
                } else {
                    Some((u, p))
                },
            },
        }
    }
}

proof fn lemma_first_index_found(s: Seq<char>, c: char, i: int)
    requires
        0 <= i < s.len(),
        s[i] == c,
        forall|j: int| 0 <= j < i ==> s[j] != c,
    ensures
        first_index(s, c) == Some(i),
    decreases s.len(),
{
    if i > 0 {
        assert forall|j: int| 0 <= j < i - 1 implies s.drop_first()[j] != c by {
            assert(s.drop_first()[j] == s[j + 1]);
        }
        lemma_first_index_found(s.drop_first(), c, i - 1);
    }
}

proof fn lemma_first_index_absent(s: Seq<char>, c: char)
    requires
        forall|j: int| 0 <= j < s.len() ==> s[j] != c,
    ensures
        first_index(s, c) is None,
    decreases s.len(),
{
    if s.len() > 0 {
        assert forall|j: int| 0 <= j < s.drop_first().len() implies s.drop_first()[j] != c by {
            assert(s.drop_first()[j] == s[j + 1]);
        }
        lemma_first_index_absent(s.drop_first(), c);
    }
}

/// Cuts `s` at its first `c`.
fn split_once(s: &str, c: char) -> (r: Option<(String, String)>)
    ensures
        match split_once_spec(s@, c) {
            Some((a, b)) => r matches Some((x, y)) && x@ == a && y@ == b,
            None => r is None,
        },
{
    let n = s.unicode_len();
    let mut i: usize = 0;
    while i < n
        invariant
            n == s@.len(),
            0 <= i <= n,
            forall|j: int| 0 <= j < i ==> s@[j] != c,
        decreases n - i,
    {
        if s.get_char(i) == c {
            proof {
                lemma_first_index_found(s@, c, i as int);
            }
            let a = String::from_str(s.substring_char(0, i));
            let b = String::from_str(s.substring_char(i + 1, n));
            return Some((a, b));
        }
        i = i + 1;
    }
    proof {
        lemma_first_index_absent(s@, c);
    }
    None
}

/// Reads the credential helper's answer: `key=value` lines with a `username` and a
/// `password`. A line without `=` fails with `Split`; a missing key fails naming it.
pub fn parse_credentials(output: &str) -> (r: Result<(String, String), PassManagerErr>)
    ensures
        scan_credentials(terminated_lines(output@)) is None ==> r matches Err(PassManagerErr::Split),
        scan_credentials(terminated_lines(output@)) matches Some((u, p)) ==> match (u, p) {
            (Some(u), Some(p)) => r matches Ok((x, y)) && x@ == u && y@ == p,
            (None, Some(_)) => r matches Err(PassManagerErr::Creds { key }) && key@ == "username"@,
            (Some(_), None) => r matches Err(PassManagerErr::Creds { key }) && key@ == "password"@,
            (None, None) => r matches Err(PassManagerErr::Creds { key }) && key@
                == "username, password"@,
        },
{
    let mut lines = split_on(output, '\n');
    let ghost all = strings_view(lines@);
    proof {
        crate::text::lemma_split_nonempty(output@, '\n');
    }
    let last_empty = lines[lines.len() - 1].as_str().unicode_len() == 0;
    if last_empty {
        lines.pop();
        assert(strings_view(lines@) =~= all.drop_last());
    }
    let ghost ls = strings_view(lines@);
    assert(ls == terminated_lines(output@));
    let mut user: Option<String> = None;
    let mut pass: Option<String> = None;
    let mut i: usize = 0;
    while i < lines.len()
        invariant
            0 <= i <= lines@.len(),
            ls == strings_view(lines@),
            ls == terminated_lines(output@),
            scan_credentials(ls.subrange(0, i as int)) == Some((opt_view(user), opt_view(pass))),
        decreases lines@.len() - i,
    {
        proof {
            assert(ls.subrange(0, i + 1).drop_last() =~= ls.subrange(0, i as int));
            assert(ls.subrange(0, i + 1).last() == lines@[i as int]@);
        }
        let (k, v) = match split_once(lines[i].as_str(), '=') {
            Some(kv) => kv,
            None => {
                proof {
                    lemma_scan_stays_none(ls, i as int + 1);
                }
                return Err(PassManagerErr::Split);
            },
        };
        if str_eq(k.as_str(), "username") {
            user = Some(v);
        } else if str_eq(k.as_str(), "password") {
            pass = Some(v);
        }
        i = i + 1;
    }
    assert(ls.subrange(0, ls.len() as int) =~= ls);
    match (user, pass) {
        (Some(u), Some(p)) => Ok((u, p)),
        (None, Some(_)) => Err(PassManagerErr::Creds { key: String::from_str("username") }),
        (Some(_), None) => Err(PassManagerErr::Creds { key: String::from_str("password") }),
        (None, None) => Err(PassManagerErr::Creds { key: String::from_str("username, password") }),
    }
}

/// Once a prefix of the lines fails to scan, every longer one does.
proof fn lemma_scan_stays_none(ls: Seq<Seq<char>>, i: int)
    requires
        0 < i <= ls.len(),
        scan_credentials(ls.subrange(0, i)) is None,
    ensures
        scan_credentials(ls) is None,
    decreases ls.len() - i,
{
    if i < ls.len() {
        assert(ls.subrange(0, i + 1).drop_last() =~= ls.subrange(0, i));
        lemma_scan_stays_none(ls, i + 1);
    } else {
        assert(ls.subrange(0, i) =~= ls);
    }
}

/// What the credential helper is asked for `host`.
pub fn credential_request(host: &str) -> (r: String)
    ensures
        r@ == "protocol=https\nhost="@ + host@ + "\n"@,
{
    concat3("protocol=https\nhost=", host, "\n")
}

} // verus!
