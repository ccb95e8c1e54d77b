//! The commands a user can give, and the commit message each one leaves.
use vstd::prelude::*;

use crate::text::str_eq;
use crate::user::{parse_url_host, url_host};

verus! {

pub struct Cli {
    pub subcommand: CliSubcommand,
}

pub enum CliSubcommand {
    /// Add a new item to the store.
    Add { input: bool, len: usize, special_chars: bool, overwrite: bool, label: String },
    /// Delete an item from the store.
    Delete { label: String },
    /// Copy the current password of an item to the clipboard.
    Copy { label: String },
    /// List all items in the store.
    List,
    /// Initialize the store.
    Initialize,
    /// Show the history.
    History,
    /// Revert a change, the last one by default.
    Undo { id: Option<String> },
    /// Subcommands concerning the store.
    Store(Store),
    /// Subcommands concerning the user.
    User(User),
}

pub struct Store {
    pub subcommand: StoreSubcommand,
}

pub enum StoreSubcommand {
    /// Remove all items.
    Reset,
    /// Change the passphrase.
    Modify,
    /// Sync with the remote repository.
    Sync { dir: SyncDirection, force: bool },
    /// Remove the store, the user record and all history.
    Nuke { sync: bool, archive: bool },
}

#[derive(Clone, Copy, PartialEq, Eq, Structural)]
pub enum SyncDirection {
    Push,
    Pull,
}

pub struct User {
    pub subcommand: UserSubcommand,
}

pub enum UserSubcommand {
    /// Show the user record.
    Get,
    /// Set or change fields of the user record (`remote` `"-"` removes the remote).
    SetFields { name: Option<String>, email: Option<String>, remote: Option<String> },
}

/// The names of the given fields, comma-joined, in the order name, email, remote.
pub open spec fn field_list(name: bool, email: bool, remote: bool) -> Seq<char> {
    let a = if name {
        "name"@
    } else {
        Seq::<char>::empty()
    };
    let b = if email {
        if name {
            a + ","@ + "email"@
        } else {
            "email"@
        }
    } else {
        a
    };
    if remote {
        if name || email {
            b + ","@ + "remote"@
        } else {
            "remote"@
        }
    } else {
        b
    }
}

/// The message that records adding `label`.
pub open spec fn add_message(label: Seq<char>) -> Seq<char> {
    "store add "@ + label
}

/// The commit message a command leaves: `<area> <action>[ <value>]`, or nothing for the
/// commands that change nothing.
pub open spec fn commit_message_spec(c: CliSubcommand) -> Seq<char> {
    match c {
        CliSubcommand::Add { label, .. } => add_message(label@),
        CliSubcommand::Delete { label } => "store delete "@ + label@,
        CliSubcommand::Store(Store { subcommand: StoreSubcommand::Reset }) => "store reset"@,
        CliSubcommand::Store(Store { subcommand: StoreSubcommand::Modify }) => "store modify"@,
        CliSubcommand::User(User { subcommand: UserSubcommand::SetFields { name, email, remote } }) => "user set "@
            + field_list(name is Some, email is Some, remote is Some),
        _ => Seq::<char>::empty(),
    }
}

/// Builds the comma-joined list of the given field names.
pub fn fields_text(name: bool, email: bool, remote: bool) -> (r: String)
    ensures
        r@ == field_list(name, email, remote),
{
    let mut r = String::new();
    if name {
        r.append("name");
    }
    if email {
        if name {
            r.append(",");
        }
        r.append("email");
    }
    if remote {
        if name || email {
            r.append(",");
        }
        r.append("remote");
    }
    proof {
        assert(Seq::<char>::empty() + "name"@ =~= "name"@);
        assert(Seq::<char>::empty() + "email"@ =~= "email"@);
        assert(Seq::<char>::empty() + "remote"@ =~= "remote"@);
    }
    r
}

fn prefixed(p: &str, s: &str) -> (r: String)
    ensures
        r@ == p@ + s@,
{
    let mut r = String::from_str(p);
    r.append(s);
    r
}

impl Cli {
    pub fn to_commit_message(&self) -> (r: String)
        ensures
            r@ == commit_message_spec(self.subcommand),
    {
        match &self.subcommand {
            CliSubcommand::Add { label, .. } => prefixed("store add ", label.as_str()),
            CliSubcommand::Delete { label } => prefixed("store delete ", label.as_str()),
            CliSubcommand::Store(Store { subcommand: StoreSubcommand::Reset }) => String::from_str(
                "store reset",
            ),
            CliSubcommand::Store(Store { subcommand: StoreSubcommand::Modify }) => String::from_str(
                "store modify",
            ),
            CliSubcommand::User(User { subcommand: UserSubcommand::SetFields { name, email, remote } }) => {
                let fields = fields_text(name.is_some(), email.is_some(), remote.is_some());
                prefixed("user set ", fields.as_str())
            },
            _ => String::new(),
        }
    }
}

/// What `email_address::EmailAddress::from_str` makes of `s`: whether it is an address.
pub uninterp spec fn email_valid(s: Seq<char>) -> bool;

/// Relies on `EmailAddress::from_str` (email_address): whether `s` parses as an address
/// depends on `s` alone; a refusal comes back as its message.
#[verifier::external_body]
fn check_email(s: &str) -> (r: Result<(), String>)
    ensures
        r is Ok <==> email_valid(s@),
{
    match <email_address::EmailAddress as std::str::FromStr>::from_str(s) {
        Ok(_) => Ok(()),
        Err(e) => Err(e.to_string()),
    }
}

/// Accepts an e-mail address.
pub fn parse_email(arg: &str) -> (r: Result<String, String>)
    ensures
        r is Ok <==> email_valid(arg@),
        r matches Ok(s) ==> s@ == arg@,
{
    match check_email(arg) {
        Ok(()) => Ok(String::from_str(arg)),
        Err(e) => Err(e),
    }
}

/// Accepts `"-"`, which removes the remote, or a URL.
pub fn parse_remote(arg: &str) -> (r: Result<String, String>)
    ensures
        r is Ok <==> arg@ == seq!['-'] || url_host(arg@) is Some,
        r matches Ok(s) ==> s@ == arg@,
{
    proof {
        reveal_strlit("-");
        assert("-"@ =~= seq!['-']);
    }
    if !str_eq(arg, "-") {
        return match parse_url_host(arg) {
            Ok(_) => Ok(String::from_str(arg)),
            Err(e) => Err(e),
        };
    }
    Ok(String::from_str(arg))
}

} // verus!
