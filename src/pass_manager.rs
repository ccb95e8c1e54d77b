//! The entry of the single-file store: a nonce and the sealed password.
use vstd::prelude::*;

verus! {

pub struct PasswordEntry {
    nonce: [u8; 12],
    password: Vec<u8>,
}

impl PasswordEntry {
    pub closed spec fn nonce_spec(&self) -> [u8; 12] {
        self.nonce
    }

    pub closed spec fn password_spec(&self) -> Seq<u8> {
        self.password@
    }

    pub fn new(salt: [u8; 12], password_encrypted: Vec<u8>) -> (r: Self)
        ensures
            r.nonce_spec() == salt,
            r.password_spec() == password_encrypted@,
    {
        Self { nonce: salt, password: password_encrypted }
    }

    pub fn nonce(&self) -> (r: &[u8; 12])
        ensures
            *r == self.nonce_spec(),
    {
        &self.nonce
    }

    pub fn password(&self) -> (r: &Vec<u8>)
        ensures
            r@ == self.password_spec(),
    {
        &self.password
    }
}

} // verus!
