//! Names for local connections.
use vstd::prelude::*;

use crate::hashing::{hex16, mx3_hash, mx3_v3_hash, push_hex16};
use crate::stringutil::{string_push, string_push_str};

verus! {

/// Returns the name of the user running the process.
///
/// Calls `whoami::username`; claims only that the name is not empty. On
/// Unix an empty password entry is an error there and the function falls
/// back to `unknown`. Which name comes back depends on the environment and
/// is not stated.
#[verifier::external_body]
fn current_username() -> (r: String)
    ensures
        r@.len() > 0,
{
    whoami::username()
}

/// Builds a unique name that can be used for local IPC connections.
#[derive(Debug)]
pub struct NameBuilder {
    name: String,
}

impl NameBuilder {
    /// The name built so far.
    pub closed spec fn spec_name(&self) -> Seq<char> {
        self.name@
    }

    /// Creates a `NameBuilder` with an empty name.
    pub fn new() -> (r: Self)
        ensures
            r.spec_name().len() == 0,
    {
        Self { name: String::new() }
    }

    /// Appends the current username.
    pub fn current_user(self) -> (r: Self)
        ensures
            exists|u: Seq<char>| u.len() > 0 && r.spec_name() == self.spec_name() + u,
    {
        let user = current_username();
        let r = self.user(user.as_str());
        assert(r.spec_name() == self.spec_name() + user@);
        r
    }

    /// Appends the given user name.
    pub fn user(self, name: &str) -> (r: Self)
        ensures
            r.spec_name() == self.spec_name() + name@,
    {
        let mut text = self.name;
        string_push_str(&mut text, name);
        Self { name: text }
    }

    /// Appends a string derived from the current working directory, given as
    /// the bytes of its path; `_` when it is not known.
    pub fn current_dir(self, dir: Option<&[u8]>) -> (r: Self)
        ensures
            r.spec_name() == match dir {
                Some(d) => self.spec_name() + hex16(mx3_v3_hash(d@, 1)),
                None => self.spec_name().push('_'),
            },
    {
        match dir {
            Some(d) => self.path(d),
            None => {
                let mut name = self.name;
                string_push(&mut name, '_');
                Self { name }
            },
        }
    }

    /// Appends a string derived from a path, given as its bytes: the
    /// 16-digit hexadecimal mx3 hash of the bytes.
    pub fn path(self, path: &[u8]) -> (r: Self)
        ensures
            r.spec_name() == self.spec_name() + hex16(mx3_v3_hash(path@, 1)),
    {
        let hash = mx3_hash(path, 1);
        let mut name = self.name;
        push_hex16(&mut name, hash);
        Self { name }
    }

    /// Appends a string derived from the given name: the 16-digit
    /// hexadecimal mx3 hash of its UTF-8 bytes.
    pub fn name(self, name: &str) -> (r: Self)
        ensures
            r.spec_name() == self.spec_name() + hex16(
                mx3_v3_hash(vstd::utf8::encode_utf8(name@), 1),
            ),
    {
        self.path(name.as_bytes())
    }

    /// Returns the built string.
    pub fn build(self) -> (r: String)
        ensures
            r@ == self.spec_name(),
    {
        self.name
    }
}

impl Default for NameBuilder {
    fn default() -> (r: Self)
        ensures
            r.spec_name().len() == 0,
    {
        Self::new()
    }
}

} // verus!
