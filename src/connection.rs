//! The values that describe a connection: how to authenticate, what a remote
//! command returned, and the local connection's identity. The transports
//! themselves perform I/O and live outside the library.
use vstd::prelude::*;

verus! {

/// What one command returned.
#[derive(Debug, Clone)]
pub struct CommandResult {
    pub stdout: String,
    pub stderr: String,
    pub exit_code: i32,
}

/// How to authenticate an SSH session.
#[derive(Debug, Clone)]
pub enum Auth {
    Key { private_key: String, passphrase: Option<String> },
    Password(String),
    Agent,
}

impl Auth {
    /// A private key file without a passphrase.
    pub fn key(path: &str) -> (r: Auth)
        ensures
            r matches Auth::Key { private_key, passphrase } && private_key@ == path@
                && passphrase is None,
    {
        Auth::Key { private_key: path.to_owned(), passphrase: None }
    }

    /// A private key file protected by a passphrase.
    pub fn key_with_passphrase(path: &str, passphrase: &str) -> (r: Auth)
        ensures
            r matches Auth::Key { private_key, passphrase: Some(p) } && private_key@ == path@
                && p@ == passphrase@,
    {
        Auth::Key { private_key: path.to_owned(), passphrase: Some(passphrase.to_owned()) }
    }

    pub fn password(password: &str) -> (r: Auth)
        ensures
            r matches Auth::Password(p) && p@ == password@,
    {
        Auth::Password(password.to_owned())
    }

    /// The keys held by the running SSH agent.
    pub fn agent() -> (r: Auth)
        ensures
            r is Agent,
    {
        Auth::Agent
    }
}

pub open spec fn localhost() -> Seq<char> {
    seq!['l', 'o', 'c', 'a', 'l', 'h', 'o', 's', 't']
}

/// A connection to the controller's own machine.
#[derive(Debug)]
pub struct LocalConnection {
    host: String,
}

impl LocalConnection {
    pub closed spec fn host_name(&self) -> Seq<char> {
        self.host@
    }

    pub fn new() -> (r: LocalConnection)
        ensures
            r.host_name() == localhost(),
    {
        let h: Vec<char> = vec!['l', 'o', 'c', 'a', 'l', 'h', 'o', 's', 't'];
        assert(h@ =~= localhost());
        LocalConnection { host: crate::text::string_of(&h) }
    }

    /// The name this connection reports for its host.
    pub fn host(&self) -> (r: &str)
        ensures
            r@ == self.host_name(),
    {
        self.host.as_str()
    }
}

} // verus!
