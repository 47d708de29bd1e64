//! The command-line request: which configuration to use and what to do.

use vstd::prelude::*;

verus! {

/// A batch operation over every encrypting entry.
#[derive(Debug, Clone, Copy, PartialEq, Eq, Structural)]
pub enum SubCommand {
    /// Protect the eligible source files as ciphertext siblings.
    Encrypt,
    /// Restore the plaintext files from their ciphertext siblings.
    Decrypt,
}

/// One invocation's request, already parsed.
#[derive(Debug, Clone)]
pub struct Cli {
    /// Path to the configuration file.
    pub config: String,
    /// Classify only; make no filesystem change.
    pub simulate: bool,
    /// The batch operation to run instead of linking, if any.
    pub cmd: Option<SubCommand>,
}

impl Cli {
    /// Whether this invocation asks for the encryption batch.
    pub fn is_encrypt_cmd(&self) -> (r: bool)
        ensures
            r == (self.cmd == Some(SubCommand::Encrypt)),
    {
        match self.cmd {
            Some(SubCommand::Encrypt) => true,
            Some(SubCommand::Decrypt) => false,
            None => false,
        }
    }

    /// Whether this invocation asks for the decryption batch.
    pub fn is_decrypt_cmd(&self) -> (r: bool)
        ensures
            r == (self.cmd == Some(SubCommand::Decrypt)),
    {
        match self.cmd {
            Some(SubCommand::Encrypt) => false,
            Some(SubCommand::Decrypt) => true,
            None => false,
        }
    }
}

} // verus!
