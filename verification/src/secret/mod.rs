//! Encrypting files with a password: the cipher, the format of encrypted
//! data, which files of a repository are secret, and the password itself.
pub mod cipher;
pub mod files;
pub mod format;
pub mod password;

use vstd::prelude::*;

verus! {

/// What the secret command is asked to handle: a source (a file in file
/// mode, a directory otherwise), whether the kept password is to be
/// replaced, and in file mode where the result goes (`Some(None)` for the
/// standard output).
#[derive(Debug)]
pub struct SecretArgs {
    pub src: Option<String>,
    pub update_password: bool,
    pub file: Option<Option<String>>,
}

/// How many bytes each chunk of plaintext holds.
#[derive(Debug)]
pub struct BufferArgs {
    pub size: usize,
}

impl SecretArgs {
    /// The password kept from before, unless a new one is asked for; `None`
    /// when one must be entered.
    pub fn get_password(&self, kept: Option<String>) -> (r: Option<String>)
        ensures
            r == (if self.update_password { None } else { kept }),
    {
        if self.update_password {
            None
        } else {
            kept
        }
    }

    /// The directory whose secret files are handled: the source that was
    /// given, or else the current directory.
    pub fn into_many_base_dir(self, current_dir: String) -> (r: String)
        ensures
            r == (match self.src {
                Some(s) => s,
                None => current_dir,
            }),
    {
        match self.src {
            Some(s) => s,
            None => current_dir,
        }
    }
}

} // verus!
