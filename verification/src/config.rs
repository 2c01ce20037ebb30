//! Networking configuration shared by the local IPC endpoints: the access
//! class applied to a Unix socket or Windows pipe, and the override paths.

use vstd::prelude::*;

verus! {

/// Level of access control to the unix socket or windows pipe.
#[derive(Copy, Clone, Debug, PartialEq, Eq, Structural)]
pub enum AccessControl {
    /// Read & write for the owner only.
    Owner,
    /// Read & write for the owner and group.
    Group,
    /// Read & write for owner, group, and everyone else.
    Anyone,
}

impl AccessControl {
    /// Converts into a Unix file permission octal.
    pub fn into_mode(self) -> (mode: u32)
        ensures
            self == AccessControl::Owner ==> mode == 0o600,
            self == AccessControl::Group ==> mode == 0o660,
            self == AccessControl::Anyone ==> mode == 0o666,
    {
        match self {
            AccessControl::Owner => 0o600,
            AccessControl::Group => 0o660,
            AccessControl::Anyone => 0o666,
        }
    }
}

impl Default for AccessControl {
    /// Defaults to owner-only permissions.
    fn default() -> (d: Self)
        ensures
            d == AccessControl::Owner,
    {
        AccessControl::Owner
    }
}

/// Common networking configuration: the access class and the optional
/// overrides for the Unix socket path and the Windows pipe name.
#[derive(Clone, Debug)]
pub struct NetworkConfig {
    /// Type of access to apply to a created unix socket or windows pipe.
    pub access: Option<AccessControl>,
    /// Override of the path to the Unix socket used by the manager.
    pub unix_socket: Option<String>,
    /// Override of the name of the local named Windows pipe used by the manager.
    pub windows_pipe: Option<String>,
}

impl NetworkConfig {
    /// Merges two configurations, preferring the fields of `self` and falling
    /// back to those of `other`.
    pub fn merge(self, other: Self) -> (merged: Self)
        ensures
            merged.access == (if self.access is Some { self.access } else { other.access }),
            merged.unix_socket == (if self.unix_socket is Some {
                self.unix_socket
            } else {
                other.unix_socket
            }),
            merged.windows_pipe == (if self.windows_pipe is Some {
                self.windows_pipe
            } else {
                other.windows_pipe
            }),
    {
        Self {
            access: if self.access.is_some() { self.access } else { other.access },
            unix_socket: if self.unix_socket.is_some() { self.unix_socket } else { other.unix_socket },
            windows_pipe: if self.windows_pipe.is_some() { self.windows_pipe } else { other.windows_pipe },
        }
    }

    /// Returns an option containing a reference to the unix socket path if one
    /// was configured.
    pub fn as_opt(&self) -> (path: Option<&String>)
        ensures
            path is Some <==> self.unix_socket is Some,
            path is Some ==> path->0 == self.unix_socket->0,
    {
        self.unix_socket.as_ref()
    }

    /// Returns a collection of candidate unix socket paths: either the
    /// configured override alone, or the given user and global defaults.
    pub fn to_unix_socket_path_candidates(&self, user_default: &str, global_default: &str) -> (candidates: Vec<String>)
        ensures
            self.unix_socket is Some ==> candidates@.len() == 1
                && candidates@[0]@ == self.unix_socket->0@,
            self.unix_socket is None ==> candidates@.len() == 2
                && candidates@[0]@ == user_default@
                && candidates@[1]@ == global_default@,
    {
        match &self.unix_socket {
            Some(path) => {
                let mut v: Vec<String> = Vec::new();
                v.push(path.clone());
                v
            }
            None => {
                let mut v: Vec<String> = Vec::new();
                v.push(user_default.to_string());
                v.push(global_default.to_string());
                v
            }
        }
    }

    /// Returns a collection of candidate windows pipe names: either the
    /// configured override alone, or the given user and global defaults.
    pub fn to_windows_pipe_name_candidates(&self, user_default: &str, global_default: &str) -> (candidates: Vec<String>)
        ensures
            self.windows_pipe is Some ==> candidates@.len() == 1
                && candidates@[0]@ == self.windows_pipe->0@,
            self.windows_pipe is None ==> candidates@.len() == 2
                && candidates@[0]@ == user_default@
                && candidates@[1]@ == global_default@,
    {
        match &self.windows_pipe {
            Some(name) => {
                let mut v: Vec<String> = Vec::new();
                v.push(name.clone());
                v
            }
            None => {
                let mut v: Vec<String> = Vec::new();
                v.push(user_default.to_string());
                v.push(global_default.to_string());
                v
            }
        }
    }
}

impl Default for NetworkConfig {
    /// Defaults to no access override and no path overrides.
    fn default() -> (d: Self)
        ensures
            d.access is None,
            d.unix_socket is None,
            d.windows_pipe is None,
    {
        Self { access: None, unix_socket: None, windows_pipe: None }
    }
}

} // verus!
