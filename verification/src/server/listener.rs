//! The checks that guard binding the server's Unix socket: the path, its
//! private parent directory, a stale socket left at the path, and the
//! identity of the socket while it is published. The file-system calls stay
//! with the caller, which hands over what they observed.

use vstd::prelude::*;

verus! {

/// Why binding the socket was refused.
#[derive(Debug, Clone, Copy, PartialEq, Eq, Structural)]
pub enum BindRefusal {
    NotAbsolute,
    NoParent,
    ParentNotDirectory,
    ParentNotPrivate,
    NotASocket,
    LiveListener,
    LivenessUncertain,
    StaleNotOwned,
    PathChanged,
    CreatedNotSocket,
    TemporaryChanged,
    PublishedChanged,
}

/// What a file-system entry looked like: whether it is a socket, its owner
/// and its identity (device and inode).
#[derive(Debug, Clone, Copy, PartialEq, Eq, Structural)]
pub struct EntryFacts {
    pub is_socket: bool,
    pub owner_uid: u32,
    pub device: u64,
    pub inode: u64,
}

/// The outcome of connecting to an existing socket to learn whether anyone
/// listens on it.
#[derive(Debug, Clone, Copy, PartialEq, Eq, Structural)]
pub enum LivenessProbe {
    Connected,
    Refused,
    Failed,
}

pub open spec fn refusal_text(r: BindRefusal) -> Seq<char> {
    match r {
        BindRefusal::NotAbsolute => "Unix socket path must be absolute"@,
        BindRefusal::NoParent => "Unix socket path has no parent"@,
        BindRefusal::ParentNotDirectory => "Unix socket parent is not a directory"@,
        BindRefusal::ParentNotPrivate => "Unix socket parent must be owner-only (0700-style) and owned by the current user"@,
        BindRefusal::NotASocket => "refusing to unlink a non-socket path"@,
        BindRefusal::LiveListener => "Unix socket already has a live listener"@,
        BindRefusal::LivenessUncertain => "Unix socket liveness is uncertain; refusing to unlink"@,
        BindRefusal::StaleNotOwned => "stale Unix socket is not owned by the current user"@,
        BindRefusal::PathChanged => "Unix socket path changed during stale-socket validation"@,
        BindRefusal::CreatedNotSocket => "created Unix socket path is not a socket"@,
        BindRefusal::TemporaryChanged => "Unix socket temporary path changed during creation"@,
        BindRefusal::PublishedChanged => "Unix socket path changed during creation"@,
    }
}

impl BindRefusal {
    /// The refusal's message.
    pub fn message(&self) -> (s: &'static str)
        ensures
            s@ == refusal_text(*self),
    {
        match self {
            BindRefusal::NotAbsolute => "Unix socket path must be absolute",
            BindRefusal::NoParent => "Unix socket path has no parent",
            BindRefusal::ParentNotDirectory => "Unix socket parent is not a directory",
            BindRefusal::ParentNotPrivate => "Unix socket parent must be owner-only (0700-style) and owned by the current user",
            BindRefusal::NotASocket => "refusing to unlink a non-socket path",
            BindRefusal::LiveListener => "Unix socket already has a live listener",
            BindRefusal::LivenessUncertain => "Unix socket liveness is uncertain; refusing to unlink",
            BindRefusal::StaleNotOwned => "stale Unix socket is not owned by the current user",
            BindRefusal::PathChanged => "Unix socket path changed during stale-socket validation",
            BindRefusal::CreatedNotSocket => "created Unix socket path is not a socket",
            BindRefusal::TemporaryChanged => "Unix socket temporary path changed during creation",
            BindRefusal::PublishedChanged => "Unix socket path changed during creation",
        }
    }
}

/// The socket path must be absolute and have a parent directory.
pub fn socket_path_check(is_absolute: bool, has_parent: bool) -> (r: Result<(), BindRefusal>)
    ensures
        r == if !is_absolute {
            Err(BindRefusal::NotAbsolute)
        } else if !has_parent {
            Err(BindRefusal::NoParent)
        } else {
            Ok(())
        },
{
    if !is_absolute {
        Err(BindRefusal::NotAbsolute)
    } else if !has_parent {
        Err(BindRefusal::NoParent)
    } else {
        Ok(())
    }
}

/// The parent must be a directory owned by the effective user and closed to
/// group and others (no permission bit of `0o077`).
pub fn socket_parent_check(is_dir: bool, owner_uid: u32, euid: u32, mode: u32) -> (r: Result<(), BindRefusal>)
    ensures
        r == if !is_dir {
            Err(BindRefusal::ParentNotDirectory)
        } else if owner_uid != euid || mode & 0o077u32 != 0 {
            Err(BindRefusal::ParentNotPrivate)
        } else {
            Ok(())
        },
        r is Ok <==> (is_dir && owner_uid == euid && mode & 0o077u32 == 0),
{
    if !is_dir {
        Err(BindRefusal::ParentNotDirectory)
    } else if owner_uid != euid || mode & 0o077u32 != 0 {
        Err(BindRefusal::ParentNotPrivate)
    } else {
        Ok(())
    }
}

/// Only a socket found at the path may be probed and removed.
pub fn existing_entry_check(existing: EntryFacts) -> (r: Result<(), BindRefusal>)
    ensures
        r == if existing.is_socket { Ok(()) } else { Err(BindRefusal::NotASocket) },
{
    if existing.is_socket {
        Ok(())
    } else {
        Err(BindRefusal::NotASocket)
    }
}

/// The entry just bound must be a socket; its identity is what later
/// checks compare against.
pub fn created_socket_check(created: EntryFacts) -> (r: Result<(u64, u64), BindRefusal>)
    ensures
        r == if created.is_socket {
            Ok::<(u64, u64), BindRefusal>((created.device, created.inode))
        } else {
            Err(BindRefusal::CreatedNotSocket)
        },
{
    if created.is_socket {
        Ok((created.device, created.inode))
    } else {
        Err(BindRefusal::CreatedNotSocket)
    }
}

/// A probed socket is stale, and may be removed, when the connection was
/// refused and it belongs to the effective user; a live or uncertain
/// listener is refused first.
pub fn stale_socket_check(existing: EntryFacts, probe: LivenessProbe, euid: u32) -> (r: Result<(), BindRefusal>)
    ensures
        r == match probe {
            LivenessProbe::Connected => Err(BindRefusal::LiveListener),
            LivenessProbe::Failed => Err(BindRefusal::LivenessUncertain),
            LivenessProbe::Refused => if existing.owner_uid != euid {
                Err(BindRefusal::StaleNotOwned)
            } else {
                Ok(())
            },
        },
{
    match probe {
        LivenessProbe::Connected => Err(BindRefusal::LiveListener),
        LivenessProbe::Failed => Err(BindRefusal::LivenessUncertain),
        LivenessProbe::Refused => if existing.owner_uid != euid {
            Err(BindRefusal::StaleNotOwned)
        } else {
            Ok(())
        },
    }
}

/// `current` is still the socket identified by `device` and `inode`; else
/// the given refusal.
pub fn same_socket_check(device: u64, inode: u64, current: EntryFacts, refusal: BindRefusal) -> (r: Result<(), BindRefusal>)
    ensures
        r == if current.is_socket && current.device == device && current.inode == inode {
            Ok(())
        } else {
            Err(refusal)
        },
{
    if current.is_socket && current.device == device && current.inode == inode {
        Ok(())
    } else {
        Err(refusal)
    }
}

} // verus!
