//! UNIX permissions, as detailed in the POSIX specification.
//!
//! An [`AccessProfile`] holds the user and group IDs of an agent; access checks compare them
//! against the owner and permission bits of a file's [`Stat`].
use crate::errno::Errno;
use crate::file::{type_of_mode, FileType, Gid, Mode, Stat, Uid};
use vstd::prelude::*;

verus! {

/// The root user ID.
pub const ROOT_UID: Uid = 0;
/// The root group ID.
pub const ROOT_GID: Gid = 0;

/// User: Read, Write and Execute.
pub const S_IRWXU: Mode = 0o0700;
/// User: Read.
pub const S_IRUSR: Mode = 0o0400;
/// User: Write.
pub const S_IWUSR: Mode = 0o0200;
/// User: Execute.
pub const S_IXUSR: Mode = 0o0100;
/// Group: Read, Write and Execute.
pub const S_IRWXG: Mode = 0o0070;
/// Group: Read.
pub const S_IRGRP: Mode = 0o0040;
/// Group: Write.
pub const S_IWGRP: Mode = 0o0020;
/// Group: Execute.
pub const S_IXGRP: Mode = 0o0010;
/// Other: Read, Write and Execute.
pub const S_IRWXO: Mode = 0o0007;
/// Other: Read.
pub const S_IROTH: Mode = 0o0004;
/// Other: Write.
pub const S_IWOTH: Mode = 0o0002;
/// Other: Execute.
pub const S_IXOTH: Mode = 0o0001;
/// Setuid.
pub const S_ISUID: Mode = 0o4000;
/// Setgid.
pub const S_ISGID: Mode = 0o2000;
/// Sticky bit.
pub const S_ISVTX: Mode = 0o1000;

/// A set of information determining whether a process can access a resource.
#[derive(Clone, Copy, Debug, PartialEq, Eq, Structural)]
pub struct AccessProfile {
    /// Real ID of user
    pub uid: Uid,
    /// Real ID of group
    pub gid: Gid,
    /// The effective ID of user
    pub euid: Uid,
    /// The effective ID of group
    pub egid: Gid,
    /// The saved user ID
    pub suid: Uid,
    /// The saved group ID
    pub sgid: Gid,
}

/// Whether an agent with IDs `uid`/`gid` passes the permission check made of the owner bit
/// `usr`, the group bit `grp` and the other bit `oth`, without any privilege bypass.
pub open spec fn bits_allow(uid: Uid, gid: Gid, stat: Stat, usr: Mode, grp: Mode, oth: Mode) -> bool {
    ||| (stat.mode & usr != 0 && stat.uid == uid)
    ||| (stat.mode & grp != 0 && stat.gid == gid)
    ||| stat.mode & oth != 0
}

/// Whether IDs `uid`/`gid` may read a file with status `stat`.
pub open spec fn read_allowed(uid: Uid, gid: Gid, stat: Stat) -> bool {
    uid == ROOT_UID || gid == ROOT_GID || bits_allow(uid, gid, stat, S_IRUSR, S_IRGRP, S_IROTH)
}

/// Whether IDs `uid`/`gid` may write a file with status `stat`.
pub open spec fn write_allowed(uid: Uid, gid: Gid, stat: Stat) -> bool {
    uid == ROOT_UID || gid == ROOT_GID || bits_allow(uid, gid, stat, S_IWUSR, S_IWGRP, S_IWOTH)
}

/// Whether IDs `uid`/`gid` may execute a file with status `stat`. Root bypasses the check,
/// except on regular files.
pub open spec fn execute_allowed(uid: Uid, gid: Gid, stat: Stat) -> bool {
    ||| (type_of_mode(stat.mode) != Some(FileType::Regular) && (uid == ROOT_UID || gid
        == ROOT_GID))
    ||| bits_allow(uid, gid, stat, S_IXUSR, S_IXGRP, S_IXOTH)
}

impl AccessProfile {
    /// The user and group IDs selected by `effective`: effective IDs if set, real IDs if not.
    pub open spec fn ids(self, effective: bool) -> (Uid, Gid) {
        if effective {
            (self.euid, self.egid)
        } else {
            (self.uid, self.gid)
        }
    }

    /// The profile after a `setuid(uid)` call, or the error the call fails with.
    pub open spec fn after_set_uid(self, uid: Uid) -> Result<AccessProfile, Errno> {
        if self.euid == ROOT_UID {
            Ok(AccessProfile { uid: uid, euid: uid, suid: uid, ..self })
        } else if uid == self.uid || uid == self.euid || uid == self.suid {
            Ok(AccessProfile { euid: uid, ..self })
        } else {
            Err(Errno::EPERM)
        }
    }

    /// The profile after a `seteuid(uid)` call, or the error the call fails with.
    pub open spec fn after_set_euid(self, uid: Uid) -> Result<AccessProfile, Errno> {
        if uid == ROOT_UID || uid == self.uid || uid == self.euid || uid == self.suid {
            Ok(AccessProfile { euid: uid, ..self })
        } else {
            Err(Errno::EPERM)
        }
    }

    /// The profile after a `setgid(gid)` call, or the error the call fails with.
    pub open spec fn after_set_gid(self, gid: Gid) -> Result<AccessProfile, Errno> {
        if self.egid == ROOT_GID {
            Ok(AccessProfile { gid: gid, egid: gid, sgid: gid, ..self })
        } else if gid == self.gid || gid == self.egid || gid == self.sgid {
            Ok(AccessProfile { egid: gid, ..self })
        } else {
            Err(Errno::EPERM)
        }
    }

    /// The profile after a `setegid(gid)` call, or the error the call fails with.
    pub open spec fn after_set_egid(self, gid: Gid) -> Result<AccessProfile, Errno> {
        if gid == ROOT_GID || gid == self.gid || gid == self.egid || gid == self.sgid {
            Ok(AccessProfile { egid: gid, ..self })
        } else {
            Err(Errno::EPERM)
        }
    }

    /// Creates a profile from the given IDs.
    pub fn new(uid: Uid, gid: Gid) -> (ap: Self)
        ensures
            ap.uid == uid && ap.euid == uid && ap.suid == uid,
            ap.gid == gid && ap.egid == gid && ap.sgid == gid,
    {
        AccessProfile { uid, gid, euid: uid, egid: gid, suid: uid, sgid: gid }
    }

    /// Returns a copy of the current process's profile. `process_profile` is the profile of the
    /// current process's filesystem information, if it has any; a process without one acts as
    /// root.
    pub fn current(process_profile: Option<AccessProfile>) -> (ap: Self)
        ensures
            ap == current_profile(process_profile),
    {
        match process_profile {
            Some(ap) => ap,
            None => Self::new(ROOT_UID, ROOT_GID),
        }
    }

    /// Sets the user ID in the same way the `setuid` system call does.
    ///
    /// If the agent is not privileged enough to make the change, the function returns an error.
    pub fn set_uid(&mut self, uid: Uid) -> (r: Result<(), Errno>)
        ensures
            match old(self).after_set_uid(uid) {
                Ok(ap) => r == Ok::<(), Errno>(()) && *final(self) == ap,
                Err(e) => r == Err::<(), Errno>(e) && *final(self) == *old(self),
            },
    {
        if self.euid == ROOT_UID {
            self.uid = uid;
            self.euid = uid;
            self.suid = uid;
            Ok(())
        } else if uid == self.uid || uid == self.euid || uid == self.suid {
            self.euid = uid;
            Ok(())
        } else {
            Err(Errno::EPERM)
        }
    }

    /// Sets the effective user ID.
    ///
    /// If the agent is not privileged enough to make the change, the function returns an error.
    pub fn set_euid(&mut self, uid: Uid) -> (r: Result<(), Errno>)
        ensures
            match old(self).after_set_euid(uid) {
                Ok(ap) => r == Ok::<(), Errno>(()) && *final(self) == ap,
                Err(e) => r == Err::<(), Errno>(e) && *final(self) == *old(self),
            },
    {
        if uid == ROOT_UID || uid == self.uid || uid == self.euid || uid == self.suid {
            self.euid = uid;
            Ok(())
        } else {
            Err(Errno::EPERM)
        }
    }

    /// Sets the group ID in the way the `setgid` system call does.
    ///
    /// If the agent is not privileged enough to make the change, the function returns an error.
    pub fn set_gid(&mut self, gid: Gid) -> (r: Result<(), Errno>)
        ensures
            match old(self).after_set_gid(gid) {
                Ok(ap) => r == Ok::<(), Errno>(()) && *final(self) == ap,
                Err(e) => r == Err::<(), Errno>(e) && *final(self) == *old(self),
            },
    {
        if self.egid == ROOT_GID {
            self.gid = gid;
            self.egid = gid;
            self.sgid = gid;
            Ok(())
        } else if gid == self.gid || gid == self.egid || gid == self.sgid {
            self.egid = gid;
            Ok(())
        } else {
            Err(Errno::EPERM)
        }
    }

    /// Sets the effective group ID.
    ///
    /// If the agent is not privileged enough to make the change, the function returns an error.
    pub fn set_egid(&mut self, gid: Gid) -> (r: Result<(), Errno>)
        ensures
            match old(self).after_set_egid(gid) {
                Ok(ap) => r == Ok::<(), Errno>(()) && *final(self) == ap,
                Err(e) => r == Err::<(), Errno>(e) && *final(self) == *old(self),
            },
    {
        if gid == ROOT_GID || gid == self.gid || gid == self.egid || gid == self.sgid {
            self.egid = gid;
            Ok(())
        } else {
            Err(Errno::EPERM)
        }
    }

    fn check_read_access_impl(uid: Uid, gid: Gid, stat: &Stat) -> (b: bool)
        ensures
            b == read_allowed(uid, gid, *stat),
    {
        // If root, bypass checks
        if uid == ROOT_UID || gid == ROOT_GID {
            return true;
        }
        if stat.mode & S_IRUSR != 0 && stat.uid == uid {
            return true;
        }
        if stat.mode & S_IRGRP != 0 && stat.gid == gid {
            return true;
        }
        stat.mode & S_IROTH != 0
    }

    /// Tells whether the agent can read a file with the given status.
    ///
    /// `effective` tells whether to use effective IDs. If not, real IDs are used.
    pub fn check_read_access(&self, stat: &Stat, effective: bool) -> (b: bool)
        ensures
            b == read_allowed(self.ids(effective).0, self.ids(effective).1, *stat),
    {
        let (uid, gid) = if effective {
            (self.euid, self.egid)
        } else {
            (self.uid, self.gid)
        };
        Self::check_read_access_impl(uid, gid, stat)
    }

    /// Tells whether the agent can read a file with the given status, using effective IDs.
    pub fn can_read_file(&self, stat: &Stat) -> (b: bool)
        ensures
            b == read_allowed(self.euid, self.egid, *stat),
    {
        self.check_read_access(stat, true)
    }

    /// Tells whether the agent can list files of a directory with the given status, **not**
    /// including access to files' contents and metadata.
    pub fn can_list_directory(&self, stat: &Stat) -> (b: bool)
        ensures
            b == read_allowed(self.euid, self.egid, *stat),
    {
        self.can_read_file(stat)
    }

    fn check_write_access_impl(uid: Uid, gid: Gid, stat: &Stat) -> (b: bool)
        ensures
            b == write_allowed(uid, gid, *stat),
    {
        if uid == ROOT_UID || gid == ROOT_GID {
            return true;
        }
        if stat.mode & S_IWUSR != 0 && stat.uid == uid {
            return true;
        }
        if stat.mode & S_IWGRP != 0 && stat.gid == gid {
            return true;
        }
        stat.mode & S_IWOTH != 0
    }

    /// Tells whether the agent can write a file with the given status.
    ///
    /// `effective` tells whether to use effective IDs. If not, real IDs are used.
    pub fn check_write_access(&self, stat: &Stat, effective: bool) -> (b: bool)
        ensures
            b == write_allowed(self.ids(effective).0, self.ids(effective).1, *stat),
    {
        let (uid, gid) = if effective {
            (self.euid, self.egid)
        } else {
            (self.uid, self.gid)
        };
        Self::check_write_access_impl(uid, gid, stat)
    }

    /// Tells whether the agent can write a file with the given status, using effective IDs.
    pub fn can_write_file(&self, stat: &Stat) -> (b: bool)
        ensures
            b == write_allowed(self.euid, self.egid, *stat),
    {
        self.check_write_access(stat, true)
    }

    /// Tells whether the agent can modify entries in a directory with the given status, including
    /// creating files, deleting files, and renaming files.
    pub fn can_write_directory(&self, stat: &Stat) -> (b: bool)
        ensures
            b == (write_allowed(self.euid, self.egid, *stat) && execute_allowed(
                self.euid,
                self.egid,
                *stat,
            )),
    {
        self.can_write_file(stat) && self.can_execute_file(stat)
    }

    fn check_execute_access_impl(uid: Uid, gid: Gid, stat: &Stat) -> (b: bool)
        ensures
            b == execute_allowed(uid, gid, *stat),
    {
        // If root, bypass checks (unless the file is a regular file)
        let not_regular = match stat.get_type() {
            Some(FileType::Regular) => false,
            _ => true,
        };
        if not_regular && (uid == ROOT_UID || gid == ROOT_GID) {
            return true;
        }
        if stat.mode & S_IXUSR != 0 && stat.uid == uid {
            return true;
        }
        if stat.mode & S_IXGRP != 0 && stat.gid == gid {
            return true;
        }
        stat.mode & S_IXOTH != 0
    }

    /// Tells whether the agent can execute a file with the given status.
    ///
    /// `effective` tells whether to use effective IDs. If not, real IDs are used.
    pub fn check_execute_access(&self, stat: &Stat, effective: bool) -> (b: bool)
        ensures
            b == execute_allowed(self.ids(effective).0, self.ids(effective).1, *stat),
    {
        let (uid, gid) = if effective {
            (self.euid, self.egid)
        } else {
            (self.uid, self.gid)
        };
        Self::check_execute_access_impl(uid, gid, stat)
    }

    /// Tells whether the agent can execute a file with the given status, using effective IDs.
    pub fn can_execute_file(&self, stat: &Stat) -> (b: bool)
        ensures
            b == execute_allowed(self.euid, self.egid, *stat),
    {
        self.check_execute_access(stat, true)
    }

    /// Tells whether the agent can access files of a directory with the given status, *if the name
    /// of the file is known*.
    pub fn can_search_directory(&self, stat: &Stat) -> (b: bool)
        ensures
            b == execute_allowed(self.euid, self.egid, *stat),
    {
        self.can_execute_file(stat)
    }

    /// Tells whether the agent can set permissions for a file with the given status.
    pub fn can_set_file_permissions(&self, stat: &Stat) -> (b: bool)
        ensures
            b == (self.euid == ROOT_UID || self.euid == stat.uid),
    {
        self.euid == ROOT_UID || self.euid == stat.uid
    }
}

/// The profile of the current process, given the profile of its filesystem information if it has
/// any. A process without filesystem information acts as root.
pub open spec fn current_profile(process_profile: Option<AccessProfile>) -> AccessProfile {
    match process_profile {
        Some(ap) => ap,
        None => AccessProfile { uid: 0, gid: 0, euid: 0, egid: 0, suid: 0, sgid: 0 },
    }
}

/// A process's filesystem access information: its access profile and its supplementary groups.
pub struct ProcessFs {
    /// The process's access profile, containing user and group IDs.
    pub ap: AccessProfile,
    /// Supplementary group IDs
    pub groups: Vec<Gid>,
}

/// The profile of the process whose filesystem information is `fs`.
pub open spec fn profile_of(fs: Option<&ProcessFs>) -> AccessProfile {
    match fs {
        Some(f) => f.ap,
        None => current_profile(None),
    }
}

/// Whether the process whose filesystem information is `fs` is privileged (root).
pub open spec fn privileged(fs: Option<&ProcessFs>) -> bool {
    profile_of(fs).euid == ROOT_UID || profile_of(fs).egid == ROOT_GID
}

/// Whether the process whose filesystem information is `fs` matches the owner, and the group, of
/// a file with status `stat`. The group matches on the process's group or on any of its
/// supplementary groups. A process without filesystem information matches both.
pub open spec fn ids_match(fs: Option<&ProcessFs>, stat: Stat, effective: bool) -> (bool, bool) {
    match fs {
        None => (true, true),
        Some(f) => {
            let (uid, gid) = f.ap.ids(effective);
            (stat.uid == uid, stat.gid == gid || f.groups@.contains(stat.gid))
        },
    }
}

/// Whether the process whose filesystem information is `fs` may access a file with status
/// `stat`, given the owner, group and other permission bits of the access.
pub open spec fn process_bits_allow(
    fs: Option<&ProcessFs>,
    stat: Stat,
    effective: bool,
    usr: Mode,
    grp: Mode,
    oth: Mode,
) -> bool {
    let (u, g) = ids_match(fs, stat, effective);
    ||| (stat.mode & usr != 0 && u)
    ||| (stat.mode & grp != 0 && g)
    ||| stat.mode & oth != 0
}

/// Tells whether the current process is privileged (root). `fs` is the current process's
/// filesystem information, if it has any.
pub fn is_privileged(fs: Option<&ProcessFs>) -> (b: bool)
    ensures
        b == privileged(fs),
{
    let ap = AccessProfile::current(
        match fs {
            Some(f) => Some(f.ap),
            None => None,
        },
    );
    ap.euid == ROOT_UID || ap.egid == ROOT_GID
}

fn groups_contain(groups: &Vec<Gid>, gid: Gid) -> (b: bool)
    ensures
        b == groups@.contains(gid),
{
    let mut i: usize = 0;
    while i < groups.len()
        invariant
            i <= groups.len(),
            forall|j: int| 0 <= j < i ==> groups@[j] != gid,
        decreases groups.len() - i,
    {
        if groups[i] == gid {
            assert(groups@[i as int] == gid);
            return true;
        }
        i += 1;
    }
    false
}

/// Tells whether the current process matches the owner and the group of a file with status
/// `stat`.
pub fn match_ids(fs: Option<&ProcessFs>, stat: &Stat, effective: bool) -> (r: (bool, bool))
    ensures
        r == ids_match(fs, *stat, effective),
{
    match fs {
        None => (true, true),
        Some(f) => {
            let (uid, gid) = if effective {
                (f.ap.euid, f.ap.egid)
            } else {
                (f.ap.uid, f.ap.gid)
            };
            (stat.uid == uid, stat.gid == gid || groups_contain(&f.groups, stat.gid))
        },
    }
}

/// Tells whether the current process can read a file with the given status.
///
/// `effective` tells whether to use effective IDs. If not, real IDs are used.
pub fn can_read_file(fs: Option<&ProcessFs>, stat: &Stat, effective: bool) -> (b: bool)
    ensures
        b == (privileged(fs) || process_bits_allow(fs, *stat, effective, S_IRUSR, S_IRGRP, S_IROTH)),
{
    if is_privileged(fs) {
        return true;
    }
    let (uid, gid) = match_ids(fs, stat, effective);
    if stat.mode & S_IRUSR != 0 && uid {
        return true;
    }
    if stat.mode & S_IRGRP != 0 && gid {
        return true;
    }
    stat.mode & S_IROTH != 0
}

/// Tells whether the current process can list files of a directory with the given status,
/// **not** including access to files' contents and metadata.
pub fn can_list_directory(fs: Option<&ProcessFs>, stat: &Stat) -> (b: bool)
    ensures
        b == (privileged(fs) || process_bits_allow(fs, *stat, true, S_IRUSR, S_IRGRP, S_IROTH)),
{
    can_read_file(fs, stat, true)
}

/// Tells whether the current process can write a file with the given status.
///
/// `effective` tells whether to use effective IDs. If not, real IDs are used.
pub fn can_write_file(fs: Option<&ProcessFs>, stat: &Stat, effective: bool) -> (b: bool)
    ensures
        b == (privileged(fs) || process_bits_allow(fs, *stat, effective, S_IWUSR, S_IWGRP, S_IWOTH)),
{
    if is_privileged(fs) {
        return true;
    }
    let (uid, gid) = match_ids(fs, stat, effective);
    if stat.mode & S_IWUSR != 0 && uid {
        return true;
    }
    if stat.mode & S_IWGRP != 0 && gid {
        return true;
    }
    stat.mode & S_IWOTH != 0
}

/// Tells whether the current process can modify entries in a directory with the given status,
/// including creating files, deleting files, and renaming files.
pub fn can_write_directory(fs: Option<&ProcessFs>, stat: &Stat) -> (b: bool)
    ensures
        b == ((privileged(fs) || process_bits_allow(fs, *stat, true, S_IWUSR, S_IWGRP, S_IWOTH))
            && ((type_of_mode(stat.mode) != Some(FileType::Regular) && privileged(fs))
            || process_bits_allow(fs, *stat, true, S_IXUSR, S_IXGRP, S_IXOTH))),
{
    can_write_file(fs, stat, true) && can_execute_file(fs, stat, true)
}

/// Tells whether the current process can execute a file with the given status. Privileged
/// processes bypass the check, except on regular files.
///
/// `effective` tells whether to use effective IDs. If not, real IDs are used.
pub fn can_execute_file(fs: Option<&ProcessFs>, stat: &Stat, effective: bool) -> (b: bool)
    ensures
        b == ((type_of_mode(stat.mode) != Some(FileType::Regular) && privileged(fs))
            || process_bits_allow(fs, *stat, effective, S_IXUSR, S_IXGRP, S_IXOTH)),
{
    let not_regular = match stat.get_type() {
        Some(FileType::Regular) => false,
        _ => true,
    };
    if not_regular && is_privileged(fs) {
        return true;
    }
    let (uid, gid) = match_ids(fs, stat, effective);
    if stat.mode & S_IXUSR != 0 && uid {
        return true;
    }
    if stat.mode & S_IXGRP != 0 && gid {
        return true;
    }
    stat.mode & S_IXOTH != 0
}

/// Tells whether the current process can access files of a directory with the given status, *if
/// the name of the file is known*.
pub fn can_search_directory(fs: Option<&ProcessFs>, stat: &Stat) -> (b: bool)
    ensures
        b == ((type_of_mode(stat.mode) != Some(FileType::Regular) && privileged(fs))
            || process_bits_allow(fs, *stat, true, S_IXUSR, S_IXGRP, S_IXOTH)),
{
    can_execute_file(fs, stat, true)
}

/// Tells whether the current process can set permissions for a file with the given status.
pub fn can_set_file_permissions(fs: Option<&ProcessFs>, stat: &Stat) -> (b: bool)
    ensures
        b == (profile_of(fs).uid == ROOT_UID || profile_of(fs).uid == stat.uid),
{
    let ap = AccessProfile::current(
        match fs {
            Some(f) => Some(f.ap),
            None => None,
        },
    );
    ap.uid == ROOT_UID || ap.uid == stat.uid
}

/// Tells whether the current process can kill the process whose filesystem information is
/// `other`: it must be privileged, or its real or effective user ID must equal the other
/// process's real or saved user ID.
pub fn can_kill(fs: Option<&ProcessFs>, other: &ProcessFs) -> (b: bool)
    ensures
        b == (privileged(fs) || {
            let ap = profile_of(fs);
            ap.uid == other.ap.uid || ap.uid == other.ap.suid || ap.euid == other.ap.uid || ap.euid
                == other.ap.suid
        }),
{
    if is_privileged(fs) {
        return true;
    }
    let ap = AccessProfile::current(
        match fs {
            Some(f) => Some(f.ap),
            None => None,
        },
    );
    let other_ap = other.ap;
    ap.uid == other_ap.uid || ap.uid == other_ap.suid || ap.euid == other_ap.uid || ap.euid
        == other_ap.suid
}

/// An unprivileged agent cannot gain, through `setuid` or `seteuid`, a user ID other than root
/// or one of the IDs it already holds, and its real and saved user IDs never change.
pub proof fn lemma_no_uid_escalation(ap: AccessProfile, uid: Uid)
    requires
        ap.euid != ROOT_UID,
    ensures
        ap.after_set_uid(uid) is Ok ==> {
            let n = ap.after_set_uid(uid)->Ok_0;
            &&& n.uid == ap.uid && n.suid == ap.suid
            &&& n.euid == ap.uid || n.euid == ap.euid || n.euid == ap.suid
        },
        ap.after_set_euid(uid) is Ok ==> {
            let n = ap.after_set_euid(uid)->Ok_0;
            &&& n.uid == ap.uid && n.suid == ap.suid
            &&& n.euid == ROOT_UID || n.euid == ap.uid || n.euid == ap.euid || n.euid == ap.suid
        },
{
}

/// An unprivileged agent cannot gain, through `setgid` or `setegid`, a group ID other than root
/// or one of the IDs it already holds, and its real and saved group IDs never change.
pub proof fn lemma_no_gid_escalation(ap: AccessProfile, gid: Gid)
    requires
        ap.egid != ROOT_GID,
    ensures
        ap.after_set_gid(gid) is Ok ==> {
            let n = ap.after_set_gid(gid)->Ok_0;
            &&& n.gid == ap.gid && n.sgid == ap.sgid
            &&& n.egid == ap.gid || n.egid == ap.egid || n.egid == ap.sgid
        },
        ap.after_set_egid(gid) is Ok ==> {
            let n = ap.after_set_egid(gid)->Ok_0;
            &&& n.gid == ap.gid && n.sgid == ap.sgid
            &&& n.egid == ROOT_GID || n.egid == ap.gid || n.egid == ap.egid || n.egid == ap.sgid
        },
{
}

/// Changing IDs only touches the user IDs (for `setuid`/`seteuid`) or the group IDs (for
/// `setgid`/`setegid`), and a privileged `setuid` sets all three user IDs to the new one.
pub proof fn lemma_set_ids_scope(ap: AccessProfile, uid: Uid, gid: Gid)
    ensures
        ap.after_set_uid(uid) is Ok ==> {
            let n = ap.after_set_uid(uid)->Ok_0;
            n.gid == ap.gid && n.egid == ap.egid && n.sgid == ap.sgid
        },
        ap.after_set_gid(gid) is Ok ==> {
            let n = ap.after_set_gid(gid)->Ok_0;
            n.uid == ap.uid && n.euid == ap.euid && n.suid == ap.suid
        },
        ap.euid == ROOT_UID ==> ap.after_set_uid(uid) == Ok::<AccessProfile, Errno>(
            AccessProfile { uid: uid, euid: uid, suid: uid, ..ap },
        ),
        ap.egid == ROOT_GID ==> ap.after_set_gid(gid) == Ok::<AccessProfile, Errno>(
            AccessProfile { gid: gid, egid: gid, sgid: gid, ..ap },
        ),
{
}

/// Root (by user or by group) may read and write any file, and execute any file that is not a
/// regular file; a regular file it may only execute through its permission bits.
pub proof fn lemma_root_bypass(uid: Uid, gid: Gid, stat: Stat)
    requires
        uid == ROOT_UID || gid == ROOT_GID,
    ensures
        read_allowed(uid, gid, stat),
        write_allowed(uid, gid, stat),
        type_of_mode(stat.mode) != Some(FileType::Regular) ==> execute_allowed(uid, gid, stat),
        type_of_mode(stat.mode) == Some(FileType::Regular) ==> (execute_allowed(uid, gid, stat)
            <==> bits_allow(uid, gid, stat, S_IXUSR, S_IXGRP, S_IXOTH)),
{
}

/// Which IDs an access check uses: with `effective` set, the process is the owner of a file when
/// its effective user ID is the file's, and in its group when its effective group ID, or one of
/// its supplementary groups, is the file's; without it, the same with the real IDs. So a check on
/// real IDs does not depend on the effective IDs, nor a check on effective IDs on the real ones:
/// two processes `f1` and `f2` with the same IDs of the kind asked for, and the same
/// supplementary groups, get the same answer.
pub proof fn lemma_ids_used(f1: &ProcessFs, f2: &ProcessFs, stat: Stat, usr: Mode, grp: Mode, oth: Mode)
    ensures
        f1.ap.ids(false) == (f1.ap.uid, f1.ap.gid) && f1.ap.ids(true) == (f1.ap.euid, f1.ap.egid),
        ids_match(Some(f1), stat, false) == (stat.uid == f1.ap.uid, stat.gid == f1.ap.gid
            || f1.groups@.contains(stat.gid)),
        ids_match(Some(f1), stat, true) == (stat.uid == f1.ap.euid, stat.gid == f1.ap.egid
            || f1.groups@.contains(stat.gid)),
        f1.ap.uid == f2.ap.uid && f1.ap.gid == f2.ap.gid && f1.groups@ == f2.groups@
            ==> process_bits_allow(Some(f1), stat, false, usr, grp, oth) == process_bits_allow(
            Some(f2),
            stat,
            false,
            usr,
            grp,
            oth,
        ),
        f1.ap.euid == f2.ap.euid && f1.ap.egid == f2.ap.egid && f1.groups@ == f2.groups@
            ==> process_bits_allow(Some(f1), stat, true, usr, grp, oth) == process_bits_allow(
            Some(f2),
            stat,
            true,
            usr,
            grp,
            oth,
        ),
{
}

/// Privilege goes by the effective IDs alone: two processes with the same effective IDs are
/// equally privileged, whatever their real and saved IDs; a process whose effective user and
/// group IDs are both not root's is not privileged, and a process without filesystem
/// information is.
pub proof fn lemma_privilege_effective(f1: &ProcessFs, f2: &ProcessFs)
    ensures
        f1.ap.euid == f2.ap.euid && f1.ap.egid == f2.ap.egid ==> privileged(Some(f1)) == privileged(
            Some(f2),
        ),
        f1.ap.euid != ROOT_UID && f1.ap.egid != ROOT_GID ==> !privileged(Some(f1)),
        privileged(None),
{
}

/// An unprivileged process may read a file through real IDs exactly when the permission bits
/// allow its real IDs: the owner read bit if its real user ID owns the file, the group read bit
/// if its real group ID or a supplementary group is the file's, or the other read bit.
pub proof fn lemma_read_real_ids(f: &ProcessFs, stat: Stat)
    requires
        !privileged(Some(f)),
    ensures
        (privileged(Some(f)) || process_bits_allow(Some(f), stat, false, S_IRUSR, S_IRGRP, S_IROTH))
            == ((stat.mode & S_IRUSR != 0 && stat.uid == f.ap.uid) || (stat.mode & S_IRGRP != 0 && (
        stat.gid == f.ap.gid || f.groups@.contains(stat.gid))) || stat.mode & S_IROTH != 0),
{
}

} // verus!
