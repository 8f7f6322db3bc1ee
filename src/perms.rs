//! Owners, mode bits and the access decisions made from them.

use vstd::prelude::*;

verus! {

/// The nine permission bits of a file or directory: read, write and execute
/// for the owning user, the owning group and everyone else.
#[derive(Clone, Copy, Debug, PartialEq, Eq, Structural)]
pub struct Mode {
    pub bits: u16,
}

impl Mode {
    pub const RUSR: u16 = 0o400;
    pub const WUSR: u16 = 0o200;
    pub const XUSR: u16 = 0o100;
    pub const RWXU: u16 = 0o700;
    pub const RGRP: u16 = 0o040;
    pub const WGRP: u16 = 0o020;
    pub const XGRP: u16 = 0o010;
    pub const ROTH: u16 = 0o004;
    pub const WOTH: u16 = 0o002;
    pub const XOTH: u16 = 0o001;

    pub open spec fn has(self, flag: u16) -> bool {
        self.bits & flag == flag
    }

    pub fn new(bits: u16) -> (r: Mode)
        ensures
            r.bits == bits,
    {
        Mode { bits }
    }

    /// Whether every bit of `flag` is set.
    pub fn contains(self, flag: u16) -> (r: bool)
        ensures
            r == self.has(flag),
    {
        self.bits & flag == flag
    }
}

/// The identity of a requester, or of the owner of an entry.
#[derive(Clone, Copy, Debug, PartialEq, Eq, Structural)]
pub struct UserInfo {
    pub user: u16,
    pub group: u16,
}

/// The owner of an entry, and its mode.
#[derive(Clone, Copy, Debug, PartialEq, Eq, Structural)]
pub struct Permissions {
    pub mode: Mode,
    pub userinfo: UserInfo,
}

impl Permissions {
    /// The one bit among `usr`, `grp` and `oth` that decides for `who`: the
    /// owning user's bit if `who` is that user, else the group's bit if `who`
    /// is in the owning group, else the bit for everyone else.
    pub open spec fn tier_allows(self, who: UserInfo, usr: u16, grp: u16, oth: u16) -> bool {
        if self.userinfo.user == who.user {
            self.mode.has(usr)
        } else if self.userinfo.group == who.group {
            self.mode.has(grp)
        } else {
            self.mode.has(oth)
        }
    }

    pub open spec fn readable_by(self, who: UserInfo) -> bool {
        self.tier_allows(who, Mode::RUSR, Mode::RGRP, Mode::ROTH)
    }

    pub open spec fn writable_by(self, who: UserInfo) -> bool {
        self.tier_allows(who, Mode::WUSR, Mode::WGRP, Mode::WOTH)
    }

    pub open spec fn searchable_by(self, who: UserInfo) -> bool {
        self.tier_allows(who, Mode::XUSR, Mode::XGRP, Mode::XOTH)
    }

    pub fn can_read_by(&self, current: UserInfo) -> (r: bool)
        ensures
            r == self.readable_by(current),
    {
        if self.userinfo.user == current.user {
            self.mode.contains(Mode::RUSR)
        } else if self.userinfo.group == current.group {
            self.mode.contains(Mode::RGRP)
        } else {
            self.mode.contains(Mode::ROTH)
        }
    }

    pub fn can_write_by(&self, current: UserInfo) -> (r: bool)
        ensures
            r == self.writable_by(current),
    {
        if self.userinfo.user == current.user {
            self.mode.contains(Mode::WUSR)
        } else if self.userinfo.group == current.group {
            self.mode.contains(Mode::WGRP)
        } else {
            self.mode.contains(Mode::WOTH)
        }
    }

    pub fn can_execute_by(&self, current: UserInfo) -> (r: bool)
        ensures
            r == self.searchable_by(current),
    {
        if self.userinfo.user == current.user {
            self.mode.contains(Mode::XUSR)
        } else if self.userinfo.group == current.group {
            self.mode.contains(Mode::XGRP)
        } else {
            self.mode.contains(Mode::XOTH)
        }
    }
}

impl UserInfo {
    pub fn can_read(self, perms: &Permissions) -> (r: bool)
        ensures
            r == perms.readable_by(self),
    {
        perms.can_read_by(self)
    }

    pub fn can_write(self, perms: &Permissions) -> (r: bool)
        ensures
            r == perms.writable_by(self),
    {
        perms.can_write_by(self)
    }

    pub fn can_execute(self, perms: &Permissions) -> (r: bool)
        ensures
            r == perms.searchable_by(self),
    {
        perms.can_execute_by(self)
    }
}

} // verus!
