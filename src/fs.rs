//! The file system handle and its operations.

use vstd::prelude::*;
use vstd::string::*;
use crate::errors::{ChmodError, MkdirError, PathError, RmdirError, UnlinkError};
use crate::path::{join, normalize, join_components, normalized_components, lemma_normalize_canonical, lemma_normalize_real};
use crate::perms::{Mode, Permissions, UserInfo};
use crate::store::{RootDir, initial_entries, children, is_dir, resolve_failure, tree_wf, lemma_resolved_parent, lemma_insert_child, lemma_remove_child, lemma_parent_count_positive, lemma_children_bounded, lemma_replace_entry, lemma_join_shorter, lemma_first_failure_frame, dir_failure};
use crate::table::{Dir, Entry, File};

verus! {

/// The components of the path `p` as seen from the working directory `cwd`:
/// a path that starts with a separator stands alone, any other one follows
/// `cwd`.
pub open spec fn target_components(cwd: Seq<char>, p: Seq<char>) -> Seq<Seq<char>> {
    if p.len() > 0 && p[0] == '/' {
        normalize(p)
    } else {
        normalize(cwd + p)
    }
}

pub open spec fn parent_dir(m: Map<Seq<char>, Entry>, cs: Seq<Seq<char>>) -> Dir {
    m[join(cs.drop_last())]->Dir_0
}

/// What `mkdir` of the path made of `cs` returns, by `who`.
pub open spec fn mkdir_result(m: Map<Seq<char>, Entry>, cs: Seq<Seq<char>>, who: UserInfo) -> Result<(), MkdirError> {
    match resolve_failure(m, cs, who) {
        Some(e) => Err(MkdirError::PathError(e)),
        None => if cs.len() == 0 || m.contains_key(join(cs)) {
            Err(MkdirError::AlreadyExists)
        } else if !parent_dir(m, cs).perms.writable_by(who) {
            Err(MkdirError::NoWritePerms)
        } else {
            Ok(())
        },
    }
}

/// The entries after a successful `mkdir` of the path made of `cs`: the
/// parent counts one more child, and the new directory is owned by `who` and
/// holds nothing.
pub open spec fn with_new_dir(m: Map<Seq<char>, Entry>, cs: Seq<Seq<char>>, mode: Mode, who: UserInfo) -> Map<Seq<char>, Entry> {
    let pd = parent_dir(m, cs);
    m.insert(
        join(cs.drop_last()),
        Entry::Dir(Dir { perms: pd.perms, children_count: (pd.children_count + 1) as u32 }),
    ).insert(
        join(cs),
        Entry::Dir(Dir { perms: Permissions { mode, userinfo: who }, children_count: 0 }),
    )
}

/// What `rmdir` of the path made of `cs` returns, by `who`.
pub open spec fn rmdir_result(m: Map<Seq<char>, Entry>, cs: Seq<Seq<char>>, who: UserInfo) -> Result<(), RmdirError> {
    match resolve_failure(m, cs, who) {
        Some(e) => Err(RmdirError::PathError(e)),
        None => if cs.len() == 0 {
            Err(RmdirError::Busy)
        } else if !m.contains_key(join(cs)) {
            Err(RmdirError::PathError(PathError::NoSuchFileOrDirectory))
        } else if m[join(cs)] is File {
            Err(RmdirError::NotADirectory)
        } else if m[join(cs)]->Dir_0.children_count > 0 {
            Err(RmdirError::NotEmpty)
        } else if !parent_dir(m, cs).perms.writable_by(who) {
            Err(RmdirError::NoWritePerms)
        } else {
            Ok(())
        },
    }
}

/// The entries after a successful `rmdir` or `unlink` of the path made of
/// `cs`: the parent counts one child less, and the entry is gone.
pub open spec fn without_entry(m: Map<Seq<char>, Entry>, cs: Seq<Seq<char>>) -> Map<Seq<char>, Entry> {
    let pd = parent_dir(m, cs);
    m.insert(
        join(cs.drop_last()),
        Entry::Dir(Dir { perms: pd.perms, children_count: (pd.children_count - 1) as u32 }),
    ).remove(join(cs))
}

pub open spec fn entry_perms(e: Entry) -> Permissions {
    match e {
        Entry::File(f) => f.perms,
        Entry::Dir(d) => d.perms,
    }
}

/// `e` with its mode set to `mode`; its owner, and a directory's count, stay.
pub open spec fn with_mode(e: Entry, mode: Mode) -> Entry {
    match e {
        Entry::File(f) => Entry::File(File { perms: Permissions { mode, userinfo: f.perms.userinfo } }),
        Entry::Dir(d) => Entry::Dir(
            Dir { perms: Permissions { mode, userinfo: d.perms.userinfo }, children_count: d.children_count },
        ),
    }
}

/// What `chmod` of the path made of `cs` returns, by `who`: only the owning
/// user may change the mode.
pub open spec fn chmod_result(m: Map<Seq<char>, Entry>, cs: Seq<Seq<char>>, who: UserInfo) -> Result<(), ChmodError> {
    match resolve_failure(m, cs, who) {
        Some(e) => Err(ChmodError::PathError(e)),
        None => if !m.contains_key(join(cs)) {
            Err(ChmodError::PathError(PathError::NoSuchFileOrDirectory))
        } else if entry_perms(m[join(cs)]).userinfo.user != who.user {
            Err(ChmodError::NotTheOwner)
        } else {
            Ok(())
        },
    }
}

/// What `unlink` of the path made of `cs` returns, by `who`.
pub open spec fn unlink_result(m: Map<Seq<char>, Entry>, cs: Seq<Seq<char>>, who: UserInfo) -> Result<(), UnlinkError> {
    match resolve_failure(m, cs, who) {
        Some(e) => Err(UnlinkError::PathError(e)),
        None => if cs.len() == 0 {
            Err(UnlinkError::IsADirectory)
        } else if !m.contains_key(join(cs)) {
            Err(UnlinkError::PathError(PathError::NoSuchFileOrDirectory))
        } else if m[join(cs)] is Dir {
            Err(UnlinkError::IsADirectory)
        } else if !parent_dir(m, cs).perms.writable_by(who) {
            Err(UnlinkError::NoWritePerms)
        } else {
            Ok(())
        },
    }
}

/// Making the same directory twice in a row: the second attempt finds it and
/// fails with `AlreadyExists`, and the parent counts the new directory once.
pub proof fn lemma_mkdir_twice(m: Map<Seq<char>, Entry>, cwd: Seq<char>, p: Seq<char>, mode: Mode, who: UserInfo)
    requires
        tree_wf(m),
        m.dom().len() < u32::MAX,
        mkdir_result(m, target_components(cwd, p), who) is Ok,
    ensures
        mkdir_result(with_new_dir(m, target_components(cwd, p), mode, who), target_components(cwd, p), who)
            == Err::<(), MkdirError>(MkdirError::AlreadyExists),
        parent_dir(with_new_dir(m, target_components(cwd, p), mode, who), target_components(cwd, p)).children_count
            == parent_dir(m, target_components(cwd, p)).children_count + 1,
{
    let cs = target_components(cwd, p);
    let m2 = with_new_dir(m, cs, mode, who);
    let pk = join(cs.drop_last());
    lemma_normalize_real(if p.len() > 0 && p[0] == '/' { p } else { cwd + p });
    lemma_resolved_parent(m, cs, who);
    lemma_children_bounded(m, pk);
    assert(pk.len() < join(cs).len());
    assert forall|j: int| 0 <= j < cs.len() implies dir_failure(m, #[trigger] join(cs.take(j)), who) == dir_failure(m2, join(cs.take(j)), who) by {
        lemma_join_shorter(cs, j);
    }
    lemma_first_failure_frame(m, m2, cs, who, cs.len());
}

/// A file system held entirely in memory: its entries, the identity that its
/// operations act as, and the directory that relative paths start from.
pub struct FileSystem {
    root: RootDir,
    current_user: UserInfo,
    current_working_dir: String,
}

impl FileSystem {
    pub closed spec fn entries(&self) -> Map<Seq<char>, Entry> {
        self.root.view()
    }

    pub closed spec fn user(&self) -> UserInfo {
        self.current_user
    }

    pub closed spec fn cwd(&self) -> Seq<char> {
        self.current_working_dir@
    }

    /// The entries form a well-formed tree, and the working directory ends
    /// with a separator.
    pub open spec fn wf(&self) -> bool {
        &&& tree_wf(self.entries())
        &&& self.cwd().len() > 0
        &&& self.cwd().last() == '/'
    }

    /// A file system that holds only the root directory, acting as user and
    /// group 1000, with the root as working directory.
    pub fn new() -> (r: FileSystem)
        ensures
            r.wf(),
            r.entries() == initial_entries(),
            r.user() == (UserInfo { user: 1000, group: 1000 }),
            r.cwd() == seq!['/'],
    {
        let root = RootDir::new();
        proof {
            reveal_strlit("/");
        }
        FileSystem {
            root,
            current_user: UserInfo { user: 1000, group: 1000 },
            current_working_dir: String::from_str("/"),
        }
    }

    pub fn current_user(&self) -> (r: UserInfo)
        ensures
            r == self.user(),
    {
        self.current_user
    }

    /// Makes the operations that follow act as `user`.
    pub fn set_current_user(&mut self, user: UserInfo)
        ensures
            final(self).user() == user,
            final(self).entries() == old(self).entries(),
            final(self).cwd() == old(self).cwd(),
    {
        self.current_user = user;
    }

    /// The number of stored entries, the root included.
    pub fn entry_count(&self) -> (r: usize)
        ensures
            r == self.entries().dom().len(),
    {
        self.root.entries.len()
    }

    /// The canonical path of `path`, taken from the working directory unless
    /// it starts with a separator.
    fn absolute_path(&self, path: &str) -> (r: String)
        requires
            self.wf(),
        ensures
            r@ == join(target_components(self.cwd(), path@)),
            normalize(r@) == target_components(self.cwd(), path@),
    {
        let comps = if path.unicode_len() > 0 && path.get_char(0) == '/' {
            normalized_components(path)
        } else {
            let full = self.current_working_dir.clone().concat(path);
            normalized_components(full.as_str())
        };
        proof {
            let cs = target_components(self.cwd(), path@);
            lemma_normalize_real(if path@.len() > 0 && path@[0] == '/' { path@ } else { self.cwd() + path@ });
            lemma_normalize_canonical(cs);
        }
        join_components(&comps)
    }

    /// The entry stored at `path`, if any; the permissions of the directories
    /// on the way are not checked.
    pub fn entry(&self, path: &str) -> (r: Option<Entry>)
        requires
            self.wf(),
        ensures
            r == (if self.entries().contains_key(join(target_components(self.cwd(), path@))) {
                Some(self.entries()[join(target_components(self.cwd(), path@))])
            } else {
                None
            }),
    {
        let key = self.absolute_path(path);
        self.root.entries.get(&key)
    }

    /// Makes the directory `path`, owned by the current user, with `mode`.
    pub fn mkdir(&mut self, path: &str, mode: Mode) -> (r: Result<(), MkdirError>)
        requires
            old(self).wf(),
            old(self).entries().dom().len() < u32::MAX,
        ensures
            final(self).wf(),
            final(self).user() == old(self).user(),
            final(self).cwd() == old(self).cwd(),
            r == mkdir_result(old(self).entries(), target_components(old(self).cwd(), path@), old(self).user()),
            r is Ok ==> final(self).entries() == with_new_dir(
                old(self).entries(),
                target_components(old(self).cwd(), path@),
                mode,
                old(self).user(),
            ),
            r is Err ==> final(self).entries() == old(self).entries(),
            // The root always exists.
            target_components(old(self).cwd(), path@).len() == 0 ==> r == Err::<(), MkdirError>(MkdirError::AlreadyExists),
            // Whoever is neither the parent's owner nor in its group needs the
            // write bit for everyone else.
            ({
                let m = old(self).entries();
                let cs = target_components(old(self).cwd(), path@);
                let who = old(self).user();
                let owner = parent_dir(m, cs).perms.userinfo;
                resolve_failure(m, cs, who) is None && cs.len() > 0 && !m.contains_key(join(cs))
                    && owner.user != who.user && owner.group != who.group
                    && !parent_dir(m, cs).perms.mode.has(Mode::WOTH)
            }) ==> r == Err::<(), MkdirError>(MkdirError::NoWritePerms),
    {
        let ghost m = self.entries();
        let ghost cs = target_components(self.cwd(), path@);
        let key = self.absolute_path(path);
        let who = self.current_user;
        let (parent, entry) = match self.root.parent_and_entry(key.as_str(), who) {
            Err(e) => return Err(MkdirError::PathError(e)),
            Ok(found) => found,
        };
        let (parent_path, parent) = match parent {
            None => return Err(MkdirError::AlreadyExists),
            Some(found) => found,
        };
        if entry.is_some() {
            return Err(MkdirError::AlreadyExists);
        }
        if !who.can_write(&parent.perms) {
            return Err(MkdirError::NoWritePerms);
        }
        proof {
            lemma_normalize_real(if path@.len() > 0 && path@[0] == '/' { path@ } else { self.cwd() + path@ });
            lemma_resolved_parent(m, cs, who);
            lemma_children_bounded(m, join(cs.drop_last()));
        }
        let updated = Dir { perms: parent.perms, children_count: parent.children_count + 1 };
        let made = Dir { perms: Permissions { mode, userinfo: who }, children_count: 0 };
        self.root.entries.insert(parent_path, Entry::Dir(updated));
        self.root.entries.insert(key, Entry::Dir(made));
        proof {
            lemma_insert_child(m, join(cs.drop_last()), join(cs), updated, made);
        }
        Ok(())
    }

    /// Removes the empty directory `path`.
    pub fn rmdir(&mut self, path: &str) -> (r: Result<(), RmdirError>)
        requires
            old(self).wf(),
        ensures
            final(self).wf(),
            final(self).user() == old(self).user(),
            final(self).cwd() == old(self).cwd(),
            r == rmdir_result(old(self).entries(), target_components(old(self).cwd(), path@), old(self).user()),
            r is Ok ==> final(self).entries() == without_entry(
                old(self).entries(),
                target_components(old(self).cwd(), path@),
            ),
            r is Err ==> final(self).entries() == old(self).entries(),
            // The root is never removed.
            target_components(old(self).cwd(), path@).len() == 0 ==> r == Err::<(), RmdirError>(RmdirError::Busy),
            // A directory that holds anything is not removed, whoever asks.
            ({
                let m = old(self).entries();
                let cs = target_components(old(self).cwd(), path@);
                resolve_failure(m, cs, old(self).user()) is None && cs.len() > 0 && is_dir(m, join(cs))
                    && children(m, join(cs)).len() > 0
            }) ==> r == Err::<(), RmdirError>(RmdirError::NotEmpty),
            // Whoever is neither the parent's owner nor in its group needs the
            // write bit for everyone else.
            ({
                let m = old(self).entries();
                let cs = target_components(old(self).cwd(), path@);
                let who = old(self).user();
                let owner = parent_dir(m, cs).perms.userinfo;
                resolve_failure(m, cs, who) is None && cs.len() > 0 && is_dir(m, join(cs))
                    && m[join(cs)]->Dir_0.children_count == 0
                    && owner.user != who.user && owner.group != who.group
                    && !parent_dir(m, cs).perms.mode.has(Mode::WOTH)
            }) ==> r == Err::<(), RmdirError>(RmdirError::NoWritePerms),
    {
        let ghost m = self.entries();
        let ghost cs = target_components(self.cwd(), path@);
        let key = self.absolute_path(path);
        let who = self.current_user;
        let (parent, entry) = match self.root.parent_and_entry(key.as_str(), who) {
            Err(e) => return Err(RmdirError::PathError(e)),
            Ok(found) => found,
        };
        let (parent_path, parent) = match parent {
            None => return Err(RmdirError::Busy),
            Some(found) => found,
        };
        let dir = match entry {
            None => return Err(RmdirError::PathError(PathError::NoSuchFileOrDirectory)),
            Some(Entry::File(_)) => return Err(RmdirError::NotADirectory),
            Some(Entry::Dir(dir)) => dir,
        };
        if dir.children_count > 0 {
            return Err(RmdirError::NotEmpty);
        }
        if !who.can_write(&parent.perms) {
            return Err(RmdirError::NoWritePerms);
        }
        proof {
            lemma_normalize_real(if path@.len() > 0 && path@[0] == '/' { path@ } else { self.cwd() + path@ });
            lemma_resolved_parent(m, cs, who);
            lemma_parent_count_positive(m, join(cs.drop_last()), join(cs));
        }
        let updated = Dir { perms: parent.perms, children_count: parent.children_count - 1 };
        self.root.entries.insert(parent_path, Entry::Dir(updated));
        let removed = self.root.entries.remove(&key);
        proof {
            assert(removed == Some(Entry::Dir(dir)) && dir.children_count == 0);
            lemma_remove_child(m, join(cs.drop_last()), join(cs), updated);
        }
        Ok(())
    }

    /// Sets the mode of the entry at `path`; only its owning user may.
    pub fn chmod(&mut self, path: &str, mode: Mode) -> (r: Result<(), ChmodError>)
        requires
            old(self).wf(),
        ensures
            final(self).wf(),
            final(self).user() == old(self).user(),
            final(self).cwd() == old(self).cwd(),
            r == chmod_result(old(self).entries(), target_components(old(self).cwd(), path@), old(self).user()),
            r is Ok ==> ({
                let m = old(self).entries();
                let k = join(target_components(old(self).cwd(), path@));
                final(self).entries() == m.insert(k, with_mode(m[k], mode))
            }),
            r is Err ==> final(self).entries() == old(self).entries(),
    {
        let ghost m = self.entries();
        let ghost cs = target_components(self.cwd(), path@);
        let key = self.absolute_path(path);
        let who = self.current_user;
        let (_, entry) = match self.root.parent_and_entry(key.as_str(), who) {
            Err(e) => return Err(ChmodError::PathError(e)),
            Ok(found) => found,
        };
        let changed = match entry {
            None => return Err(ChmodError::PathError(PathError::NoSuchFileOrDirectory)),
            Some(Entry::File(f)) => {
                if f.perms.userinfo.user != who.user {
                    return Err(ChmodError::NotTheOwner);
                }
                Entry::File(File { perms: Permissions { mode, userinfo: f.perms.userinfo } })
            },
            Some(Entry::Dir(d)) => {
                if d.perms.userinfo.user != who.user {
                    return Err(ChmodError::NotTheOwner);
                }
                Entry::Dir(Dir { perms: Permissions { mode, userinfo: d.perms.userinfo }, children_count: d.children_count })
            },
        };
        self.root.entries.insert(key, changed);
        proof {
            lemma_replace_entry(m, join(cs), changed);
        }
        Ok(())
    }

    /// Removes the file at `path`.
    pub fn unlink(&mut self, path: &str) -> (r: Result<(), UnlinkError>)
        requires
            old(self).wf(),
        ensures
            final(self).wf(),
            final(self).user() == old(self).user(),
            final(self).cwd() == old(self).cwd(),
            r == unlink_result(old(self).entries(), target_components(old(self).cwd(), path@), old(self).user()),
            r is Ok ==> final(self).entries() == without_entry(
                old(self).entries(),
                target_components(old(self).cwd(), path@),
            ),
            r is Err ==> final(self).entries() == old(self).entries(),
    {
        let ghost m = self.entries();
        let ghost cs = target_components(self.cwd(), path@);
        let key = self.absolute_path(path);
        let who = self.current_user;
        let (parent, entry) = match self.root.parent_and_entry(key.as_str(), who) {
            Err(e) => return Err(UnlinkError::PathError(e)),
            Ok(found) => found,
        };
        let (parent_path, parent) = match parent {
            None => return Err(UnlinkError::IsADirectory),
            Some(found) => found,
        };
        match entry {
            None => return Err(UnlinkError::PathError(PathError::NoSuchFileOrDirectory)),
            Some(Entry::Dir(_)) => return Err(UnlinkError::IsADirectory),
            Some(Entry::File(_)) => {},
        }
        if !who.can_write(&parent.perms) {
            return Err(UnlinkError::NoWritePerms);
        }
        proof {
            lemma_normalize_real(if path@.len() > 0 && path@[0] == '/' { path@ } else { self.cwd() + path@ });
            lemma_resolved_parent(m, cs, who);
            lemma_parent_count_positive(m, join(cs.drop_last()), join(cs));
        }
        let updated = Dir { perms: parent.perms, children_count: parent.children_count - 1 };
        self.root.entries.insert(parent_path, Entry::Dir(updated));
        let _ = self.root.entries.remove(&key);
        proof {
            lemma_remove_child(m, join(cs.drop_last()), join(cs), updated);
        }
        Ok(())
    }
}

} // verus!
