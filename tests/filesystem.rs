use litebox::errors::{ChmodError, MkdirError, PathError, RmdirError, UnlinkError};
use litebox::fs::FileSystem;
use litebox::perms::{Mode, UserInfo};
use litebox::table::{Dir, Entry};

const ROOT: UserInfo = UserInfo { user: 0, group: 0 };

fn as_root() -> FileSystem {
    let mut fs = FileSystem::new();
    fs.set_current_user(ROOT);
    fs
}

fn dir_at(fs: &FileSystem, path: &str) -> Dir {
    match fs.entry(path) {
        Some(Entry::Dir(d)) => d,
        other => panic!("no directory at {}: {:?}", path, other),
    }
}

#[test]
fn new_file_system_holds_only_root() {
    let fs = FileSystem::new();
    assert_eq!(fs.entry_count(), 1);
    assert_eq!(fs.current_user(), UserInfo { user: 1000, group: 1000 });
    let root = dir_at(&fs, "/");
    assert_eq!(root.children_count, 0);
    assert_eq!(root.perms.mode.bits, 0o755);
    assert_eq!(root.perms.userinfo, ROOT);
}

#[test]
fn scenario_create_twice_remove_twice() {
    let mut fs = as_root();
    assert_eq!(fs.mkdir("/a", Mode::new(0o755)), Ok(()));
    assert_eq!(fs.mkdir("/a", Mode::new(0o755)), Err(MkdirError::AlreadyExists));
    assert_eq!(fs.rmdir("/a"), Ok(()));
    assert_eq!(
        fs.rmdir("/a"),
        Err(RmdirError::PathError(PathError::NoSuchFileOrDirectory))
    );
}

#[test]
fn scenario_nested_directories() {
    let mut fs = as_root();
    assert_eq!(fs.mkdir("/a", Mode::new(0o755)), Ok(()));
    assert_eq!(fs.mkdir("/a/b", Mode::new(0o755)), Ok(()));
    assert_eq!(fs.rmdir("/a"), Err(RmdirError::NotEmpty));
    assert_eq!(fs.rmdir("/a/b"), Ok(()));
    assert_eq!(fs.rmdir("/a"), Ok(()));
    assert_eq!(fs.entry_count(), 1);
}

#[test]
fn scenario_write_only_for_owner() {
    let mut fs = as_root();
    assert_eq!(fs.mkdir("/p", Mode::new(0o777)), Ok(()));
    fs.set_current_user(UserInfo { user: 2000, group: 2000 });
    assert_eq!(fs.mkdir("/p/q", Mode::new(0o755)), Ok(()));
    fs.set_current_user(UserInfo { user: 1000, group: 1000 });
    assert_eq!(fs.mkdir("/p/q/r", Mode::new(0o755)), Err(MkdirError::NoWritePerms));
    assert!(fs.entry("/p/q/r").is_none());
}

#[test]
fn root_cannot_be_made_or_removed() {
    let mut fs = as_root();
    assert_eq!(fs.mkdir("/", Mode::new(0o777)), Err(MkdirError::AlreadyExists));
    assert_eq!(fs.rmdir("/"), Err(RmdirError::Busy));
    let mut other = FileSystem::new();
    assert_eq!(other.mkdir("/", Mode::new(0o777)), Err(MkdirError::AlreadyExists));
    assert_eq!(other.rmdir("/.."), Err(RmdirError::Busy));
    assert_eq!(other.rmdir(""), Err(RmdirError::Busy));
}

#[test]
fn children_counts_follow_mkdir_and_rmdir() {
    let mut fs = as_root();
    for p in ["/a", "/b", "/a/x", "/a/y", "/a/x/z"] {
        assert_eq!(fs.mkdir(p, Mode::new(0o755)), Ok(()));
    }
    assert_eq!(dir_at(&fs, "/").children_count, 2);
    assert_eq!(dir_at(&fs, "/a").children_count, 2);
    assert_eq!(dir_at(&fs, "/a/x").children_count, 1);
    assert_eq!(dir_at(&fs, "/b").children_count, 0);
    assert_eq!(fs.rmdir("/a/y"), Ok(()));
    assert_eq!(fs.rmdir("/b"), Ok(()));
    assert_eq!(dir_at(&fs, "/").children_count, 1);
    assert_eq!(dir_at(&fs, "/a").children_count, 1);
    assert_eq!(fs.entry_count(), 4);
}

#[test]
fn second_mkdir_of_same_path_counts_once() {
    let mut fs = as_root();
    assert_eq!(fs.mkdir("/d", Mode::new(0o755)), Ok(()));
    assert_eq!(fs.mkdir("/./d/", Mode::new(0o755)), Err(MkdirError::AlreadyExists));
    assert_eq!(dir_at(&fs, "/").children_count, 1);
}

#[test]
fn non_empty_directory_is_kept_whoever_asks() {
    let mut fs = as_root();
    assert_eq!(fs.mkdir("/a", Mode::new(0o777)), Ok(()));
    assert_eq!(fs.mkdir("/a/b", Mode::new(0o777)), Ok(()));
    fs.set_current_user(UserInfo { user: 7, group: 7 });
    assert_eq!(fs.rmdir("/a"), Err(RmdirError::NotEmpty));
}

#[test]
fn strangers_need_the_write_bit_for_others() {
    let mut fs = as_root();
    assert_eq!(fs.mkdir("/a", Mode::new(0o775)), Ok(()));
    assert_eq!(fs.mkdir("/a/b", Mode::new(0o755)), Ok(()));
    fs.set_current_user(UserInfo { user: 5, group: 5 });
    assert_eq!(fs.mkdir("/a/c", Mode::new(0o755)), Err(MkdirError::NoWritePerms));
    assert_eq!(fs.rmdir("/a/b"), Err(RmdirError::NoWritePerms));
    fs.set_current_user(UserInfo { user: 5, group: 0 });
    assert_eq!(fs.mkdir("/a/c", Mode::new(0o755)), Ok(()));
}

#[test]
fn search_permission_is_needed_on_ancestors() {
    let mut fs = as_root();
    assert_eq!(fs.mkdir("/s", Mode::new(0o700)), Ok(()));
    assert_eq!(fs.mkdir("/s/t", Mode::new(0o777)), Ok(()));
    fs.set_current_user(UserInfo { user: 9, group: 9 });
    assert_eq!(
        fs.mkdir("/s/t/u", Mode::new(0o755)),
        Err(MkdirError::PathError(PathError::NoSearchPerms))
    );
    assert_eq!(
        fs.rmdir("/s/t"),
        Err(RmdirError::PathError(PathError::NoSearchPerms))
    );
}

#[test]
fn missing_component_is_reported() {
    let mut fs = as_root();
    assert_eq!(
        fs.mkdir("/x/y", Mode::new(0o755)),
        Err(MkdirError::PathError(PathError::MissingComponent))
    );
    assert_eq!(
        fs.rmdir("/x/y"),
        Err(RmdirError::PathError(PathError::MissingComponent))
    );
}

#[test]
fn relative_and_redundant_paths_reach_the_same_entry() {
    let mut fs = as_root();
    assert_eq!(fs.mkdir("a", Mode::new(0o755)), Ok(()));
    assert_eq!(fs.mkdir("./a//b/", Mode::new(0o755)), Ok(()));
    assert!(fs.entry("/a/b").is_some());
    assert!(fs.entry("a/./b").is_some());
    assert!(fs.entry("/../a/b/../b").is_some());
    assert_eq!(fs.rmdir("//a/./b"), Ok(()));
    assert!(fs.entry("/a/b").is_none());
}

#[test]
fn new_directory_belongs_to_its_maker() {
    let mut fs = as_root();
    assert_eq!(fs.mkdir("/m", Mode::new(0o711)), Ok(()));
    let d = dir_at(&fs, "/m");
    assert_eq!(d.perms.userinfo, ROOT);
    assert_eq!(d.perms.mode.bits, 0o711);
    assert_eq!(d.children_count, 0);
}

#[test]
fn chmod_changes_only_the_mode_and_only_for_the_owner() {
    let mut fs = as_root();
    assert_eq!(fs.mkdir("/c", Mode::new(0o755)), Ok(()));
    assert_eq!(fs.mkdir("/c/d", Mode::new(0o755)), Ok(()));
    assert_eq!(fs.chmod("/c", Mode::new(0o700)), Ok(()));
    let c = dir_at(&fs, "/c");
    assert_eq!(c.perms.mode.bits, 0o700);
    assert_eq!(c.perms.userinfo, ROOT);
    assert_eq!(c.children_count, 1);
    fs.set_current_user(UserInfo { user: 3, group: 0 });
    assert_eq!(fs.chmod("/", Mode::new(0o777)), Err(ChmodError::NotTheOwner));
    assert_eq!(dir_at(&fs, "/").perms.mode.bits, 0o755);
    fs.set_current_user(ROOT);
    assert_eq!(
        fs.chmod("/nothing", Mode::new(0o777)),
        Err(ChmodError::PathError(PathError::NoSuchFileOrDirectory))
    );
}

#[test]
fn unlink_refuses_directories_and_missing_entries() {
    let mut fs = as_root();
    assert_eq!(fs.mkdir("/u", Mode::new(0o755)), Ok(()));
    assert_eq!(fs.unlink("/u"), Err(UnlinkError::IsADirectory));
    assert_eq!(fs.unlink("/"), Err(UnlinkError::IsADirectory));
    assert_eq!(
        fs.unlink("/u/f"),
        Err(UnlinkError::PathError(PathError::NoSuchFileOrDirectory))
    );
    assert_eq!(dir_at(&fs, "/").children_count, 1);
}
