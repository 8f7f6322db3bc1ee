use litebox::perms::{Mode, Permissions, UserInfo};

fn perms(bits: u16) -> Permissions {
    Permissions { mode: Mode::new(bits), userinfo: UserInfo { user: 10, group: 20 } }
}

#[test]
fn owner_uses_user_bits_only() {
    let owner = UserInfo { user: 10, group: 99 };
    let p = perms(0o077);
    assert!(!p.can_read_by(owner));
    assert!(!p.can_write_by(owner));
    assert!(!p.can_execute_by(owner));
    let p = perms(0o700);
    assert!(owner.can_read(&p) && owner.can_write(&p) && owner.can_execute(&p));
}

#[test]
fn group_member_uses_group_bits_only() {
    let member = UserInfo { user: 11, group: 20 };
    let p = perms(0o707);
    assert!(!p.can_read_by(member) && !p.can_write_by(member) && !p.can_execute_by(member));
    let p = perms(0o050);
    assert!(member.can_read(&p));
    assert!(!member.can_write(&p));
    assert!(member.can_execute(&p));
}

#[test]
fn others_use_other_bits_only() {
    let stranger = UserInfo { user: 1, group: 2 };
    let p = perms(0o770);
    assert!(!p.can_read_by(stranger) && !p.can_write_by(stranger) && !p.can_execute_by(stranger));
    let p = perms(0o002);
    assert!(!stranger.can_read(&p));
    assert!(stranger.can_write(&p));
    assert!(!stranger.can_execute(&p));
}

#[test]
fn mode_contains_checks_every_bit() {
    let m = Mode::new(0o754);
    assert!(m.contains(Mode::RWXU));
    assert!(m.contains(Mode::RGRP | Mode::XGRP));
    assert!(!m.contains(Mode::WGRP));
    assert!(m.contains(Mode::ROTH));
    assert!(!m.contains(Mode::ROTH | Mode::WOTH));
}
