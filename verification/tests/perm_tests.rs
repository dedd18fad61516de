use in_mem_fs::attr::{Attr, FileKind, TimeSpec};
use in_mem_fs::attr::{blocks_for_size, dir_attr, file_attr};
use in_mem_fs::perm::{
    as_file_kind, check_access, clear_suid_sgid, creation_gid, F_OK, R_OK, S_IFDIR, S_IFLNK,
    S_IFREG, W_OK, X_OK,
};

fn ts(secs: u64) -> TimeSpec {
    TimeSpec { secs, nsecs: 0 }
}

fn attr_with(perm: u16, uid: u32, gid: u32) -> Attr {
    let mut a = file_attr(9, 0, ts(0));
    a.perm = perm;
    a.uid = uid;
    a.gid = gid;
    a
}

#[test]
fn f_ok_always_succeeds() {
    assert!(check_access(1, 1, 0o000, 2, 2, F_OK));
    assert!(check_access(0, 0, 0o000, 0, 0, F_OK));
}

#[test]
fn root_reads_and_writes_anything() {
    assert!(check_access(5, 5, 0o000, 0, 9, R_OK | W_OK));
    assert!(check_access(5, 5, 0o600, 0, 9, W_OK));
}

#[test]
fn root_executes_only_with_some_execute_bit() {
    assert!(!check_access(5, 5, 0o600, 0, 9, X_OK));
    assert!(check_access(5, 5, 0o100, 0, 9, X_OK));
    assert!(check_access(5, 5, 0o010, 0, 9, X_OK));
    assert!(check_access(5, 5, 0o001, 0, 9, X_OK));
    assert!(!check_access(5, 5, 0o666, 0, 9, R_OK | X_OK));
}

#[test]
fn owner_triad_serves_the_owner() {
    assert!(check_access(7, 1, 0o700, 7, 9, R_OK | W_OK | X_OK));
    assert!(!check_access(7, 1, 0o077, 7, 9, R_OK));
}

#[test]
fn group_triad_serves_the_group() {
    assert!(check_access(7, 1, 0o070, 9, 1, R_OK | W_OK | X_OK));
    assert!(!check_access(7, 1, 0o707, 9, 1, R_OK));
}

#[test]
fn other_triad_serves_the_rest() {
    assert!(check_access(7, 1, 0o007, 9, 9, R_OK | W_OK | X_OK));
    assert!(!check_access(7, 1, 0o770, 9, 9, R_OK));
}

#[test]
fn owner_result_ignores_other_triads() {
    // The same owner triad with entirely different group/other bits gives
    // the same answers for a non-root owner.
    for mask in [R_OK, W_OK, X_OK, R_OK | W_OK, R_OK | W_OK | X_OK] {
        let a = check_access(7, 1, 0o700, 7, 2, mask);
        let b = check_access(7, 8, 0o777, 7, 3, mask);
        assert_eq!(a, b);
    }
}

#[test]
fn creation_gid_inherits_under_sgid() {
    let parent = attr_with(0o2755, 3, 42);
    assert_eq!(creation_gid(&parent, 7), 42);
    let plain = attr_with(0o0755, 3, 42);
    assert_eq!(creation_gid(&plain, 7), 7);
}

#[test]
fn clear_suid_sgid_drops_sgid_only_with_group_exec() {
    let mut a = attr_with(0o6755, 1, 1);
    clear_suid_sgid(&mut a);
    assert_eq!(a.perm, 0o0755);
    let mut b = attr_with(0o6705, 1, 1);
    clear_suid_sgid(&mut b);
    assert_eq!(b.perm, 0o2705);
}

#[test]
fn file_kind_follows_the_type_nibble() {
    assert_eq!(as_file_kind(S_IFREG | 0o644), FileKind::RegularFile);
    assert_eq!(as_file_kind(S_IFDIR | 0o755), FileKind::Directory);
    assert_eq!(as_file_kind(S_IFLNK | 0o777), FileKind::Symlink);
}

#[test]
fn block_counts_round_up() {
    assert_eq!(blocks_for_size(0), 0);
    assert_eq!(blocks_for_size(1), 1);
    assert_eq!(blocks_for_size(512), 1);
    assert_eq!(blocks_for_size(513), 2);
    assert_eq!(blocks_for_size(1024), 2);
}

#[test]
fn default_attrs_match_their_kind() {
    let d = dir_attr(1, ts(3));
    assert_eq!(d.kind, FileKind::Directory);
    assert_eq!(d.perm, 0o777);
    assert_eq!(d.nlink, 2);
    assert_eq!(d.size, 512);
    assert_eq!(d.blocks, 1);
    let f = file_attr(2, 0, ts(3));
    assert_eq!(f.kind, FileKind::RegularFile);
    assert_eq!(f.perm, 0o644);
    assert_eq!(f.nlink, 1);
    assert_eq!(f.size, 0);
    assert_eq!(f.blocks, 0);
}
