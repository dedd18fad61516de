use in_mem_fs::attr::{FileKind, TimeSpec};
use in_mem_fs::mem_fs::{Errno, MemFs, Request, TimeOrNow};
use in_mem_fs::perm::{O_RDONLY, O_RDWR, O_TRUNC, O_WRONLY, S_IFDIR, S_IFREG, R_OK, W_OK};

fn ts(secs: u64) -> TimeSpec {
    TimeSpec { secs, nsecs: 0 }
}

fn req(uid: u32, gid: u32) -> Request {
    Request { uid, gid, pid: 1 }
}

fn new_fs() -> MemFs {
    let mut fs = MemFs::new(false, false);
    fs.init(ts(1));
    fs
}

#[test]
fn root_attrs_after_init() {
    let fs = new_fs();
    let a = fs.getattr(1).unwrap();
    assert_eq!(a.kind, FileKind::Directory);
    assert_eq!(a.perm, 0o777);
    assert_eq!(a.uid, 0);
    assert_eq!(a.gid, 0);
    assert_eq!(a.nlink, 2);
}

#[test]
fn init_twice_keeps_the_root() {
    let mut fs = new_fs();
    fs.init(ts(99));
    let a = fs.getattr(1).unwrap();
    assert_eq!(a.mtime, ts(1));
}

#[test]
fn suid_stripped_at_creation_without_support() {
    let mut fs = new_fs();
    let (a, _fh) = fs
        .create(req(1000, 1000), 1, &"x".to_string(), 0o4755, O_RDWR, ts(2))
        .unwrap();
    assert_eq!(a.perm, 0o0755);
}

#[test]
fn sticky_unlink_rules() {
    let mut fs = new_fs();
    let pd = fs.mkdir(req(100, 100), 1, &"p".to_string(), 0o1777, ts(2)).unwrap();
    assert_eq!(pd.perm, 0o1777);
    assert_eq!(pd.uid, 100);
    let c = fs
        .create(req(200, 200), pd.ino, &"c".to_string(), 0o644, O_WRONLY, ts(3))
        .unwrap()
        .0;
    assert_eq!(c.uid, 200);
    // A third user may not unlink under a sticky directory.
    assert_eq!(
        fs.unlink(req(300, 300), pd.ino, &"c".to_string(), ts(4)),
        Err(Errno::EACCES)
    );
    // The child's owner may.
    assert_eq!(fs.unlink(req(200, 200), pd.ino, &"c".to_string(), ts(5)), Ok(()));
    // Recreate; the directory's owner may too.
    fs.create(req(200, 200), pd.ino, &"c".to_string(), 0o644, O_WRONLY, ts(6))
        .unwrap();
    assert_eq!(fs.unlink(req(100, 100), pd.ino, &"c".to_string(), ts(7)), Ok(()));
}

#[test]
fn rename_collision_keeps_both() {
    let mut fs = new_fs();
    let r = req(0, 0);
    let a = fs.create(r, 1, &"a".to_string(), 0o644, O_WRONLY, ts(2)).unwrap().0;
    let b = fs.create(r, 1, &"b".to_string(), 0o644, O_WRONLY, ts(3)).unwrap().0;
    assert_eq!(
        fs.rename(r, 1, &"a".to_string(), 1, &"b".to_string(), ts(4)),
        Err(Errno::EEXIST)
    );
    assert_eq!(fs.lookup(r, 1, &"a".to_string()).unwrap().ino, a.ino);
    assert_eq!(fs.lookup(r, 1, &"b".to_string()).unwrap().ino, b.ino);
}

#[test]
fn rename_moves_the_name() {
    let mut fs = new_fs();
    let r = req(0, 0);
    let a = fs.create(r, 1, &"a".to_string(), 0o644, O_WRONLY, ts(2)).unwrap().0;
    assert_eq!(fs.rename(r, 1, &"a".to_string(), 1, &"z".to_string(), ts(4)), Ok(()));
    assert_eq!(fs.lookup(r, 1, &"a".to_string()), Err(Errno::ENOENT));
    let z = fs.lookup(r, 1, &"z".to_string()).unwrap();
    assert_eq!(z.ino, a.ino);
    assert_eq!(z.mtime, ts(4));
    assert_eq!(z.ctime, ts(4));
}

#[test]
fn rename_across_directories_is_unsupported() {
    let mut fs = new_fs();
    let r = req(0, 0);
    let d = fs.mkdir(r, 1, &"d".to_string(), 0o755, ts(2)).unwrap();
    fs.create(r, 1, &"a".to_string(), 0o644, O_WRONLY, ts(3)).unwrap();
    assert_eq!(
        fs.rename(r, 1, &"a".to_string(), d.ino, &"a".to_string(), ts(4)),
        Err(Errno::ENOSYS)
    );
}

#[test]
fn rmdir_refuses_non_empty() {
    let mut fs = new_fs();
    let r = req(0, 0);
    let d = fs.mkdir(r, 1, &"d".to_string(), 0o755, ts(2)).unwrap();
    fs.create(r, d.ino, &"f".to_string(), 0o644, O_WRONLY, ts(3)).unwrap();
    assert_eq!(fs.rmdir(r, 1, &"d".to_string(), ts(4)), Err(Errno::ENOTEMPTY));
    // After the child goes, the directory can go too.
    assert_eq!(fs.unlink(r, d.ino, &"f".to_string(), ts(5)), Ok(()));
    assert_eq!(fs.rmdir(r, 1, &"d".to_string(), ts(6)), Ok(()));
    assert_eq!(fs.lookup(r, 1, &"d".to_string()), Err(Errno::ENOENT));
}

#[test]
fn rmdir_on_a_file_is_eacces() {
    let mut fs = new_fs();
    let r = req(0, 0);
    fs.create(r, 1, &"f".to_string(), 0o644, O_WRONLY, ts(2)).unwrap();
    assert_eq!(fs.rmdir(r, 1, &"f".to_string(), ts(3)), Err(Errno::EACCES));
}

#[test]
fn unlink_on_a_directory_is_eperm() {
    let mut fs = new_fs();
    let r = req(0, 0);
    fs.mkdir(r, 1, &"d".to_string(), 0o755, ts(2)).unwrap();
    assert_eq!(fs.unlink(r, 1, &"d".to_string(), ts(3)), Err(Errno::EPERM));
}

#[test]
fn truncate_clears_suid_and_keeps_locking_sgid() {
    let mut fs = MemFs::new(false, true);
    fs.init(ts(1));
    let r = req(0, 0);
    let a = fs.create(r, 1, &"x".to_string(), 0o4755, O_RDWR, ts(2)).unwrap().0;
    assert_eq!(a.perm, 0o4755);
    let data: Vec<u8> = vec![7u8; 10];
    assert_eq!(fs.write(a.ino, 0, &data), Ok(10));
    let after = fs
        .setattr(r, &vec![], a.ino, None, None, None, Some(3), None, None, ts(3))
        .unwrap();
    assert_eq!(after.size, 3);
    assert_eq!(after.perm, 0o0755);
    assert_eq!(fs.read(a.ino, 0, 100).unwrap(), vec![7u8, 7u8, 7u8]);
    // SGID without group-execute denotes locking and survives a truncate.
    let b = fs.create(r, 1, &"y".to_string(), 0o6705, O_RDWR, ts(4)).unwrap().0;
    assert_eq!(b.perm, 0o6705);
    let after_b = fs
        .setattr(r, &vec![], b.ino, None, None, None, Some(0), None, None, ts(5))
        .unwrap();
    assert_eq!(after_b.perm, 0o2705);
    assert_eq!(after_b.size, 0);
}

#[test]
fn read_past_end_returns_empty() {
    let mut fs = new_fs();
    let r = req(0, 0);
    let a = fs.create(r, 1, &"f".to_string(), 0o644, O_RDWR, ts(2)).unwrap().0;
    fs.write(a.ino, 0, &vec![1, 2, 3, 4]).unwrap();
    let got = fs.read(a.ino, 100, 10).unwrap();
    assert_eq!(got.len(), 0);
}

#[test]
fn readdir_lists_in_insertion_order() {
    let mut fs = new_fs();
    let r = req(0, 0);
    let d = fs.mkdir(r, 1, &"d".to_string(), 0o755, ts(2)).unwrap();
    fs.create(r, d.ino, &"a".to_string(), 0o644, O_WRONLY, ts(3)).unwrap();
    fs.create(r, d.ino, &"b".to_string(), 0o644, O_WRONLY, ts(4)).unwrap();
    fs.create(r, d.ino, &"c".to_string(), 0o644, O_WRONLY, ts(5)).unwrap();
    let entries = fs.readdir(d.ino, 0).unwrap();
    let names: Vec<String> = entries.iter().map(|e| e.name.clone()).collect();
    assert_eq!(names, vec![".", "..", "a", "b", "c"]);
    assert_eq!(entries[0].ino, d.ino);
    assert_eq!(entries[1].ino, 1);
    assert_eq!(entries[0].kind, FileKind::Directory);
    assert_eq!(entries[2].kind, FileKind::RegularFile);
}

#[test]
fn readdir_resumes_at_the_offset() {
    let mut fs = new_fs();
    let r = req(0, 0);
    let d = fs.mkdir(r, 1, &"d".to_string(), 0o755, ts(2)).unwrap();
    fs.create(r, d.ino, &"a".to_string(), 0o644, O_WRONLY, ts(3)).unwrap();
    fs.create(r, d.ino, &"b".to_string(), 0o644, O_WRONLY, ts(4)).unwrap();
    let tail = fs.readdir(d.ino, 3).unwrap();
    let names: Vec<String> = tail.iter().map(|e| e.name.clone()).collect();
    assert_eq!(names, vec!["b"]);
    // The root has no ".." entry.
    let at_root = fs.readdir(1, 0).unwrap();
    assert_eq!(at_root[0].name, ".");
    assert_eq!(at_root[1].name, "d");
}

#[test]
fn open_rdonly_trunc_is_eacces() {
    let mut fs = new_fs();
    let r = req(0, 0);
    let a = fs.create(r, 1, &"f".to_string(), 0o777, O_WRONLY, ts(2)).unwrap().0;
    assert_eq!(fs.open(r, a.ino, O_RDONLY | O_TRUNC), Err(Errno::EACCES));
    assert_eq!(fs.opendir(r, 1, O_RDONLY | O_TRUNC), Err(Errno::EACCES));
}

#[test]
fn open_needs_exactly_one_access_mode() {
    let mut fs = new_fs();
    let r = req(0, 0);
    assert_eq!(fs.open(r, 1, 3), Err(Errno::EINVAL));
    assert_eq!(fs.create(r, 1, &"f".to_string(), 0o644, 3, ts(2)), Err(Errno::EINVAL));
}

#[test]
fn open_hands_out_fresh_handles() {
    let mut fs = new_fs();
    let r = req(0, 0);
    let a = fs.create(r, 1, &"f".to_string(), 0o644, O_WRONLY, ts(2)).unwrap();
    let (fh1, flags1) = fs.open(r, a.0.ino, O_RDWR).unwrap();
    let (fh2, _) = fs.open(r, a.0.ino, O_RDONLY).unwrap();
    assert!(fh2 > fh1);
    assert_eq!(flags1, 0);
}

#[test]
fn open_without_permission_is_eacces() {
    let mut fs = new_fs();
    let a = fs
        .create(req(0, 0), 1, &"f".to_string(), 0o600, O_WRONLY, ts(2))
        .unwrap()
        .0;
    assert_eq!(fs.open(req(7, 7), a.ino, O_RDWR), Err(Errno::EACCES));
}

#[test]
fn write_then_read_roundtrip() {
    let mut fs = new_fs();
    let r = req(0, 0);
    let a = fs.create(r, 1, &"f".to_string(), 0o644, O_RDWR, ts(2)).unwrap().0;
    let d: Vec<u8> = vec![10, 20, 30, 40, 50];
    assert_eq!(fs.write(a.ino, 0, &d), Ok(5));
    assert_eq!(fs.read(a.ino, 0, 5).unwrap(), d);
    assert_eq!(fs.getattr(a.ino).unwrap().size, 5);
}

#[test]
fn write_beyond_the_end_zero_fills_the_gap() {
    let mut fs = new_fs();
    let r = req(0, 0);
    let a = fs.create(r, 1, &"f".to_string(), 0o644, O_RDWR, ts(2)).unwrap().0;
    fs.write(a.ino, 2, &vec![9]).unwrap();
    assert_eq!(fs.read(a.ino, 0, 10).unwrap(), vec![0, 0, 9]);
    assert_eq!(fs.getattr(a.ino).unwrap().size, 3);
}

#[test]
fn mkdir_rmdir_restores_the_parent() {
    let mut fs = new_fs();
    let r = req(0, 0);
    fs.create(r, 1, &"keep".to_string(), 0o644, O_WRONLY, ts(2)).unwrap();
    let before: Vec<String> = fs.readdir(1, 0).unwrap().iter().map(|e| e.name.clone()).collect();
    let before_mtime = fs.getattr(1).unwrap().mtime;
    fs.mkdir(r, 1, &"d".to_string(), 0o755, ts(3)).unwrap();
    assert_eq!(fs.rmdir(r, 1, &"d".to_string(), ts(4)), Ok(()));
    let after: Vec<String> = fs.readdir(1, 0).unwrap().iter().map(|e| e.name.clone()).collect();
    assert_eq!(before, after);
    let a = fs.getattr(1).unwrap();
    assert_eq!(a.mtime, ts(4));
    assert_eq!(a.ctime, ts(4));
    assert!(a.mtime != before_mtime);
}

#[test]
fn create_unlink_lookup_is_enoent() {
    let mut fs = new_fs();
    let r = req(0, 0);
    fs.create(r, 1, &"f".to_string(), 0o644, O_WRONLY, ts(2)).unwrap();
    assert_eq!(fs.unlink(r, 1, &"f".to_string(), ts(3)), Ok(()));
    assert_eq!(fs.lookup(r, 1, &"f".to_string()), Err(Errno::ENOENT));
}

#[test]
fn mknod_supports_files_and_directories_only() {
    let mut fs = new_fs();
    let r = req(0, 0);
    let f = fs.mknod(r, 1, &"f".to_string(), S_IFREG | 0o644, ts(2)).unwrap();
    assert_eq!(f.kind, FileKind::RegularFile);
    let d = fs.mknod(r, 1, &"d".to_string(), S_IFDIR | 0o755, ts(3)).unwrap();
    assert_eq!(d.kind, FileKind::Directory);
    // A character device's nibble is unsupported.
    assert_eq!(
        fs.mknod(r, 1, &"c".to_string(), 0o020644, ts(4)),
        Err(Errno::ENOSYS)
    );
}

#[test]
fn create_duplicate_name_is_eexist() {
    let mut fs = new_fs();
    let r = req(0, 0);
    fs.create(r, 1, &"f".to_string(), 0o644, O_WRONLY, ts(2)).unwrap();
    assert_eq!(
        fs.create(r, 1, &"f".to_string(), 0o644, O_WRONLY, ts(3)),
        Err(Errno::EEXIST)
    );
}

#[test]
fn create_in_missing_parent_is_enoent() {
    let mut fs = new_fs();
    assert_eq!(
        fs.create(req(0, 0), 77, &"f".to_string(), 0o644, O_WRONLY, ts(2)),
        Err(Errno::ENOENT)
    );
}

#[test]
fn create_without_write_permission_is_eacces() {
    let mut fs = new_fs();
    let r0 = req(0, 0);
    let d = fs.mkdir(r0, 1, &"d".to_string(), 0o700, ts(2)).unwrap();
    assert_eq!(
        fs.create(req(5, 5), d.ino, &"f".to_string(), 0o644, O_WRONLY, ts(3)),
        Err(Errno::EACCES)
    );
}

#[test]
fn mkdir_inherits_sgid_from_the_parent() {
    let mut fs = MemFs::new(false, true);
    fs.init(ts(1));
    let r = req(0, 0);
    let p = fs.mkdir(r, 1, &"p".to_string(), 0o2777, ts(2)).unwrap();
    assert_eq!(p.perm & 0o2000, 0o2000);
    let c = fs.mkdir(req(8, 8), p.ino, &"c".to_string(), 0o755, ts(3)).unwrap();
    assert_eq!(c.perm & 0o2000, 0o2000);
    // And the group comes from the parent under SGID.
    let mut q = fs.mkdir(r, 1, &"q".to_string(), 0o2775, ts(4)).unwrap();
    q = fs.getattr(q.ino).unwrap();
    assert_eq!(q.gid, 0);
}

#[test]
fn lookup_without_execute_is_eacces() {
    let mut fs = new_fs();
    let r0 = req(0, 0);
    let d = fs.mkdir(r0, 1, &"d".to_string(), 0o600, ts(2)).unwrap();
    fs.create(r0, d.ino, &"f".to_string(), 0o644, O_WRONLY, ts(3)).unwrap();
    assert_eq!(
        fs.lookup(req(5, 5), d.ino, &"f".to_string()),
        Err(Errno::EACCES)
    );
}

#[test]
fn chmod_needs_root_or_owner() {
    let mut fs = new_fs();
    let a = fs
        .create(req(10, 10), 1, &"f".to_string(), 0o644, O_WRONLY, ts(2))
        .unwrap()
        .0;
    assert_eq!(
        fs.setattr(req(11, 11), &vec![], a.ino, Some(0o600), None, None, None, None, None, ts(3)),
        Err(Errno::EPERM)
    );
    let after = fs
        .setattr(req(10, 10), &vec![10], a.ino, Some(0o600), None, None, None, None, None, ts(4))
        .unwrap();
    assert_eq!(after.perm, 0o600);
}

#[test]
fn chmod_by_outsider_group_drops_sgid() {
    let mut fs = new_fs();
    // File owned by uid 10, gid 50; the caller owns it but is not in group 50.
    let a = fs
        .create(req(10, 50), 1, &"f".to_string(), 0o644, O_WRONLY, ts(2))
        .unwrap()
        .0;
    let after = fs
        .setattr(req(10, 60), &vec![60], a.ino, Some(0o2755), None, None, None, None, None, ts(3))
        .unwrap();
    assert_eq!(after.perm, 0o0755);
    // In the file's group, the SGID bit stays.
    let b = fs
        .create(req(10, 50), 1, &"g".to_string(), 0o644, O_WRONLY, ts(4))
        .unwrap()
        .0;
    let after_b = fs
        .setattr(req(10, 60), &vec![50, 60], b.ino, Some(0o2755), None, None, None, None, None, ts(5))
        .unwrap();
    assert_eq!(after_b.perm, 0o2755);
}

#[test]
fn chown_rules_for_non_root() {
    let mut fs = new_fs();
    let a = fs
        .create(req(10, 10), 1, &"f".to_string(), 0o644, O_WRONLY, ts(2))
        .unwrap()
        .0;
    // Non-root may not give the file away.
    assert_eq!(
        fs.setattr(req(10, 10), &vec![10], a.ino, None, Some(11), None, None, None, None, ts(3)),
        Err(Errno::EPERM)
    );
    // A no-op uid change by the owner is fine.
    let same = fs
        .setattr(req(10, 10), &vec![10], a.ino, None, Some(10), None, None, None, None, ts(4))
        .unwrap();
    assert_eq!(same.uid, 10);
    // Changing the group needs membership.
    assert_eq!(
        fs.setattr(req(10, 10), &vec![10], a.ino, None, None, Some(77), None, None, None, ts(5)),
        Err(Errno::EPERM)
    );
    let moved = fs
        .setattr(req(10, 10), &vec![10, 77], a.ino, None, None, Some(77), None, None, None, ts(6))
        .unwrap();
    assert_eq!(moved.gid, 77);
}

#[test]
fn chown_clears_suid_on_executable() {
    let mut fs = MemFs::new(false, true);
    fs.init(ts(1));
    let a = fs
        .create(req(0, 0), 1, &"x".to_string(), 0o4755, O_WRONLY, ts(2))
        .unwrap()
        .0;
    assert_eq!(a.perm, 0o4755);
    let after = fs
        .setattr(req(0, 0), &vec![], a.ino, None, Some(5), None, None, None, None, ts(3))
        .unwrap();
    assert_eq!(after.uid, 5);
    assert_eq!(after.perm & 0o4000, 0);
}

#[test]
fn utimens_rules() {
    let mut fs = new_fs();
    let a = fs
        .create(req(10, 10), 1, &"f".to_string(), 0o666, O_WRONLY, ts(2))
        .unwrap()
        .0;
    // A non-owner may not set a specific time.
    assert_eq!(
        fs.setattr(
            req(11, 11),
            &vec![],
            a.ino,
            None,
            None,
            None,
            None,
            Some(TimeOrNow::SpecificTime(ts(9))),
            None,
            ts(3)
        ),
        Err(Errno::EPERM)
    );
    // With write permission, "now" is allowed.
    let touched = fs
        .setattr(
            req(11, 11),
            &vec![],
            a.ino,
            None,
            None,
            None,
            None,
            Some(TimeOrNow::Now),
            None,
            ts(4)
        )
        .unwrap();
    assert_eq!(touched.atime, ts(4));
    // The owner may set a specific mtime.
    let set = fs
        .setattr(
            req(10, 10),
            &vec![],
            a.ino,
            None,
            None,
            None,
            None,
            None,
            Some(TimeOrNow::SpecificTime(ts(123))),
            ts(5)
        )
        .unwrap();
    assert_eq!(set.mtime, ts(123));
    assert_eq!(set.ctime, ts(5));
}

#[test]
fn setattr_applies_fields_linearly() {
    // The mode lands even though the later group change is rejected; the
    // reply carries the rejection.
    let mut fs = new_fs();
    let a = fs
        .create(req(10, 10), 1, &"f".to_string(), 0o644, O_WRONLY, ts(2))
        .unwrap()
        .0;
    assert_eq!(
        fs.setattr(
            req(10, 10),
            &vec![10],
            a.ino,
            Some(0o600),
            None,
            Some(77),
            None,
            None,
            None,
            ts(3)
        ),
        Err(Errno::EPERM)
    );
    assert_eq!(fs.getattr(a.ino).unwrap().perm, 0o600);
}

#[test]
fn copy_file_range_moves_bytes() {
    let mut fs = new_fs();
    let r = req(0, 0);
    let s = fs.create(r, 1, &"s".to_string(), 0o644, O_RDWR, ts(2)).unwrap().0;
    let d = fs.create(r, 1, &"d".to_string(), 0o644, O_RDWR, ts(3)).unwrap().0;
    fs.write(s.ino, 0, &vec![1, 2, 3, 4, 5]).unwrap();
    fs.write(d.ino, 0, &vec![9, 9]).unwrap();
    let n = fs.copy_file_range(s.ino, 1, d.ino, 1, 3, ts(4)).unwrap();
    assert_eq!(n, 3);
    assert_eq!(fs.read(d.ino, 0, 10).unwrap(), vec![9, 2, 3, 4]);
    let da = fs.getattr(d.ino).unwrap();
    assert_eq!(da.size, 4);
    assert_eq!(da.mtime, ts(4));
    // Asking past the source's end copies only what exists.
    let n2 = fs.copy_file_range(s.ino, 4, d.ino, 0, 10, ts(5)).unwrap();
    assert_eq!(n2, 1);
    assert_eq!(fs.read(d.ino, 0, 10).unwrap(), vec![5, 2, 3, 4]);
}

#[test]
fn release_paths_report_like_the_original() {
    let mut fs = new_fs();
    let r = req(0, 0);
    let d = fs.mkdir(r, 1, &"d".to_string(), 0o755, ts(2)).unwrap();
    assert_eq!(fs.releasedir(d.ino), Ok(()));
    assert_eq!(fs.rmdir(r, 1, &"d".to_string(), ts(3)), Ok(()));
    assert_eq!(fs.releasedir(d.ino), Err(Errno::ENOENT));
}

#[test]
fn access_checks_the_items_attrs() {
    let mut fs = new_fs();
    let a = fs
        .create(req(10, 10), 1, &"f".to_string(), 0o640, O_WRONLY, ts(2))
        .unwrap()
        .0;
    assert_eq!(fs.access(req(10, 10), a.ino, R_OK | W_OK), Ok(()));
    assert_eq!(fs.access(req(11, 10), a.ino, R_OK), Ok(()));
    assert_eq!(fs.access(req(11, 10), a.ino, W_OK), Err(Errno::EACCES));
    assert_eq!(fs.access(req(11, 11), a.ino, R_OK), Err(Errno::EACCES));
    assert_eq!(fs.access(req(11, 11), 99, R_OK), Err(Errno::ENOENT));
}

#[test]
fn getattr_of_missing_inode_is_enoent() {
    let fs = new_fs();
    assert_eq!(fs.getattr(42), Err(Errno::ENOENT));
}

#[test]
fn read_and_write_reject_directories() {
    let mut fs = new_fs();
    let r = req(0, 0);
    let d = fs.mkdir(r, 1, &"d".to_string(), 0o755, ts(2)).unwrap();
    assert_eq!(fs.read(d.ino, 0, 4), Err(Errno::ENOENT));
    assert_eq!(fs.write(d.ino, 0, &vec![1]), Err(Errno::ENOENT));
    assert_eq!(fs.copy_file_range(d.ino, 0, d.ino, 0, 1, ts(3)), Err(Errno::ENOENT));
}

#[test]
fn blocks_track_the_size() {
    let mut fs = new_fs();
    let r = req(0, 0);
    let a = fs.create(r, 1, &"f".to_string(), 0o644, O_RDWR, ts(2)).unwrap().0;
    fs.write(a.ino, 0, &vec![0u8; 513]).unwrap();
    let got = fs.getattr(a.ino).unwrap();
    assert_eq!(got.size, 513);
    assert_eq!(got.blocks, 2);
}
