use rvkernel::fs::{fetch, Inode, MinixFileSystem, BLOCK_SIZE, MAGIC, NUM_IPTRS, S_IFREG};

const BLOCK: usize = 1024;

fn put16(disk: &mut [u8], at: usize, v: u16) {
    disk[at..at + 2].copy_from_slice(&v.to_le_bytes());
}

fn put32(disk: &mut [u8], at: usize, v: u32) {
    disk[at..at + 4].copy_from_slice(&v.to_le_bytes());
}

/// Byte `k` of the block of the zone `zone` on the disk of the tests.
fn data(zone: u32, k: usize) -> u8 {
    (zone as usize * 7 + k % 251) as u8
}

fn fill(disk: &mut [u8], zone: u32) {
    for k in 0..BLOCK {
        disk[zone as usize * BLOCK + k] = data(zone, k);
    }
}

fn pointers(disk: &mut [u8], zone: u32, entries: &[(usize, u32)]) {
    for &(i, p) in entries {
        put32(disk, zone as usize * BLOCK + 4 * i, p);
    }
}

fn put_inode(disk: &mut [u8], at: usize, ino: &Inode) {
    put16(disk, at, ino.mode);
    put16(disk, at + 2, ino.nlinks);
    put16(disk, at + 4, ino.uid);
    put16(disk, at + 6, ino.gid);
    put32(disk, at + 8, ino.size);
    put32(disk, at + 12, ino.atime);
    put32(disk, at + 16, ino.mtime);
    put32(disk, at + 20, ino.ctime);
    for i in 0..10 {
        put32(disk, at + 24 + 4 * i, ino.zones[i]);
    }
}

fn inode(size: u32, zones: [u32; 10]) -> Inode {
    Inode { mode: S_IFREG | 0o644, nlinks: 1, uid: 1000, gid: 100, size, atime: 1, mtime: 2, ctime: 3, zones }
}

/// A disk of 32 blocks: one map block of each kind, the inodes from block 4
/// on, and a file that uses zones of every kind.
fn disk() -> (Vec<u8>, Inode) {
    let mut d = vec![0u8; 32 * BLOCK];
    put32(&mut d, 1024, 64);
    put16(&mut d, 1024 + 6, 1);
    put16(&mut d, 1024 + 8, 1);
    put16(&mut d, 1024 + 24, MAGIC);
    put16(&mut d, 1024 + 28, 1024);
    for zone in [10, 11, 13, 14, 17, 18, 22] {
        fill(&mut d, zone);
    }
    pointers(&mut d, 12, &[(0, 13), (2, 14)]);
    pointers(&mut d, 15, &[(1, 16)]);
    pointers(&mut d, 16, &[(0, 17), (255, 18)]);
    pointers(&mut d, 19, &[(3, 20)]);
    pointers(&mut d, 20, &[(0, 21)]);
    pointers(&mut d, 21, &[(7, 22)]);
    let file = inode(7 * 1024, [10, 0, 11, 0, 0, 0, 0, 12, 15, 19]);
    put_inode(&mut d, 4 * BLOCK + 64, &file);
    put_inode(&mut d, 5 * BLOCK + 3 * 64, &inode(5, [10, 0, 0, 0, 0, 0, 0, 0, 0, 0]));
    (d, file)
}

/// The bytes of the zones `zones` of the test disk, one block after the
/// other.
fn blocks(zones: &[u32]) -> Vec<u8> {
    zones.iter().flat_map(|&z| (0..BLOCK).map(move |k| data(z, k))).collect()
}

fn same(a: &Inode, b: &Inode) -> bool {
    (a.mode, a.nlinks, a.uid, a.gid, a.size, a.atime, a.mtime, a.ctime, a.zones)
        == (b.mode, b.nlinks, b.uid, b.gid, b.size, b.atime, b.mtime, b.ctime, b.zones)
}

#[test]
fn layout_of_the_file_system() {
    assert_eq!(MAGIC, 0x4d5a);
    assert_eq!(BLOCK_SIZE, 1024);
    assert_eq!(NUM_IPTRS, 256);
}

#[test]
fn the_disk_reads_as_zeros_behind_its_end() {
    let d = vec![1u8, 2, 3];
    assert_eq!(fetch(&d, 1, 4), vec![2, 3, 0, 0]);
    assert_eq!(fetch(&d, 3, 2), vec![0, 0]);
    assert_eq!(fetch(&d, u64::MAX, 2), vec![0, 0]);
    assert_eq!(fetch(&d, 0, 0), Vec::<u8>::new());
}

#[test]
fn inodes_are_found_by_their_number() {
    let (d, file) = disk();
    let second = MinixFileSystem::get_inode(&d, 2).unwrap();
    assert!(same(&second, &file));
    // sixteen inodes to a block: number 20 is the fourth of the second block
    let other = MinixFileSystem::get_inode(&d, 20).unwrap();
    assert!(same(&other, &inode(5, [10, 0, 0, 0, 0, 0, 0, 0, 0, 0])));
    // an inode that was never written
    let empty = MinixFileSystem::get_inode(&d, 1).unwrap();
    assert_eq!((empty.mode, empty.size, empty.zones), (0, 0, [0; 10]));
}

#[test]
fn a_disk_without_the_magic_number_has_no_inodes() {
    let (mut d, _) = disk();
    d[1024 + 24] ^= 1;
    assert!(MinixFileSystem::get_inode(&d, 2).is_none());
    assert!(MinixFileSystem::get_inode(&vec![], 1).is_none());
}

#[test]
fn a_file_is_read_through_all_its_zones() {
    let (d, file) = disk();
    let all = MinixFileSystem::read(&d, &file, 7 * 1024, 0);
    assert_eq!(all, blocks(&[10, 11, 13, 14, 17, 18, 22]));
}

#[test]
fn a_read_begins_at_its_offset() {
    let (d, file) = disk();
    let all = blocks(&[10, 11, 13, 14, 17, 18, 22]);
    // across the end of a block
    assert_eq!(MinixFileSystem::read(&d, &file, 100, 1000), all[1000..1100].to_vec());
    // at the beginning of a block
    assert_eq!(MinixFileSystem::read(&d, &file, 10, 2048), all[2048..2058].to_vec());
    // within the last block
    assert_eq!(MinixFileSystem::read(&d, &file, 24, 7 * 1024 - 24), all[7144..].to_vec());
    // over several blocks
    assert_eq!(MinixFileSystem::read(&d, &file, 3000, 3500), all[3500..6500].to_vec());
}

#[test]
fn a_read_ends_with_the_file() {
    let (d, file) = disk();
    let all = blocks(&[10, 11, 13, 14, 17, 18, 22]);
    // behind the last zone there is nothing
    assert_eq!(MinixFileSystem::read(&d, &file, 100, 7 * 1024 - 10), all[7158..].to_vec());
    assert_eq!(MinixFileSystem::read(&d, &file, 100, 7 * 1024), Vec::<u8>::new());
    assert_eq!(MinixFileSystem::read(&d, &file, 100, u32::MAX), Vec::<u8>::new());
    assert_eq!(MinixFileSystem::read(&d, &file, 0, 0), Vec::<u8>::new());
    // no more bytes than the inode says the file has
    let short = inode(5, [10, 0, 0, 0, 0, 0, 0, 0, 0, 0]);
    assert_eq!(MinixFileSystem::read(&d, &short, 100, 0), all[..5].to_vec());
    assert_eq!(MinixFileSystem::read(&d, &short, u32::MAX, 2), all[2..7].to_vec());
    assert_eq!(MinixFileSystem::read(&d, &inode(0, [10, 0, 0, 0, 0, 0, 0, 0, 0, 0]), 100, 0), Vec::<u8>::new());
}

#[test]
fn a_zone_behind_the_end_of_the_disk_reads_as_zeros() {
    let (d, _) = disk();
    let file = inode(2048, [10, 4000, 0, 0, 0, 0, 0, 0, 0, 0]);
    let mut expected = blocks(&[10]);
    expected.extend(vec![0u8; 1024]);
    assert_eq!(MinixFileSystem::read(&d, &file, 4096, 0), expected);
}

fn dirent(disk: &mut [u8], zone: u32, i: usize, inode: u32, name: &[u8]) {
    let at = zone as usize * BLOCK + 64 * i;
    put32(disk, at, inode);
    disk[at + 4..at + 4 + name.len()].copy_from_slice(name);
}

fn dir(size: u32, zone: u32) -> Inode {
    Inode { mode: rvkernel::fs::S_IFDIR | 0o755, ..inode(size, [zone, 0, 0, 0, 0, 0, 0, 0, 0, 0]) }
}

/// A disk with the directories / and /bin and three files.
fn tree() -> Vec<u8> {
    let (mut d, _) = disk();
    // the root: inode 1, in zone 24
    put_inode(&mut d, 4 * BLOCK, &dir(6 * 64, 24));
    dirent(&mut d, 24, 0, 1, b".");
    dirent(&mut d, 24, 1, 1, b"..");
    dirent(&mut d, 24, 2, 3, b"bin");
    dirent(&mut d, 24, 3, 0, b"gone");
    dirent(&mut d, 24, 4, 20, b"hello.txt");
    dirent(&mut d, 24, 5, 2, &[b'x'; 60]);
    // an entry behind the size of the directory
    dirent(&mut d, 24, 6, 2, b"hidden");
    // /bin: inode 3, in zone 25
    put_inode(&mut d, 4 * BLOCK + 2 * 64, &dir(3 * 64, 25));
    dirent(&mut d, 25, 0, 3, b".");
    dirent(&mut d, 25, 1, 1, b"..");
    dirent(&mut d, 25, 2, 2, b"big");
    d
}

#[test]
fn the_names_of_a_disk_are_listed_from_the_root_on() {
    let d = tree();
    let found = MinixFileSystem::init(&d);
    let names: Vec<(Vec<u8>, u32)> = found.iter().map(|f| (f.path.clone(), f.num)).collect();
    let mut long = b"/".to_vec();
    long.extend([b'x'; 60]);
    assert_eq!(
        names,
        vec![
            (b"/bin/big".to_vec(), 2),
            (b"/bin".to_vec(), 3),
            (b"/hello.txt".to_vec(), 20),
            (long, 2),
        ]
    );
    assert_eq!(found[0].inode.size, 7 * 1024);
    assert_eq!(found[2].inode.size, 5);
    assert_eq!(found[1].inode.mode & rvkernel::fs::S_IFDIR, rvkernel::fs::S_IFDIR);
}

#[test]
fn files_are_opened_by_their_paths() {
    let d = tree();
    let found = MinixFileSystem::init(&d);
    let big = MinixFileSystem::open(&found, &b"/bin/big".to_vec()).unwrap();
    assert_eq!(big.zones, [10, 0, 11, 0, 0, 0, 0, 12, 15, 19]);
    assert_eq!(MinixFileSystem::open(&found, &b"/hello.txt".to_vec()).unwrap().size, 5);
    // a directory is no file, and what is not there is not found
    for path in [&b"/bin"[..], b"/", b"/gone", b"/hidden", b"/bin/", b"bin/big", b""] {
        assert_eq!(MinixFileSystem::open(&found, &path.to_vec()).err(), Some(rvkernel::fs::FsError::FileNotFound));
    }
    assert_eq!(
        MinixFileSystem::read_file(&found, &d, &b"/hello.txt".to_vec()),
        Some(blocks(&[10])[..5].to_vec())
    );
    assert_eq!(
        MinixFileSystem::read_file(&found, &d, &b"/bin/big".to_vec()),
        Some(blocks(&[10, 11, 13, 14, 17, 18, 22]))
    );
    assert_eq!(MinixFileSystem::read_file(&found, &d, &b"/bin".to_vec()), None);
}

#[test]
fn a_directory_that_holds_itself_is_left_in_time() {
    let (mut d, _) = disk();
    // four inodes, and the root holds itself under the name `again`
    put32(&mut d, 1024, 4);
    put_inode(&mut d, 4 * BLOCK, &dir(3 * 64, 24));
    dirent(&mut d, 24, 2, 1, b"again");
    let found = MinixFileSystem::init(&d);
    let paths: Vec<Vec<u8>> = found.iter().map(|f| f.path.clone()).collect();
    assert_eq!(
        paths,
        vec![
            b"/againagainagainagainagain".to_vec(),
            b"/againagainagainagain".to_vec(),
            b"/againagainagain".to_vec(),
            b"/againagain".to_vec(),
            b"/again".to_vec(),
        ]
    );
    // a disk without the magic number has no names
    d[1024 + 24] = 0;
    assert!(MinixFileSystem::init(&d).is_empty());
    let mut out = Vec::new();
    MinixFileSystem::cache_at(&d, &b"/".to_vec(), 1, 3, &mut out);
    assert!(out.is_empty());
}

#[test]
fn the_name_space_is_read_under_its_lock() {
    let d = tree();
    let mut v = rvkernel::vfs::Vfs::new();
    let path = b"/hello.txt".to_vec();
    assert_eq!(rvkernel::vfs::open(&mut v, &path).err(), Some(rvkernel::fs::FsError::Unavailable));
    rvkernel::vfs::add_gpu(&mut v, 6);
    assert!(v.cache.is_none());
    rvkernel::vfs::init(&mut v, &d, 8);
    assert_eq!(v.cache.as_ref().unwrap().len(), 4);
    let e = rvkernel::vfs::open(&mut v, &path).unwrap();
    assert_eq!(e.dev, 8);
    match e.node {
        rvkernel::vfs::EntryType::File(ino) => assert_eq!(ino.size, 5),
        other => panic!("{:?}", other),
    }
    // directories have names too
    assert!(rvkernel::vfs::open(&mut v, &b"/bin".to_vec()).is_ok());
    assert_eq!(rvkernel::vfs::open(&mut v, &b"/nothing".to_vec()).err(), Some(rvkernel::fs::FsError::FileNotFound));
    rvkernel::vfs::add_gpu(&mut v, 6);
    let g = rvkernel::vfs::open(&mut v, &b"/dev/gpu".to_vec()).unwrap();
    assert_eq!(g.dev, 6);
    assert!(matches!(g.node, rvkernel::vfs::EntryType::Gpu));
    // while the lock is held nothing is looked up and nothing is added
    assert!(v.lock.try_lock());
    assert_eq!(rvkernel::vfs::open(&mut v, &path).err(), Some(rvkernel::fs::FsError::Busy));
    rvkernel::vfs::add_gpu(&mut v, 7);
    assert_eq!(v.cache.as_ref().unwrap().len(), 5);
    v.lock.unlock();
    // a second disk adds its names behind the first
    rvkernel::vfs::init_proc(&mut v, &d, 9);
    assert_eq!(v.cache.as_ref().unwrap().len(), 9);
    assert_eq!(rvkernel::vfs::open(&mut v, &path).unwrap().dev, 9);
}

#[test]
fn a_file_is_read_for_a_process_that_waits() {
    use_read_proc();
}

fn use_read_proc() {
    let start = 0x8010_0000u64;
    let mut a = rvkernel::page::PageAllocator::new(start, 512);
    let mut t = rvkernel::process::ProcessTable::new(0);
    assert_eq!(rvkernel::process::add_kernel_process(&mut t, &mut a, 0x8000_1000), 1);
    assert_eq!(rvkernel::process::add_process_default(&mut t, &mut a, start), 2);
    assert!(rvkernel::process::set_waiting(&mut t, 2));
    let buffer = a.zalloc(1);
    let d = tree();
    let args = rvkernel::fs::ProcArgs { pid: 2, dev: 8, buffer, size: 100, offset: 1, node: 20 };
    assert!(rvkernel::fs::read_proc(&mut t, &mut a, &d, &args));
    let p = rvkernel::process::get_by_pid(&t, 2).unwrap();
    assert_eq!(p.state, rvkernel::process::ProcessState::Running);
    // five bytes at most, as the inode says
    assert_eq!(p.frame.regs[10], 5);
    let expected = blocks(&[10]);
    for k in 0..5 {
        assert_eq!(a.read(buffer + k), Some(expected[1 + k as usize]));
    }
    assert_eq!(a.read(buffer + 5), Some(0));
    // a process that is gone is not woken; the bytes are read all the same
    let args = rvkernel::fs::ProcArgs { pid: 7, dev: 8, buffer: buffer + 16, size: 2, offset: 0, node: 20 };
    assert!(!rvkernel::fs::read_proc(&mut t, &mut a, &d, &args));
    assert_eq!(a.read(buffer + 16), Some(expected[0]));
    // a buffer outside the memory takes nothing
    let args = rvkernel::fs::ProcArgs { pid: 2, dev: 8, buffer: 0x10, size: 2, offset: 0, node: 20 };
    assert!(rvkernel::fs::read_proc(&mut t, &mut a, &d, &args));
    assert_eq!(rvkernel::process::get_by_pid(&t, 2).unwrap().frame.regs[10], 2);
    // an answer wakes the process that waits for it
    assert!(rvkernel::process::set_waiting(&mut t, 1));
    assert!(rvkernel::process::wake(&mut t, 1, 77));
    assert_eq!(rvkernel::process::get_by_pid(&t, 1).unwrap().frame.regs[10], 77);
    assert!(!rvkernel::process::wake(&mut t, 0, 1));
    assert!(!rvkernel::process::wake(&mut t, 9, 1));
}
