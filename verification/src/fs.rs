//! The read-only file system that programs are loaded from: the records on
//! the disk, and how a file is read through the zones of its inode.
//!
//! The disk is given as its bytes. Beyond its end it reads as zeros.

use crate::cpu::{low32, spec_low32};
use crate::elf::{le16, le32, read16, read32};
use crate::page::{written, PageAllocator};
use crate::process::{has_pid, pid_index, wake, Process, ProcessState, ProcessTable};
use vstd::prelude::*;

verus! {

/// Magic number of the file system, in its super block.
pub const MAGIC: u16 = 0x4d5a;

/// Size of a disk block in bytes.
pub const BLOCK_SIZE: u32 = 1024;

/// Number of block pointers that fit into one block.
pub const NUM_IPTRS: usize = 256;

/// Mode bits of a directory.
pub const S_IFDIR: u16 = 0o040_000;

/// Mode bits of a regular file.
pub const S_IFREG: u16 = 0o100_000;

#[derive(Clone, Copy, Debug, PartialEq, Eq, Structural)]
pub struct SuperBlock {
    pub ninodes: u32,
    pub pad0: u16,
    pub imap_blocks: u16,
    pub zmap_blocks: u16,
    pub first_data_zone: u16,
    pub log_zone_size: u16,
    pub pad1: u16,
    pub max_size: u32,
    pub zones: u32,
    pub magic: u16,
    pub pad2: u16,
    pub block_size: u16,
    pub disk_version: u8,
}

#[derive(Clone, Copy, Debug)]
pub struct Inode {
    pub mode: u16,
    pub nlinks: u16,
    pub uid: u16,
    pub gid: u16,
    pub size: u32,
    pub atime: u32,
    pub mtime: u32,
    pub ctime: u32,
    pub zones: [u32; 10],
}

#[derive(Clone, Copy, Debug)]
pub struct DirEntry {
    pub inode: u32,
    pub name: [u8; 60],
}

/// What `stat` tells of a file.
#[derive(Clone, Copy, Debug, PartialEq, Eq, Structural)]
pub struct Stat {
    pub mode: u16,
    pub size: u32,
    pub uid: u16,
    pub gid: u16,
}

#[derive(Clone, Copy, Debug, PartialEq, Eq, Structural)]
pub enum FsError {
    Success,
    FileNotFound,
    Permission,
    IsFile,
    IsDirectory,
    Busy,
    Unavailable,
}

/// Size of an inode on the disk in bytes.
pub const INODE_SIZE: usize = 64;

/// Where the super block begins on the disk.
pub const SUPER_BLOCK_OFFSET: u64 = 1024;

/// The byte `at` of the disk.
pub open spec fn disk_byte(disk: Seq<u8>, at: int) -> u8 {
    if 0 <= at < disk.len() {
        disk[at]
    } else {
        0
    }
}

/// The `n` bytes of the disk from the byte `at` on.
pub open spec fn disk_bytes(disk: Seq<u8>, at: int, n: int) -> Seq<u8> {
    Seq::new(n as nat, |k: int| disk_byte(disk, at + k))
}

/// The block of the zone `zone`.
pub open spec fn block(disk: Seq<u8>, zone: u32) -> Seq<u8> {
    disk_bytes(disk, zone * 1024, 1024)
}

/// Entry `i` of the pointer block in the zone `zone`.
pub open spec fn pointer(disk: Seq<u8>, zone: u32, i: int) -> u32 {
    le32(block(disk, zone), 4 * i) as u32
}

/// See `disk_bytes`.
pub fn fetch(disk: &Vec<u8>, at: u64, n: usize) -> (r: Vec<u8>)
    ensures
        r@ == disk_bytes(disk@, at as int, n as int),
{
    let total = disk.len();
    let mut r: Vec<u8> = Vec::new();
    let mut k: usize = 0;
    while k < n
        invariant
            k <= n,
            total == disk@.len(),
            r@ == disk_bytes(disk@, at as int, k as int),
        decreases n - k,
    {
        let b: u8 = if at <= u64::MAX - k as u64 && at + (k as u64) < total as u64 {
            disk[(at + k as u64) as usize]
        } else {
            0
        };
        r.push(b);
        proof {
            assert(r@ =~= disk_bytes(disk@, at as int, k + 1));
        }
        k = k + 1;
    }
    r
}

/// The super block that stands at the beginning of `bytes`.
pub open spec fn super_block_of(bytes: Seq<u8>) -> SuperBlock {
    SuperBlock {
        ninodes: le32(bytes, 0) as u32,
        pad0: le16(bytes, 4) as u16,
        imap_blocks: le16(bytes, 6) as u16,
        zmap_blocks: le16(bytes, 8) as u16,
        first_data_zone: le16(bytes, 10) as u16,
        log_zone_size: le16(bytes, 12) as u16,
        pad1: le16(bytes, 14) as u16,
        max_size: le32(bytes, 16) as u32,
        zones: le32(bytes, 20) as u32,
        magic: le16(bytes, 24) as u16,
        pad2: le16(bytes, 26) as u16,
        block_size: le16(bytes, 28) as u16,
        disk_version: bytes[30],
    }
}

/// The super block of the disk.
pub open spec fn super_block(disk: Seq<u8>) -> SuperBlock {
    super_block_of(disk_bytes(disk, 1024, 512))
}

/// `ino` is the inode that stands at `at` in `bytes`.
pub open spec fn is_inode_at(ino: Inode, bytes: Seq<u8>, at: int) -> bool {
    &&& ino.mode == le16(bytes, at)
    &&& ino.nlinks == le16(bytes, at + 2)
    &&& ino.uid == le16(bytes, at + 4)
    &&& ino.gid == le16(bytes, at + 6)
    &&& ino.size == le32(bytes, at + 8)
    &&& ino.atime == le32(bytes, at + 12)
    &&& ino.mtime == le32(bytes, at + 16)
    &&& ino.ctime == le32(bytes, at + 20)
    &&& forall|i: int| 0 <= i < 10 ==> #[trigger] ino.zones@[i] == le32(bytes, at + 24 + 4 * i)
}

/// Where the block with the inode number `inode_num` begins on a disk with
/// the super block `sb`: behind the boot block, the super block and the two
/// maps, sixteen inodes to a block. Disk offsets count in 32 bits.
pub open spec fn inode_block_offset(sb: SuperBlock, inode_num: u32) -> u32 {
    spec_low32(
        ((2 + sb.imap_blocks + sb.zmap_blocks) * 1024 + ((inode_num - 1) / 16) * 1024) as u64,
    )
}

/// `ino` is the inode with the number `inode_num` on the disk.
pub open spec fn is_inode(ino: Inode, disk: Seq<u8>, inode_num: u32) -> bool {
    is_inode_at(
        ino,
        disk_bytes(disk, inode_block_offset(super_block(disk), inode_num) as int, 1024),
        64 * ((inode_num - 1) % 16),
    )
}

fn read_super_block(bytes: &Vec<u8>) -> (sb: SuperBlock)
    requires
        bytes@.len() >= 32,
    ensures
        sb == super_block_of(bytes@),
{
    SuperBlock {
        ninodes: read32(bytes, 0),
        pad0: read16(bytes, 4),
        imap_blocks: read16(bytes, 6),
        zmap_blocks: read16(bytes, 8),
        first_data_zone: read16(bytes, 10),
        log_zone_size: read16(bytes, 12),
        pad1: read16(bytes, 14),
        max_size: read32(bytes, 16),
        zones: read32(bytes, 20),
        magic: read16(bytes, 24),
        pad2: read16(bytes, 26),
        block_size: read16(bytes, 28),
        disk_version: bytes[30],
    }
}

fn read_inode(bytes: &Vec<u8>, at: usize) -> (ino: Inode)
    requires
        at + 64 <= bytes@.len(),
    ensures
        is_inode_at(ino, bytes@, at as int),
{
    let total = bytes.len();
    let mut zones: [u32; 10] = [0;10];
    let mut i: usize = 0;
    while i < 10
        invariant
            i <= 10,
            at + 64 <= bytes@.len(),
            total == bytes@.len(),
            forall|j: int| 0 <= j < i ==> #[trigger] zones@[j] == le32(bytes@, at + 24 + 4 * j),
        decreases 10 - i,
    {
        zones[i] = read32(bytes, at + 24 + 4 * i);
        i = i + 1;
    }
    Inode {
        mode: read16(bytes, at),
        nlinks: read16(bytes, at + 2),
        uid: read16(bytes, at + 4),
        gid: read16(bytes, at + 6),
        size: read32(bytes, at + 8),
        atime: read32(bytes, at + 12),
        mtime: read32(bytes, at + 16),
        ctime: read32(bytes, at + 20),
        zones,
    }
}

/// The zones among the first `n` of the zones `zones` of an inode that hold
/// data: a zone with the number 0 holds none.
pub open spec fn direct_zones(zones: Seq<u32>, n: int) -> Seq<u32>
    decreases n,
{
    if n <= 0 {
        Seq::empty()
    } else if zones[n - 1] != 0 {
        direct_zones(zones, n - 1).push(zones[n - 1])
    } else {
        direct_zones(zones, n - 1)
    }
}

/// The zones with data that are reached through the first `n` entries of the
/// pointer block in `zone`, in their order: with `depth` 0 the entries name
/// the zones themselves, else each names a pointer block one level lower.
/// An entry 0 names nothing.
pub open spec fn tree_zones(disk: Seq<u8>, zone: u32, depth: nat, n: int) -> Seq<u32>
    decreases depth, n,
{
    if n <= 0 {
        Seq::empty()
    } else {
        let rest = tree_zones(disk, zone, depth, n - 1);
        let p = pointer(disk, zone, n - 1);
        if p == 0 {
            rest
        } else if depth == 0 {
            rest.push(p)
        } else {
            rest + tree_zones(disk, p, (depth - 1) as nat, 256)
        }
    }
}

/// The zones behind entry `k` of the zones `zones` of an inode, which is
/// the root of a tree of pointer blocks with `depth` levels below it.
pub open spec fn indirect_zones(disk: Seq<u8>, zones: Seq<u32>, k: int, depth: nat) -> Seq<u32> {
    if zones[k] != 0 {
        tree_zones(disk, zones[k], depth, 256)
    } else {
        Seq::empty()
    }
}

/// The zones that hold the file of an inode with the zones `zones`, in the
/// order of its bytes: the seven direct zones, then those behind the
/// indirect, the doubly indirect and the triply indirect zone.
pub open spec fn file_zones(disk: Seq<u8>, zones: Seq<u32>) -> Seq<u32> {
    direct_zones(zones, 7) + indirect_zones(disk, zones, 7, 0) + indirect_zones(disk, zones, 8, 1)
        + indirect_zones(disk, zones, 9, 2)
}

/// The blocks of the zones `zones`, one after the other.
pub open spec fn zones_bytes(disk: Seq<u8>, zones: Seq<u32>) -> Seq<u8>
    decreases zones.len(),
{
    if zones.len() == 0 {
        Seq::empty()
    } else {
        zones_bytes(disk, zones.drop_last()) + block(disk, zones.last())
    }
}

/// The bytes of the zones of the file of `inode`.
pub open spec fn file_bytes(disk: Seq<u8>, inode: Inode) -> Seq<u8> {
    zones_bytes(disk, file_zones(disk, inode.zones@))
}

/// The `want` bytes of `all` from the byte `offset` on, as far as there are
/// any.
pub open spec fn portion(all: Seq<u8>, offset: int, want: int) -> Seq<u8> {
    all.subrange(
        if offset < all.len() {
            offset
        } else {
            all.len() as int
        },
        if offset + want < all.len() {
            offset + want
        } else {
            all.len() as int
        },
    )
}

/// Number of bytes that a read of `size` bytes asks of the file of `inode`:
/// no more than the inode says the file has.
pub open spec fn wanted(inode: Inode, size: u32) -> u32 {
    if size > inode.size {
        inode.size
    } else {
        size
    }
}

/// The blocks of a list of zones with one more zone.
pub proof fn lemma_zones_bytes_push(disk: Seq<u8>, zones: Seq<u32>, zone: u32)
    ensures
        zones_bytes(disk, zones.push(zone)) == zones_bytes(disk, zones) + block(disk, zone),
{
    assert(zones.push(zone).drop_last() =~= zones);
}

/// Where a read stands: the bytes it still has to pass over, the bytes it
/// still has to take, and those it has taken.
struct Cursor {
    skip: u32,
    left: u32,
    offset: u32,
    want: u32,
    out: Vec<u8>,
}

impl Cursor {
    /// The read has gone through the bytes `done` of the file.
    spec fn matches(&self, done: Seq<u8>) -> bool {
        &&& self.want > 0
        &&& self.skip == if done.len() < self.offset {
            self.offset - done.len()
        } else {
            0
        }
        &&& self.out@ == portion(done, self.offset as int, self.want as int)
        &&& self.left == self.want - self.out@.len()
    }

    /// Goes through the block of the zone `zone`.
    fn take_block(&mut self, disk: &Vec<u8>, zone: u32, Ghost(done): Ghost<Seq<u8>>)
        requires
            old(self).matches(done),
        ensures
            final(self).matches(done + block(disk@, zone)),
            final(self).offset == old(self).offset,
            final(self).want == old(self).want,
    {
        let ghost b = block(disk@, zone);
        let ghost offset = self.offset as int;
        let ghost want = self.want as int;
        if self.left == 0 {
            proof {
                assert(portion(done + b, offset, want) =~= portion(done, offset, want));
            }
            return ;
        }
        if self.skip >= 1024 {
            self.skip = self.skip - 1024;
            proof {
                assert(portion(done + b, offset, want) =~= portion(done, offset, want));
            }
            return ;
        }
        let room: u32 = 1024 - self.skip;
        let n: u32 = if room > self.left {
            self.left
        } else {
            room
        };
        let bytes = fetch(disk, zone as u64 * 1024 + self.skip as u64, n as usize);
        let ghost before = self.out@;
        let ghost skip = self.skip as int;
        proof {
            assert(bytes@ =~= b.subrange(skip, skip + n));
        }
        let mut k: usize = 0;
        while k < n as usize
            invariant
                k <= n,
                bytes@.len() == n,
                self.out@ == before + bytes@.subrange(0, k as int),
                self.skip == old(self).skip,
                self.left == old(self).left,
                self.offset == old(self).offset,
                self.want == old(self).want,
            decreases n - k,
        {
            self.out.push(bytes[k]);
            proof {
                assert(self.out@ =~= before + bytes@.subrange(0, k + 1));
            }
            k = k + 1;
        }
        self.skip = 0;
        self.left = self.left - n;
        proof {
            assert(bytes@.subrange(0, n as int) =~= bytes@);
            assert(portion(done + b, offset, want) =~= before + b.subrange(skip, skip + n));
        }
    }

    /// Goes through the zones behind the pointer block in `zone`.
    fn walk(&mut self, disk: &Vec<u8>, zone: u32, depth: u8, Ghost(done): Ghost<Seq<u32>>)
        requires
            depth <= 2,
            old(self).matches(zones_bytes(disk@, done)),
        ensures
            final(self).matches(
                zones_bytes(disk@, done + tree_zones(disk@, zone, depth as nat, 256)),
            ),
            final(self).offset == old(self).offset,
            final(self).want == old(self).want,
        decreases depth,
    {
        let ptrs = fetch(disk, zone as u64 * 1024, 1024);
        let mut i: usize = 0;
        proof {
            assert(done + tree_zones(disk@, zone, depth as nat, 0) =~= done);
        }
        while i < 256
            invariant
                i <= 256,
                depth <= 2,
                ptrs@ == block(disk@, zone),
                self.matches(zones_bytes(disk@, done + tree_zones(disk@, zone, depth as nat, i as int))),
                self.offset == old(self).offset,
                self.want == old(self).want,
            decreases 256 - i,
        {
            let ghost so_far = done + tree_zones(disk@, zone, depth as nat, i as int);
            let p = read32(&ptrs, 4 * i);
            if p != 0 {
                if depth == 0 {
                    self.take_block(disk, p, Ghost(zones_bytes(disk@, so_far)));
                    proof {
                        lemma_zones_bytes_push(disk@, so_far, p);
                        assert(so_far.push(p) =~= done + tree_zones(disk@, zone, 0, i + 1));
                    }
                } else {
                    self.walk(disk, p, depth - 1, Ghost(so_far));
                    proof {
                        assert(so_far + tree_zones(disk@, p, (depth - 1) as nat, 256) =~= done
                            + tree_zones(disk@, zone, depth as nat, i + 1));
                    }
                }
            }
            i = i + 1;
        }
    }
}

/// The block of inodes that holds the inode number `n`.
pub open spec fn inode_group(disk: Seq<u8>, n: u32) -> Seq<u8> {
    disk_bytes(disk, inode_block_offset(super_block(disk), n) as int, 1024)
}

/// The zones of the inode number `n`.
pub open spec fn inode_zones(disk: Seq<u8>, n: u32) -> Seq<u32> {
    Seq::new(10, |i: int| le32(inode_group(disk, n), 64 * ((n - 1) % 16) + 24 + 4 * i) as u32)
}

/// The mode of the inode number `n`.
pub open spec fn inode_mode(disk: Seq<u8>, n: u32) -> u16 {
    le16(inode_group(disk, n), 64 * ((n - 1) % 16)) as u16
}

/// The size that the inode number `n` gives for its file.
pub open spec fn inode_size(disk: Seq<u8>, n: u32) -> u32 {
    le32(inode_group(disk, n), 64 * ((n - 1) % 16) + 8) as u32
}

/// What is read of the directory with the inode number `n`: its first
/// block, and no more than the inode says the directory has.
pub open spec fn dir_bytes(disk: Seq<u8>, n: u32) -> Seq<u8> {
    portion(
        zones_bytes(disk, file_zones(disk, inode_zones(disk, n))),
        0,
        if inode_size(disk, n) < 1024 {
            inode_size(disk, n) as int
        } else {
            1024
        },
    )
}

/// The name that stands in the bytes `raw` from the byte `k` on: it ends
/// before the first byte 0, or with the bytes.
pub open spec fn name_of(raw: Seq<u8>, k: int) -> Seq<u8>
    decreases raw.len() - k,
{
    if k < 0 || k >= raw.len() || raw[k] == 0 {
        Seq::empty()
    } else {
        seq![raw[k]] + name_of(raw, k + 1)
    }
}

/// The path of the entry `name` of the directory with the inode number
/// `inode_num` and the path `cwd`. Only the root, which has the number 1,
/// has a path that ends in a slash.
pub open spec fn child_path(cwd: Seq<u8>, inode_num: u32, name: Seq<u8>) -> Seq<u8> {
    if inode_num != 1 {
        cwd + seq![47u8] + name
    } else {
        cwd + name
    }
}

/// The inode number `n` is that of a directory.
pub open spec fn is_dir(disk: Seq<u8>, n: u32) -> bool {
    inode_mode(disk, n) & S_IFDIR != 0
}

/// The paths and inode numbers that are found in the first `upto` entries
/// of the directory with the inode number `inode_num` and the path `cwd`,
/// in the order in which they are found: what lies below an entry comes
/// before the entry itself. The first two entries of a directory, which
/// name the directory and the one above, are passed over, and so is an
/// entry without an inode. No more than `fuel` directories are entered one
/// below the other.
pub open spec fn listed(disk: Seq<u8>, cwd: Seq<u8>, inode_num: u32, fuel: nat, upto: int) -> Seq<
    (Seq<u8>, u32),
>
    decreases fuel, upto,
{
    if upto <= 2 || super_block(disk).magic != MAGIC {
        Seq::empty()
    } else {
        let before = listed(disk, cwd, inode_num, fuel, upto - 1);
        let dir = dir_bytes(disk, inode_num);
        let i = upto - 1;
        let child = le32(dir, 64 * i) as u32;
        if i >= dir.len() / 64 || child == 0 {
            before
        } else {
            let path = child_path(cwd, inode_num, name_of(dir.subrange(64 * i + 4, 64 * i + 64), 0));
            let below = if is_dir(disk, child) && fuel > 0 {
                listed(disk, path, child, (fuel - 1) as nat, 16)
            } else {
                Seq::empty()
            };
            before + below + seq![(path, child)]
        }
    }
}

/// A name that was found on the disk: its path, and its inode with its
/// number.
#[derive(Clone, Debug)]
pub struct Found {
    pub path: Vec<u8>,
    pub num: u32,
    pub inode: Inode,
}

/// The paths and inode numbers of `found`.
pub open spec fn keys(found: Seq<Found>) -> Seq<(Seq<u8>, u32)> {
    Seq::new(found.len(), |k: int| (found[k].path@, found[k].num))
}

/// Every inode of `found` from position `from` on is the one that the disk
/// holds under its number.
pub open spec fn inodes_read(found: Seq<Found>, disk: Seq<u8>, from: int) -> bool {
    forall|k: int|
        from <= k < found.len() ==> (#[trigger] found[k]).num >= 1 && is_inode(
            found[k].inode,
            disk,
            found[k].num,
        )
}

/// Position of the last of the first `n` names of `found` that has the
/// path `path`; with `files_only`, directories do not count.
pub open spec fn find_last(found: Seq<Found>, path: Seq<u8>, files_only: bool, n: int) -> Option<
    int,
>
    decreases n,
{
    if n <= 0 {
        None
    } else if found[n - 1].path@ == path && (!files_only || found[n - 1].inode.mode & S_IFDIR
        == 0) {
        Some(n - 1)
    } else {
        find_last(found, path, files_only, n - 1)
    }
}

/// An inode that was read from the disk under the number `n` has the zones,
/// the mode and the size that the disk holds for this number.
pub proof fn lemma_inode_read(ino: Inode, disk: Seq<u8>, n: u32)
    requires
        n >= 1,
        is_inode(ino, disk, n),
    ensures
        ino.zones@ == inode_zones(disk, n),
        ino.mode == inode_mode(disk, n),
        ino.size == inode_size(disk, n),
{
    assert(ino.zones@ =~= inode_zones(disk, n));
}

/// The bytes `a` and `b` are the same.
pub fn same_bytes(a: &Vec<u8>, b: &Vec<u8>) -> (r: bool)
    ensures
        r == (a@ == b@),
{
    if a.len() != b.len() {
        return false;
    }
    let n = a.len();
    let mut k: usize = 0;
    while k < n
        invariant
            k <= n,
            n == a@.len(),
            n == b@.len(),
            a@.take(k as int) == b@.take(k as int),
        decreases n - k,
    {
        if a[k] != b[k] {
            return false;
        }
        proof {
            assert(a@.take(k + 1) =~= a@.take(k as int).push(a@[k as int]));
            assert(b@.take(k + 1) =~= b@.take(k as int).push(b@[k as int]));
        }
        k = k + 1;
    }
    proof {
        assert(a@.take(n as int) =~= a@);
        assert(b@.take(n as int) =~= b@);
    }
    true
}

/// The path of an entry of a directory; see `child_path`. `raw` holds the
/// sixty bytes of the name.
fn path_of(cwd: &Vec<u8>, inode_num: u32, raw: &Vec<u8>) -> (path: Vec<u8>)
    ensures
        path@ == child_path(cwd@, inode_num, name_of(raw@, 0)),
{
    let mut path: Vec<u8> = Vec::new();
    let total = cwd.len();
    let mut k: usize = 0;
    while k < total
        invariant
            k <= total,
            total == cwd@.len(),
            path@ == cwd@.take(k as int),
        decreases total - k,
    {
        path.push(cwd[k]);
        proof {
            assert(path@ =~= cwd@.take(k + 1));
        }
        k = k + 1;
    }
    proof {
        assert(cwd@.take(total as int) =~= cwd@);
    }
    if inode_num != 1 {
        path.push(47);
    }
    let ghost base = path@;
    let len = raw.len();
    let mut j: usize = 0;
    let mut stop = false;
    proof {
        assert(base + name_of(raw@, 0) =~= path@ + name_of(raw@, 0));
    }
    while j < len && !stop
        invariant
            j <= len,
            len == raw@.len(),
            base + name_of(raw@, 0) == path@ + name_of(raw@, j as int),
            stop ==> name_of(raw@, j as int) == Seq::<u8>::empty(),
        decreases len - j, !stop as int,
    {
        if raw[j] == 0 {
            stop = true;
        } else {
            let ghost before = path@;
            path.push(raw[j]);
            proof {
                assert(before + (seq![raw@[j as int]] + name_of(raw@, j + 1)) =~= path@ + name_of(
                    raw@,
                    j + 1,
                ));
            }
            j = j + 1;
        }
    }
    proof {
        assert(path@ + name_of(raw@, j as int) =~= path@);
        assert(cwd@ + seq![47u8] + name_of(raw@, 0) =~= (cwd@ + seq![47u8]) + name_of(raw@, 0));
    }
    path
}

/// The `n` bytes of `bytes` from the byte `at` on.
fn slice_of(bytes: &Vec<u8>, at: usize, n: usize) -> (r: Vec<u8>)
    requires
        at + n <= bytes@.len(),
    ensures
        r@ == bytes@.subrange(at as int, at + n),
{
    let total = bytes.len();
    let mut r: Vec<u8> = Vec::new();
    let mut k: usize = 0;
    while k < n
        invariant
            k <= n,
            at + n <= bytes@.len(),
            total == bytes@.len(),
            r@ == bytes@.subrange(at as int, at + k),
        decreases n - k,
    {
        r.push(bytes[at + k]);
        proof {
            assert(r@ =~= bytes@.subrange(at as int, at + k + 1));
        }
        k = k + 1;
    }
    r
}

/// The file system on a block device.
#[derive(Clone, Copy, Debug, PartialEq, Eq, Structural)]
pub struct MinixFileSystem;

impl MinixFileSystem {
    /// The inode with the number `inode_num` of the file system on `disk`,
    /// if the super block of the disk carries the magic number of the file
    /// system. Inodes are counted from 1.
    pub fn get_inode(disk: &Vec<u8>, inode_num: u32) -> (r: Option<Inode>)
        requires
            inode_num >= 1,
        ensures
            r is Some == (super_block(disk@).magic == MAGIC),
            r is Some ==> is_inode(r->0, disk@, inode_num),
    {
        let first = fetch(disk, SUPER_BLOCK_OFFSET, 512);
        let sb = read_super_block(&first);
        if sb.magic == MAGIC {
            let maps: u64 = 2 + sb.imap_blocks as u64 + sb.zmap_blocks as u64;
            let group: u64 = ((inode_num - 1) / 16) as u64;
            let at = low32(maps * 1024 + group * 1024);
            let inodes = fetch(disk, at as u64, 1024);
            let which: usize = ((inode_num - 1) % 16) as usize;
            Some(read_inode(&inodes, which * INODE_SIZE))
        } else {
            None
        }
    }

    /// Lists what lies in and below the directory with the inode number
    /// `inode_num` and the path `cwd`; see `listed`. What is found is put
    /// behind what `out` holds.
    pub fn cache_at(disk: &Vec<u8>, cwd: &Vec<u8>, inode_num: u32, fuel: u32, out: &mut Vec<Found>)
        requires
            inode_num >= 1,
        ensures
            final(out)@.len() >= old(out)@.len(),
            final(out)@.take(old(out)@.len() as int) == old(out)@,
            keys(final(out)@) == keys(old(out)@) + listed(
                disk@,
                cwd@,
                inode_num,
                fuel as nat,
                16,
            ),
            inodes_read(final(out)@, disk@, old(out)@.len() as int),
        decreases fuel,
    {
        let ghost start = out@;
        proof {
            assert(out@.take(start.len() as int) =~= start);
            assert(keys(out@) + listed(disk@, cwd@, inode_num, fuel as nat, 2) =~= keys(start));
        }
        let ino = match Self::get_inode(disk, inode_num) {
            Some(ino) => ino,
            None => {
                proof {
                    assert(keys(start) + listed(disk@, cwd@, inode_num, fuel as nat, 16) =~= keys(
                        start,
                    ));
                }
                return ;
            },
        };
        proof {
            lemma_inode_read(ino, disk@, inode_num);
        }
        let dir = Self::read(disk, &ino, BLOCK_SIZE, 0);
        let count = dir.len() / 64;
        let mut i: usize = 2;
        while i < 16
            invariant
                2 <= i <= 16,
                inode_num >= 1,
                super_block(disk@).magic == MAGIC,
                dir@ == dir_bytes(disk@, inode_num),
                count == dir@.len() / 64,
                out@.len() >= start.len(),
                out@.take(start.len() as int) == start,
                keys(out@) == keys(start) + listed(disk@, cwd@, inode_num, fuel as nat, i as int),
                inodes_read(out@, disk@, start.len() as int),
            decreases 16 - i,
        {
            if i < count {
                let child = read32(&dir, 64 * i);
                if child != 0 {
                    let raw = slice_of(&dir, 64 * i + 4, 60);
                    let path = path_of(cwd, inode_num, &raw);
                    match Self::get_inode(disk, child) {
                        Some(d_ino) => {
                            proof {
                                lemma_inode_read(d_ino, disk@, child);
                            }
                            let ghost before = out@;
                            if d_ino.mode & S_IFDIR != 0 && fuel > 0 {
                                Self::cache_at(disk, &path, child, fuel - 1, out);
                            }
                            let ghost below = out@;
                            out.push(Found { path, num: child, inode: d_ino });
                            proof {
                                assert(out@.take(start.len() as int) =~= below.take(
                                    start.len() as int,
                                ));
                                assert(below.take(start.len() as int) =~= before.take(
                                    start.len() as int,
                                )) by {
                                    assert(below.take(before.len() as int) == before);
                                    assert(below.take(before.len() as int).take(
                                        start.len() as int,
                                    ) =~= below.take(start.len() as int));
                                }
                                assert(keys(out@) =~= keys(below) + seq![(path@, child)]);
                                assert(keys(out@) =~= keys(start) + listed(
                                    disk@,
                                    cwd@,
                                    inode_num,
                                    fuel as nat,
                                    i + 1,
                                ));
                                assert forall|k: int| start.len() <= k < out@.len() implies (
                                #[trigger] out@[k]).num >= 1 && is_inode(
                                    out@[k].inode,
                                    disk@,
                                    out@[k].num,
                                ) by {
                                    if k < before.len() {
                                        assert(below.take(before.len() as int)[k] == before[k]);
                                    }
                                }
                            }
                        },
                        None => {},
                    }
                }
            }
            i = i + 1;
        }
    }

    /// Lists the files of the disk by their paths, from the root on; see
    /// `listed`. Directories are entered as deep as the disk has inodes.
    pub fn init(disk: &Vec<u8>) -> (found: Vec<Found>)
        ensures
            keys(found@) == listed(
                disk@,
                seq![47u8],
                1,
                super_block(disk@).ninodes as nat,
                16,
            ),
            inodes_read(found@, disk@, 0),
    {
        let first = fetch(disk, SUPER_BLOCK_OFFSET, 512);
        let sb = read_super_block(&first);
        let mut cwd: Vec<u8> = Vec::new();
        cwd.push(47);
        let mut found: Vec<Found> = Vec::new();
        proof {
            assert(cwd@ =~= seq![47u8]);
        }
        Self::cache_at(disk, &cwd, 1, sb.ninodes, &mut found);
        proof {
            assert(keys(Seq::<Found>::empty()) + listed(
                disk@,
                seq![47u8],
                1,
                sb.ninodes as nat,
                16,
            ) =~= listed(disk@, seq![47u8], 1, sb.ninodes as nat, 16));
        }
        found
    }

    /// The inode of the file that was found last under the path `path`.
    pub fn open(found: &Vec<Found>, path: &Vec<u8>) -> (r: Result<Inode, FsError>)
        ensures
            match find_last(found@, path@, true, found@.len() as int) {
                Some(k) => r == Ok::<Inode, FsError>(found@[k].inode),
                None => r == Err::<Inode, FsError>(FsError::FileNotFound),
            },
    {
        let mut n: usize = found.len();
        while n > 0
            invariant
                n <= found@.len(),
                find_last(found@, path@, true, found@.len() as int) == find_last(
                    found@,
                    path@,
                    true,
                    n as int,
                ),
            decreases n,
        {
            if same_bytes(&found[n - 1].path, path) && found[n - 1].inode.mode & S_IFDIR == 0 {
                return Ok(found[n - 1].inode);
            }
            n = n - 1;
        }
        Err(FsError::FileNotFound)
    }

    /// The bytes of the file that was found last under the path `path`, as
    /// many as its inode says it has; `None` where no file was found under
    /// the path.
    pub fn read_file(found: &Vec<Found>, disk: &Vec<u8>, path: &Vec<u8>) -> (r: Option<Vec<u8>>)
        ensures
            match find_last(found@, path@, true, found@.len() as int) {
                Some(k) => r is Some && r->0@ == portion(
                    file_bytes(disk@, found@[k].inode),
                    0,
                    found@[k].inode.size as int,
                ),
                None => r is None,
            },
    {
        match Self::open(found, path) {
            Ok(inode) => Some(Self::read(disk, &inode, inode.size, 0)),
            Err(_) => None,
        }
    }

    /// Reads the file of `inode` from the byte `offset` on: `size` bytes,
    /// but no more than the inode says the file has, and no more than its
    /// zones hold behind `offset`.
    pub fn read(disk: &Vec<u8>, inode: &Inode, size: u32, offset: u32) -> (r: Vec<u8>)
        ensures
            r@ == portion(file_bytes(disk@, *inode), offset as int, wanted(*inode, size) as int),
    {
        let want: u32 = if size > inode.size {
            inode.size
        } else {
            size
        };
        if want == 0 {
            let r: Vec<u8> = Vec::new();
            proof {
                assert(r@ =~= portion(file_bytes(disk@, *inode), offset as int, 0));
            }
            return r;
        }
        let mut cur = Cursor { skip: offset, left: want, offset, want, out: Vec::new() };
        proof {
            let nothing = zones_bytes(disk@, direct_zones(inode.zones@, 0));
            assert(cur.out@ =~= portion(nothing, offset as int, want as int));
        }
        let mut i: usize = 0;
        while i < 7
            invariant
                i <= 7,
                cur.matches(zones_bytes(disk@, direct_zones(inode.zones@, i as int))),
                cur.offset == offset,
                cur.want == want,
            decreases 7 - i,
        {
            let zone = inode.zones[i];
            if zone != 0 {
                let ghost so_far = direct_zones(inode.zones@, i as int);
                cur.take_block(disk, zone, Ghost(zones_bytes(disk@, so_far)));
                proof {
                    lemma_zones_bytes_push(disk@, so_far, zone);
                }
            }
            i = i + 1;
        }
        let ghost direct = direct_zones(inode.zones@, 7);
        let ghost one = indirect_zones(disk@, inode.zones@, 7, 0);
        let ghost two = indirect_zones(disk@, inode.zones@, 8, 1);
        let ghost three = indirect_zones(disk@, inode.zones@, 9, 2);
        if inode.zones[7] != 0 {
            cur.walk(disk, inode.zones[7], 0, Ghost(direct));
        }
        proof {
            assert(direct + one =~= if inode.zones@[7] != 0 {
                direct + tree_zones(disk@, inode.zones@[7], 0, 256)
            } else {
                direct
            });
        }
        if inode.zones[8] != 0 {
            cur.walk(disk, inode.zones[8], 1, Ghost(direct + one));
        }
        proof {
            assert(direct + one + two =~= if inode.zones@[8] != 0 {
                direct + one + tree_zones(disk@, inode.zones@[8], 1, 256)
            } else {
                direct + one
            });
        }
        if inode.zones[9] != 0 {
            cur.walk(disk, inode.zones[9], 2, Ghost(direct + one + two));
        }
        proof {
            assert(direct + one + two + three =~= if inode.zones@[9] != 0 {
                direct + one + two + tree_zones(disk@, inode.zones@[9], 2, 256)
            } else {
                direct + one + two
            });
        }
        cur.out
    }

    /// The file system is read-only: nothing is written, and the number of
    /// bytes written is zero.
    pub fn write(&mut self, _desc: &Inode, _buffer: u64, _offset: u32, _size: u32) -> (written: u32)
        ensures
            written == 0,
    {
        0
    }

    /// Mode, size and owner of the file behind `inode`.
    pub fn stat(&self, inode: &Inode) -> (s: Stat)
        ensures
            s == (Stat { mode: inode.mode, size: inode.size, uid: inode.uid, gid: inode.gid }),
    {
        Stat { mode: inode.mode, size: inode.size, uid: inode.uid, gid: inode.gid }
    }
}

/// What a kernel process that reads a file for another process is handed:
/// who waits, and what to read.
#[derive(Clone, Copy, Debug, PartialEq, Eq, Structural)]
pub struct ProcArgs {
    pub pid: u16,
    pub dev: u64,
    pub buffer: u64,
    pub size: u32,
    pub offset: u32,
    pub node: u32,
}

/// What a read of `size` bytes from the byte `offset` on finds in the file
/// of the inode number `node`; nothing on a disk without the magic number
/// of the file system.
pub open spec fn node_bytes(disk: Seq<u8>, node: u32, size: u32, offset: u32) -> Seq<u8> {
    if super_block(disk).magic == MAGIC {
        portion(
            zones_bytes(disk, file_zones(disk, inode_zones(disk, node))),
            offset as int,
            if size > inode_size(disk, node) {
                inode_size(disk, node) as int
            } else {
                size as int
            },
        )
    } else {
        Seq::empty()
    }
}

/// What the kernel process does that reads a file for the process
/// `args.pid`: the bytes are read from the disk and stored at
/// `args.buffer`, if they all have room in the memory of `alloc`; then the
/// process that waits is made runnable, with the number of bytes that were
/// read in its return register.
pub fn read_proc(
    table: &mut ProcessTable,
    alloc: &mut PageAllocator,
    disk: &Vec<u8>,
    args: &ProcArgs,
) -> (woken: bool)
    requires
        old(table).wf(),
        old(alloc).wf(),
        args.node >= 1,
    ensures
        final(table).wf(),
        final(table).same_frame(*old(table)),
        final(alloc).wf(),
        final(alloc).start() == old(alloc).start(),
        final(alloc).pages() == old(alloc).pages(),
        ({
            let bytes = node_bytes(disk@, args.node, args.size, args.offset);
            let i = pid_index(old(table).procs(), args.pid);
            let p = old(table).procs()[i];
            &&& final(alloc).memory() == if old(alloc).start() <= args.buffer && args.buffer
                + bytes.len() <= old(alloc).end() {
                written(old(alloc).memory(), args.buffer - old(alloc).start(), bytes)
            } else {
                old(alloc).memory()
            }
            &&& woken == (args.pid > 0 && has_pid(old(table).procs(), args.pid))
            &&& !woken ==> final(table).procs() == old(table).procs()
            &&& woken ==> {
                &&& final(table).procs().len() == old(table).procs().len()
                &&& forall|j: int|
                    0 <= j < old(table).procs().len() && j != i ==> old(table).procs()[j]
                        == #[trigger] final(table).procs()[j]
                &&& final(table).procs()[i].with_frame(
                    Process { state: ProcessState::Running, ..p },
                    crate::cpu::FrameView {
                        regs: p.frame@.regs.update(10, bytes.len() as u64),
                        ..p.frame@
                    },
                )
            }
        }),
{
    let bytes = match MinixFileSystem::get_inode(disk, args.node) {
        Some(inode) => {
            proof {
                lemma_inode_read(inode, disk@, args.node);
            }
            MinixFileSystem::read(disk, &inode, args.size, args.offset)
        },
        None => Vec::new(),
    };
    proof {
        assert(bytes@ =~= node_bytes(disk@, args.node, args.size, args.offset));
    }
    let _ = alloc.store(args.buffer, &bytes);
    let count = bytes.len();
    wake(table, args.pid, count as u64)
}

} // verus!
