//! The name space of files and devices: the names that were found on a
//! disk, and the devices that were added, by their paths.

use crate::fs::{is_inode, listed, same_bytes, super_block, Found, FsError, Inode, MinixFileSystem};
use crate::lock::Mutex;
use vstd::prelude::*;

verus! {

/// What a name stands for.
#[derive(Clone, Copy, Debug)]
pub enum EntryType {
    File(Inode),
    Block,
    Char,
    Fifo,
    Socket,
    Gpu,
}

/// A name that was looked up: the device it lives on, and what it is.
#[derive(Clone, Copy, Debug)]
pub struct Entry {
    pub dev: u64,
    pub node: EntryType,
}

/// A path and what it stands for.
#[derive(Clone, Debug)]
pub struct Named {
    pub path: Vec<u8>,
    pub entry: Entry,
}

/// The names of the system behind their lock. There are none before `init`
/// has run.
pub struct Vfs {
    pub lock: Mutex,
    pub cache: Option<Vec<Named>>,
}

/// The path under which a display is found.
pub open spec fn gpu_path() -> Seq<u8> {
    seq![47u8, 100u8, 101u8, 118u8, 47u8, 103u8, 112u8, 117u8]
}

/// Position of the last of the first `n` names of `names` with the path
/// `path`.
pub open spec fn last_named(names: Seq<Named>, path: Seq<u8>, n: int) -> Option<int>
    decreases n,
{
    if n <= 0 {
        None
    } else if names[n - 1].path@ == path {
        Some(n - 1)
    } else {
        last_named(names, path, n - 1)
    }
}

/// The names `after` are the names `before` and, behind them, the files
/// with the paths and inode numbers `files` on the disk `disk`, which is the
/// device `dev`.
pub open spec fn files_added(
    before: Seq<Named>,
    after: Seq<Named>,
    files: Seq<(Seq<u8>, u32)>,
    disk: Seq<u8>,
    dev: u64,
) -> bool {
    &&& after.len() == before.len() + files.len()
    &&& after.take(before.len() as int) == before
    &&& forall|k: int|
        0 <= k < files.len() ==> {
            let named = #[trigger] after[before.len() + k];
            &&& named.path@ == files[k].0
            &&& named.entry.dev == dev
            &&& named.entry.node matches EntryType::File(ino)
            &&& is_inode(ino, disk, files[k].1)
        }
}

impl Vfs {
    /// The names that the system knows.
    pub open spec fn names(&self) -> Seq<Named> {
        match self.cache {
            Some(names) => names@,
            None => Seq::empty(),
        }
    }

    /// A name space without names, unlocked.
    pub fn new() -> (v: Vfs)
        ensures
            !v.lock.locked(),
            v.cache is None,
    {
        Vfs { lock: Mutex::new(), cache: None }
    }
}

/// Adds the names of the disk `disk`, which is the device `bdev`, to the
/// names of the system: every file and every directory from the root on,
/// as `listed` finds them.
pub fn init(vfs: &mut Vfs, disk: &Vec<u8>, bdev: u64)
    requires
        !old(vfs).lock.locked(),
    ensures
        !final(vfs).lock.locked(),
        final(vfs).cache is Some,
        files_added(
            old(vfs).names(),
            final(vfs).names(),
            listed(disk@, seq![47u8], 1, super_block(disk@).ninodes as nat, 16),
            disk@,
            bdev,
        ),
{
    vfs.lock.spin_lock();
    let found = MinixFileSystem::init(disk);
    let mut names: Vec<Named> = match vfs.cache.take() {
        Some(names) => names,
        None => Vec::new(),
    };
    let ghost before = names@;
    let ghost files = listed(disk@, seq![47u8], 1, super_block(disk@).ninodes as nat, 16);
    let count = found.len();
    let mut k: usize = 0;
    proof {
        assert(crate::fs::keys(found@).len() == found@.len());
        assert(names@.take(before.len() as int) =~= before);
    }
    while k < count
        invariant
            k <= count,
            count == found@.len(),
            crate::fs::keys(found@) == files,
            crate::fs::inodes_read(found@, disk@, 0),
            files_added(before, names@, files.take(k as int), disk@, bdev),
        decreases count - k,
    {
        let f = &found[k];
        let ghost so_far = names@;
        let mut path: Vec<u8> = Vec::new();
        let total = f.path.len();
        let mut j: usize = 0;
        while j < total
            invariant
                j <= total,
                total == f.path@.len(),
                path@ == f.path@.take(j as int),
            decreases total - j,
        {
            path.push(f.path[j]);
            proof {
                assert(path@ =~= f.path@.take(j + 1));
            }
            j = j + 1;
        }
        proof {
            assert(f.path@.take(total as int) =~= f.path@);
        }
        names.push(Named { path, entry: Entry { dev: bdev, node: EntryType::File(f.inode) } });
        proof {
            assert(names@.take(before.len() as int) =~= so_far.take(before.len() as int));
            assert(crate::fs::keys(found@)[k as int] == (found@[k as int].path@, found@[k as int].num));
            assert forall|i: int| 0 <= i < k + 1 implies {
                let named = #[trigger] names@[before.len() + i];
                &&& named.path@ == files.take(k + 1)[i].0
                &&& named.entry.dev == bdev
                &&& named.entry.node matches EntryType::File(ino)
                &&& is_inode(ino, disk@, files.take(k + 1)[i].1)
            } by {
                if i < k {
                    assert(names@[before.len() + i] == so_far[before.len() + i]);
                    assert(files.take(k + 1)[i] == files.take(k as int)[i]);
                }
            }
        }
        k = k + 1;
    }
    proof {
        assert(files.take(count as int) =~= files);
    }
    vfs.cache = Some(names);
    vfs.lock.unlock();
}

/// As `init`; this is what a process runs to read the names of a disk.
pub fn init_proc(vfs: &mut Vfs, disk: &Vec<u8>, dev: u64)
    requires
        !old(vfs).lock.locked(),
    ensures
        !final(vfs).lock.locked(),
        final(vfs).cache is Some,
        files_added(
            old(vfs).names(),
            final(vfs).names(),
            listed(disk@, seq![47u8], 1, super_block(disk@).ninodes as nat, 16),
            disk@,
            dev,
        ),
{
    init(vfs, disk, dev);
}

/// Looks the path `path` up among the names of the system. The look-up
/// does not wait for the lock: while it is held the answer is `Busy`.
/// Before `init` has run the answer is `Unavailable`. Else it is what was
/// added last under the path, or `FileNotFound`.
pub fn open(vfs: &mut Vfs, path: &Vec<u8>) -> (r: Result<Entry, FsError>)
    ensures
        final(vfs).lock.locked() == old(vfs).lock.locked(),
        final(vfs).cache == old(vfs).cache,
        r == if old(vfs).lock.locked() {
            Err::<Entry, FsError>(FsError::Busy)
        } else if old(vfs).cache is None {
            Err::<Entry, FsError>(FsError::Unavailable)
        } else {
            match last_named(old(vfs).names(), path@, old(vfs).names().len() as int) {
                Some(k) => Ok::<Entry, FsError>(old(vfs).names()[k].entry),
                None => Err::<Entry, FsError>(FsError::FileNotFound),
            }
        },
{
    if !vfs.lock.try_lock() {
        return Err(FsError::Busy);
    }
    let r = match &vfs.cache {
        Some(names) => {
            let mut n: usize = names.len();
            let mut hit: Option<Entry> = None;
            while n > 0 && hit.is_none()
                invariant
                    n <= names@.len(),
                    match hit {
                        Some(e) => last_named(names@, path@, names@.len() as int) == Some(
                            n as int,
                        ) && e == names@[n as int].entry,
                        None => last_named(names@, path@, names@.len() as int) == last_named(
                            names@,
                            path@,
                            n as int,
                        ),
                    },
                decreases n,
            {
                n = n - 1;
                if same_bytes(&names[n].path, path) {
                    hit = Some(names[n].entry);
                }
            }
            match hit {
                Some(e) => Ok(e),
                None => Err(FsError::FileNotFound),
            }
        },
        None => Err(FsError::Unavailable),
    };
    vfs.lock.unlock();
    r
}

/// Adds the display `dev` to the names of the system, under the path of
/// displays. Nothing is added while the lock is held, nor before `init` has
/// run.
pub fn add_gpu(vfs: &mut Vfs, dev: u64)
    ensures
        final(vfs).lock.locked() == old(vfs).lock.locked(),
        final(vfs).cache is Some == old(vfs).cache is Some,
        old(vfs).lock.locked() || old(vfs).cache is None ==> final(vfs).names() == old(
            vfs,
        ).names(),
        !old(vfs).lock.locked() && old(vfs).cache is Some ==> {
            let after = final(vfs).names();
            &&& after.len() == old(vfs).names().len() + 1
            &&& after.take(old(vfs).names().len() as int) == old(vfs).names()
            &&& after.last().path@ == gpu_path()
            &&& after.last().entry == (Entry { dev, node: EntryType::Gpu })
        },
{
    if !vfs.lock.try_lock() {
        return ;
    }
    match vfs.cache.take() {
        Some(mut names) => {
            let ghost before = names@;
            let mut path: Vec<u8> = Vec::new();
            path.push(47);
            path.push(100);
            path.push(101);
            path.push(118);
            path.push(47);
            path.push(103);
            path.push(112);
            path.push(117);
            proof {
                assert(path@ =~= gpu_path());
            }
            names.push(Named { path, entry: Entry { dev, node: EntryType::Gpu } });
            proof {
                assert(names@.take(before.len() as int) =~= before);
            }
            vfs.cache = Some(names);
        },
        None => {},
    }
    vfs.lock.unlock();
}

} // verus!
