//! A read-only ext2 file system on a block device.

use vstd::prelude::*;
use vstd::string::StringSliceAdditionalSpecFns;
use vstd::utf8::encode_utf8;

use super::cache::{CacheValue, LruCache};
use super::device::{blocks, read_blocks, BlockDevice};
use super::ondisk::{
    is_inode_at, lemma_inode_at_unique, GroupDesc, Inode, EXT2_S_IFDIR, EXT2_S_IFLNK, EXT2_S_IFMT,
    EXT2_S_IFREG,
};
use crate::vfs::{FileAttr, FileType};
use super::ondisk::{
    le_u16, le_u32, parse_group_desc, parse_inode, parse_superblock, read_u32, spec_group_desc,
    spec_superblock, Superblock, EXT2_MAGIC, EXT2_SUPERBLOCK_OFFSET, GROUP_DESC_SIZE, SUPERBLOCK_SIZE,
};
use crate::bytes::{copy_into, copy_range, fill_zero, zeroed};
use crate::vfs::{dir_items, DirEntry, VfsError};
use super::dir::{entry_in_directory, first_named, law_lookup_agrees_with_listing, find_name, list_entries, list_from};

verus! {

/// Values held at most by the block cache.
pub const BLOCK_CACHE_MAX: usize = 512;

/// Most bytes that a directory or whole file read at once may hold.
pub const MAX_DIR_DATA_SIZE: usize = 16 * 1024 * 1024;

/// Values held at most by the inode cache.
pub const INODE_CACHE_MAX: usize = 256;

/// `n` zero bytes.
pub open spec fn zeros(n: int) -> Seq<u8> {
    Seq::new(n as nat, |i: int| 0u8)
}

/// File-system block `n` of a file system with `block_size`-byte blocks on
/// `dev`: the device blocks that it spans, then zeros up to `block_size`
/// where the device block size does not divide it.
pub open spec fn fs_block<D: BlockDevice>(dev: &D, block_size: nat, n: int) -> Seq<u8> {
    let k = block_size / dev.spec_block_size();
    blocks(dev, n * k, k) + zeros(block_size - k * dev.spec_block_size())
}

/// Bytes that hold an inode record, and where in them it starts.
pub struct InodeSource {
    pub bytes: Seq<u8>,
    pub offset: int,
}

/// The kind of file that an inode mode gives (anything unknown counts as a
/// regular file).
pub open spec fn file_type_of_mode(mode: u16) -> FileType {
    let t = mode & EXT2_S_IFMT;
    if t == EXT2_S_IFREG {
        FileType::RegularFile
    } else if t == EXT2_S_IFDIR {
        FileType::Directory
    } else if t == EXT2_S_IFLNK {
        FileType::SymbolicLink
    } else {
        FileType::RegularFile
    }
}

/// The attributes that an inode gives.
pub open spec fn attr_of(i: Inode) -> FileAttr {
    FileAttr {
        file_type: file_type_of_mode(i.i_mode),
        size: i.i_size as u64,
        blocks: i.i_blocks as u64,
        atime: i.i_atime as u64,
        mtime: i.i_mtime as u64,
        ctime: i.i_ctime as u64,
        mode: i.i_mode,
        uid: i.i_uid as u32,
        gid: i.i_gid as u32,
        nlink: i.i_links_count as u32,
    }
}

/// What stat reports of an inode is read from its on-disk record at `off`,
/// field by field as ext2 lays it out: the mode from bytes 0..2, the owner
/// from 2..4, the size from 4..8, the access, change and modification
/// times from 8..12, 12..16 and 16..20, the group from 24..26, the link
/// count from 26..28 and the sector count from 28..32.
pub proof fn law_stat_reads_the_record(b: Seq<u8>, off: int, i: Inode)
    requires
        is_inode_at(b, off, i),
    ensures
        attr_of(i).mode == le_u16(b, off),
        attr_of(i).uid == le_u16(b, off + 2) as u32,
        attr_of(i).size == le_u32(b, off + 4) as u64,
        attr_of(i).atime == le_u32(b, off + 8) as u64,
        attr_of(i).ctime == le_u32(b, off + 12) as u64,
        attr_of(i).mtime == le_u32(b, off + 16) as u64,
        attr_of(i).gid == le_u16(b, off + 24) as u32,
        attr_of(i).nlink == le_u16(b, off + 26) as u32,
        attr_of(i).blocks == le_u32(b, off + 28) as u64,
        le_u16(b, off) & 0xF000u16 == 0x4000u16 ==> attr_of(i).file_type == FileType::Directory,
        le_u16(b, off) & 0xF000u16 == 0xA000u16 ==> attr_of(i).file_type == FileType::SymbolicLink,
        le_u16(b, off) & 0xF000u16 != 0x4000u16 && le_u16(b, off) & 0xF000u16 != 0xA000u16
            ==> attr_of(i).file_type == FileType::RegularFile,
{
}

/// The superblock as `dev` stores it: 1024 bytes into the disk, in the one
/// device block that holds that byte.
pub open spec fn superblock_of<D: BlockDevice>(dev: &D) -> Superblock {
    let bs = dev.spec_block_size();
    spec_superblock(dev.spec_block((1024nat / bs) as u64), (1024nat % bs) as int)
}

/// Number of block groups: the blocks, rounded up to whole groups.
pub open spec fn group_count(sb: Superblock) -> int {
    (sb.s_blocks_count + sb.s_blocks_per_group - 1) / (sb.s_blocks_per_group as int)
}

/// The superblock describes a file system this driver can read.
pub open spec fn superblock_valid(sb: Superblock) -> bool {
    &&& sb.s_magic == EXT2_MAGIC
    &&& sb.s_log_block_size <= 2
    &&& sb.s_blocks_per_group > 0
    &&& sb.s_inodes_per_group > 0
    &&& sb.s_blocks_count > 0
    &&& !(sb.s_rev_level >= 1 && sb.s_inode_size == 0)
    &&& 1 <= group_count(sb) <= 65536
}

/// `Ok` for a regular file; `IsDirectory` for any other kind of inode.
pub fn regular_file_check(i: &Inode) -> (r: Result<(), VfsError>)
    ensures
        r == if i.i_mode & EXT2_S_IFMT == EXT2_S_IFREG {
            Ok::<(), VfsError>(())
        } else {
            Err::<(), VfsError>(VfsError::IsDirectory)
        },
{
    if i.i_mode & EXT2_S_IFMT != EXT2_S_IFREG {
        Err(VfsError::IsDirectory)
    } else {
        Ok(())
    }
}

/// `Ok` for a directory; `NotDirectory` for any other kind of inode.
pub fn directory_check(i: &Inode) -> (r: Result<(), VfsError>)
    ensures
        r == if i.i_mode & EXT2_S_IFMT == EXT2_S_IFDIR {
            Ok::<(), VfsError>(())
        } else {
            Err::<(), VfsError>(VfsError::NotDirectory)
        },
{
    if i.i_mode & EXT2_S_IFMT != EXT2_S_IFDIR {
        Err(VfsError::NotDirectory)
    } else {
        Ok(())
    }
}

/// Where the superblock lies on a device of `bs`-byte blocks: the block
/// that holds byte 1024, and the offset of that byte in it.
pub fn superblock_location(bs: usize) -> (r: (u64, usize))
    requires
        bs > 0,
    ensures
        r.0 == 1024nat / (bs as nat),
        r.1 == 1024nat % (bs as nat),
        r.1 <= 1024,
{
    proof {
        let d = bs as int;
        assert(1024int % d <= 1024) by (nonlinear_arith)
            requires
                d > 0,
        ;
    }
    (EXT2_SUPERBLOCK_OFFSET / bs as u64, (EXT2_SUPERBLOCK_OFFSET % bs as u64) as usize)
}

/// The layout that a valid superblock gives.
#[derive(Debug, Clone, Copy)]
pub struct Geometry {
    pub block_size: usize,
    pub inode_size: usize,
    pub num_groups: usize,
}

/// Checks a superblock: `InvalidArgument` for one that this driver cannot
/// read, else the block size, inode record size and number of groups.
pub fn check_superblock(sb: &Superblock) -> (r: Result<Geometry, VfsError>)
    ensures
        !superblock_valid(*sb) ==> r == Err::<Geometry, VfsError>(VfsError::InvalidArgument),
        superblock_valid(*sb) ==> r is Ok && r->Ok_0.block_size == block_size_of(*sb)
            && r->Ok_0.inode_size == inode_size_of(*sb) && r->Ok_0.num_groups == group_count(*sb),
{
    if sb.s_magic != EXT2_MAGIC || sb.s_log_block_size > 2 || sb.s_blocks_per_group == 0
        || sb.s_inodes_per_group == 0 || sb.s_blocks_count == 0 || (sb.s_rev_level >= 1
        && sb.s_inode_size == 0) {
        return Err(VfsError::InvalidArgument);
    }
    let block_size: usize = if sb.s_log_block_size == 0 {
        1024
    } else if sb.s_log_block_size == 1 {
        2048
    } else {
        4096
    };
    let inode_size: usize = if sb.s_rev_level >= 1 {
        sb.s_inode_size as usize
    } else {
        128
    };
    let num_groups_wide = (sb.s_blocks_count as u64 + sb.s_blocks_per_group as u64 - 1)
        / sb.s_blocks_per_group as u64;
    if num_groups_wide == 0 || num_groups_wide > 65536 {
        return Err(VfsError::InvalidArgument);
    }
    Ok(Geometry { block_size, inode_size, num_groups: num_groups_wide as usize })
}

/// Block size: 1024 shifted left by the logarithm in the superblock.
pub open spec fn block_size_of(sb: Superblock) -> nat {
    if sb.s_log_block_size == 0 {
        1024
    } else if sb.s_log_block_size == 1 {
        2048
    } else {
        4096
    }
}

/// Inode record size: from the superblock from revision 1 on, else 128.
pub open spec fn inode_size_of(sb: Superblock) -> nat {
    if sb.s_rev_level >= 1 {
        sb.s_inode_size as nat
    } else {
        128
    }
}

/// The block of the group descriptor table: right after the superblock.
pub open spec fn gdt_start(block_size: nat) -> int {
    if block_size == 1024 {
        2
    } else {
        1
    }
}

/// File-system blocks `start .. start + count`, one after another.
pub open spec fn fs_blocks<D: BlockDevice>(dev: &D, block_size: nat, start: int, count: nat) -> Seq<u8>
    decreases count,
{
    if count == 0 {
        Seq::empty()
    } else {
        fs_blocks(dev, block_size, start, (count - 1) as nat) + fs_block(
            dev,
            block_size,
            start + count - 1,
        )
    }
}

/// The group descriptors that `dev` stores for superblock `sb`.
pub open spec fn groups_of<D: BlockDevice>(dev: &D, sb: Superblock) -> Seq<GroupDesc> {
    let bs = block_size_of(sb);
    let n = group_count(sb);
    let nblocks = (n * 32 + bs - 1) / (bs as int);
    let table = fs_blocks(dev, bs, gdt_start(bs), nblocks as nat);
    Seq::new(n as nat, |i: int| spec_group_desc(table, i * 32))
}

/// Reads file-system block `n` of `dev`, with `block_size`-byte blocks.
fn load_block<D: BlockDevice>(dev: &D, block_size: usize, n: u32) -> (r: Result<Vec<u8>, VfsError>)
    requires
        dev.spec_block_size() > 0,
        block_size == 1024 || block_size == 2048 || block_size == 4096,
    ensures
        r is Ok ==> r->Ok_0@ == fs_block(dev, block_size as nat, n as int) && r->Ok_0@.len()
            == block_size,
        r is Err ==> r->Err_0 == VfsError::IoError,
{
    let dev_block_size = dev.block_size();
    let per_block = block_size / dev_block_size;
    proof {
        vstd::arithmetic::div_mod::lemma_fundamental_div_mod(
            block_size as int,
            dev_block_size as int,
        );
        vstd::arithmetic::mul::lemma_mul_is_commutative(per_block as int, dev_block_size as int);
        vstd::arithmetic::div_mod::lemma_div_is_ordered_by_denominator(
            block_size as int,
            1,
            dev_block_size as int,
        );
        assert(n as int * per_block as int <= u32::MAX as int * 4096) by (nonlinear_arith)
            requires
                per_block <= 4096,
                n <= u32::MAX,
        ;
    }
    let mut buf = zeroed(block_size);
    let ghost z = buf@;
    match read_blocks(dev, n as u64 * per_block as u64, per_block, &mut buf) {
        Ok(()) => {},
        Err(()) => return Err(VfsError::IoError),
    }
    proof {
        let total = per_block * dev_block_size;
        assert(z.subrange(total as int, z.len() as int) =~= zeros(block_size - total));
    }
    Ok(buf)
}

/// A read-only ext2 file system.
pub struct Ext2Fs<D: BlockDevice> {
    device: D,
    block_size: usize,
    inodes_per_group: u32,
    group_desc_table: Vec<GroupDesc>,
    inode_size: usize,
    block_cache: LruCache<Vec<u8>>,
    inode_cache: LruCache<Inode>,
}

impl<D: BlockDevice> Ext2Fs<D> {
    pub closed spec fn dev(&self) -> &D {
        &self.device
    }

    pub closed spec fn spec_block_size(&self) -> nat {
        self.block_size as nat
    }

    pub closed spec fn spec_inodes_per_group(&self) -> u32 {
        self.inodes_per_group
    }

    pub closed spec fn groups(&self) -> Seq<GroupDesc> {
        self.group_desc_table@
    }

    pub closed spec fn spec_inode_size(&self) -> nat {
        self.inode_size as nat
    }

    /// Block `n` of the file system.
    pub open spec fn block(&self, n: int) -> Seq<u8> {
        fs_block(self.dev(), self.spec_block_size(), n)
    }

    pub closed spec fn wf(&self) -> bool {
        &&& self.device.spec_block_size() > 0
        &&& self.block_size == 1024 || self.block_size == 2048 || self.block_size == 4096
        &&& self.inodes_per_group > 0
        &&& self.inode_size > 0
        &&& self.inode_size <= u16::MAX
        &&& self.group_desc_table@.len() <= 65536
        &&& self.block_cache.wf()
        &&& self.block_cache.spec_capacity() == BLOCK_CACHE_MAX
        &&& self.inode_cache.wf()
        &&& self.inode_cache.spec_capacity() == INODE_CACHE_MAX
        &&& forall|k: u64| #[trigger]
            self.block_cache@.contains_key(k) ==> k <= u32::MAX && self.block_cache@[k]
                == self.block(k as int) && self.block_cache@[k].len() == self.block_size
        &&& forall|k: u64| #[trigger]
            self.inode_cache@.contains_key(k) ==> self.is_stored_inode(k, self.inode_cache@[k])
    }

    /// Where the record of inode `ino` is: bytes that hold it and the offset
    /// of its first 128 bytes in them. An inode number of 0, or one past the
    /// last group, is `NotFound`. A record that spills over into a second
    /// block takes both blocks; a record that ends past the second block, a
    /// second block past block `u32::MAX`, or fewer than 128 bytes to read
    /// the inode from is `IoError`.
    pub open spec fn inode_source(&self, ino: u64) -> Result<InodeSource, VfsError> {
        let bs = self.spec_block_size() as int;
        let size = self.spec_inode_size() as int;
        if ino == 0 {
            Err(VfsError::NotFound)
        } else {
            let idx = ino - 1;
            let group = idx / (self.spec_inodes_per_group() as int);
            let local = idx % (self.spec_inodes_per_group() as int);
            if group >= self.groups().len() {
                Err(VfsError::NotFound)
            } else {
                let table = self.groups()[group].bg_inode_table as int;
                let inode_offset = local * size;
                let byte_offset = inode_offset % bs;
                let target = (table + (inode_offset / bs) % 0x1_0000_0000) % 0x1_0000_0000;
                if byte_offset + size <= bs {
                    if byte_offset + 128 <= bs {
                        Ok(InodeSource { bytes: self.block(target), offset: byte_offset })
                    } else {
                        Err(VfsError::IoError)
                    }
                } else {
                    let second_len = size - (bs - byte_offset);
                    if second_len > bs || target == u32::MAX || size < 128 {
                        Err(VfsError::IoError)
                    } else {
                        Ok(
                            InodeSource {
                                bytes: self.block(target).subrange(byte_offset, bs) + self.block(
                                    target + 1,
                                ).subrange(0, second_len),
                                offset: 0,
                            },
                        )
                    }
                }
            }
        }
    }

    /// `i` is inode `ino` as stored on the disk.
    pub open spec fn is_stored_inode(&self, ino: u64, i: Inode) -> bool {
        &&& self.inode_source(ino) is Ok
        &&& is_inode_at(self.inode_source(ino)->Ok_0.bytes, self.inode_source(ino)->Ok_0.offset, i)
    }

    /// Mounts the ext2 file system on `device`: reads and checks the
    /// superblock, then reads the group descriptor table.
    #[verifier::rlimit(40)]
    pub fn new(device: D) -> (r: Result<Self, VfsError>)
        ensures
            ({
                let bs = device.spec_block_size();
                let sb = superblock_of(&device);
                &&& bs == 0 ==> r == Err::<Self, VfsError>(VfsError::InvalidArgument)
                &&& bs > 0 && 1024nat % bs + SUPERBLOCK_SIZE > bs ==> r == Err::<Self, VfsError>(
                    VfsError::IoError,
                )
                &&& bs > 0 && !superblock_valid(sb) ==> r is Err
                &&& r is Ok ==> {
                    &&& bs > 0
                    &&& 1024nat % bs + SUPERBLOCK_SIZE <= bs
                    &&& superblock_valid(sb)
                    &&& r->Ok_0.wf()
                    &&& *r->Ok_0.dev() == device
                    &&& r->Ok_0.spec_block_size() == block_size_of(sb)
                    &&& r->Ok_0.spec_inodes_per_group() == sb.s_inodes_per_group
                    &&& r->Ok_0.spec_inode_size() == inode_size_of(sb)
                    &&& r->Ok_0.groups() == groups_of(&device, sb)
                }
                &&& r is Err ==> r->Err_0 == VfsError::IoError || (r->Err_0
                    == VfsError::InvalidArgument && (bs == 0 || !superblock_valid(sb)))
            }),
    {
        let dev_block_size = device.block_size();
        if dev_block_size == 0 {
            return Err(VfsError::InvalidArgument);
        }
        let mut sb_buf = zeroed(dev_block_size);
        let (sb_block_index, sb_in_block_offset) = superblock_location(dev_block_size);
        match device.read_block(sb_block_index, &mut sb_buf) {
            Ok(()) => {},
            Err(()) => return Err(VfsError::IoError),
        }
        if sb_in_block_offset + SUPERBLOCK_SIZE > sb_buf.len() {
            return Err(VfsError::IoError);
        }
        proof {
            assert(sb_buf@ =~= device.spec_block(sb_block_index));
        }
        let sb = parse_superblock(&sb_buf, sb_in_block_offset);
        let geometry = match check_superblock(&sb) {
            Ok(g) => g,
            Err(e) => return Err(e),
        };
        let block_size = geometry.block_size;
        let inode_size = geometry.inode_size;
        let num_groups = geometry.num_groups;
        let gdt_block: u32 = if block_size == 1024 {
            2
        } else {
            1
        };
        let gdt_size = num_groups * GROUP_DESC_SIZE;
        let gdt_blocks = (gdt_size + block_size - 1) / block_size;
        proof {
            assert(gdt_blocks * block_size >= gdt_size) by (nonlinear_arith)
                requires
                    gdt_blocks == (gdt_size + block_size - 1) / (block_size as int),
                    block_size > 0,
            ;
            assert(gdt_blocks <= gdt_size) by (nonlinear_arith)
                requires
                    gdt_blocks == (gdt_size + block_size - 1) / (block_size as int),
                    block_size >= 1024,
            ;
        }
        let mut gdt_buf: Vec<u8> = Vec::new();
        let mut i: usize = 0;
        while i < gdt_blocks
            invariant
                i <= gdt_blocks,
                gdt_blocks <= 65536 * 32,
                device.spec_block_size() > 0,
                block_size == 1024 || block_size == 2048 || block_size == 4096,
                gdt_block <= 2,
                gdt_buf@ == fs_blocks(&device, block_size as nat, gdt_block as int, i as nat),
                gdt_buf@.len() == i * block_size,
            decreases gdt_blocks - i,
        {
            let mut b = match load_block(&device, block_size, gdt_block + i as u32) {
                Ok(b) => b,
                Err(e) => return Err(e),
            };
            gdt_buf.append(&mut b);
            i = i + 1;
            proof {
                assert(i * block_size == (i - 1) * block_size + block_size) by (nonlinear_arith);
            }
        }
        let mut group_desc_table: Vec<GroupDesc> = Vec::new();
        let mut k: usize = 0;
        while k < num_groups
            invariant
                k <= num_groups,
                num_groups * GROUP_DESC_SIZE <= gdt_buf@.len(),
                num_groups <= 65536,
                group_desc_table@ == Seq::new(k as nat, |j: int| spec_group_desc(gdt_buf@, j * 32)),
            decreases num_groups - k,
        {
            proof {
                assert(k * 32 + 32 <= num_groups * 32) by (nonlinear_arith)
                    requires
                        k < num_groups,
                ;
            }
            let desc = parse_group_desc(&gdt_buf, k * GROUP_DESC_SIZE);
            group_desc_table.push(desc);
            k = k + 1;
            proof {
                assert(group_desc_table@ =~= Seq::new(
                    k as nat,
                    |j: int| spec_group_desc(gdt_buf@, j * 32),
                ));
            }
        }
        let fs = Ext2Fs {
            device,
            block_size,
            inodes_per_group: sb.s_inodes_per_group,
            group_desc_table,
            inode_size,
            block_cache: LruCache::new(BLOCK_CACHE_MAX),
            inode_cache: LruCache::new(INODE_CACHE_MAX),
        };
        proof {
            assert(fs.groups() =~= groups_of(&fs.device, sb));
        }
        Ok(fs)
    }

    /// Name of the file system type.
    pub fn name(&self) -> (r: &'static str)
        ensures
            r@ == "ext2"@,
    {
        "ext2"
    }

    /// Inode number of the root directory.
    pub fn root_inode(&self) -> (r: u64)
        ensures
            r == 2,
    {
        2
    }

    /// Writing is refused: the file system is read-only.
    pub fn write(&mut self, inode: u64, offset: u64, buf: &[u8]) -> (r: Result<usize, VfsError>)
        ensures
            r == Err::<usize, VfsError>(VfsError::ReadOnlyFs),
            *final(self) == *old(self),
    {
        Err(VfsError::ReadOnlyFs)
    }

    /// Creating a file is refused: the file system is read-only.
    pub fn create(&mut self, parent_inode: u64, name: &str, mode: u16) -> (r: Result<u64, VfsError>)
        ensures
            r == Err::<u64, VfsError>(VfsError::ReadOnlyFs),
            *final(self) == *old(self),
    {
        Err(VfsError::ReadOnlyFs)
    }

    /// Creating a directory is refused: the file system is read-only.
    pub fn mkdir(&mut self, parent_inode: u64, name: &str, mode: u16) -> (r: Result<u64, VfsError>)
        ensures
            r == Err::<u64, VfsError>(VfsError::ReadOnlyFs),
            *final(self) == *old(self),
    {
        Err(VfsError::ReadOnlyFs)
    }

    /// Removing a file is refused: the file system is read-only.
    pub fn unlink(&mut self, parent_inode: u64, name: &str) -> (r: Result<(), VfsError>)
        ensures
            r == Err::<(), VfsError>(VfsError::ReadOnlyFs),
            *final(self) == *old(self),
    {
        Err(VfsError::ReadOnlyFs)
    }

    /// Removing a directory is refused: the file system is read-only.
    pub fn rmdir(&mut self, parent_inode: u64, name: &str) -> (r: Result<(), VfsError>)
        ensures
            r == Err::<(), VfsError>(VfsError::ReadOnlyFs),
            *final(self) == *old(self),
    {
        Err(VfsError::ReadOnlyFs)
    }

    /// Truncating is refused: the file system is read-only.
    pub fn truncate(&mut self, inode: u64, size: u64) -> (r: Result<(), VfsError>)
        ensures
            r == Err::<(), VfsError>(VfsError::ReadOnlyFs),
            *final(self) == *old(self),
    {
        Err(VfsError::ReadOnlyFs)
    }

    /// Nothing is ever written, so there is nothing to flush.
    pub fn sync(&mut self) -> (r: Result<(), VfsError>)
        ensures
            r == Ok::<(), VfsError>(()),
            *final(self) == *old(self),
    {
        Ok(())
    }

    /// Reads block `block_num` from the device into the start of `buf`,
    /// bypassing the cache.
    fn read_block_raw(&self, block_num: u32, buf: &mut Vec<u8>) -> (r: Result<(), VfsError>)
        requires
            self.wf(),
        ensures
            final(buf)@.len() == old(buf)@.len(),
            old(buf)@.len() < self.spec_block_size() ==> r == Err::<(), VfsError>(
                VfsError::InvalidArgument,
            ),
            r is Err ==> r == Err::<(), VfsError>(VfsError::InvalidArgument) || r == Err::<
                (),
                VfsError,
            >(VfsError::IoError),
            r is Ok ==> final(buf)@ == self.block(block_num as int) + old(buf)@.subrange(
                self.spec_block_size() as int,
                old(buf)@.len() as int,
            ),
    {
        if buf.len() < self.block_size {
            return Err(VfsError::InvalidArgument);
        }
        let dev_block_size = self.device.block_size();
        let blocks_per_fs_block = self.block_size / dev_block_size;
        proof {
            vstd::arithmetic::div_mod::lemma_fundamental_div_mod(
                self.block_size as int,
                dev_block_size as int,
            );
            vstd::arithmetic::mul::lemma_mul_is_commutative(
                blocks_per_fs_block as int,
                dev_block_size as int,
            );
            vstd::arithmetic::div_mod::lemma_div_is_ordered_by_denominator(
                self.block_size as int,
                1,
                dev_block_size as int,
            );
            assert(blocks_per_fs_block <= 4096);
            assert(block_num as int * blocks_per_fs_block as int <= u32::MAX as int * 4096) by (nonlinear_arith)
                requires
                    blocks_per_fs_block <= 4096,
                    block_num <= u32::MAX,
            ;
            assert(blocks_per_fs_block * dev_block_size <= self.block_size);
        }
        let start_block = block_num as u64 * blocks_per_fs_block as u64;
        let total = blocks_per_fs_block * dev_block_size;
        let ghost before = buf@;
        let mut i: usize = total;
        while i < self.block_size
            invariant
                total <= i <= self.block_size,
                self.block_size <= buf@.len(),
                buf@.len() == before.len(),
                forall|m: int| 0 <= m < total ==> #[trigger] buf@[m] == before[m],
                forall|m: int| total <= m < i ==> #[trigger] buf@[m] == 0u8,
                forall|m: int| self.block_size <= m < buf@.len() ==> #[trigger] buf@[m] == before[m],
            decreases self.block_size - i,
        {
            buf.set(i, 0);
            i = i + 1;
        }
        let ghost zeroed = buf@;
        match read_blocks(&self.device, start_block, blocks_per_fs_block, buf) {
            Ok(()) => {},
            Err(()) => return Err(VfsError::IoError),
        }
        proof {
            let k = blocks_per_fs_block as int;
            assert(start_block == block_num as int * k);
            assert(buf@ =~= self.block(block_num as int) + before.subrange(
                self.block_size as int,
                before.len() as int,
            )) by {
                assert(buf@ == blocks(&self.device, start_block as int, k as nat) + zeroed.subrange(
                    total as int,
                    zeroed.len() as int,
                ));
                assert(zeroed.subrange(total as int, zeroed.len() as int) =~= zeros(
                    self.block_size - total,
                ) + before.subrange(self.block_size as int, before.len() as int));
            }
        }
        Ok(())
    }

    /// The file system after an operation that only used its caches: the
    /// same device and layout.
    /// Whether the record of inode `ino` is held in the inode cache, so
    /// that reading it needs no device read.
    pub closed spec fn cached_inode(&self, ino: u64) -> bool {
        self.inode_cache@.contains_key(ino)
    }

    /// Whether block `n` is held in the block cache, so that reading it
    /// needs no device read.
    pub closed spec fn cached_block(&self, n: u32) -> bool {
        self.block_cache@.contains_key(n as u64)
    }

    pub open spec fn same_disk(&self, other: &Self) -> bool {
        &&& self.dev() == other.dev()
        &&& self.spec_block_size() == other.spec_block_size()
        &&& self.spec_inodes_per_group() == other.spec_inodes_per_group()
        &&& self.groups() == other.groups()
        &&& self.spec_inode_size() == other.spec_inode_size()
    }

    /// Reads block `block_num` into the start of `buf`, through the block
    /// cache.
    fn read_block(&mut self, block_num: u32, buf: &mut Vec<u8>) -> (r: Result<(), VfsError>)
        requires
            old(self).wf(),
        ensures
            final(self).wf(),
            final(self).same_disk(old(self)),
            final(buf)@.len() == old(buf)@.len(),
            old(buf)@.len() < old(self).spec_block_size() ==> r == Err::<(), VfsError>(
                VfsError::InvalidArgument,
            ),
            r is Err ==> r == Err::<(), VfsError>(VfsError::InvalidArgument) || r == Err::<
                (),
                VfsError,
            >(VfsError::IoError),
            r is Ok ==> final(buf)@ == old(self).block(block_num as int) + old(buf)@.subrange(
                old(self).spec_block_size() as int,
                old(buf)@.len() as int,
            ),
            old(self).cached_block(block_num) && old(buf)@.len() >= old(self).spec_block_size()
                ==> r is Ok && final(self).block_cache@ == old(self).block_cache@,
    {
        if buf.len() < self.block_size {
            return Err(VfsError::InvalidArgument);
        }
        let ghost before = buf@;
        if let Some(cached) = self.block_cache.get(block_num as u64) {
            proof {
                assert(cached@ == old(self).block(block_num as int));
            }
            copy_into(buf, 0, &cached, 0, self.block_size);
            proof {
                assert(buf@ =~= old(self).block(block_num as int) + before.subrange(
                    self.block_size as int,
                    before.len() as int,
                ));
            }
            return Ok(());
        }
        match self.read_block_raw(block_num, buf) {
            Ok(()) => {},
            Err(e) => return Err(e),
        }
        let copy = copy_range(buf, 0, self.block_size);
        proof {
            assert(copy@ =~= old(self).block(block_num as int));
        }
        let ghost c0 = self.block_cache@;
        self.block_cache.insert(block_num as u64, copy);
        proof {
            assert forall|k: u64| #[trigger]
                self.block_cache@.contains_key(k) implies k <= u32::MAX && self.block_cache@[k]
                == self.block(k as int) && self.block_cache@[k].len() == self.block_size by {
                if k != block_num as u64 {
                    assert(c0.contains_key(k));
                }
            }
        }
        Ok(())
    }

    /// Block and byte offset of the record of inode `inode_num`.
    fn inode_location(&self, inode_num: u64) -> (r: Result<(u32, usize), VfsError>)
        requires
            self.wf(),
            inode_num > 0,
        ensures
            r is Err <==> self.inode_source(inode_num) == Err::<InodeSource, VfsError>(
                VfsError::NotFound,
            ),
            r is Err ==> r == Err::<(u32, usize), VfsError>(VfsError::NotFound),
            r is Ok ==> self.location_matches(inode_num, r->Ok_0),
    {
        let inode_idx = inode_num - 1;
        let ipg = self.inodes_per_group as u64;
        let group_u64 = inode_idx / ipg;
        let local_idx = inode_idx % ipg;
        if group_u64 >= self.group_desc_table.len() as u64 {
            return Err(VfsError::NotFound);
        }
        let group = group_u64 as usize;
        let inode_table_block = self.group_desc_table[group].bg_inode_table;
        let bs = self.block_size as u64;
        proof {
            assert(local_idx * (self.inode_size as int) <= u32::MAX as int * u16::MAX as int)
                by (nonlinear_arith)
                requires
                    local_idx < ipg,
                    ipg <= u32::MAX,
                    self.inode_size <= u16::MAX,
            ;
        }
        let inode_offset = local_idx * self.inode_size as u64;
        let block_offset = inode_offset / bs;
        let byte_offset = (inode_offset % bs) as usize;
        let target_block = inode_table_block.wrapping_add(block_offset as u32);
        proof {
            assert((block_offset as u32) as int == block_offset % 0x1_0000_0000) by (bit_vector);
            assert(target_block as int == (inode_table_block as int + (block_offset as u32) as int)
                % 0x1_0000_0000);
        }
        Ok((target_block, byte_offset))
    }

    /// `loc` is the block and byte offset where the record of inode `ino`
    /// starts.
    pub open spec fn location_matches(&self, ino: u64, loc: (u32, usize)) -> bool {
        let bs = self.spec_block_size() as int;
        let size = self.spec_inode_size() as int;
        let idx = ino - 1;
        let group = idx / (self.spec_inodes_per_group() as int);
        let local = idx % (self.spec_inodes_per_group() as int);
        let table = self.groups()[group].bg_inode_table as int;
        let inode_offset = local * size;
        &&& group < self.groups().len()
        &&& loc.1 == inode_offset % bs
        &&& loc.0 == (table + (inode_offset / bs) % 0x1_0000_0000) % 0x1_0000_0000
    }

    /// Reads the record of inode `inode_num`, which starts in block
    /// `target_block` at `byte_offset`.
    #[verifier::rlimit(40)]
    #[verifier::spinoff_prover]
    fn read_record(&mut self, inode_num: u64, target_block: u32, byte_offset: usize) -> (r: Result<
        Inode,
        VfsError,
    >)
        requires
            old(self).wf(),
            inode_num > 0,
            old(self).location_matches(inode_num, (target_block, byte_offset)),
        ensures
            final(self).wf(),
            final(self).same_disk(old(self)),
            r is Ok ==> old(self).is_stored_inode(inode_num, r->Ok_0),
            old(self).inode_source(inode_num) is Err ==> r == Err::<Inode, VfsError>(
                old(self).inode_source(inode_num)->Err_0,
            ),
            r is Err ==> r->Err_0 == VfsError::IoError,
    {
        proof {
            assert(byte_offset < self.block_size) by (nonlinear_arith)
                requires
                    byte_offset == (((inode_num - 1) % (self.inodes_per_group as int)) * (
                    self.inode_size as int)) % (self.block_size as int),
                    self.block_size > 0,
            ;
        }
        let mut block_buf = zeroed(self.block_size);
        match self.read_block(target_block, &mut block_buf) {
            Ok(()) => {},
            Err(_) => return Err(VfsError::IoError),
        }
        if byte_offset + self.inode_size <= self.block_size {
            if byte_offset + 128 > self.block_size {
                return Err(VfsError::IoError);
            }
            proof {
                assert(block_buf@ =~= old(self).block(target_block as int));
            }
            Ok(parse_inode(&block_buf, byte_offset))
        } else {
            let first_len = self.block_size - byte_offset;
            let second_len = self.inode_size - first_len;
            if second_len > self.block_size {
                return Err(VfsError::IoError);
            }
            let next_target_block = match target_block.checked_add(1) {
                Some(b) => b,
                None => return Err(VfsError::IoError),
            };
            if self.inode_size < 128 {
                return Err(VfsError::IoError);
            }
            let mut inode_buf = zeroed(self.inode_size);
            copy_into(&mut inode_buf, 0, &block_buf, byte_offset, first_len);
            let mut next_block = zeroed(self.block_size);
            match self.read_block(next_target_block, &mut next_block) {
                Ok(()) => {},
                Err(_) => return Err(VfsError::IoError),
            }
            copy_into(&mut inode_buf, first_len, &next_block, 0, second_len);
            proof {
                assert(block_buf@ =~= old(self).block(target_block as int));
                assert(next_block@ =~= old(self).block(next_target_block as int));
                assert(inode_buf@ =~= old(self).block(target_block as int).subrange(
                    byte_offset as int,
                    self.block_size as int,
                ) + old(self).block(next_target_block as int).subrange(0, second_len as int));
            }
            Ok(parse_inode(&inode_buf, 0))
        }
    }

    /// Number of block pointers that one block holds.
    pub open spec fn ptrs_per_block(&self) -> int {
        self.spec_block_size() as int / 4
    }

    /// The block that holds block `idx` of the file of `inode` (0: a hole):
    /// the first 12 come straight from the inode, the next ones through the
    /// indirect block, then through the double indirect block; past those,
    /// `NotSupported`.
    pub open spec fn block_ptr(&self, inode: Inode, idx: u32) -> Result<u32, VfsError> {
        let p = self.ptrs_per_block();
        if idx < 12 {
            Ok(inode.i_block@[idx as int])
        } else if idx < 12 + p {
            let ind = inode.i_block@[12];
            if ind == 0 {
                Ok(0u32)
            } else {
                Ok(le_u32(self.block(ind as int), (idx - 12) * 4))
            }
        } else if idx < 12 + p + p * p {
            let dbl = inode.i_block@[13];
            if dbl == 0 {
                Ok(0u32)
            } else {
                let j = idx - 12 - p;
                let ind = le_u32(self.block(dbl as int), (j / p) * 4);
                if ind == 0 {
                    Ok(0u32)
                } else {
                    Ok(le_u32(self.block(ind as int), (j % p) * 4))
                }
            }
        } else {
            Err(VfsError::NotSupported)
        }
    }

    /// The first twelve blocks of a file are addressed by the inode itself,
    /// and blocks past what the double indirect block reaches are not
    /// supported.
    pub proof fn law_direct_blocks_and_limit(&self, inode: Inode, idx: u32)
        requires
            self.wf(),
        ensures
            idx < 12 ==> self.block_ptr(inode, idx) == Ok::<u32, VfsError>(inode.i_block@[idx as int]),
            idx >= 12 + self.ptrs_per_block() + self.ptrs_per_block() * self.ptrs_per_block()
                ==> self.block_ptr(inode, idx) == Err::<u32, VfsError>(VfsError::NotSupported),
    {
    }

    /// Where ext2 keeps the address of each block of a file: block `12 + m`
    /// (for `m` below the number `p` of addresses a block holds) is entry
    /// `m` of the indirect block; block `12 + p + k * p + m` (for `k` and `m`
    /// below `p`) is entry `m` of the indirect block that entry `k` of the
    /// double indirect block names. A zero address on the way is a hole.
    pub proof fn law_block_addresses(&self, inode: Inode, k: int, m: int)
        requires
            self.wf(),
            0 <= k < self.ptrs_per_block(),
            0 <= m < self.ptrs_per_block(),
        ensures
            ({
                let p = self.ptrs_per_block();
                let ind = inode.i_block@[12];
                self.block_ptr(inode, (12 + m) as u32) == if ind == 0 {
                    Ok::<u32, VfsError>(0u32)
                } else {
                    Ok::<u32, VfsError>(le_u32(self.block(ind as int), m * 4))
                }
            }),
            ({
                let p = self.ptrs_per_block();
                let dbl = inode.i_block@[13];
                let ind2 = le_u32(self.block(dbl as int), k * 4);
                self.block_ptr(inode, (12 + p + k * p + m) as u32) == if dbl == 0 || ind2 == 0 {
                    Ok::<u32, VfsError>(0u32)
                } else {
                    Ok::<u32, VfsError>(le_u32(self.block(ind2 as int), m * 4))
                }
            }),
    {
        let p = self.ptrs_per_block();
        assert(256 <= p <= 1024);
        assert(k * p + m < p * p) by (nonlinear_arith)
            requires
                0 <= k < p,
                0 <= m < p,
        ;
        assert(p * p <= 1024 * 1024) by (nonlinear_arith)
            requires
                0 < p <= 1024,
        ;
        let j = k * p + m;
        vstd::arithmetic::div_mod::lemma_fundamental_div_mod_converse(j, p, k, m);
        assert(j / p == k && j % p == m);
        let idx = (12 + p + j) as u32;
        assert(idx as int == 12 + p + j);
        assert(idx - 12 - p == j);
        assert(((12 + m) as u32) as int == 12 + m);
    }

    /// Whether finding block `idx` of the file of `inode` needs no device
    /// read: a direct block, a hole at the indirect or double indirect
    /// pointer, a block past what the pointers reach, or indirect blocks
    /// that are all in the block cache.
    pub open spec fn block_ptr_without_read(&self, inode: Inode, idx: u32) -> bool {
        let p = self.ptrs_per_block();
        if idx < 12 {
            true
        } else if idx < 12 + p {
            inode.i_block@[12] == 0 || self.cached_block(inode.i_block@[12])
        } else if idx < 12 + p + p * p {
            let dbl = inode.i_block@[13];
            dbl == 0 || (self.cached_block(dbl) && {
                let ind = le_u32(self.block(dbl as int), ((idx - 12 - p) / p) * 4);
                ind == 0 || self.cached_block(ind)
            })
        } else {
            true
        }
    }

    /// Block `block_idx` of the file of `inode`, reading the indirect blocks
    /// it needs through the block cache.
    fn get_block_num(&mut self, inode: &Inode, block_idx: u32) -> (r: Result<u32, VfsError>)
        requires
            old(self).wf(),
        ensures
            final(self).wf(),
            final(self).same_disk(old(self)),
            old(self).block_ptr_without_read(*inode, block_idx) ==> r == old(self).block_ptr(
                *inode,
                block_idx,
            ),
            r is Ok ==> r == old(self).block_ptr(*inode, block_idx),
            old(self).block_ptr(*inode, block_idx) is Err ==> r == old(self).block_ptr(
                *inode,
                block_idx,
            ),
            r is Err ==> r->Err_0 == VfsError::IoError || r == old(self).block_ptr(
                *inode,
                block_idx,
            ),
    {
        if block_idx < 12 {
            return Ok(inode.i_block[block_idx as usize]);
        }
        let ptrs_per_block = (self.block_size / 4) as u32;
        if block_idx < 12 + ptrs_per_block {
            let indirect_block = inode.i_block[12];
            if indirect_block == 0 {
                return Ok(0);
            }
            let mut buf = zeroed(self.block_size);
            match self.read_block(indirect_block, &mut buf) {
                Ok(()) => {},
                Err(_) => return Err(VfsError::IoError),
            }
            let offset = ((block_idx - 12) * 4) as usize;
            proof {
                assert(buf@ =~= old(self).block(indirect_block as int));
            }
            return Ok(read_u32(&buf, offset));
        }
        proof {
            assert(ptrs_per_block * ptrs_per_block <= 1024 * 1024) by (nonlinear_arith)
                requires
                    ptrs_per_block <= 1024,
            ;
        }
        if block_idx < 12 + ptrs_per_block + ptrs_per_block * ptrs_per_block {
            let double_indirect = inode.i_block[13];
            if double_indirect == 0 {
                return Ok(0);
            }
            let idx = block_idx - 12 - ptrs_per_block;
            let indirect_idx = idx / ptrs_per_block;
            let block_offset = idx % ptrs_per_block;
            proof {
                assert(indirect_idx < ptrs_per_block) by (nonlinear_arith)
                    requires
                        idx < ptrs_per_block * ptrs_per_block,
                        indirect_idx == idx / ptrs_per_block,
                        ptrs_per_block > 0,
                ;
            }
            let mut buf = zeroed(self.block_size);
            match self.read_block(double_indirect, &mut buf) {
                Ok(()) => {},
                Err(_) => return Err(VfsError::IoError),
            }
            proof {
                assert(buf@ =~= old(self).block(double_indirect as int));
            }
            let offset = (indirect_idx * 4) as usize;
            let indirect_block = read_u32(&buf, offset);
            if indirect_block == 0 {
                return Ok(0);
            }
            match self.read_block(indirect_block, &mut buf) {
                Ok(()) => {},
                Err(_) => return Err(VfsError::IoError),
            }
            proof {
                assert(buf@ =~= old(self).block(indirect_block as int));
            }
            let offset = (block_offset * 4) as usize;
            return Ok(read_u32(&buf, offset));
        }
        Err(VfsError::NotSupported)
    }

    /// The same as [`Self::get_block_num`], keeping the indirect block of
    /// the inode in `indirect_cache` once read.
    fn get_block_num_cached(
        &mut self,
        inode: &Inode,
        block_idx: u32,
        ptrs_per_block: u32,
        indirect_cache: &mut Option<Vec<u8>>,
    ) -> (r: Result<u32, VfsError>)
        requires
            old(self).wf(),
            ptrs_per_block == old(self).ptrs_per_block(),
            (*old(indirect_cache)) is Some ==> (*old(indirect_cache))->0@ == old(self).block(
                inode.i_block@[12] as int,
            ) && (*old(indirect_cache))->0@.len() == old(self).spec_block_size(),
        ensures
            final(self).wf(),
            final(self).same_disk(old(self)),
            (*final(indirect_cache)) is Some ==> (*final(indirect_cache))->0@ == old(self).block(
                inode.i_block@[12] as int,
            ) && (*final(indirect_cache))->0@.len() == old(self).spec_block_size(),
            r is Ok ==> r == old(self).block_ptr(*inode, block_idx),
            old(self).block_ptr_without_read(*inode, block_idx) || (12 <= block_idx < 12
                + old(self).ptrs_per_block() && (*old(indirect_cache)) is Some) ==> r == old(
                self,
            ).block_ptr(*inode, block_idx),
            12 <= block_idx < 12 + old(self).ptrs_per_block() && inode.i_block@[12] != 0 && r is Ok
                ==> (*final(indirect_cache)) is Some,
            old(self).block_ptr(*inode, block_idx) is Err ==> r == old(self).block_ptr(
                *inode,
                block_idx,
            ),
            r is Err ==> r->Err_0 == VfsError::IoError || r == old(self).block_ptr(
                *inode,
                block_idx,
            ),
    {
        if block_idx < 12 {
            return Ok(inode.i_block[block_idx as usize]);
        }
        if block_idx < 12 + ptrs_per_block {
            let indirect_block = inode.i_block[12];
            if indirect_block == 0 {
                return Ok(0);
            }
            if indirect_cache.is_none() {
                let mut buf = zeroed(self.block_size);
                match self.read_block(indirect_block, &mut buf) {
                    Ok(()) => {},
                    Err(_) => return Err(VfsError::IoError),
                }
                proof {
                    assert(buf@ =~= old(self).block(indirect_block as int));
                }
                *indirect_cache = Some(buf);
            }
            if let Some(buf) = indirect_cache {
                let offset = ((block_idx - 12) * 4) as usize;
                if offset + 4 > buf.len() {
                    return Err(VfsError::IoError);
                }
                return Ok(read_u32(buf, offset));
            }
            return Ok(0);
        }
        self.get_block_num(inode, block_idx)
    }

    /// Byte `pos` of the file of `inode` (a hole reads as zero).
    pub open spec fn file_byte(&self, inode: Inode, pos: int) -> u8 {
        let bs = self.spec_block_size() as int;
        let b = self.block_ptr(inode, (pos / bs) as u32)->Ok_0;
        if b == 0 {
            0
        } else {
            self.block(b as int)[pos % bs]
        }
    }

    /// Bytes `from .. from + len` of the file of `inode`.
    pub open spec fn file_bytes(&self, inode: Inode, from: int, len: int) -> Seq<u8> {
        Seq::new(len as nat, |i: int| self.file_byte(inode, from + i))
    }

    /// Every block of bytes `from .. to` of the file of `inode` has an
    /// address the file system can follow.
    pub open spec fn file_mapped(&self, inode: Inode, from: int, to: int) -> bool {
        let bs = self.spec_block_size() as int;
        from < to ==> forall|idx: int|
            from / bs <= idx <= (to - 1) / bs ==> #[trigger] self.block_ptr(inode, idx as u32) is Ok
    }

    /// Copies bytes `pos .. pos + n` of the file of `inode`, which lie in one
    /// block, into `out[out_off .. out_off + n]`.
    fn copy_file_bytes(
        &mut self,
        inode: &Inode,
        pos: u64,
        n: usize,
        out: &mut Vec<u8>,
        out_off: usize,
        indirect_cache: &mut Option<Vec<u8>>,
        block_buf: &mut Vec<u8>,
    ) -> (r: Result<(), VfsError>)
        requires
            old(self).wf(),
            (pos as int) / (old(self).spec_block_size() as int) <= u32::MAX,
            ((pos as int) % (old(self).spec_block_size() as int)) + n <= old(self).spec_block_size(),
            out_off + n <= old(out)@.len(),
            old(block_buf)@.len() == old(self).spec_block_size(),
            (*old(indirect_cache)) is Some ==> (*old(indirect_cache))->0@ == old(self).block(
                inode.i_block@[12] as int,
            ) && (*old(indirect_cache))->0@.len() == old(self).spec_block_size(),
        ensures
            final(self).wf(),
            final(self).same_disk(old(self)),
            final(block_buf)@.len() == old(self).spec_block_size(),
            (*final(indirect_cache)) is Some ==> (*final(indirect_cache))->0@ == old(self).block(
                inode.i_block@[12] as int,
            ) && (*final(indirect_cache))->0@.len() == old(self).spec_block_size(),
            final(out)@.len() == old(out)@.len(),
            r is Ok ==> old(self).block_ptr(
                *inode,
                ((pos as int) / (old(self).spec_block_size() as int)) as u32,
            ) is Ok,
            r is Ok ==> final(out)@ == old(out)@.subrange(0, out_off as int) + old(self).file_bytes(
                *inode,
                pos as int,
                n as int,
            ) + old(out)@.subrange(out_off + n, old(out)@.len() as int),
            r is Err ==> r->Err_0 == VfsError::IoError || r == Err::<(), VfsError>(
                VfsError::NotSupported,
            ),
            old(self).block_ptr(*inode, ((pos as int) / (old(self).spec_block_size() as int)) as u32)
                is Err ==> r is Err,
    {
        let bs = self.block_size as u64;
        let block_idx = (pos / bs) as u32;
        let start_in_block = (pos % bs) as usize;
        let ptrs_per_block = (self.block_size / 4) as u32;
        let block_num = match self.get_block_num_cached(inode, block_idx, ptrs_per_block, indirect_cache) {
            Ok(b) => b,
            Err(e) => return Err(e),
        };
        let ghost o = out@;
        let _out_len = out.len();
        if block_num == 0 {
            fill_zero(out, out_off, out_off + n);
        } else {
            match self.read_block(block_num, block_buf) {
                Ok(()) => {},
                Err(_) => return Err(VfsError::IoError),
            }
            copy_into(out, out_off, block_buf, start_in_block, n);
        }
        proof {
            let want = old(self).file_bytes(*inode, pos as int, n as int);
            let got = out@.subrange(out_off as int, out_off + n);
            assert forall|i: int| 0 <= i < n implies got[i] == want[i] by {
                let bsi = bs as int;
                assert((pos + i) / bsi == (pos as int) / bsi && (pos + i) % bsi == (pos as int) % bsi + i) by {
                    vstd::arithmetic::div_mod::lemma_fundamental_div_mod(pos as int, bsi);
                    vstd::arithmetic::div_mod::lemma_fundamental_div_mod_converse(
                        pos + i,
                        bsi,
                        (pos as int) / bsi,
                        (pos as int) % bsi + i,
                    );
                }
            }
            assert(out@ =~= o.subrange(0, out_off as int) + want + o.subrange(
                out_off + n,
                o.len() as int,
            ));
        }
        Ok(())
    }

    /// Inode `ino` as stored on the disk, where it can be read.
    pub open spec fn stored_inode(&self, ino: u64) -> Inode {
        choose|i: Inode| self.is_stored_inode(ino, i)
    }

    pub proof fn lemma_stored_inode(&self, ino: u64, i: Inode)
        requires
            self.is_stored_inode(ino, i),
        ensures
            self.stored_inode(ino) == i,
    {
        let j = self.stored_inode(ino);
        assert(self.is_stored_inode(ino, j));
        lemma_inode_at_unique(
            self.inode_source(ino)->Ok_0.bytes,
            self.inode_source(ino)->Ok_0.offset,
            i,
            j,
        );
    }

    /// The whole file of `inode`, read block by block; at most 16 MiB.
    fn read_all_blocks(&mut self, inode: &Inode) -> (r: Result<Vec<u8>, VfsError>)
        requires
            old(self).wf(),
        ensures
            final(self).wf(),
            final(self).same_disk(old(self)),
            inode.i_size == 0 ==> r is Ok && r->Ok_0@.len() == 0,
            inode.i_size > MAX_DIR_DATA_SIZE ==> r == Err::<Vec<u8>, VfsError>(
                VfsError::InvalidArgument,
            ),
            r is Ok ==> r->Ok_0@ == old(self).file_bytes(*inode, 0, inode.i_size as int)
                && old(self).file_mapped(*inode, 0, inode.i_size as int),
            r is Err ==> r->Err_0 == VfsError::IoError || r->Err_0 == VfsError::NotSupported
                || (r->Err_0 == VfsError::InvalidArgument && inode.i_size > MAX_DIR_DATA_SIZE),
            !old(self).file_mapped(*inode, 0, inode.i_size as int) ==> r is Err,
    {
        let size = inode.i_size as usize;
        if size == 0 {
            return Ok(Vec::new());
        }
        if size > MAX_DIR_DATA_SIZE {
            return Err(VfsError::InvalidArgument);
        }
        let mut data = zeroed(size);
        let mut indirect_cache: Option<Vec<u8>> = None;
        let mut block_buf = zeroed(self.block_size);
        let mut read_offset: usize = 0;
        let ghost fs0 = *self;
        while read_offset < size
            invariant
                self.wf(),
                self.same_disk(&fs0),
                fs0 == *old(self),
                size == inode.i_size,
                size <= MAX_DIR_DATA_SIZE,
                read_offset <= size,
                (read_offset as int) % (self.block_size as int) == 0 || read_offset == size,
                data@.len() == size,
                block_buf@.len() == self.block_size,
                data@.subrange(0, read_offset as int) == fs0.file_bytes(
                    *inode,
                    0,
                    read_offset as int,
                ),
                fs0.file_mapped(*inode, 0, read_offset as int),
                indirect_cache is Some ==> indirect_cache->0@ == fs0.block(
                    inode.i_block@[12] as int,
                ) && indirect_cache->0@.len() == fs0.spec_block_size(),
            decreases size - read_offset,
        {
            let to_copy = if self.block_size < size - read_offset {
                self.block_size
            } else {
                size - read_offset
            };
            let ghost d0 = data@;
            match self.copy_file_bytes(
                inode,
                read_offset as u64,
                to_copy,
                &mut data,
                read_offset,
                &mut indirect_cache,
                &mut block_buf,
            ) {
                Ok(()) => {},
                Err(e) => return Err(e),
            }
            proof {
                assert(data@.subrange(0, read_offset + to_copy) =~= fs0.file_bytes(
                    *inode,
                    0,
                    read_offset + to_copy,
                )) by {
                    assert(data@ == d0.subrange(0, read_offset as int) + fs0.file_bytes(
                        *inode,
                        read_offset as int,
                        to_copy as int,
                    ) + d0.subrange(read_offset + to_copy, d0.len() as int));
                }
                let bs = self.block_size as int;
                assert forall|idx: int|
                    0int / bs <= idx <= (read_offset + to_copy - 1) / bs implies #[trigger] fs0.block_ptr(
                    *inode,
                    idx as u32,
                ) is Ok by {
                    if idx > (read_offset - 1) / bs || read_offset == 0 {
                        assert(idx == (read_offset as int) / bs) by (nonlinear_arith)
                            requires
                                (read_offset as int) % bs == 0,
                                0 < to_copy <= bs,
                                bs > 0,
                                idx <= (read_offset + to_copy - 1) / bs,
                                idx > (read_offset - 1) / bs || read_offset == 0,
                                idx >= 0,
                        ;
                    }
                }
                assert((read_offset + to_copy) % bs == 0 || read_offset + to_copy == size as int) by (nonlinear_arith)
                    requires
                        (read_offset as int) % bs == 0,
                        to_copy == bs || read_offset + to_copy == size,
                        bs > 0,
                ;
            }
            read_offset = read_offset + to_copy;
            if read_offset < size {
                proof {
                    let bs = self.block_size as int;
                    assert((read_offset as int) % bs == 0);
                }
            }
        }
        proof {
            assert(data@ =~= data@.subrange(0, size as int));
        }
        Ok(data)
    }

    /// Attributes of inode `inode`.
    pub fn stat(&mut self, inode: u64) -> (r: Result<FileAttr, VfsError>)
        requires
            old(self).wf(),
        ensures
            final(self).wf(),
            final(self).same_disk(old(self)),
            r is Ok ==> old(self).inode_source(inode) is Ok && r->Ok_0 == attr_of(
                old(self).stored_inode(inode),
            ),
            old(self).cached_inode(inode) ==> r is Ok,
            old(self).inode_source(inode) is Err ==> r == Err::<FileAttr, VfsError>(
                old(self).inode_source(inode)->Err_0,
            ),
            r is Err ==> r->Err_0 == VfsError::IoError || old(self).inode_source(inode) == Err::<
                InodeSource,
                VfsError,
            >(r->Err_0),
    {
        let ext2_inode = match self.read_inode(inode) {
            Ok(i) => i,
            Err(e) => return Err(e),
        };
        proof {
            old(self).lemma_stored_inode(inode, ext2_inode);
        }
        let t = ext2_inode.i_mode & EXT2_S_IFMT;
        let file_type = if t == EXT2_S_IFREG {
            FileType::RegularFile
        } else if t == EXT2_S_IFDIR {
            FileType::Directory
        } else if t == EXT2_S_IFLNK {
            FileType::SymbolicLink
        } else {
            FileType::RegularFile
        };
        Ok(
            FileAttr {
                file_type,
                size: ext2_inode.i_size as u64,
                blocks: ext2_inode.i_blocks as u64,
                atime: ext2_inode.i_atime as u64,
                mtime: ext2_inode.i_mtime as u64,
                ctime: ext2_inode.i_ctime as u64,
                mode: ext2_inode.i_mode,
                uid: ext2_inode.i_uid as u32,
                gid: ext2_inode.i_gid as u32,
                nlink: ext2_inode.i_links_count as u32,
            },
        )
    }

    /// Reads from the regular file `inode`, starting at byte `offset`, as
    /// many bytes as `buf` holds or the file has left; returns how many.
    #[verifier::rlimit(40)]
    pub fn read(&mut self, inode: u64, offset: u64, buf: &mut Vec<u8>) -> (r: Result<
        usize,
        VfsError,
    >)
        requires
            old(self).wf(),
        ensures
            final(self).wf(),
            final(self).same_disk(old(self)),
            final(buf)@.len() == old(buf)@.len(),
            ({
                let i = old(self).stored_inode(inode);
                let size = i.i_size as int;
                let n = if offset >= size {
                    0
                } else if old(buf)@.len() < size - offset {
                    old(buf)@.len() as int
                } else {
                    size - offset
                };
                &&& r is Ok ==> old(self).inode_source(inode) is Ok
                &&& r is Ok ==> i.i_mode & EXT2_S_IFMT == EXT2_S_IFREG
                &&& r is Ok ==> r->Ok_0 == n
                &&& r is Ok ==> final(buf)@ == old(self).file_bytes(i, offset as int, n)
                    + old(buf)@.subrange(n, old(buf)@.len() as int)
                &&& old(self).inode_source(inode) is Err ==> r == Err::<usize, VfsError>(
                    old(self).inode_source(inode)->Err_0,
                )
                &&& old(self).inode_source(inode) is Ok && i.i_mode & EXT2_S_IFMT != EXT2_S_IFREG
                    ==> r is Err
                &&& r is Err ==> r->Err_0 == VfsError::IoError || r->Err_0
                    == VfsError::NotSupported || r->Err_0 == VfsError::IsDirectory
                    || old(self).inode_source(inode) == Err::<InodeSource, VfsError>(r->Err_0)
                &&& r == Err::<usize, VfsError>(VfsError::IsDirectory) ==> i.i_mode & EXT2_S_IFMT
                    != EXT2_S_IFREG
                &&& old(self).cached_inode(inode) && i.i_mode & EXT2_S_IFMT != EXT2_S_IFREG ==> r
                    == Err::<usize, VfsError>(VfsError::IsDirectory)
                &&& old(self).cached_inode(inode) && i.i_mode & EXT2_S_IFMT == EXT2_S_IFREG && n == 0
                    ==> r == Ok::<usize, VfsError>(0)
            }),
    {
        let ghost fs0 = *self;
        let ext2_inode = match self.read_inode(inode) {
            Ok(i) => i,
            Err(e) => return Err(e),
        };
        proof {
            fs0.lemma_stored_inode(inode, ext2_inode);
        }
        match regular_file_check(&ext2_inode) {
            Ok(()) => {},
            Err(e) => return Err(e),
        }
        let file_size = ext2_inode.i_size as u64;
        if offset >= file_size {
            return Ok(0);
        }
        let to_read = if buf.len() < (file_size - offset) as usize {
            buf.len()
        } else {
            (file_size - offset) as usize
        };
        if to_read == 0 {
            proof {
                assert(buf@ =~= old(self).file_bytes(ext2_inode, offset as int, 0) + buf@.subrange(
                    0,
                    buf@.len() as int,
                ));
            }
            return Ok(0);
        }
        let mut indirect_cache: Option<Vec<u8>> = None;
        let mut block_buf = zeroed(self.block_size);
        let mut bytes_read: usize = 0;
        let ghost b0 = buf@;
        while bytes_read < to_read
            invariant
                self.wf(),
                self.same_disk(&fs0),
                fs0 == *old(self),
                b0 == old(buf)@,
                fs0.inode_source(inode) is Ok,
                ext2_inode == fs0.stored_inode(inode),
                ext2_inode.i_mode & EXT2_S_IFMT == EXT2_S_IFREG,
                file_size == ext2_inode.i_size,
                offset < file_size,
                to_read <= file_size - offset,
                to_read <= b0.len(),
                bytes_read <= to_read,
                buf@.len() == b0.len(),
                block_buf@.len() == self.block_size,
                bytes_read > 0 && bytes_read < to_read ==> ((offset + bytes_read) as int) % (
                self.block_size as int) == 0,
                buf@.subrange(0, bytes_read as int) == fs0.file_bytes(
                    ext2_inode,
                    offset as int,
                    bytes_read as int,
                ),
                buf@.subrange(bytes_read as int, buf@.len() as int) == b0.subrange(
                    bytes_read as int,
                    b0.len() as int,
                ),
                indirect_cache is Some ==> indirect_cache->0@ == fs0.block(
                    ext2_inode.i_block@[12] as int,
                ) && indirect_cache->0@.len() == fs0.spec_block_size(),
            decreases to_read - bytes_read,
        {
            let pos = offset + bytes_read as u64;
            let start_in_block = (pos % self.block_size as u64) as usize;
            let remaining = to_read - bytes_read;
            let to_copy = if remaining < self.block_size - start_in_block {
                remaining
            } else {
                self.block_size - start_in_block
            };
            proof {
                assert((pos as int) / (self.block_size as int) <= u32::MAX) by (nonlinear_arith)
                    requires
                        pos < u32::MAX,
                        self.block_size >= 1,
                ;
            }
            let ghost d0 = buf@;
            match self.copy_file_bytes(
                &ext2_inode,
                pos,
                to_copy,
                buf,
                bytes_read,
                &mut indirect_cache,
                &mut block_buf,
            ) {
                Ok(()) => {},
                Err(e) => return Err(e),
            }
            proof {
                assert(buf@.subrange(0, bytes_read + to_copy) =~= fs0.file_bytes(
                    ext2_inode,
                    offset as int,
                    bytes_read + to_copy,
                )) by {
                    assert(buf@ == d0.subrange(0, bytes_read as int) + fs0.file_bytes(
                        ext2_inode,
                        pos as int,
                        to_copy as int,
                    ) + d0.subrange(bytes_read + to_copy, d0.len() as int));
                }
                assert forall|k: int| bytes_read + to_copy <= k < b0.len() implies #[trigger] buf@[k]
                    == b0[k] by {
                    assert(d0.subrange(bytes_read as int, d0.len() as int)[k - bytes_read] == b0.subrange(
                        bytes_read as int,
                        b0.len() as int,
                    )[k - bytes_read]);
                }
                assert(buf@.subrange(bytes_read + to_copy, buf@.len() as int) =~= b0.subrange(
                    bytes_read + to_copy,
                    b0.len() as int,
                ));
                let bs = self.block_size as int;
                assert(to_copy == remaining || (pos + to_copy) % bs == 0) by (nonlinear_arith)
                    requires
                        start_in_block == (pos as int) % bs,
                        to_copy == remaining || to_copy == bs - start_in_block,
                        bs > 0,
                ;
            }
            bytes_read = bytes_read + to_copy;
        }
        proof {
            assert(buf@ =~= fs0.file_bytes(ext2_inode, offset as int, to_read as int)
                + b0.subrange(to_read as int, b0.len() as int));
        }
        Ok(to_read)
    }

    /// The bytes of the file of `inode`, start to end.
    pub open spec fn contents(&self, inode: Inode) -> Seq<u8> {
        self.file_bytes(inode, 0, inode.i_size as int)
    }

    /// The whole file of `inode` can be read: its size is within the limit
    /// and every block of it has an address the file system can follow.
    pub open spec fn readable(&self, inode: Inode) -> bool {
        &&& inode.i_size <= MAX_DIR_DATA_SIZE
        &&& self.file_mapped(inode, 0, inode.i_size as int)
    }

    /// Two file systems on the same disk read the same bytes.
    pub proof fn lemma_same_disk_reads(&self, other: &Self, inode: Inode)
        requires
            self.same_disk(other),
        ensures
            forall|from: int, len: int| #[trigger]
                self.file_bytes(inode, from, len) == other.file_bytes(inode, from, len),
            forall|from: int, to: int| #[trigger]
                self.file_mapped(inode, from, to) == other.file_mapped(inode, from, to),
            self.contents(inode) == other.contents(inode),
            self.readable(inode) == other.readable(inode),
    {
        assert forall|from: int, len: int| #[trigger]
            self.file_bytes(inode, from, len) == other.file_bytes(inode, from, len) by {
            assert(self.file_bytes(inode, from, len) =~= other.file_bytes(inode, from, len));
        }
        assert forall|k: u32|
            #![trigger self.block_ptr(inode, k)]
            #![trigger other.block_ptr(inode, k)]
            self.block_ptr(inode, k) == other.block_ptr(inode, k) by {
            assert(forall|n: int| #[trigger] self.block(n) == other.block(n));
        }
    }

    /// The inode of the entry `name` of directory `parent_inode`.
    pub fn lookup(&mut self, parent_inode: u64, name: &str) -> (r: Result<u64, VfsError>)
        requires
            old(self).wf(),
        ensures
            final(self).wf(),
            final(self).same_disk(old(self)),
            ({
                let src = old(self).inode_source(parent_inode);
                let p = old(self).stored_inode(parent_inode);
                let is_dir = p.i_mode & EXT2_S_IFMT == EXT2_S_IFDIR;
                let found = find_name(old(self).contents(p), 0, name.spec_bytes());
                &&& src is Err ==> r == Err::<u64, VfsError>(src->Err_0)
                &&& src is Ok && !is_dir ==> r == Err::<u64, VfsError>(VfsError::NotDirectory) || r
                    == Err::<u64, VfsError>(VfsError::IoError)
                &&& src is Ok && is_dir && p.i_size > MAX_DIR_DATA_SIZE ==> r == Err::<u64, VfsError>(
                    VfsError::InvalidArgument,
                ) || r == Err::<u64, VfsError>(VfsError::IoError)
                &&& src is Ok && is_dir && !old(self).readable(p) ==> r is Err
                &&& r is Ok ==> src is Ok && is_dir && old(self).readable(p) && found is Some
                    && r->Ok_0 == found->0 as u64
                &&& r is Ok ==> old(self).is_stored_inode(parent_inode, p)
                &&& r is Ok ==> first_named(list_from(old(self).contents(p), 0), name@) == Some(
                    r->Ok_0,
                )
                &&& r == Err::<u64, VfsError>(VfsError::NotFound) && src is Ok ==> first_named(
                    list_from(old(self).contents(p), 0),
                    name@,
                ) is None
                &&& r == Err::<u64, VfsError>(VfsError::NotFound) ==> src == Err::<
                    InodeSource,
                    VfsError,
                >(VfsError::NotFound) || (src is Ok && is_dir && found is None)
                &&& src is Ok && is_dir && old(self).readable(p) ==> (r is Ok <==> found is Some)
                    || r == Err::<u64, VfsError>(VfsError::IoError) || r == Err::<u64, VfsError>(
                    VfsError::NotSupported,
                )
                &&& r is Err ==> r->Err_0 == VfsError::IoError || r->Err_0 == VfsError::NotSupported
                    || r->Err_0 == VfsError::NotDirectory || r->Err_0 == VfsError::NotFound
                    || r->Err_0 == VfsError::InvalidArgument || src == Err::<InodeSource, VfsError>(
                    r->Err_0,
                )
            }),
    {
        let ghost fs0 = *self;
        let parent = match self.read_inode(parent_inode) {
            Ok(i) => i,
            Err(e) => return Err(e),
        };
        proof {
            fs0.lemma_stored_inode(parent_inode, parent);
        }
        match directory_check(&parent) {
            Ok(()) => {},
            Err(e) => return Err(e),
        }
        proof {
            self.lemma_same_disk_reads(&fs0, parent);
        }
        let data = match self.read_all_blocks(&parent) {
            Ok(d) => d,
            Err(e) => return Err(e),
        };
        proof {
            law_lookup_agrees_with_listing(data@, 0, name@);
        }
        entry_in_directory(&data, name)
    }

    /// The inode reached from `ino` by the names `names`, each step taking
    /// the first entry of that name in a readable directory; `None` where a
    /// step finds no such directory or entry.
    pub open spec fn walk(&self, ino: u64, names: Seq<Seq<char>>) -> Option<u64>
        decreases names.len(),
    {
        if names.len() == 0 {
            Some(ino)
        } else {
            let p = self.stored_inode(ino);
            if self.inode_source(ino) is Ok && p.i_mode & EXT2_S_IFMT == EXT2_S_IFDIR
                && self.readable(p) {
                match find_name(self.contents(p), 0, encode_utf8(names[0])) {
                    Some(c) => self.walk(c as u64, names.drop_first()),
                    None => None,
                }
            } else {
                None
            }
        }
    }

    /// The inode that `path` names, looked up name by name from the root:
    /// where it succeeds, the inode that the walk of its names reaches;
    /// where the walk reaches nothing, an error.
    pub fn resolve_path(&mut self, path: &str) -> (r: Result<u64, VfsError>)
        requires
            old(self).wf(),
        ensures
            final(self).wf(),
            final(self).same_disk(old(self)),
            r is Ok ==> old(self).walk(2, crate::fs_service::path_names(path@)) == Some(r->Ok_0),
            old(self).walk(2, crate::fs_service::path_names(path@)) is None ==> r is Err,
    {
        let ghost fs0 = *self;
        let names = crate::fs_service::path_components(path);
        let ghost all = crate::capability::service::texts(names@);
        let mut inode: u64 = self.root_inode();
        let mut i: usize = 0;
        proof {
            assert(all.skip(0) =~= all);
        }
        while i < names.len()
            invariant
                self.wf(),
                self.same_disk(&fs0),
                fs0 == *old(self),
                i <= names@.len(),
                all == crate::capability::service::texts(names@),
                all == crate::fs_service::path_names(path@),
                all.len() == names@.len(),
                fs0.walk(2, all) == fs0.walk(inode, all.skip(i as int)),
            decreases names@.len() - i,
        {
            proof {
                assert(all.skip(i as int)[0] == names@[i as int]@);
                assert(all.skip(i as int).drop_first() =~= all.skip(i + 1));
                let p = self.stored_inode(inode);
                self.lemma_same_disk_reads(&fs0, p);
                assert(self.inode_source(inode) == fs0.inode_source(inode));
            }
            let ghost before = *self;
            let name = names[i].as_str();
            let step = self.lookup(inode, name);
            match step {
                Ok(c) => {
                    proof {
                        let p = before.stored_inode(inode);
                        assert(fs0.is_stored_inode(inode, p));
                        fs0.lemma_stored_inode(inode, p);
                        assert(name.spec_bytes() == encode_utf8(all.skip(i as int)[0]));
                        assert(find_name(fs0.contents(p), 0, encode_utf8(all.skip(i as int)[0])) == Some(c as u32));
                        assert(fs0.walk(inode, all.skip(i as int)) == fs0.walk(c, all.skip(i + 1)));
                    }
                    inode = c;
                },
                Err(e) => return Err(e),
            }
            i = i + 1;
        }
        proof {
            assert(all.skip(i as int) =~= Seq::<Seq<char>>::empty());
            assert(fs0.walk(inode, all.skip(i as int)) == Some(inode));
        }
        Ok(inode)
    }

    /// Opens `path` as the file service does: the inode it names. The file
    /// system is read-only, so where the path is missing no file is made
    /// (-22 where it has no directory part, the directory's error, or -30),
    /// and emptying it is refused.
    pub fn open_path(&mut self, path: &str, flags: u64) -> (r: Result<u64, i64>)
        requires
            old(self).wf(),
        ensures
            final(self).wf(),
            final(self).same_disk(old(self)),
            r is Ok ==> old(self).walk(2, crate::fs_service::path_names(path@)) == Some(r->Ok_0),
            old(self).walk(2, crate::fs_service::path_names(path@)) is None ==> r is Err,
    {
        let resolved = self.resolve_path(path);
        let inode = match crate::fs_server::open_step(resolved, flags) {
            crate::fs_server::OpenStep::Use(i) => i,
            crate::fs_server::OpenStep::Fail(status) => return Err(status),
            crate::fs_server::OpenStep::Create => {
                match crate::fs_service::split_parent(path) {
                    None => return crate::fs_server::created_inode(false, Err(VfsError::InvalidArgument)),
                    Some((parent, name)) => {
                        let p = match self.resolve_path(parent) {
                            Ok(p) => p,
                            Err(e) => return Err(crate::fs_service::vfs_error_to_errno(e)),
                        };
                        let created = self.create(p, name, 0o644);
                        return crate::fs_server::created_inode(true, created);
                    },
                }
            },
        };
        if crate::fs_server::truncates(flags) {
            let _ = self.truncate(inode, 0);
        }
        Ok(inode)
    }

    /// The entries of directory `inode`, in the order they are stored; those
    /// whose name is not UTF-8 are left out.
    pub fn readdir(&mut self, inode: u64) -> (r: Result<Vec<DirEntry>, VfsError>)
        requires
            old(self).wf(),
        ensures
            final(self).wf(),
            final(self).same_disk(old(self)),
            ({
                let src = old(self).inode_source(inode);
                let d = old(self).stored_inode(inode);
                let is_dir = d.i_mode & EXT2_S_IFMT == EXT2_S_IFDIR;
                &&& src is Err ==> r == Err::<Vec<DirEntry>, VfsError>(src->Err_0)
                &&& src is Ok && !is_dir ==> r == Err::<Vec<DirEntry>, VfsError>(
                    VfsError::NotDirectory,
                ) || r == Err::<Vec<DirEntry>, VfsError>(VfsError::IoError)
                &&& src is Ok && is_dir && d.i_size > MAX_DIR_DATA_SIZE ==> r == Err::<
                    Vec<DirEntry>,
                    VfsError,
                >(VfsError::InvalidArgument) || r == Err::<Vec<DirEntry>, VfsError>(
                    VfsError::IoError,
                )
                &&& src is Ok && is_dir && !old(self).readable(d) ==> r is Err
                &&& r is Ok ==> src is Ok && is_dir && old(self).readable(d) && dir_items(r->Ok_0@)
                    == list_from(old(self).contents(d), 0)
                &&& r is Err ==> r->Err_0 == VfsError::IoError || r->Err_0 == VfsError::NotSupported
                    || r->Err_0 == VfsError::NotDirectory || r->Err_0 == VfsError::InvalidArgument
                    || src == Err::<InodeSource, VfsError>(r->Err_0)
            }),
    {
        let ghost fs0 = *self;
        let dir = match self.read_inode(inode) {
            Ok(i) => i,
            Err(e) => return Err(e),
        };
        proof {
            fs0.lemma_stored_inode(inode, dir);
        }
        match directory_check(&dir) {
            Ok(()) => {},
            Err(e) => return Err(e),
        }
        proof {
            self.lemma_same_disk_reads(&fs0, dir);
        }
        let data = match self.read_all_blocks(&dir) {
            Ok(d) => d,
            Err(e) => return Err(e),
        };
        Ok(list_entries(&data))
    }

    /// The inode numbered `inode_num`, through the inode cache.
    fn read_inode(&mut self, inode_num: u64) -> (r: Result<Inode, VfsError>)
        requires
            old(self).wf(),
        ensures
            final(self).wf(),
            final(self).same_disk(old(self)),
            r is Ok ==> old(self).is_stored_inode(inode_num, r->Ok_0),
            old(self).cached_inode(inode_num) ==> r is Ok,
            old(self).inode_source(inode_num) is Err ==> r == Err::<Inode, VfsError>(
                old(self).inode_source(inode_num)->Err_0,
            ),
            r is Err ==> r->Err_0 == VfsError::IoError || old(self).inode_source(inode_num)
                == Err::<InodeSource, VfsError>(r->Err_0),
    {
        if inode_num == 0 {
            return Err(VfsError::NotFound);
        }
        if let Some(inode) = self.inode_cache.get(inode_num) {
            return Ok(inode);
        }
        let (target_block, byte_offset) = match self.inode_location(inode_num) {
            Ok(loc) => loc,
            Err(e) => return Err(e),
        };
        let inode = match self.read_record(inode_num, target_block, byte_offset) {
            Ok(i) => i,
            Err(e) => return Err(e),
        };
        let ghost c0 = self.inode_cache@;
        self.inode_cache.insert(inode_num, inode);
        proof {
            assert forall|k: u64| #[trigger]
                self.inode_cache@.contains_key(k) implies self.is_stored_inode(
                k,
                self.inode_cache@[k],
            ) by {
                if k != inode_num {
                    assert(c0.contains_key(k));
                }
            }
        }
        Ok(inode)
    }
}

} // verus!
