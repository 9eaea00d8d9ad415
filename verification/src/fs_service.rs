//! The rules of the file service: which capability a path needs, what open
//! flags ask for, the table of open files, and how replies are filled.

use vstd::prelude::*;
use vstd::string::StrSliceExecFns;
use vstd::utf8::encode_utf8;

use crate::text::{find_char_from, lemma_find_char_from, str_eq, str_find_char_from, str_starts_with};
use crate::vfs::{DirEntry, FileHandle, VfsError};

verus! {

/// Most open files at once.
pub const MAX_HANDLES: usize = 16;

/// Longest path a request carries, its terminating zero included.
pub const FS_PATH_MAX: usize = 512;

/// Most data bytes one reply carries.
pub const FS_DATA_MAX: usize = 4096;

/// Largest message that IPC carries.
pub const IPC_MAX_MSG_SIZE: usize = 4128;

/// Access mode bits of the open flags.
pub const O_ACCMODE: u64 = 0o3;

pub const O_WRONLY: u64 = 0o1;

pub const O_RDWR: u64 = 0o2;

pub const O_CREAT: u64 = 0o100;

pub const O_TRUNC: u64 = 0o1000;

/// The errno (negated) that a file system error is answered with.
pub open spec fn errno_of(err: VfsError) -> int {
    match err {
        VfsError::NotFound => -2,
        VfsError::PermissionDenied => -13,
        VfsError::AlreadyExists => -17,
        VfsError::IsDirectory => -21,
        VfsError::NotDirectory => -20,
        VfsError::InvalidArgument => -22,
        VfsError::IoError => -5,
        VfsError::OutOfSpace => -28,
        VfsError::ReadOnlyFs => -30,
        VfsError::TooManyOpenFiles => -24,
        VfsError::FileTooBig => -27,
        VfsError::NotSupported => -38,
    }
}

/// The negated errno for `err`.
pub fn vfs_error_to_errno(err: VfsError) -> (r: i64)
    ensures
        r == errno_of(err),
{
    match err {
        VfsError::NotFound => -2,
        VfsError::PermissionDenied => -13,
        VfsError::AlreadyExists => -17,
        VfsError::IsDirectory => -21,
        VfsError::NotDirectory => -20,
        VfsError::InvalidArgument => -22,
        VfsError::IoError => -5,
        VfsError::OutOfSpace => -28,
        VfsError::ReadOnlyFs => -30,
        VfsError::TooManyOpenFiles => -24,
        VfsError::FileTooBig => -27,
        VfsError::NotSupported => -38,
    }
}

/// The flags open for writing, or ask to create or truncate.
pub open spec fn spec_write_intent(flags: u64) -> bool {
    let acc = flags & O_ACCMODE;
    acc == O_WRONLY || acc == O_RDWR || (flags & (O_CREAT | O_TRUNC)) != 0
}

/// Whether opening with `flags` may change the file.
pub fn has_write_intent(flags: u64) -> (r: bool)
    ensures
        r == spec_write_intent(flags),
{
    let acc = flags & O_ACCMODE;
    acc == O_WRONLY || acc == O_RDWR || (flags & (O_CREAT | O_TRUNC)) != 0
}

/// Whether opening with `flags` reads: every access mode but write-only.
pub fn needs_read(flags: u64) -> (r: bool)
    ensures
        r == (flags & O_ACCMODE != O_WRONLY),
{
    let acc = flags & O_ACCMODE;
    acc != O_WRONLY
}

/// Whether opening with `flags` needs the right to write.
pub fn needs_write(flags: u64) -> (r: bool)
    ensures
        r == spec_write_intent(flags),
{
    has_write_intent(flags)
}

/// The paths that the service answers itself, with no file system.
pub open spec fn spec_special_path(path: Seq<char>) -> bool {
    path == "/var/zero"@ || path == "/dev/zero"@ || path == "/dev/null"@
}

/// Whether `path` is one of the device paths the service answers itself.
pub fn is_special_path(path: &str) -> (r: bool)
    ensures
        r == spec_special_path(path@),
{
    str_eq(path, "/var/zero") || str_eq(path, "/dev/zero") || str_eq(path, "/dev/null")
}

/// The folder of a home directory that a path lies in.
#[derive(Debug, Clone, Copy, PartialEq, Eq, Structural)]
pub enum HomeFolder {
    Documents,
    Downloads,
    Desktop,
    Pictures,
    Music,
    Videos,
    Other,
}

/// Which part of the tree a path lies in, as far as rights go.
#[derive(Debug, Clone, Copy, PartialEq, Eq, Structural)]
pub enum PathArea {
    Tmp,
    Removable,
    Home(HomeFolder),
    Anywhere,
}

/// The folder named `name` under a home directory.
pub open spec fn home_folder(name: Seq<char>) -> HomeFolder {
    if name == "Documents"@ {
        HomeFolder::Documents
    } else if name == "Downloads"@ {
        HomeFolder::Downloads
    } else if name == "Desktop"@ {
        HomeFolder::Desktop
    } else if name == "Pictures"@ {
        HomeFolder::Pictures
    } else if name == "Music"@ {
        HomeFolder::Music
    } else if name == "Videos"@ {
        HomeFolder::Videos
    } else {
        HomeFolder::Other
    }
}

/// The second `/`-separated part of `rest` (the part after the user name
/// in `/home/<user>/...`), if there is one.
pub open spec fn second_segment(rest: Seq<char>) -> Option<Seq<char>> {
    let a = find_char_from(rest, '/', 0);
    if a < rest.len() {
        Some(rest.subrange(a + 1, find_char_from(rest, '/', a + 1)))
    } else {
        None
    }
}

/// The area of the tree that `path` lies in.
pub open spec fn path_area(path: Seq<char>) -> PathArea {
    if "/tmp"@.is_prefix_of(path) || "tmp"@.is_prefix_of(path) {
        PathArea::Tmp
    } else if "/mount/removable"@.is_prefix_of(path) || "mount/removable"@.is_prefix_of(path) {
        PathArea::Removable
    } else if "/home/"@.is_prefix_of(path) {
        match second_segment(path.skip("/home/"@.len() as int)) {
            Some(folder) => PathArea::Home(home_folder(folder)),
            None => PathArea::Home(HomeFolder::Other),
        }
    } else {
        PathArea::Anywhere
    }
}

/// The capability that reading (or, with `write`, writing) in `area` needs.
pub open spec fn area_capability(area: PathArea, write: bool) -> Seq<char> {
    match area {
        PathArea::Tmp => if write {
            "fs.write.tmp"@
        } else {
            "fs.read.tmp"@
        },
        PathArea::Removable => if write {
            "fs.write.removable"@
        } else {
            "fs.read.removable"@
        },
        PathArea::Home(HomeFolder::Documents) => if write {
            "fs.write.user.documents"@
        } else {
            "fs.read.user.documents"@
        },
        PathArea::Home(HomeFolder::Downloads) => if write {
            "fs.write.user.downloads"@
        } else {
            "fs.read.user.downloads"@
        },
        PathArea::Home(HomeFolder::Desktop) => if write {
            "fs.write.user.desktop"@
        } else {
            "fs.read.user.desktop"@
        },
        PathArea::Home(HomeFolder::Pictures) => if write {
            "fs.write.user.pictures"@
        } else {
            "fs.read.user.pictures"@
        },
        PathArea::Home(HomeFolder::Music) => if write {
            "fs.write.user.music"@
        } else {
            "fs.read.user.music"@
        },
        PathArea::Home(HomeFolder::Videos) => if write {
            "fs.write.user.videos"@
        } else {
            "fs.read.user.videos"@
        },
        PathArea::Home(HomeFolder::Other) => if write {
            "fs.write.user"@
        } else {
            "fs.read.user"@
        },
        PathArea::Anywhere => if write {
            "fs.write.all"@
        } else {
            "fs.read.all"@
        },
    }
}

/// The home folder that `name` names.
fn classify_home_folder(name: &str) -> (r: HomeFolder)
    ensures
        r == home_folder(name@),
{
    if str_eq(name, "Documents") {
        HomeFolder::Documents
    } else if str_eq(name, "Downloads") {
        HomeFolder::Downloads
    } else if str_eq(name, "Desktop") {
        HomeFolder::Desktop
    } else if str_eq(name, "Pictures") {
        HomeFolder::Pictures
    } else if str_eq(name, "Music") {
        HomeFolder::Music
    } else if str_eq(name, "Videos") {
        HomeFolder::Videos
    } else {
        HomeFolder::Other
    }
}

/// The area of the tree that `path` lies in.
pub fn classify_path(path: &str) -> (r: PathArea)
    ensures
        r == path_area(path@),
{
    if str_starts_with(path, "/tmp") || str_starts_with(path, "tmp") {
        return PathArea::Tmp;
    }
    if str_starts_with(path, "/mount/removable") || str_starts_with(path, "mount/removable") {
        return PathArea::Removable;
    }
    if str_starts_with(path, "/home/") {
        proof {
            reveal_strlit("/home/");
        }
        let n = path.unicode_len();
        let rest = path.substring_char(6, n);
        let rest_len = rest.unicode_len();
        proof {
            assert(rest@ =~= path@.skip(6));
            lemma_find_char_from(rest@, '/', 0);
        }
        let a = str_find_char_from(rest, '/', 0);
        if a < rest_len {
            proof {
                lemma_find_char_from(rest@, '/', a + 1);
            }
            let b = str_find_char_from(rest, '/', a + 1);
            let folder = rest.substring_char(a + 1, b);
            return PathArea::Home(classify_home_folder(folder));
        }
        return PathArea::Home(HomeFolder::Other);
    }
    PathArea::Anywhere
}

/// The name of the capability that reading (or, with `write`, writing)
/// `path` needs.
pub fn cap_for_path(path: &str, write: bool) -> (r: &'static str)
    ensures
        r@ == area_capability(path_area(path@), write),
{
    match classify_path(path) {
        PathArea::Tmp => if write {
            "fs.write.tmp"
        } else {
            "fs.read.tmp"
        },
        PathArea::Removable => if write {
            "fs.write.removable"
        } else {
            "fs.read.removable"
        },
        PathArea::Home(HomeFolder::Documents) => if write {
            "fs.write.user.documents"
        } else {
            "fs.read.user.documents"
        },
        PathArea::Home(HomeFolder::Downloads) => if write {
            "fs.write.user.downloads"
        } else {
            "fs.read.user.downloads"
        },
        PathArea::Home(HomeFolder::Desktop) => if write {
            "fs.write.user.desktop"
        } else {
            "fs.read.user.desktop"
        },
        PathArea::Home(HomeFolder::Pictures) => if write {
            "fs.write.user.pictures"
        } else {
            "fs.read.user.pictures"
        },
        PathArea::Home(HomeFolder::Music) => if write {
            "fs.write.user.music"
        } else {
            "fs.read.user.music"
        },
        PathArea::Home(HomeFolder::Videos) => if write {
            "fs.write.user.videos"
        } else {
            "fs.read.user.videos"
        },
        PathArea::Home(HomeFolder::Other) => if write {
            "fs.write.user"
        } else {
            "fs.read.user"
        },
        PathArea::Anywhere => if write {
            "fs.write.all"
        } else {
            "fs.read.all"
        },
    }
}

/// An open file: its handle, the file system it is on, whether the service
/// answers it itself, and the path it was opened by.
#[derive(Debug)]
pub struct OpenFile {
    pub handle: FileHandle,
    pub fs_id: usize,
    pub is_special: bool,
    pub path: Vec<u8>,
}

/// What an open file holds.
pub struct OpenFileView {
    pub handle: FileHandle,
    pub fs_id: usize,
    pub is_special: bool,
    pub path: Seq<u8>,
}

impl View for OpenFile {
    type V = OpenFileView;

    open spec fn view(&self) -> OpenFileView {
        OpenFileView {
            handle: self.handle,
            fs_id: self.fs_id,
            is_special: self.is_special,
            path: self.path@,
        }
    }
}

/// The views of the slots of a table.
pub open spec fn slot_views(s: Seq<Option<OpenFile>>) -> Seq<Option<OpenFileView>> {
    s.map_values(|o: Option<OpenFile>| match o {
        Some(f) => Some(f@),
        None => None,
    })
}

/// The lowest free slot of `s`, or -1 where all are taken.
pub open spec fn first_free_slot(s: Seq<Option<OpenFileView>>) -> int
    decreases s.len(),
{
    if s.len() == 0 {
        -1
    } else {
        let r = first_free_slot(s.drop_last());
        if r >= 0 {
            r
        } else if s.last() is None {
            s.len() - 1
        } else {
            -1
        }
    }
}

pub proof fn lemma_first_free_slot(s: Seq<Option<OpenFileView>>)
    ensures
        -1 <= first_free_slot(s) < s.len(),
        first_free_slot(s) >= 0 ==> s[first_free_slot(s)] is None,
        forall|k: int|
            0 <= k < s.len() && (first_free_slot(s) == -1 || k < first_free_slot(s)) ==> s[k] is Some,
    decreases s.len(),
{
    if s.len() > 0 {
        lemma_first_free_slot(s.drop_last());
        assert forall|k: int|
            0 <= k < s.len() && (first_free_slot(s) == -1 || k < first_free_slot(s)) implies s[k] is Some by {
            if k < s.len() - 1 {
                assert(s[k] == s.drop_last()[k]);
            }
        }
    }
}

/// Once descriptor `fd` is closed, the next open gets a descriptor no
/// higher than it: descriptors are reused lowest first.
pub proof fn law_closed_descriptor_is_reused(s: Seq<Option<OpenFileView>>, fd: int)
    requires
        0 <= fd < s.len(),
    ensures
        0 <= first_free_slot(s.update(fd, None)) <= fd,
{
    let t = s.update(fd, None);
    lemma_first_free_slot(t);
    assert(t[fd] is None);
}

/// The open files of the service, by descriptor.
pub struct HandleTable {
    slots: Vec<Option<OpenFile>>,
}

impl View for HandleTable {
    type V = Seq<Option<OpenFileView>>;

    closed spec fn view(&self) -> Seq<Option<OpenFileView>> {
        slot_views(self.slots@)
    }
}

impl HandleTable {
    /// The table holds one slot per descriptor.
    pub open spec fn wf(&self) -> bool {
        self@.len() == MAX_HANDLES
    }

    /// A table with every descriptor free.
    pub fn new() -> (r: Self)
        ensures
            r@ == Seq::new(MAX_HANDLES as nat, |i: int| None::<OpenFileView>),
    {
        let mut slots: Vec<Option<OpenFile>> = Vec::new();
        let mut i: usize = 0;
        while i < MAX_HANDLES
            invariant
                i <= MAX_HANDLES,
                slots@.len() == i,
                forall|k: int| 0 <= k < i ==> #[trigger] slots@[k] is None,
            decreases MAX_HANDLES - i,
        {
            slots.push(None);
            i = i + 1;
        }
        let r = HandleTable { slots };
        proof {
            assert(r@ =~= Seq::new(MAX_HANDLES as nat, |i: int| None::<OpenFileView>));
        }
        r
    }

    /// Takes the lowest free descriptor for a file opened with `handle`;
    /// returns it, or -1 where all are taken.
    pub fn open(&mut self, handle: FileHandle, is_special: bool, path: Vec<u8>) -> (r: i64)
        requires
            old(self).wf(),
        ensures
            r == first_free_slot(old(self)@),
            r >= 0 ==> final(self)@ == old(self)@.update(
                r as int,
                Some(OpenFileView { handle, fs_id: 0, is_special, path: path@ }),
            ),
            r < 0 ==> final(self)@ == old(self)@,
    {
        proof {
            lemma_first_free_slot(self@);
        }
        let mut i: usize = 0;
        while i < self.slots.len()
            invariant
                i <= self.slots@.len(),
                self@ == old(self)@,
                self@.len() == self.slots@.len(),
                self@.len() == MAX_HANDLES,
                forall|k: int| 0 <= k < i ==> #[trigger] self@[k] is Some,
            decreases self.slots@.len() - i,
        {
            proof {
                assert(self@[i as int] == match self.slots@[i as int] {
                    Some(f) => Some(f@),
                    None => None::<OpenFileView>,
                });
            }
            if self.slots[i].is_none() {
                proof {
                    lemma_first_free_slot(self@);
                    assert(self.slots@[i as int] is None);
                    assert(self@[i as int] is None);
                    if first_free_slot(self@) >= 0 && first_free_slot(self@) < i {
                        assert(self@[first_free_slot(self@)] is Some);
                    }
                    if first_free_slot(self@) == -1 || i < first_free_slot(self@) {
                        assert(self@[i as int] is Some);
                    }
                    assert(first_free_slot(self@) == i);
                    assert(first_free_slot(old(self)@) == i);
                }
                let f = OpenFile { handle, fs_id: 0, is_special, path };
                self.slots.set(i, Some(f));
                proof {
                    assert(self@ =~= old(self)@.update(
                        i as int,
                        Some(OpenFileView { handle, fs_id: 0, is_special, path: path@ }),
                    ));
                }
                return i as i64;
            }
            i = i + 1;
        }
        proof {
            lemma_first_free_slot(self@);
            if first_free_slot(self@) >= 0 {
                assert(self@[first_free_slot(self@)] is Some);
            }
        }
        -1
    }

    /// The open file of descriptor `fd`, if it is open.
    pub fn get(&self, fd: u64) -> (r: Option<&OpenFile>)
        ensures
            match r {
                Some(f) => fd < self@.len() && self@[fd as int] == Some(f@),
                None => fd >= self@.len() || self@[fd as int] is None,
            },
    {
        if fd >= self.slots.len() as u64 {
            return None;
        }
        match &self.slots[fd as usize] {
            Some(f) => Some(f),
            None => None,
        }
    }

    /// Closes descriptor `fd`: 0, or -9 (EBADF) where it is not open.
    pub fn close(&mut self, fd: u64) -> (r: i64)
        ensures
            fd < old(self)@.len() && old(self)@[fd as int] is Some ==> r == 0 && final(self)@ == old(
                self,
            )@.update(fd as int, None),
            !(fd < old(self)@.len() && old(self)@[fd as int] is Some) ==> r == -9 && final(self)@
                == old(self)@,
    {
        if fd >= self.slots.len() as u64 || self.slots[fd as usize].is_none() {
            return -9;
        }
        self.slots.set(fd as usize, None);
        proof {
            assert(self@ =~= old(self)@.update(fd as int, None));
        }
        0
    }

    /// Moves the position of descriptor `fd` to `offset`; returns the new
    /// position as a signed number, or -9 (EBADF) where it is not open.
    pub fn seek(&mut self, fd: u64, offset: u64) -> (r: i64)
        ensures
            fd < old(self)@.len() && old(self)@[fd as int] is Some ==> {
                let f = old(self)@[fd as int]->Some_0;
                &&& r == offset as i64
                &&& final(self)@ == old(self)@.update(
                    fd as int,
                    Some(OpenFileView { handle: FileHandle { offset, ..f.handle }, ..f }),
                )
            },
            !(fd < old(self)@.len() && old(self)@[fd as int] is Some) ==> r == -9 && final(self)@
                == old(self)@,
    {
        self.set_offset(fd, offset)
    }

    /// Sets the position of descriptor `fd`; -9 (EBADF) where it is not
    /// open.
    fn set_offset(&mut self, fd: u64, offset: u64) -> (r: i64)
        ensures
            fd < old(self)@.len() && old(self)@[fd as int] is Some ==> {
                let f = old(self)@[fd as int]->Some_0;
                &&& r == offset as i64
                &&& final(self)@ == old(self)@.update(
                    fd as int,
                    Some(OpenFileView { handle: FileHandle { offset, ..f.handle }, ..f }),
                )
            },
            !(fd < old(self)@.len() && old(self)@[fd as int] is Some) ==> r == -9 && final(self)@
                == old(self)@,
    {
        if fd >= self.slots.len() as u64 || self.slots[fd as usize].is_none() {
            return -9;
        }
        let idx = fd as usize;
        let taken = self.slots.remove(idx);
        let mut f = match taken {
            Some(f) => f,
            None => {
                proof {
                    assert(false);
                }
                return -9;
            },
        };
        f.handle.offset = offset;
        self.slots.insert(idx, Some(f));
        proof {
            assert(self@ =~= old(self)@.update(
                fd as int,
                Some(OpenFileView { handle: FileHandle { offset, ..old(self)@[fd as int]->Some_0.handle }, ..old(self)@[fd as int]->Some_0 }),
            ));
        }
        offset as i64
    }

    /// Moves the position of open descriptor `fd` on by `n`, stopping at
    /// `u64::MAX`.
    pub fn advance(&mut self, fd: u64, n: u64)
        ensures
            fd < old(self)@.len() && old(self)@[fd as int] is Some ==> {
                let f = old(self)@[fd as int]->Some_0;
                let off = if f.handle.offset + n > u64::MAX {
                    u64::MAX
                } else {
                    (f.handle.offset + n) as u64
                };
                final(self)@ == old(self)@.update(
                    fd as int,
                    Some(OpenFileView { handle: FileHandle { offset: off, ..f.handle }, ..f }),
                )
            },
            !(fd < old(self)@.len() && old(self)@[fd as int] is Some) ==> final(self)@ == old(self)@,
    {
        match self.get(fd) {
            Some(f) => {
                let off = f.handle.offset.saturating_add(n);
                let _ = self.set_offset(fd, off);
            },
            None => {},
        }
    }
}

/// The length of the zero-terminated path at the start of `raw`: up to the
/// first zero byte, at most `FS_PATH_MAX` bytes.
pub open spec fn spec_path_len(raw: Seq<u8>) -> int
    decreases raw.len(),
{
    if raw.len() == 0 {
        0
    } else {
        let k = spec_path_len(raw.drop_last());
        if k < raw.len() - 1 {
            k
        } else if raw.last() == 0 {
            raw.len() - 1
        } else {
            raw.len() as int
        }
    }
}

/// The length of the zero-terminated path that a request carries.
pub fn path_len(raw: &Vec<u8>) -> (r: usize)
    ensures
        r == spec_path_len(raw@.subrange(0, if raw@.len() < FS_PATH_MAX { raw@.len() as int } else { FS_PATH_MAX as int })),
        r <= raw@.len(),
{
    let limit = if raw.len() < FS_PATH_MAX {
        raw.len()
    } else {
        FS_PATH_MAX
    };
    let ghost lim = raw@.subrange(0, limit as int);
    let mut n: usize = 0;
    while n < limit && raw[n] != 0
        invariant
            n <= limit,
            limit <= raw@.len(),
            lim == raw@.subrange(0, limit as int),
            spec_path_len(raw@.subrange(0, n as int)) == n,
            forall|k: int| 0 <= k < n ==> raw@[k] != 0,
        decreases limit - n,
    {
        proof {
            assert(raw@.subrange(0, n + 1).drop_last() =~= raw@.subrange(0, n as int));
        }
        n = n + 1;
    }
    proof {
        assert forall|m: int| n <= m <= limit implies spec_path_len(#[trigger] raw@.subrange(0, m)) == n by {
            lemma_path_len_stays(raw@, n as int, m);
        }
        assert(lim =~= raw@.subrange(0, limit as int));
    }
    n
}

proof fn lemma_path_len_stays(raw: Seq<u8>, n: int, m: int)
    requires
        0 <= n <= m <= raw.len(),
        spec_path_len(raw.subrange(0, n)) == n,
        n < m ==> raw[n] == 0,
    ensures
        spec_path_len(raw.subrange(0, m)) == n,
    decreases m - n,
{
    if m > n {
        lemma_path_len_stays(raw, n, m - 1);
        assert(raw.subrange(0, m).drop_last() =~= raw.subrange(0, m - 1));
        if m - 1 == n {
            assert(raw.subrange(0, m).last() == raw[n]);
        }
    }
}

/// The bytes by which directory entries are listed: each name's UTF-8
/// bytes.
pub open spec fn entry_names(entries: Seq<DirEntry>) -> Seq<Seq<u8>> {
    entries.map_values(|e: DirEntry| encode_utf8(e.name@))
}

/// The listing from entry `idx` on, each name followed by a newline, as
/// far as `room` bytes allow whole entries.
pub open spec fn listing_bytes(names: Seq<Seq<u8>>, idx: int, room: int) -> Seq<u8>
    decreases names.len() - idx,
{
    if idx < 0 || idx >= names.len() || names[idx].len() + 1 > room {
        Seq::empty()
    } else {
        names[idx] + seq![10u8] + listing_bytes(names, idx + 1, room - (names[idx].len() + 1))
    }
}

/// The index of the first entry from `idx` on that did not fit in `room`
/// bytes, or the number of entries where all did.
pub open spec fn listing_next(names: Seq<Seq<u8>>, idx: int, room: int) -> int
    decreases names.len() - idx,
{
    if idx < 0 || idx >= names.len() {
        names.len() as int
    } else if names[idx].len() + 1 > room {
        idx
    } else {
        listing_next(names, idx + 1, room - (names[idx].len() + 1))
    }
}

/// A page of a directory listing and the index of the entry to ask for
/// next.
pub struct ListingPage {
    pub bytes: Vec<u8>,
    pub next: usize,
}

/// A page of a directory listing: the names of `entries` from `start_index`
/// on, each followed by a newline, as many whole names as fit in
/// `max_bytes` and in one reply; and the index to ask for next (the number
/// of entries once all were sent).
pub fn list_page(entries: &Vec<DirEntry>, start_index: usize, max_bytes: usize) -> (r: ListingPage)
    ensures
        ({
            let room = if max_bytes < FS_DATA_MAX {
                max_bytes as int
            } else {
                FS_DATA_MAX as int
            };
            let names = entry_names(entries@);
            &&& r.bytes@ == listing_bytes(names, start_index as int, room)
            &&& r.next == listing_next(names, start_index as int, room)
            &&& r.bytes@.len() <= room
        }),
{
    let room = if max_bytes < FS_DATA_MAX {
        max_bytes
    } else {
        FS_DATA_MAX
    };
    let ghost names = entry_names(entries@);
    let mut out: Vec<u8> = Vec::new();
    let mut idx: usize = start_index;
    let mut left: usize = room;
    if idx >= entries.len() {
        return ListingPage { bytes: out, next: entries.len() };
    }
    while idx < entries.len()
        invariant
            start_index <= idx <= entries@.len(),
            room == if max_bytes < FS_DATA_MAX {
                max_bytes
            } else {
                FS_DATA_MAX
            },
            left <= room,
            room <= FS_DATA_MAX,
            out@.len() == room - left,
            names == entry_names(entries@),
            out@ + listing_bytes(names, idx as int, left as int) == listing_bytes(
                names,
                start_index as int,
                room as int,
            ),
            listing_next(names, idx as int, left as int) == listing_next(
                names,
                start_index as int,
                room as int,
            ),
        decreases entries@.len() - idx,
    {
        let name = entries[idx].name.as_str().as_bytes();
        proof {
            assert(names[idx as int] == name@);
        }
        if name.len() >= left {
            proof {
                assert(listing_bytes(names, idx as int, left as int) =~= Seq::<u8>::empty());
                assert(out@ + Seq::<u8>::empty() =~= out@);
            }
            return ListingPage { bytes: out, next: idx };
        }
        let ghost before = out@;
        let mut k: usize = 0;
        while k < name.len()
            invariant
                k <= name@.len(),
                out@ == before + name@.subrange(0, k as int),
            decreases name@.len() - k,
        {
            out.push(name[k]);
            k = k + 1;
            proof {
                assert(out@ =~= before + name@.subrange(0, k as int));
            }
        }
        out.push(10u8);
        proof {
            assert(name@.subrange(0, name@.len() as int) =~= name@);
            assert(out@ =~= before + (name@ + seq![10u8]));
            assert(before + (name@ + seq![10u8]) + listing_bytes(
                names,
                idx + 1,
                left - (name@.len() + 1),
            ) =~= before + listing_bytes(names, idx as int, left as int));
        }
        left = left - (name.len() + 1);
        idx = idx + 1;
    }
    proof {
        assert(listing_bytes(names, idx as int, left as int) =~= Seq::<u8>::empty());
        assert(out@ + Seq::<u8>::empty() =~= out@);
    }
    ListingPage { bytes: out, next: idx }
}

/// The reply to a read of a device path: `/dev/null` gives nothing; the
/// zero devices give `read_len` zero bytes, at most one reply's worth.
pub fn special_read_len(is_null: bool, read_len: usize) -> (r: usize)
    ensures
        is_null ==> r == 0,
        !is_null ==> r == if read_len < FS_DATA_MAX {
            read_len
        } else {
            FS_DATA_MAX
        },
{
    if is_null {
        0
    } else if read_len < FS_DATA_MAX {
        read_len
    } else {
        FS_DATA_MAX
    }
}

/// The directory part and the name of `s`, split at its last `/` (an
/// empty directory part is the root); `None` where it has no `/` or ends
/// in one.
pub open spec fn parent_and_name(s: Seq<char>) -> Option<(Seq<char>, Seq<char>)> {
    let k = crate::text::rfind_char(s, '/');
    if k < 0 || k == s.len() - 1 {
        None
    } else {
        Some(
            (
                if k == 0 {
                    "/"@
                } else {
                    s.subrange(0, k)
                },
                s.subrange(k + 1, s.len() as int),
            ),
        )
    }
}

/// Where a file created by path goes: the directory part and the name,
/// split at the last `/` (an empty directory part is the root). `None`
/// where the path has no `/` or ends in one.
pub fn split_parent(path: &str) -> (r: Option<(&str, &str)>)
    ensures
        match r {
            None => parent_and_name(path@) is None,
            Some((p, n)) => parent_and_name(path@) == Some((p@, n@)),
        },
        ({
            let s = path@;
            let k = crate::text::rfind_char(s, '/');
            match r {
                None => k < 0 || k == s.len() - 1,
                Some((p, n)) => k >= 0 && k < s.len() - 1 && n@ == s.subrange(k + 1, s.len() as int)
                    && (if k == 0 {
                    p@ == "/"@
                } else {
                    p@ == s.subrange(0, k)
                }),
            }
        }),
{
    proof {
        crate::text::lemma_rfind_char(path@, '/');
    }
    let len = path.unicode_len();
    match crate::text::str_rfind_char(path, '/') {
        None => None,
        Some(k) => {
            if k + 1 >= len {
                return None;
            }
            let name = path.substring_char(k + 1, len);
            let parent = if k == 0 {
                "/"
            } else {
                path.substring_char(0, k)
            };
            Some((parent, name))
        },
    }
}

/// The nonempty pieces of `pieces`, in order.
pub open spec fn nonempty_pieces(pieces: Seq<Seq<char>>) -> Seq<Seq<char>>
    decreases pieces.len(),
{
    if pieces.len() == 0 {
        Seq::empty()
    } else {
        let rest = nonempty_pieces(pieces.drop_last());
        if pieces.last().len() > 0 {
            rest.push(pieces.last())
        } else {
            rest
        }
    }
}

/// The names along `path`: its `/`-separated parts that are not empty.
pub open spec fn path_names(path: Seq<char>) -> Seq<Seq<char>> {
    nonempty_pieces(crate::text::split_from(path, '/', 0))
}

/// The names along `path`, from the root down, that a lookup walks.
pub fn path_components(path: &str) -> (r: Vec<String>)
    ensures
        crate::capability::service::texts(r@) == path_names(path@),
{
    let n = path.unicode_len();
    let mut out: Vec<String> = Vec::new();
    let mut from: usize = 0;
    let ghost parts = crate::text::split_from(path@, '/', 0);
    let ghost mut done: Seq<Seq<char>> = Seq::empty();
    let mut finished = false;
    proof {
        assert(crate::capability::service::texts(out@) =~= Seq::<Seq<char>>::empty());
    }
    while !finished
        invariant
            n == path@.len(),
            parts == crate::text::split_from(path@, '/', 0),
            crate::capability::service::texts(out@) == nonempty_pieces(done),
            !finished ==> from <= n,
            !finished ==> done + crate::text::split_from(path@, '/', from as int) == parts,
            finished ==> done == parts,
        decreases n + 1 - from, if finished { 0int } else { 1int },
    {
        proof {
            lemma_find_char_from(path@, '/', from as int);
        }
        let i = str_find_char_from(path, '/', from);
        let piece = path.substring_char(from, i);
        let ghost d0 = done;
        let ghost before = out@;
        if piece.unicode_len() > 0 {
            out.push(piece.to_owned());
            proof {
                assert(crate::capability::service::texts(out@) =~= crate::capability::service::texts(
                    before,
                ).push(piece@));
            }
        }
        proof {
            done = done.push(piece@);
            assert(done.drop_last() =~= d0);
        }
        if i >= n {
            finished = true;
            proof {
                assert(crate::text::split_from(path@, '/', from as int) == seq![path@.subrange(from as int, n as int)]);
                assert(done =~= parts);
            }
        } else {
            proof {
                assert(crate::text::split_from(path@, '/', from as int) == seq![path@.subrange(from as int, i as int)]
                    + crate::text::split_from(path@, '/', i + 1));
                assert(d0 + crate::text::split_from(path@, '/', from as int) =~= done
                    + crate::text::split_from(path@, '/', i + 1));
            }
            from = i + 1;
        }
    }
    out
}

/// What the kernel's answer to "does the caller hold this capability"
/// means for a request: go ahead; permission denied (-13) where it does
/// not; the kernel's error where the question failed.
pub fn caller_check(answer: Result<bool, i64>) -> (r: Result<(), i64>)
    ensures
        r == match answer {
            Ok(true) => Ok::<(), i64>(()),
            Ok(false) => Err::<(), i64>(-13i64),
            Err(e) => Err::<(), i64>(e),
        },
{
    match answer {
        Ok(true) => Ok(()),
        Ok(false) => Err(-13),
        Err(e) => Err(e),
    }
}

} // verus!
