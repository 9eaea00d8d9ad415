//! The small in-memory file service: a few named files of at most 512
//! bytes, opened by name and read in pieces of at most 128 bytes.

use vstd::prelude::*;

use crate::bytes::{le_u64, push_u64_le, read_u64_le, u64_le};

verus! {

/// Number of files.
pub const MAX_FILES: usize = 4;

/// Bytes a file can hold.
pub const FILE_SIZE: usize = 512;

/// Number of descriptors.
pub const RAM_MAX_HANDLES: usize = 16;

/// Bytes of path in a request, and of data in a reply.
pub const RAM_PATH_MAX: usize = 128;

/// Bytes in a request: three numbers and the path.
pub const RAM_REQUEST_SIZE: usize = 152;

/// Operations.
pub const RAM_OP_OPEN: u64 = 1;
pub const RAM_OP_READ: u64 = 2;
pub const RAM_OP_WRITE: u64 = 3;
pub const RAM_OP_CLOSE: u64 = 4;

/// A file: its name and contents.
pub struct RamFile {
    pub name: Vec<u8>,
    pub data: Vec<u8>,
}

/// What a file holds.
pub struct RamFileView {
    pub name: Seq<u8>,
    pub data: Seq<u8>,
}

/// An open file: which file, and where the next read starts.
#[derive(Clone, Copy)]
pub struct RamHandle {
    pub file_idx: usize,
    pub offset: usize,
}

/// A request: operation, two arguments and a path.
pub struct RamRequest {
    pub op: u64,
    pub arg1: u64,
    pub arg2: u64,
    pub path: Vec<u8>,
}

/// A reply: status, length and data.
pub struct RamReply {
    pub status: i64,
    pub data: Vec<u8>,
}

pub open spec fn file_views(s: Seq<Option<RamFile>>) -> Seq<Option<RamFileView>> {
    s.map_values(|o: Option<RamFile>| match o {
        Some(f) => Some(RamFileView { name: f.name@, data: f.data@ }),
        None => None,
    })
}

/// The text of the file that is there from the start.
pub open spec fn readme_text() -> Seq<u8> {
    "Welcome to SwiftCore OS!\nThis file is served by libc-based fs.service.\n"@.map_values(
        |c: char| c as u8,
    )
}

/// The files and the descriptors.
pub struct RamFs {
    files: Vec<Option<RamFile>>,
    handles: Vec<Option<RamHandle>>,
}

/// The index of the first file named `name`, or -1.
pub open spec fn file_named(files: Seq<Option<RamFileView>>, name: Seq<u8>) -> int
    decreases files.len(),
{
    if files.len() == 0 {
        -1
    } else {
        let r = file_named(files.drop_last(), name);
        if r >= 0 {
            r
        } else if files.last() is Some && files.last()->Some_0.name == name {
            files.len() - 1
        } else {
            -1
        }
    }
}

/// The index of the first free descriptor, or -1.
pub open spec fn free_handle(h: Seq<Option<RamHandle>>) -> int
    decreases h.len(),
{
    if h.len() == 0 {
        -1
    } else {
        let r = free_handle(h.drop_last());
        if r >= 0 {
            r
        } else if h.last() is None {
            h.len() - 1
        } else {
            -1
        }
    }
}

proof fn lemma_file_named(files: Seq<Option<RamFileView>>, name: Seq<u8>)
    ensures
        -1 <= file_named(files, name) < files.len(),
        file_named(files, name) >= 0 ==> files[file_named(files, name)] is Some
            && files[file_named(files, name)]->Some_0.name == name,
        forall|k: int|
            0 <= k < files.len() && (file_named(files, name) == -1 || k < file_named(files, name))
                ==> !(#[trigger] files[k] is Some && files[k]->Some_0.name == name),
    decreases files.len(),
{
    if files.len() > 0 {
        lemma_file_named(files.drop_last(), name);
        assert forall|k: int|
            0 <= k < files.len() && (file_named(files, name) == -1 || k < file_named(files, name)) implies !(
            #[trigger] files[k] is Some && files[k]->Some_0.name == name) by {
            if k < files.len() - 1 {
                assert(files[k] == files.drop_last()[k]);
            }
        }
    }
}

proof fn lemma_free_handle(h: Seq<Option<RamHandle>>)
    ensures
        -1 <= free_handle(h) < h.len(),
        free_handle(h) >= 0 ==> h[free_handle(h)] is None,
        forall|k: int|
            0 <= k < h.len() && (free_handle(h) == -1 || k < free_handle(h)) ==> #[trigger] h[k] is Some,
    decreases h.len(),
{
    if h.len() > 0 {
        lemma_free_handle(h.drop_last());
        assert forall|k: int|
            0 <= k < h.len() && (free_handle(h) == -1 || k < free_handle(h)) implies #[trigger] h[k] is Some by {
            if k < h.len() - 1 {
                assert(h[k] == h.drop_last()[k]);
            }
        }
    }
}

/// The name in a request's path: up to its first zero byte.
pub open spec fn request_name(path: Seq<u8>) -> Seq<u8> {
    path.subrange(0, crate::fs_service::spec_path_len(path))
}

/// What reading `len` bytes at descriptor `fd` gives: the status and the
/// bytes (at most 128, not past the end of the file).
pub open spec fn read_outcome(
    files: Seq<Option<RamFileView>>,
    handles: Seq<Option<RamHandle>>,
    fd: u64,
    len: u64,
) -> (i64, Seq<u8>) {
    if fd >= handles.len() || handles[fd as int] is None {
        (-9i64, Seq::empty())
    } else {
        let h = handles[fd as int]->Some_0;
        if h.file_idx >= files.len() || files[h.file_idx as int] is None {
            (-9i64, Seq::empty())
        } else {
            let data = files[h.file_idx as int]->Some_0.data;
            if h.offset >= data.len() {
                (0i64, Seq::empty())
            } else {
                let want = if (len as usize) < RAM_PATH_MAX {
                    len as usize as int
                } else {
                    RAM_PATH_MAX as int
                };
                let n = if h.offset + want > data.len() {
                    data.len() - h.offset
                } else {
                    want
                };
                (n as i64, data.subrange(h.offset as int, h.offset + n))
            }
        }
    }
}

/// A descriptor on a file that is there, not past its end.
pub open spec fn handle_fits(files: Seq<Option<RamFileView>>, h: RamHandle) -> bool {
    &&& h.file_idx < files.len()
    &&& files[h.file_idx as int] is Some
    &&& h.offset <= files[h.file_idx as int]->Some_0.data.len()
}

/// What opening `path` gives: the descriptor (-2 where no file has the
/// name, -1 where no descriptor is free) and the descriptors after.
pub open spec fn open_outcome(
    files: Seq<Option<RamFileView>>,
    handles: Seq<Option<RamHandle>>,
    path: Seq<u8>,
) -> (i64, Seq<Option<RamHandle>>) {
    let name = request_name(
        path.subrange(0, if path.len() < RAM_PATH_MAX { path.len() as int } else { RAM_PATH_MAX as int }),
    );
    let f = file_named(files, name);
    let h = free_handle(handles);
    if f < 0 {
        (-2i64, handles)
    } else if h < 0 {
        (-1i64, handles)
    } else {
        (h as i64, handles.update(h, Some(RamHandle { file_idx: f as usize, offset: 0 })))
    }
}

/// The descriptors after a read: the one read moves on by what was read.
pub open spec fn read_handles(
    files: Seq<Option<RamFileView>>,
    handles: Seq<Option<RamHandle>>,
    fd: u64,
    len: u64,
) -> Seq<Option<RamHandle>> {
    let status = read_outcome(files, handles, fd, len).0;
    if status > 0 {
        let h = handles[fd as int]->Some_0;
        handles.update(fd as int, Some(RamHandle { offset: (h.offset + status) as usize, ..h }))
    } else {
        handles
    }
}

/// What closing `fd` gives: 0 and the descriptor freed, or -9 (EBADF)
/// where it is not open.
pub open spec fn close_outcome(handles: Seq<Option<RamHandle>>, fd: u64) -> (i64, Seq<Option<RamHandle>>) {
    if fd < handles.len() && handles[fd as int] is Some {
        (0i64, handles.update(fd as int, None))
    } else {
        (-9i64, handles)
    }
}

/// What a request gives: the reply's status and data, and the descriptors
/// after. A write is accepted and stores nothing; any other operation is
/// answered -1.
pub open spec fn request_outcome(
    files: Seq<Option<RamFileView>>,
    handles: Seq<Option<RamHandle>>,
    op: u64,
    arg1: u64,
    arg2: u64,
    path: Seq<u8>,
) -> (i64, Seq<u8>, Seq<Option<RamHandle>>) {
    if op == RAM_OP_OPEN {
        let (s, h) = open_outcome(files, handles, path);
        (s, Seq::empty(), h)
    } else if op == RAM_OP_READ {
        let (s, d) = read_outcome(files, handles, arg1, arg2);
        (s, d, read_handles(files, handles, arg1, arg2))
    } else if op == RAM_OP_WRITE {
        (0i64, Seq::empty(), handles)
    } else if op == RAM_OP_CLOSE {
        let (s, h) = close_outcome(handles, arg1);
        (s, Seq::empty(), h)
    } else {
        (-1i64, Seq::empty(), handles)
    }
}

impl RamFs {
    pub closed spec fn files_view(&self) -> Seq<Option<RamFileView>> {
        file_views(self.files@)
    }

    pub closed spec fn handles_view(&self) -> Seq<Option<RamHandle>> {
        self.handles@
    }

    /// Four file slots, sixteen descriptors, no file longer than a file
    /// can be, and each open descriptor on a file, not past its end.
    pub open spec fn wf(&self) -> bool {
        &&& self.files_view().len() == MAX_FILES
        &&& self.handles_view().len() == RAM_MAX_HANDLES
        &&& forall|i: int|
            0 <= i < self.files_view().len() && #[trigger] self.files_view()[i] is Some
                ==> self.files_view()[i]->Some_0.data.len() <= FILE_SIZE
        &&& forall|i: int|
            0 <= i < self.handles_view().len() && #[trigger] self.handles_view()[i] is Some
                ==> handle_fits(self.files_view(), self.handles_view()[i]->Some_0)
    }

    /// The service as it starts: `readme.txt` holding the welcome text, no
    /// descriptor open.
    pub fn new() -> (r: Self)
        ensures
            r.wf(),
            r.files_view() == seq![
                Some(RamFileView { name: "readme.txt"@.map_values(|c: char| c as u8), data: readme_text() }),
                None,
                None,
                None,
            ],
            r.handles_view() == Seq::new(RAM_MAX_HANDLES as nat, |i: int| None::<RamHandle>),
    {
        let name = ascii_bytes("readme.txt");
        let data = ascii_bytes("Welcome to SwiftCore OS!\nThis file is served by libc-based fs.service.\n");
        proof {
            reveal_strlit("Welcome to SwiftCore OS!\nThis file is served by libc-based fs.service.\n");
        }
        let mut files: Vec<Option<RamFile>> = Vec::new();
        files.push(Some(RamFile { name, data }));
        files.push(None);
        files.push(None);
        files.push(None);
        let mut handles: Vec<Option<RamHandle>> = Vec::new();
        let mut i: usize = 0;
        while i < RAM_MAX_HANDLES
            invariant
                i <= RAM_MAX_HANDLES,
                handles@.len() == i,
                forall|k: int| 0 <= k < i ==> #[trigger] handles@[k] is None,
            decreases RAM_MAX_HANDLES - i,
        {
            handles.push(None);
            i = i + 1;
        }
        let r = RamFs { files, handles };
        proof {
            assert(r.files_view() =~= seq![
                Some(RamFileView { name: "readme.txt"@.map_values(|c: char| c as u8), data: readme_text() }),
                None,
                None,
                None,
            ]);
            assert(r.handles_view() =~= Seq::new(RAM_MAX_HANDLES as nat, |i: int| None::<RamHandle>));
        }
        r
    }

    /// Opens the file named by the request path: the descriptor; -1 where
    /// none is free; -2 (ENOENT) where no file has that name.
    pub fn open(&mut self, path: &Vec<u8>) -> (r: i64)
        requires
            old(self).wf(),
        ensures
            final(self).wf(),
            final(self).files_view() == old(self).files_view(),
            (r, final(self).handles_view()) == open_outcome(old(self).files_view(), old(self).handles_view(), path@),
    {
        let limit = if path.len() < RAM_PATH_MAX {
            path.len()
        } else {
            RAM_PATH_MAX
        };
        let window = crate::bytes::copy_range(path, 0, limit);
        let n = crate::fs_service::path_len(&window);
        proof {
            assert(window@.subrange(0, window@.len() as int) =~= window@);
        }
        let name = crate::bytes::copy_range(&window, 0, n);
        proof {
            assert(name@ == request_name(window@));
        }
        let mut i: usize = 0;
        let mut found: usize = MAX_FILES;
        while i < self.files.len()
            invariant_except_break
                found == MAX_FILES,
            invariant
                i <= self.files@.len(),
                self.files@.len() == MAX_FILES,
                self.files_view() == old(self).files_view(),
                forall|k: int| 0 <= k < i ==> !(#[trigger] self.files_view()[k] is Some
                    && self.files_view()[k]->Some_0.name == name@),
            ensures
                found <= MAX_FILES,
                found == MAX_FILES ==> i == MAX_FILES,
                found < MAX_FILES ==> found == i && self.files_view()[i as int] is Some
                    && self.files_view()[i as int]->Some_0.name == name@,
            decreases self.files@.len() - i,
        {
            let hit = match &self.files[i] {
                Some(f) => crate::bytes::bytes_equal(f.name.as_slice(), name.as_slice()),
                None => false,
            };
            proof {
                assert(self.files_view()[i as int] == match self.files@[i as int] {
                    Some(f) => Some(RamFileView { name: f.name@, data: f.data@ }),
                    None => None::<RamFileView>,
                });
            }
            if hit {
                found = i;
                break;
            }
            i = i + 1;
        }
        proof {
            lemma_file_named(self.files_view(), name@);
            let f = file_named(self.files_view(), name@);
            if found < MAX_FILES {
                if f >= 0 && f < found {
                    assert(!(self.files_view()[f] is Some && self.files_view()[f]->Some_0.name == name@));
                }
                if f == -1 || (found as int) < f {
                    assert(!(self.files_view()[found as int] is Some && self.files_view()[found as int]->Some_0.name == name@));
                }
            } else {
                if f >= 0 {
                    assert(!(self.files_view()[f] is Some && self.files_view()[f]->Some_0.name == name@));
                }
            }
        }
        if found == MAX_FILES {
            return -2;
        }
        let mut j: usize = 0;
        while j < self.handles.len()
            invariant
                j <= self.handles@.len(),
                self.handles@.len() == RAM_MAX_HANDLES,
                self.handles_view() == old(self).handles_view(),
                self.files_view() == old(self).files_view(),
                old(self).wf(),
                found < MAX_FILES,
                found as int == file_named(old(self).files_view(), name@),
                old(self).files_view()[found as int] is Some,
                name@ == request_name(path@.subrange(0, if path@.len() < RAM_PATH_MAX { path@.len() as int } else { RAM_PATH_MAX as int })),
                forall|k: int| 0 <= k < j ==> #[trigger] self.handles@[k] is Some,
            decreases self.handles@.len() - j,
        {
            if self.handles[j].is_none() {
                proof {
                    lemma_free_handle(self.handles_view());
                    let h = free_handle(self.handles_view());
                    if h >= 0 && h < j {
                        assert(self.handles@[h] is Some);
                    }
                    if h == -1 || (j as int) < h {
                        assert(self.handles@[j as int] is Some);
                    }
                }
                self.handles.set(j, Some(RamHandle { file_idx: found, offset: 0 }));
                proof {
                    assert(handle_fits(self.files_view(), RamHandle { file_idx: found, offset: 0 }));
                    assert forall|k: int|
                        0 <= k < self.handles_view().len() && #[trigger] self.handles_view()[k] is Some implies
                        handle_fits(self.files_view(), self.handles_view()[k]->Some_0) by {
                        if k != j {
                            assert(old(self).handles_view()[k] is Some);
                        }
                    }
                }
                return j as i64;
            }
            j = j + 1;
        }
        proof {
            lemma_free_handle(self.handles_view());
            let h = free_handle(self.handles_view());
            if h >= 0 {
                assert(self.handles@[h] is Some);
            }
        }
        -1
    }

    /// Reads at most `len` bytes (and at most 128) at descriptor `fd`,
    /// moving it on by what was read; -9 (EBADF) where `fd` is not open.
    pub fn read(&mut self, fd: u64, len: u64) -> (r: RamReply)
        requires
            old(self).wf(),
        ensures
            final(self).wf(),
            final(self).files_view() == old(self).files_view(),
            (r.status, r.data@) == read_outcome(old(self).files_view(), old(self).handles_view(), fd, len),
            final(self).handles_view() == read_handles(old(self).files_view(), old(self).handles_view(), fd, len),
    {
        if fd >= RAM_MAX_HANDLES as u64 {
            return RamReply { status: -9, data: Vec::new() };
        }
        let h = match self.handles[fd as usize] {
            Some(h) => h,
            None => return RamReply { status: -9, data: Vec::new() },
        };
        if h.file_idx >= MAX_FILES {
            return RamReply { status: -9, data: Vec::new() };
        }
        proof {
            assert(self.files_view()[h.file_idx as int] == match self.files@[h.file_idx as int] {
                Some(f) => Some(RamFileView { name: f.name@, data: f.data@ }),
                None => None::<RamFileView>,
            });
        }
        let (n, out) = match &self.files[h.file_idx] {
            None => return RamReply { status: -9, data: Vec::new() },
            Some(f) => {
                if h.offset >= f.data.len() {
                    return RamReply { status: 0, data: Vec::new() };
                }
                let want = if (len as usize) < RAM_PATH_MAX {
                    len as usize
                } else {
                    RAM_PATH_MAX
                };
                let n = if h.offset + want > f.data.len() {
                    f.data.len() - h.offset
                } else {
                    want
                };
                (n, crate::bytes::copy_range(&f.data, h.offset, h.offset + n))
            },
        };
        self.handles.set(fd as usize, Some(RamHandle { offset: h.offset + n, ..h }));
        RamReply { status: n as i64, data: out }
    }

    /// Closes descriptor `fd`: 0, or -9 (EBADF) where it is not open.
    pub fn close(&mut self, fd: u64) -> (r: i64)
        requires
            old(self).wf(),
        ensures
            final(self).wf(),
            final(self).files_view() == old(self).files_view(),
            (r, final(self).handles_view()) == close_outcome(old(self).handles_view(), fd),
    {
        if fd >= RAM_MAX_HANDLES as u64 || self.handles[fd as usize].is_none() {
            return -9;
        }
        self.handles.set(fd as usize, None);
        0
    }

    /// Answers one request and updates the descriptors as it says.
    pub fn handle(&mut self, req: &RamRequest) -> (r: RamReply)
        requires
            old(self).wf(),
        ensures
            final(self).wf(),
            final(self).files_view() == old(self).files_view(),
            (r.status, r.data@, final(self).handles_view()) == request_outcome(
                old(self).files_view(),
                old(self).handles_view(),
                req.op,
                req.arg1,
                req.arg2,
                req.path@,
            ),
            r.data@.len() <= RAM_PATH_MAX,
    {
        if req.op == RAM_OP_OPEN {
            let s = self.open(&req.path);
            RamReply { status: s, data: Vec::new() }
        } else if req.op == RAM_OP_READ {
            self.read(req.arg1, req.arg2)
        } else if req.op == RAM_OP_WRITE {
            RamReply { status: 0, data: Vec::new() }
        } else if req.op == RAM_OP_CLOSE {
            let s = self.close(req.arg1);
            RamReply { status: s, data: Vec::new() }
        } else {
            RamReply { status: -1, data: Vec::new() }
        }
    }
}

/// Two reads in a row on one open descriptor give consecutive pieces of
/// its file, starting where the descriptor stood.
pub proof fn law_reads_continue(fs: RamFs, fd: u64, len1: u64, len2: u64)
    requires
        fs.wf(),
        fd < RAM_MAX_HANDLES,
        fs.handles_view()[fd as int] is Some,
    ensures
        ({
            let files = fs.files_view();
            let h = fs.handles_view()[fd as int]->Some_0;
            let data = files[h.file_idx as int]->Some_0.data;
            let d1 = read_outcome(files, fs.handles_view(), fd, len1).1;
            let d2 = read_outcome(files, read_handles(files, fs.handles_view(), fd, len1), fd, len2).1;
            d1 + d2 == data.subrange(h.offset as int, h.offset + d1.len() + d2.len())
        }),
{
    let files = fs.files_view();
    let h = fs.handles_view()[fd as int]->Some_0;
    assert(handle_fits(files, h));
    let data = files[h.file_idx as int]->Some_0.data;
    let d1 = read_outcome(files, fs.handles_view(), fd, len1).1;
    let d2 = read_outcome(files, read_handles(files, fs.handles_view(), fd, len1), fd, len2).1;
    assert(d1 + d2 =~= data.subrange(h.offset as int, h.offset + d1.len() + d2.len()));
}

/// The bytes of an ASCII text.
fn ascii_bytes(s: &str) -> (r: Vec<u8>)
    ensures
        r@ == s@.map_values(|c: char| c as u8),
{
    let n = s.unicode_len();
    let mut out: Vec<u8> = Vec::new();
    let mut i: usize = 0;
    while i < n
        invariant
            i <= n,
            n == s@.len(),
            out@ == s@.subrange(0, i as int).map_values(|c: char| c as u8),
        decreases n - i,
    {
        let c = s.get_char(i);
        out.push(c as u8);
        i = i + 1;
        proof {
            assert(out@ =~= s@.subrange(0, i as int).map_values(|c: char| c as u8));
        }
    }
    proof {
        assert(s@.subrange(0, n as int) =~= s@);
    }
    out
}

/// The request in `b`, or `None` where it is too short.
pub fn decode_ram_request(b: &[u8]) -> (r: Option<RamRequest>)
    ensures
        b@.len() < RAM_REQUEST_SIZE ==> r is None,
        b@.len() >= RAM_REQUEST_SIZE ==> r is Some && r->Some_0.op == le_u64(b@, 0)
            && r->Some_0.arg1 == le_u64(b@, 8) && r->Some_0.arg2 == le_u64(b@, 16)
            && r->Some_0.path@ == b@.subrange(24, 152),
{
    if b.len() < RAM_REQUEST_SIZE {
        return None;
    }
    let mut path: Vec<u8> = Vec::new();
    let mut i: usize = 24;
    while i < RAM_REQUEST_SIZE
        invariant
            24 <= i <= RAM_REQUEST_SIZE,
            RAM_REQUEST_SIZE <= b@.len(),
            path@ == b@.subrange(24, i as int),
        decreases RAM_REQUEST_SIZE - i,
    {
        path.push(b[i]);
        i = i + 1;
        proof {
            assert(path@ =~= b@.subrange(24, i as int));
        }
    }
    Some(RamRequest { op: read_u64_le(b, 0), arg1: read_u64_le(b, 8), arg2: read_u64_le(b, 16), path })
}

/// The bytes of a reply: status and length little-endian, then the data
/// padded with zeros to 128 bytes.
pub fn encode_ram_reply(reply: &RamReply) -> (r: Vec<u8>)
    requires
        reply.data@.len() <= RAM_PATH_MAX,
    ensures
        r@ == u64_le(reply.status as u64) + u64_le(reply.data@.len() as u64)
            + crate::capability::client::padded_payload(reply.data@).subrange(0, RAM_PATH_MAX as int),
{
    let mut out: Vec<u8> = Vec::new();
    push_u64_le(&mut out, reply.status as u64);
    push_u64_le(&mut out, reply.data.len() as u64);
    let ghost head = out@;
    let ghost pad = crate::capability::client::padded_payload(reply.data@);
    let mut i: usize = 0;
    while i < RAM_PATH_MAX
        invariant
            i <= RAM_PATH_MAX,
            reply.data@.len() <= RAM_PATH_MAX,
            pad == crate::capability::client::padded_payload(reply.data@),
            out@ == head + pad.subrange(0, i as int),
        decreases RAM_PATH_MAX - i,
    {
        if i < reply.data.len() {
            out.push(reply.data[i]);
        } else {
            out.push(0u8);
        }
        i = i + 1;
        proof {
            assert(out@ =~= head + pad.subrange(0, i as int));
        }
    }
    out
}

} // verus!
