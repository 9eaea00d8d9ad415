//! Directory data: a chain of records, each a head, a name and padding up to
//! the record length.

use vstd::prelude::*;
use vstd::utf8::{decode_utf8, encode_utf8, valid_utf8};

use super::ondisk::{parse_dir_entry_header, spec_dir_entry_header, DirEntryHeader, DIR_ENTRY_HEADER_SIZE};
use crate::bytes::{copy_range, range_equals};
use crate::text::string_from_utf8;
use crate::vfs::{dir_items, DirEntry, DirItem, FileType, VfsError};

verus! {

/// The record walk stops at `off`: no room for a head, a record length
/// shorter than a head, or a record that runs past the data.
pub open spec fn walk_ends(data: Seq<u8>, off: int) -> bool {
    let h = spec_dir_entry_header(data, off);
    ||| off + 8 > data.len()
    ||| h.rec_len < 8
    ||| off + h.rec_len > data.len()
}

/// The record at `off` names a file: a nonzero inode and a nonempty name
/// that fits in the data.
pub open spec fn names_file(data: Seq<u8>, off: int) -> bool {
    let h = spec_dir_entry_header(data, off);
    &&& h.inode != 0
    &&& h.name_len > 0
    &&& off + 8 + h.name_len <= data.len()
}

/// The name bytes of the record at `off`.
pub open spec fn name_bytes(data: Seq<u8>, off: int) -> Seq<u8> {
    let h = spec_dir_entry_header(data, off);
    data.subrange(off + 8, off + 8 + h.name_len)
}

/// The inode of the first record from `off` on that names `name`.
pub open spec fn find_name(data: Seq<u8>, off: int, name: Seq<u8>) -> Option<u32>
    decreases data.len() - off,
{
    if off < 0 || walk_ends(data, off) {
        None
    } else if names_file(data, off) && name_bytes(data, off) == name {
        Some(spec_dir_entry_header(data, off).inode)
    } else {
        find_name(data, off + spec_dir_entry_header(data, off).rec_len, name)
    }
}

/// The kind of file that a directory record's type byte gives.
pub open spec fn file_type_of_byte(t: u8) -> FileType {
    if t == 2 {
        FileType::Directory
    } else if t == 7 {
        FileType::SymbolicLink
    } else {
        FileType::RegularFile
    }
}

/// The inode of the first listed entry named `name`.
pub open spec fn first_named(items: Seq<DirItem>, name: Seq<char>) -> Option<u64>
    decreases items.len(),
{
    if items.len() == 0 {
        None
    } else if items[0].name == name {
        Some(items[0].inode)
    } else {
        first_named(items.drop_first(), name)
    }
}

/// Looking a name up in directory data finds the inode of the first
/// listed entry of that name, and nothing where the listing has none.
pub proof fn law_lookup_agrees_with_listing(data: Seq<u8>, off: int, name: Seq<char>)
    ensures
        match find_name(data, off, encode_utf8(name)) {
            Some(i) => first_named(list_from(data, off), name) == Some(i as u64),
            None => first_named(list_from(data, off), name) is None,
        },
    decreases data.len() - off,
{
    if !(off < 0 || walk_ends(data, off)) {
        let h = spec_dir_entry_header(data, off);
        law_lookup_agrees_with_listing(data, off + h.rec_len, name);
        let b = name_bytes(data, off);
        vstd::utf8::encode_utf8_valid_utf8(name);
        vstd::utf8::encode_utf8_decode_utf8(name);
        if valid_utf8(b) {
            vstd::utf8::decode_utf8_encode_utf8(b);
        }
        let items = list_from(data, off);
        if names_file(data, off) && valid_utf8(b) {
            assert(items.drop_first() =~= list_from(data, off + h.rec_len));
        }
    }
}

/// The listing of the records from `off` on: each record that names a file
/// whose name is UTF-8, in order.
pub open spec fn list_from(data: Seq<u8>, off: int) -> Seq<DirItem>
    decreases data.len() - off,
{
    if off < 0 || walk_ends(data, off) {
        Seq::empty()
    } else {
        let h = spec_dir_entry_header(data, off);
        let rest = list_from(data, off + h.rec_len);
        if names_file(data, off) && valid_utf8(name_bytes(data, off)) {
            seq![
                DirItem {
                    name: decode_utf8(name_bytes(data, off)),
                    inode: h.inode as u64,
                    file_type: file_type_of_byte(h.file_type),
                },
            ] + rest
        } else {
            rest
        }
    }
}

/// The inode of the entry named `name` in directory data `data`, or
/// `NotFound` where none has that name.
pub fn entry_in_directory(data: &Vec<u8>, name: &str) -> (r: Result<u64, VfsError>)
    requires
        data@.len() <= usize::MAX - 0x10000,
    ensures
        r == match find_name(data@, 0, encode_utf8(name@)) {
            Some(i) => Ok::<u64, VfsError>(i as u64),
            None => Err::<u64, VfsError>(VfsError::NotFound),
        },
{
    match find_entry(data, name.as_bytes()) {
        Some(ino) => Ok(ino as u64),
        None => Err(VfsError::NotFound),
    }
}

/// The inode of the first entry of directory data `data` named `name`.
pub fn find_entry(data: &Vec<u8>, name: &[u8]) -> (r: Option<u32>)
    requires
        data@.len() <= usize::MAX - 0x10000,
    ensures
        r == find_name(data@, 0, name@),
{
    let size = data.len();
    let mut off: usize = 0;
    while off + DIR_ENTRY_HEADER_SIZE <= size
        invariant
            size == data@.len(),
            size <= usize::MAX - 0x10000,
            off <= size,
            find_name(data@, 0, name@) == find_name(data@, off as int, name@),
        decreases size - off,
    {
        let h: DirEntryHeader = parse_dir_entry_header(data, off);
        if h.rec_len < 8 {
            return None;
        }
        if off + h.rec_len as usize > size {
            return None;
        }
        if h.inode != 0 && h.name_len > 0 {
            let name_off = off + DIR_ENTRY_HEADER_SIZE;
            if name_off + h.name_len as usize <= size {
                if range_equals(data, name_off, h.name_len as usize, name) {
                    return Some(h.inode);
                }
            }
        }
        off = off + h.rec_len as usize;
    }
    None
}

/// The listing of directory data `data`.
pub fn list_entries(data: &Vec<u8>) -> (r: Vec<DirEntry>)
    requires
        data@.len() <= usize::MAX - 0x10000,
    ensures
        dir_items(r@) == list_from(data@, 0),
{
    let size = data.len();
    let mut entries: Vec<DirEntry> = Vec::new();
    let mut off: usize = 0;
    while off + DIR_ENTRY_HEADER_SIZE <= size
        invariant
            size == data@.len(),
            size <= usize::MAX - 0x10000,
            off <= size,
            dir_items(entries@) + list_from(data@, off as int) == list_from(data@, 0),
        decreases size - off,
    {
        let h: DirEntryHeader = parse_dir_entry_header(data, off);
        if h.rec_len < 8 || off + h.rec_len as usize > size {
            proof {
                assert(list_from(data@, off as int) =~= Seq::<DirItem>::empty());
                assert(dir_items(entries@) + Seq::<DirItem>::empty() =~= dir_items(entries@));
            }
            return entries;
        }
        let ghost before = entries@;
        if h.inode != 0 && h.name_len > 0 {
            let name_off = off + DIR_ENTRY_HEADER_SIZE;
            if name_off + h.name_len as usize <= size {
                let raw = copy_range(data, name_off, name_off + h.name_len as usize);
                match string_from_utf8(raw) {
                    Some(name) => {
                        let file_type = if h.file_type == 1 {
                            FileType::RegularFile
                        } else if h.file_type == 2 {
                            FileType::Directory
                        } else if h.file_type == 7 {
                            FileType::SymbolicLink
                        } else {
                            FileType::RegularFile
                        };
                        entries.push(DirEntry { name, inode: h.inode as u64, file_type });
                    },
                    None => {},
                }
            }
        }
        proof {
            let next = off + h.rec_len;
            assert(dir_items(entries@) + list_from(data@, next) =~= dir_items(before) + list_from(
                data@,
                off as int,
            )) by {
                if entries@.len() > before.len() {
                    assert(entries@ == before.push(entries@.last()));
                    assert(dir_items(entries@) =~= dir_items(before).push(entries@.last()@));
                }
            }
        }
        off = off + h.rec_len as usize;
    }
    proof {
        assert(list_from(data@, off as int) =~= Seq::<DirItem>::empty());
        assert(dir_items(entries@) + Seq::<DirItem>::empty() =~= dir_items(entries@));
    }
    entries
}

} // verus!
