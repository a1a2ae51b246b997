//! The host side of the `Fs` capability: which handles are open, and what the
//! operations answer.
//!
//! Opening, reading and writing files is the caller's work. A failure is
//! reported as an `FsError`.

use vstd::prelude::*;
use vstd::utf8::encode_utf8;

use crate::abi::{
    alloc_enum_string, alloc_enum_tag, alloc_pair, alloc_string, areas, enum_string, result_area,
    tag_area, text_area, write_result, Area, Block, Word, MAX_TEXT,
};
use crate::http::{bytes_of, text_fits, IoKind};
use crate::strings::owned;

verus! {

/// The tags of the variants of `FsError`, in declaration order.
pub const ERR_NOT_FOUND: u32 = 0;

pub const ERR_PERMISSION_DENIED: u32 = 1;

pub const ERR_IO: u32 = 2;

/// The most bytes that one `read` gives.
pub const READ_CAP: i32 = 16777216;

/// A failure of the file system.
#[derive(Debug)]
pub enum FsError {
    NotFound(String),
    PermissionDenied(String),
    Io(String),
}

impl FsError {
    /// The tag of the variant.
    pub open spec fn tag(self) -> u32 {
        match self {
            FsError::NotFound(_) => ERR_NOT_FOUND,
            FsError::PermissionDenied(_) => ERR_PERMISSION_DENIED,
            FsError::Io(_) => ERR_IO,
        }
    }

    /// What the variant says.
    pub open spec fn text(self) -> Seq<char> {
        match self {
            FsError::NotFound(m) => m@,
            FsError::PermissionDenied(m) => m@,
            FsError::Io(m) => m@,
        }
    }

    /// The failure that an error while opening `path` is. One that is not found
    /// is told by its path.
    pub fn from_io(kind: IoKind, message: String, path: &str) -> (r: FsError)
        ensures
            r.tag() == match kind {
                IoKind::NotFound => ERR_NOT_FOUND,
                IoKind::PermissionDenied => ERR_PERMISSION_DENIED,
                _ => ERR_IO,
            },
            r.text() == match kind {
                IoKind::NotFound => path@,
                _ => message@,
            },
    {
        match kind {
            IoKind::NotFound => FsError::NotFound(owned(path)),
            IoKind::PermissionDenied => FsError::PermissionDenied(message),
            _ => FsError::Io(message),
        }
    }

    /// A failure while reading or writing.
    pub fn io(message: String) -> (r: FsError)
        ensures
            r.tag() == ERR_IO,
            r.text() == message@,
    {
        FsError::Io(message)
    }

    /// The failure for a handle that is not open.
    pub fn bad_handle() -> (r: FsError)
        ensures
            r.tag() == ERR_IO,
            r.text() == "bad file handle"@,
    {
        FsError::Io(owned("bad file handle"))
    }
}

/// The open handles, by the ids that they were given. An id is given once.
#[derive(Debug)]
pub struct FileTable {
    open: Vec<u32>,
    next_id: u32,
}

impl FileTable {
    /// The ids that are open.
    pub closed spec fn view(&self) -> Set<u32> {
        self.open@.to_set()
    }

    /// The id that is given next.
    pub closed spec fn next(&self) -> u32 {
        self.next_id
    }

    /// Every open id has been given.
    pub closed spec fn wf(&self) -> bool {
        &&& self.open@.no_duplicates()
        &&& forall|k: int| 0 <= k < self.open@.len() ==> (#[trigger] self.open@[k]) < self.next_id
    }

    /// No handles.
    pub fn new() -> (r: FileTable)
        ensures
            r.wf(),
            r@ == Set::<u32>::empty(),
            r.next() == 0,
    {
        let r = FileTable { open: Vec::new(), next_id: 0 };
        assert(r.open@.to_set() =~= Set::<u32>::empty());
        r
    }

    /// Gives an id to a file that has been opened. There are as many ids as
    /// numbers: where none is left, nothing is given.
    pub fn insert(&mut self) -> (r: Option<u32>)
        requires
            old(self).wf(),
        ensures
            final(self).wf(),
            match r {
                Some(id) => {
                    &&& id == old(self).next()
                    &&& !old(self)@.contains(id)
                    &&& final(self)@ == old(self)@.insert(id)
                    &&& final(self).next() == id + 1
                },
                None => {
                    &&& old(self).next() == u32::MAX
                    &&& final(self)@ == old(self)@
                    &&& final(self).next() == old(self).next()
                },
            },
    {
        if self.next_id == u32::MAX {
            return None;
        }
        let id: u32 = self.next_id;
        let ghost before = self.open@;
        self.next_id = id + 1;
        self.open.push(id);
        proof {
            assert(self.open@.to_set() =~= before.to_set().insert(id)) by {
                assert forall|x: u32| #[trigger] self.open@.to_set().contains(x)
                    <==> before.to_set().insert(id).contains(x) by {
                    if before.contains(x) {
                        let k = choose|k: int| 0 <= k < before.len() && before[k] == x;
                        assert(self.open@[k] == x);
                    }
                    if self.open@.contains(x) && x != id {
                        let k = choose|k: int| 0 <= k < self.open@.len() && self.open@[k] == x;
                        assert(before[k] == x);
                    }
                    assert(self.open@[before.len() as int] == id);
                }
            }
            assert(!before.to_set().contains(id)) by {
                if before.contains(id) {
                    let k = choose|k: int| 0 <= k < before.len() && before[k] == id;
                    assert(before[k] < id);
                }
            }
        }
        Some(id)
    }

    fn position(&self, id: u32) -> (r: Option<usize>)
        ensures
            match r {
                Some(k) => k < self.open@.len() && self.open@[k as int] == id,
                None => !self.open@.contains(id),
            },
    {
        let mut k: usize = 0;
        while k < self.open.len()
            invariant
                k <= self.open.len(),
                forall|j: int| 0 <= j < k ==> self.open@[j] != id,
            decreases self.open.len() - k,
        {
            if self.open[k] == id {
                return Some(k);
            }
            k += 1;
        }
        None
    }

    /// Whether a handle is open.
    pub fn is_open(&self, id: u32) -> (r: bool)
        ensures
            r == self@.contains(id),
    {
        match self.position(id) {
            Some(k) => {
                assert(self.open@.contains(id));
                true
            },
            None => false,
        }
    }

    /// Releases a handle. One that is not open is left alone.
    pub fn close(&mut self, id: u32)
        requires
            old(self).wf(),
        ensures
            final(self).wf(),
            final(self)@ == old(self)@.remove(id),
            final(self).next() == old(self).next(),
    {
        let ghost before = self.open@;
        match self.position(id) {
            Some(k) => {
                self.open.remove(k);
                proof {
                    let after = before.remove(k as int);
                    assert forall|x: u32| #[trigger] after.to_set().contains(x)
                        <==> before.to_set().remove(id).contains(x) by {
                        if before.contains(x) && x != id {
                            let j = choose|j: int| 0 <= j < before.len() && before[j] == x;
                            let to = if j < k {
                                j
                            } else {
                                j - 1
                            };
                            assert(after[to] == x);
                        }
                        if after.contains(x) {
                            let j = choose|j: int| 0 <= j < after.len() && after[j] == x;
                            let from = if j < k {
                                j
                            } else {
                                j + 1
                            };
                            assert(before[from] == x);
                            assert(before[from] != before[k as int]);
                        }
                    }
                    assert(after.to_set() =~= before.to_set().remove(id));
                    assert(self.open@ =~= after);
                    assert forall|j: int| 0 <= j < after.len() implies (#[trigger] after[j])
                        < self.next_id by {
                        let from = if j < k {
                            j
                        } else {
                            j + 1
                        };
                        assert(after[j] == before[from]);
                    }
                }
            },
            None => {
                assert(before.to_set().remove(id) =~= before.to_set());
            },
        }
    }
}

/// The number of bytes to read for a `read` of at most `max`.
pub fn read_size(max: i32) -> (r: usize)
    ensures
        r == if max < 0 {
            0
        } else if max > READ_CAP {
            READ_CAP as int
        } else {
            max as int
        },
{
    if max < 0 {
        0
    } else if max > READ_CAP {
        READ_CAP as usize
    } else {
        max as usize
    }
}

/// The blocks of a failed result.
pub open spec fn failed_areas(e: FsError) -> Seq<Area> {
    enum_string(Seq::empty(), e.tag(), encode_utf8(e.text())).push(
        result_area(false, Word::Pointer(1)),
    )
}

/// Lays out a failed result. Nothing where the message does not fit in memory.
pub fn answer_failed(e: &FsError) -> (r: Option<Vec<Block>>)
    ensures
        match r {
            Some(blocks) => text_fits(e.text()) && areas(blocks@) == failed_areas(*e),
            None => !text_fits(e.text()),
        },
{
    let (tag, bytes): (u32, Vec<u8>) = match e {
        FsError::NotFound(m) => (ERR_NOT_FOUND, bytes_of(m.as_str())),
        FsError::PermissionDenied(m) => (ERR_PERMISSION_DENIED, bytes_of(m.as_str())),
        FsError::Io(m) => (ERR_IO, bytes_of(m.as_str())),
    };
    if bytes.len() > MAX_TEXT {
        return None;
    }
    let mut out: Vec<Block> = Vec::new();
    assert(areas(out@) =~= Seq::<Area>::empty());
    alloc_enum_string(&mut out, tag, bytes);
    assert(areas(out@).len() == out@.len());
    write_result(&mut out, false);
    Some(out)
}

/// Lays out the result of opening a file: a `File` record of its id.
pub fn answer_opened(id: u32) -> (r: Vec<Block>)
    ensures
        areas(r@) == seq![tag_area(id), result_area(true, Word::Pointer(0))],
{
    let mut out: Vec<Block> = Vec::new();
    assert(areas(out@) =~= Seq::<Area>::empty());
    alloc_enum_tag(&mut out, id);
    assert(areas(out@).len() == out@.len());
    write_result(&mut out, true);
    assert(areas(out@) =~= seq![tag_area(id), result_area(true, Word::Pointer(0))]);
    out
}

/// Lays out the result of reading: the bytes. None at all is the end of the file.
pub fn answer_read(bytes: Vec<u8>) -> (r: Vec<Block>)
    requires
        bytes@.len() <= READ_CAP,
    ensures
        areas(r@) == seq![text_area(bytes@), result_area(true, Word::Pointer(0))],
{
    let mut out: Vec<Block> = Vec::new();
    assert(areas(out@) =~= Seq::<Area>::empty());
    alloc_string(&mut out, bytes);
    assert(areas(out@).len() == out@.len());
    write_result(&mut out, true);
    assert(areas(out@) =~= seq![text_area(bytes@), result_area(true, Word::Pointer(0))]);
    out
}

/// Lays out the result of writing in full.
pub fn answer_written() -> (r: Vec<Block>)
    ensures
        areas(r@) == seq![result_area(true, Word::Number(0))],
{
    let mut out: Vec<Block> = Vec::new();
    assert(areas(out@) =~= Seq::<Area>::empty());
    alloc_pair(&mut out, Word::Number(1), Word::Number(0));
    assert(areas(out@) =~= seq![result_area(true, Word::Number(0))]);
    out
}

} // verus!
