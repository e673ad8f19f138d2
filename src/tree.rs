use vstd::prelude::*;
use vstd::utf8::*;
use crate::error::ObjectError;
use crate::text::{find_byte, hex_encode, hex_lower, position_of, same_text, utf8_text};

verus! {

/// The length of the raw digest that ends each tree record.
pub const DIGEST_LEN: usize = 20;

/// One record of a tree: the mode, the name and the hexadecimal digest of the
/// object that the record refers to.
#[derive(Debug, PartialEq)]
pub struct File {
    pub mode: String,
    pub name: String,
    pub hash: String,
}

/// The fields of a `File`, as character sequences.
pub struct FileView {
    pub mode: Seq<char>,
    pub name: Seq<char>,
    pub hash: Seq<char>,
}

impl View for File {
    type V = FileView;

    open spec fn view(&self) -> FileView {
        FileView { mode: self.mode@, name: self.name@, hash: self.hash@ }
    }
}

/// The views of a sequence of files.
pub open spec fn files_view(files: Seq<File>) -> Seq<FileView> {
    files.map_values(|f: File| f@)
}

/// What a tree record refers to, as its mode tells.
#[derive(Clone, Copy, Debug, PartialEq, Eq, Structural)]
pub enum EntryKind {
    RegularFile,
    ExecutableFile,
    Symlink,
    Subtree,
    Submodule,
    Unknown,
}

/// The kind of record that a mode denotes; every mode has one.
pub open spec fn kind_of(mode: Seq<char>) -> EntryKind {
    if mode == "100644"@ {
        EntryKind::RegularFile
    } else if mode == "100755"@ {
        EntryKind::ExecutableFile
    } else if mode == "120000"@ {
        EntryKind::Symlink
    } else if mode == "40000"@ {
        EntryKind::Subtree
    } else if mode == "160000"@ {
        EntryKind::Submodule
    } else {
        EntryKind::Unknown
    }
}

/// The object type name that goes with each kind of record.
pub open spec fn kind_type_name(k: EntryKind) -> &'static str {
    match k {
        EntryKind::RegularFile => "blob",
        EntryKind::ExecutableFile => "blob",
        EntryKind::Symlink => "symlink",
        EntryKind::Subtree => "tree",
        EntryKind::Submodule => "submodule",
        EntryKind::Unknown => "unknown",
    }
}

impl File {
    /// The kind of record, as its mode tells.
    pub fn kind(&self) -> (r: EntryKind)
        ensures
            r == kind_of(self.mode@),
    {
        let m = self.mode.as_str();
        if same_text(m, "100644") {
            EntryKind::RegularFile
        } else if same_text(m, "100755") {
            EntryKind::ExecutableFile
        } else if same_text(m, "120000") {
            EntryKind::Symlink
        } else if same_text(m, "40000") {
            EntryKind::Subtree
        } else if same_text(m, "160000") {
            EntryKind::Submodule
        } else {
            EntryKind::Unknown
        }
    }

    /// The type name of the object that the record refers to: `blob` for
    /// regular and executable files, `symlink`, `tree`, `submodule`, and
    /// `unknown` for any other mode.
    pub fn type_str(&self) -> (r: &'static str)
        ensures
            r@ == kind_type_name(kind_of(self.mode@))@,
    {
        match self.kind() {
            EntryKind::RegularFile => "blob",
            EntryKind::ExecutableFile => "blob",
            EntryKind::Symlink => "symlink",
            EntryKind::Subtree => "tree",
            EntryKind::Submodule => "submodule",
            EntryKind::Unknown => "unknown",
        }
    }
}

/// A directory listing: its records in the order in which they were stored.
#[derive(Debug)]
pub struct Tree {
    pub files: Vec<File>,
}

impl Tree {
    pub fn new(files: Vec<File>) -> (r: Tree)
        ensures
            r.files@ == files@,
    {
        Tree { files }
    }
}

/// The records of a tree body, decoded one after the other until the body
/// is used up: `<mode> <name>\0` followed by a raw digest of `DIGEST_LEN`
/// bytes, with the mode and the name in UTF-8.
pub open spec fn tree_entries(c: Seq<u8>) -> Result<Seq<FileView>, ObjectError>
    decreases c.len(),
{
    if c.len() == 0 {
        Ok(Seq::empty())
    } else {
        let sp = find_byte(c, 32);
        if sp >= c.len() {
            Err(ObjectError::TruncatedEntry)
        } else if !valid_utf8(c.take(sp as int)) {
            Err(ObjectError::Encoding)
        } else {
            let after_mode = c.skip(sp + 1 as int);
            let nul = find_byte(after_mode, 0);
            if nul >= after_mode.len() {
                Err(ObjectError::TruncatedEntry)
            } else if !valid_utf8(after_mode.take(nul as int)) {
                Err(ObjectError::Encoding)
            } else {
                let after_name = after_mode.skip(nul + 1 as int);
                if after_name.len() < DIGEST_LEN {
                    Err(ObjectError::TruncatedHash)
                } else {
                    let f = FileView {
                        mode: decode_utf8(c.take(sp as int)),
                        name: decode_utf8(after_mode.take(nul as int)),
                        hash: hex_lower(after_name.take(DIGEST_LEN as int)),
                    };
                    match tree_entries(after_name.skip(DIGEST_LEN as int)) {
                        Ok(rest) => Ok(seq![f] + rest),
                        Err(e) => Err(e),
                    }
                }
            }
        }
    }
}

/// `r` with `done` put in front of the records, when it holds records.
pub open spec fn after_records(
    done: Seq<FileView>,
    r: Result<Seq<FileView>, ObjectError>,
) -> Result<Seq<FileView>, ObjectError> {
    match r {
        Ok(rest) => Ok(done + rest),
        Err(e) => Err(e),
    }
}

/// A reading position in a byte buffer that only moves forward.
pub(crate) struct Cursor<'a> {
    pub(crate) bytes: &'a [u8],
    pub(crate) pos: usize,
}

impl<'a> Cursor<'a> {
    /// The bytes not read yet.
    pub(crate) open spec fn rest(&self) -> Seq<u8> {
        self.bytes@.subrange(self.pos as int, self.bytes@.len() as int)
    }

    pub(crate) open spec fn wf(&self) -> bool {
        self.pos <= self.bytes@.len()
    }

    pub(crate) fn is_exhausted(&self) -> (r: bool)
        requires
            self.wf(),
        ensures
            r == (self.rest().len() == 0),
    {
        self.pos == self.bytes.len()
    }

    /// Reads up to the next `delim` and past it, handing out the bytes before
    /// it; fails, and stays where it was, when no `delim` remains.
    pub(crate) fn read_until(&mut self, delim: u8) -> (r: Option<&'a [u8]>)
        requires
            old(self).wf(),
        ensures
            final(self).wf(),
            final(self).bytes@ == old(self).bytes@,
            ({
                let k = find_byte(old(self).rest(), delim);
                match r {
                    Some(b) => k < old(self).rest().len() && b@ == old(self).rest().take(k as int)
                        && final(self).rest() == old(self).rest().skip(k + 1 as int),
                    None => k >= old(self).rest().len() && final(self).rest() == old(self).rest(),
                }
            }),
    {
        let bytes: &'a [u8] = self.bytes;
        let start = self.pos;
        let end = position_of(bytes, start, delim);
        if end == bytes.len() {
            return None;
        }
        self.pos = end + 1;
        let r = vstd::slice::slice_subrange(bytes, start, end);
        assert(self.rest() =~= old(self).rest().skip(end - start + 1));
        assert(r@ =~= old(self).rest().take(end - start));
        Some(r)
    }

    /// Reads exactly `n` bytes; fails, and stays where it was, when fewer remain.
    pub(crate) fn read_exact(&mut self, n: usize) -> (r: Option<&'a [u8]>)
        requires
            old(self).wf(),
        ensures
            final(self).wf(),
            final(self).bytes@ == old(self).bytes@,
            match r {
                Some(b) => n <= old(self).rest().len() && b@ == old(self).rest().take(n as int)
                    && final(self).rest() == old(self).rest().skip(n as int),
                None => n > old(self).rest().len() && final(self).rest() == old(self).rest(),
            },
    {
        let bytes: &'a [u8] = self.bytes;
        let start = self.pos;
        if n > bytes.len() - start {
            return None;
        }
        self.pos = start + n;
        let r = vstd::slice::slice_subrange(bytes, start, start + n);
        assert(self.rest() =~= old(self).rest().skip(n as int));
        assert(r@ =~= old(self).rest().take(n as int));
        Some(r)
    }
}

/// Decodes the records of a tree body.
pub fn parse_tree(content: &[u8]) -> (r: Result<Vec<File>, ObjectError>)
    ensures
        match r {
            Ok(files) => tree_entries(content@) == Ok::<Seq<FileView>, ObjectError>(
                files_view(files@),
            ),
            Err(e) => tree_entries(content@) == Err::<Seq<FileView>, ObjectError>(e),
        },
{
    let mut cursor = Cursor { bytes: content, pos: 0 };
    let mut files: Vec<File> = Vec::new();
    assert(cursor.rest() =~= content@);
    proof {
        assert(files_view(files@) =~= Seq::<FileView>::empty());
        if let Ok(rest) = tree_entries(content@) {
            assert(Seq::<FileView>::empty() + rest =~= rest);
        }
    }
    while !cursor.is_exhausted()
        invariant
            cursor.wf(),
            cursor.bytes@ == content@,
            tree_entries(content@) == after_records(files_view(files@), tree_entries(cursor.rest())),
        decreases cursor.rest().len(),
    {
        let ghost c = cursor.rest();
        let mode_bytes = match cursor.read_until(32) {
            Some(b) => b,
            None => return Err(ObjectError::TruncatedEntry),
        };
        let mode = match utf8_text(mode_bytes) {
            Some(m) => m,
            None => return Err(ObjectError::Encoding),
        };
        let ghost after_mode = cursor.rest();
        let name_bytes = match cursor.read_until(0) {
            Some(b) => b,
            None => return Err(ObjectError::TruncatedEntry),
        };
        let name = match utf8_text(name_bytes) {
            Some(n) => n,
            None => return Err(ObjectError::Encoding),
        };
        let ghost after_name = cursor.rest();
        let digest = match cursor.read_exact(DIGEST_LEN) {
            Some(d) => d,
            None => return Err(ObjectError::TruncatedHash),
        };
        let hash = hex_encode(digest);
        let file = File { mode, name, hash };
        let ghost done = files_view(files@);
        files.push(file);
        proof {
            assert(files_view(files@) =~= done + seq![file@]);
            assert(cursor.rest() == after_name.skip(DIGEST_LEN as int));
            match tree_entries(cursor.rest()) {
                Ok(rest) => {
                    assert(done + (seq![file@] + rest) =~= files_view(files@) + rest);
                },
                Err(e) => {},
            }
        }
    }
    assert(files_view(files@) + Seq::<FileView>::empty() =~= files_view(files@));
    Ok(files)
}

} // verus!
