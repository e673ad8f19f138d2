use vstd::prelude::*;
use vstd::utf8::*;
use crate::digest::{hash, sha1_of};
use crate::error::ObjectError;
use crate::text::{
    append_bytes, decimal, find_byte, hex_lower, parse_size, position_of, push_decimal,
    same_text, size_value, utf8_text, valid_size_text,
};
use crate::tree::{files_view, parse_tree, tree_entries, FileView, Tree};

verus! {

/// The serialized form of an object: `<tag> <length>\0<content>`.
pub open spec fn envelope(tag: Seq<u8>, content: Seq<u8>) -> Seq<u8> {
    tag + seq![32u8] + decimal(content.len()) + seq![0u8] + content
}

/// The type tag of blobs, as bytes.
pub open spec fn blob_tag() -> Seq<u8> {
    seq![98u8, 108u8, 111u8, 98u8]
}

/// An object with raw content and no further structure.
#[derive(Debug)]
pub struct Blob {
    pub content: Vec<u8>,
}

impl Blob {
    pub fn new(content: Vec<u8>) -> (r: Blob)
        ensures
            r.content@ == content@,
    {
        Blob { content }
    }

    /// The content address of the blob: the hash of its serialized form
    /// `blob <length>\0<content>`.
    pub fn hash(self) -> (r: String)
        ensures
            r@ == hex_lower(sha1_of(envelope(blob_tag(), self.content@))),
            r@.len() == 40,
    {
        let mut data: Vec<u8> = vec![98u8, 108u8, 111u8, 98u8, 32u8];
        push_decimal(self.content.len(), &mut data);
        data.push(0u8);
        append_bytes(&mut data, self.content.as_slice());
        assert(data@ =~= envelope(blob_tag(), self.content@));
        hash(data.as_slice())
    }
}

/// A decoded object: a blob or a tree.
#[derive(Debug)]
pub enum Object {
    Blob(Blob),
    Tree(Tree),
}

/// What a decoded object holds.
pub enum ObjectView {
    Blob(Seq<u8>),
    Tree(Seq<FileView>),
}

impl View for Object {
    type V = ObjectView;

    open spec fn view(&self) -> ObjectView {
        match self {
            Object::Blob(b) => ObjectView::Blob(b.content@),
            Object::Tree(t) => ObjectView::Tree(files_view(t.files@)),
        }
    }
}

/// The header of an envelope `<type> <size>\0...`: the type tag, the
/// declared size and the index of the NUL that ends the header. The tag
/// runs up to the first space and the size from there to the first NUL.
/// Without a space or a NUL, or with the first NUL before the first space,
/// the header is malformed.
pub open spec fn header_of(s: Seq<u8>) -> Result<(Seq<char>, nat, nat), ObjectError> {
    let sp = find_byte(s, 32);
    let nul = find_byte(s, 0);
    if sp >= s.len() || nul >= s.len() || nul < sp {
        Err(ObjectError::HeaderFormat)
    } else if !valid_utf8(s.take(sp as int)) {
        Err(ObjectError::Encoding)
    } else if !valid_size_text(s.subrange(sp + 1 as int, nul as int)) {
        Err(ObjectError::SizeFormat)
    } else {
        Ok((decode_utf8(s.take(sp as int)), size_value(s.subrange(sp + 1 as int, nul as int)), nul))
    }
}

/// The object that the bytes of an envelope decode to: the content after the
/// header must be as long as declared; a `blob` holds it as it is, a `tree`
/// holds the records it encodes, and no other tag is known.
pub open spec fn decode_object(s: Seq<u8>) -> Result<ObjectView, ObjectError> {
    match header_of(s) {
        Err(e) => Err(e),
        Ok((tag, size, nul)) => {
            let content = s.skip(nul + 1 as int);
            if content.len() != size {
                Err(ObjectError::SizeMismatch)
            } else if tag == "blob"@ {
                Ok(ObjectView::Blob(content))
            } else if tag == "tree"@ {
                match tree_entries(content) {
                    Ok(files) => Ok(ObjectView::Tree(files)),
                    Err(e) => Err(e),
                }
            } else {
                Err(ObjectError::UnknownObjectType)
            }
        },
    }
}

/// The view of the outcome of a decode.
pub open spec fn outcome(r: Result<Object, ObjectError>) -> Result<ObjectView, ObjectError> {
    match r {
        Ok(o) => Ok(o@),
        Err(e) => Err(e),
    }
}

/// The error that reading from a decompressing stream gives.
#[verifier::external_type_specification]
#[verifier::external_body]
pub struct ExIoError(std::io::Error);

/// The decompressed content of the zlib stream `data`, or `None` where
/// `data` is no well-formed zlib stream.
pub uninterp spec fn zlib_inflated(data: Seq<u8>) -> Option<Seq<u8>>;

/// Relies on `flate2::read::ZlibDecoder` over an in-memory slice, read to its
/// end: whether it succeeds, and the bytes it gives, depend on `data` alone.
#[verifier::external_body]
fn zlib_decompress(data: &[u8]) -> (r: Result<Vec<u8>, std::io::Error>)
    ensures
        match r {
            Ok(v) => zlib_inflated(data@) == Some(v@),
            Err(_) => zlib_inflated(data@) is None,
        },
{
    let mut decoder = flate2::read::ZlibDecoder::new(data);
    let mut out: Vec<u8> = Vec::new();
    std::io::Read::read_to_end(&mut decoder, &mut out).map(|_| out)
}

impl Object {
    /// Parses the header of an envelope `<type> <size>\0...`, giving the
    /// type tag, the declared size and the index of the NUL that ends the
    /// header.
    pub fn parse_header(s: &[u8]) -> (r: Result<(String, usize, usize), ObjectError>)
        ensures
            match r {
                Ok((tag, size, nul)) => header_of(s@) == Ok::<(Seq<char>, nat, nat), ObjectError>(
                    (tag@, size as nat, nul as nat),
                ),
                Err(e) => header_of(s@) == Err::<(Seq<char>, nat, nat), ObjectError>(e),
            },
            r is Ok ==> r->Ok_0.2 < s@.len(),
    {
        let sp = position_of(s, 0, 32);
        let nul = position_of(s, 0, 0);
        assert(s@.subrange(0, s@.len() as int) =~= s@);
        if sp == s.len() || nul == s.len() || nul < sp {
            return Err(ObjectError::HeaderFormat);
        }
        let tag_bytes = vstd::slice::slice_subrange(s, 0, sp);
        let tag = match utf8_text(tag_bytes) {
            Some(t) => t,
            None => return Err(ObjectError::Encoding),
        };
        let size_text = vstd::slice::slice_subrange(s, sp + 1, nul);
        let size = match parse_size(size_text) {
            Some(n) => n,
            None => return Err(ObjectError::SizeFormat),
        };
        Ok((tag, size, nul))
    }

    /// Decodes the decompressed bytes of a loose object.
    pub fn from_bytes(s: &[u8]) -> (r: Result<Object, ObjectError>)
        ensures
            outcome(r) == decode_object(s@),
    {
        let header = Object::parse_header(s);
        let (tag, size, nul) = match header {
            Ok(h) => h,
            Err(e) => return Err(e),
        };
        let len = s.len();
        assert(header == Ok::<(String, usize, usize), ObjectError>((tag, size, nul)));
        let content = vstd::slice::slice_subrange(s, nul + 1, len);
        assert(content@ =~= s@.skip(nul + 1));
        if content.len() != size {
            return Err(ObjectError::SizeMismatch);
        }
        if same_text(tag.as_str(), "blob") {
            Ok(Object::Blob(Blob::new(vstd::slice::slice_to_vec(content))))
        } else if same_text(tag.as_str(), "tree") {
            match parse_tree(content) {
                Ok(files) => Ok(Object::Tree(Tree::new(files))),
                Err(e) => Err(e),
            }
        } else {
            Err(ObjectError::UnknownObjectType)
        }
    }

    /// Decodes a loose object as it is stored: a zlib stream of its envelope.
    pub fn from_compressed(data: &[u8]) -> (r: Result<Object, ObjectError>)
        ensures
            match zlib_inflated(data@) {
                Some(s) => outcome(r) == decode_object(s),
                None => r == Err::<Object, ObjectError>(ObjectError::Decompression),
            },
    {
        match zlib_decompress(data) {
            Ok(s) => Object::from_bytes(s.as_slice()),
            Err(_) => Err(ObjectError::Decompression),
        }
    }
}

} // verus!
