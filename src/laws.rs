//! Properties of decoding and addressing that hold for all inputs.
use vstd::prelude::*;
use vstd::utf8::*;
use crate::error::ObjectError;
use crate::object::{blob_tag, decode_object, envelope, header_of, outcome, Object, ObjectView};
use crate::text::{
    ascii_chars, decimal, digits_value, find_byte, is_digit, lemma_ascii_utf8, lemma_decimal,
    lemma_find_byte, lemma_find_byte_skip, size_digits, size_value, valid_size_text,
};
use crate::text::hex_lower;
use crate::tree::{after_records, kind_of, tree_entries, EntryKind, FileView};

verus! {

/// True when `t` can stand as a type tag: UTF-8 without a space or a NUL.
pub open spec fn plain_tag(t: Seq<u8>) -> bool {
    &&& valid_utf8(t)
    &&& forall|j: int| 0 <= j < t.len() ==> #[trigger] t[j] != 32u8 && t[j] != 0u8
}

/// A header made of a plain tag, a space, a size text without spaces or NULs
/// and a NUL is read as that tag and that size, whatever follows it.
pub proof fn lemma_header_parts(t: Seq<u8>, d: Seq<u8>, x: Seq<u8>)
    requires
        plain_tag(t),
        valid_size_text(d),
        forall|j: int| 0 <= j < d.len() ==> #[trigger] d[j] != 32u8 && d[j] != 0u8,
    ensures
        header_of(t + seq![32u8] + d + seq![0u8] + x) == Ok::<(Seq<char>, nat, nat), ObjectError>(
            (decode_utf8(t), size_value(d), t.len() + 1 + d.len()),
        ),
{
    let s = t + seq![32u8] + d + seq![0u8] + x;
    let after_tag = seq![32u8] + d + seq![0u8] + x;
    assert(s =~= t + after_tag);
    lemma_find_byte(after_tag, 32u8, 0);
    lemma_find_byte_skip(t, after_tag, 32u8);
    let p = t + seq![32u8] + d;
    let after_size = seq![0u8] + x;
    assert(s =~= p + after_size);
    assert forall|j: int| 0 <= j < p.len() implies p[j] != 0u8 by {
        if j < t.len() {
            assert(p[j] == t[j]);
        } else if j > t.len() {
            assert(p[j] == d[j - t.len() - 1]);
        }
    }
    lemma_find_byte(after_size, 0u8, 0);
    lemma_find_byte_skip(p, after_size, 0u8);
    assert(s.take(t.len() as int) =~= t);
    assert(s.subrange(t.len() + 1 as int, t.len() + 1 + d.len() as int) =~= d);
}

/// The envelope of a content under a plain tag has a header that gives the
/// tag and the length of the content, and ends just before the content.
pub proof fn lemma_envelope_header(t: Seq<u8>, c: Seq<u8>)
    requires
        plain_tag(t),
        c.len() <= usize::MAX,
    ensures
        header_of(envelope(t, c)) == Ok::<(Seq<char>, nat, nat), ObjectError>(
            (decode_utf8(t), c.len(), t.len() + 1 + decimal(c.len()).len()),
        ),
        envelope(t, c).skip(t.len() + 2 + decimal(c.len()).len() as int) == c,
{
    let d = decimal(c.len());
    lemma_decimal(c.len());
    assert(size_digits(d) == d) by {
        assert(is_digit(d[0]));
    }
    assert forall|j: int| 0 <= j < d.len() implies #[trigger] d[j] != 32u8 && d[j] != 0u8 by {
        assert(is_digit(d[j]));
    }
    lemma_header_parts(t, d, c);
    assert(envelope(t, c).skip(t.len() + 2 + d.len() as int) =~= c);
}

/// The serialized form over which a blob's address is computed,
/// `blob <length>\0<content>`, decodes back to a blob with that content.
pub proof fn lemma_blob_envelope_decodes(c: Seq<u8>)
    requires
        c.len() <= usize::MAX,
    ensures
        decode_object(envelope(blob_tag(), c)) == Ok::<ObjectView, ObjectError>(
            ObjectView::Blob(c),
        ),
{
    let t = blob_tag();
    lemma_ascii_utf8(t);
    reveal_strlit("blob");
    assert(ascii_chars(t) =~= "blob"@);
    lemma_envelope_header(t, c);
}

/// An envelope whose tag is neither `blob` nor `tree` fails to decode with
/// `UnknownObjectType`, whatever its content.
pub proof fn lemma_unknown_tag_fails(t: Seq<u8>, c: Seq<u8>)
    requires
        plain_tag(t),
        decode_utf8(t) != "blob"@,
        decode_utf8(t) != "tree"@,
        c.len() <= usize::MAX,
    ensures
        decode_object(envelope(t, c)) == Err::<ObjectView, ObjectError>(
            ObjectError::UnknownObjectType,
        ),
{
    lemma_envelope_header(t, c);
}

/// The header `blob 16\0` reads as type `blob`, size 16 and NUL at index 7,
/// whatever follows it.
pub proof fn lemma_blob_16_header(x: Seq<u8>)
    ensures
        header_of(seq![98u8, 108u8, 111u8, 98u8, 32u8, 49u8, 54u8, 0u8] + x) == Ok::<
            (Seq<char>, nat, nat),
            ObjectError,
        >(("blob"@, 16, 7)),
{
    let t = blob_tag();
    let d = seq![49u8, 54u8];
    lemma_ascii_utf8(t);
    reveal_strlit("blob");
    assert(ascii_chars(t) =~= "blob"@);
    assert(d.drop_last() =~= seq![49u8]);
    assert(d.drop_last().drop_last() =~= Seq::<u8>::empty());
    let one = seq![49u8];
    assert(one.drop_last() =~= Seq::<u8>::empty());
    assert(one.last() == 49u8);
    assert(digits_value(Seq::<u8>::empty()) == 0);
    assert(digits_value(one) == 1);
    assert(d.last() == 54u8);
    assert(digits_value(d) == 16);
    assert(size_digits(d) == d);
    lemma_header_parts(t, d, x);
    assert(seq![98u8, 108u8, 111u8, 98u8, 32u8, 49u8, 54u8, 0u8] + x =~= t + seq![32u8] + d
        + seq![0u8] + x);
}

/// A buffer without a space, or without a NUL, has no header.
pub proof fn lemma_header_needs_delimiters(s: Seq<u8>)
    requires
        (forall|j: int| 0 <= j < s.len() ==> s[j] != 32u8) || (forall|j: int|
            0 <= j < s.len() ==> s[j] != 0u8),
    ensures
        header_of(s) == Err::<(Seq<char>, nat, nat), ObjectError>(ObjectError::HeaderFormat),
{
    if forall|j: int| 0 <= j < s.len() ==> s[j] != 32u8 {
        lemma_find_byte(s, 32u8, s.len() as int);
    } else {
        lemma_find_byte(s, 0u8, s.len() as int);
    }
}

/// Decoding is deterministic: two decodes of the same bytes give the same
/// variant with the same fields, or the same error.
pub proof fn lemma_decode_deterministic(
    s: Seq<u8>,
    r1: Result<Object, ObjectError>,
    r2: Result<Object, ObjectError>,
)
    requires
        outcome(r1) == decode_object(s),
        outcome(r2) == decode_object(s),
    ensures
        r1 is Ok <==> r2 is Ok,
        r1 is Ok ==> r1->Ok_0@ == r2->Ok_0@,
        r1 is Err ==> r1->Err_0 == r2->Err_0,
{
}

/// A tree record: `<mode> <name>\0<digest>`.
pub open spec fn record(mode: Seq<u8>, name: Seq<u8>, digest: Seq<u8>) -> Seq<u8> {
    mode + seq![32u8] + name + seq![0u8] + digest
}

/// A record with a UTF-8 mode without spaces, a UTF-8 name without NULs and
/// a 20-byte digest, followed by any bytes, decodes to the entry it describes
/// and then to whatever those bytes decode to: records come out in the order
/// in which they are stored.
pub proof fn lemma_record_then(mode: Seq<u8>, name: Seq<u8>, digest: Seq<u8>, rest: Seq<u8>)
    requires
        valid_utf8(mode),
        forall|j: int| 0 <= j < mode.len() ==> #[trigger] mode[j] != 32u8,
        valid_utf8(name),
        forall|j: int| 0 <= j < name.len() ==> #[trigger] name[j] != 0u8,
        digest.len() == 20,
    ensures
        tree_entries(record(mode, name, digest) + rest) == after_records(
            seq![FileView { mode: decode_utf8(mode), name: decode_utf8(name), hash: hex_lower(digest) }],
            tree_entries(rest),
        ),
{
    let c = record(mode, name, digest) + rest;
    let after_mode = name + seq![0u8] + digest + rest;
    assert(c =~= mode + (seq![32u8] + after_mode));
    lemma_find_byte(seq![32u8] + after_mode, 32u8, 0);
    lemma_find_byte_skip(mode, seq![32u8] + after_mode, 32u8);
    assert(c.take(mode.len() as int) =~= mode);
    assert(c.skip(mode.len() + 1 as int) =~= after_mode);
    let after_name = digest + rest;
    assert(after_mode =~= name + (seq![0u8] + after_name));
    lemma_find_byte(seq![0u8] + after_name, 0u8, 0);
    lemma_find_byte_skip(name, seq![0u8] + after_name, 0u8);
    assert(after_mode.take(name.len() as int) =~= name);
    assert(after_mode.skip(name.len() + 1 as int) =~= after_name);
    assert(after_name.take(20) =~= digest);
    assert(after_name.skip(20) =~= rest);
}

/// True when `mode`, `name` and `digest` make a well-formed tree record: a
/// UTF-8 mode without spaces, a UTF-8 name without NULs and a 20-byte digest.
pub open spec fn well_formed_record(mode: Seq<u8>, name: Seq<u8>, digest: Seq<u8>) -> bool {
    &&& valid_utf8(mode)
    &&& forall|j: int| 0 <= j < mode.len() ==> #[trigger] mode[j] != 32u8
    &&& valid_utf8(name)
    &&& forall|j: int| 0 <= j < name.len() ==> #[trigger] name[j] != 0u8
    &&& digest.len() == 20
}

/// The records `(mode, name, digest)` of `rs`, one after the other.
pub open spec fn records_bytes(rs: Seq<(Seq<u8>, Seq<u8>, Seq<u8>)>) -> Seq<u8>
    decreases rs.len(),
{
    if rs.len() == 0 {
        Seq::empty()
    } else {
        record(rs[0].0, rs[0].1, rs[0].2) + records_bytes(rs.drop_first())
    }
}

/// A record whose digest is shorter than 20 bytes fails with `TruncatedHash`.
proof fn lemma_short_digest(mode: Seq<u8>, name: Seq<u8>, digest: Seq<u8>)
    requires
        valid_utf8(mode),
        forall|j: int| 0 <= j < mode.len() ==> #[trigger] mode[j] != 32u8,
        valid_utf8(name),
        forall|j: int| 0 <= j < name.len() ==> #[trigger] name[j] != 0u8,
        digest.len() < 20,
    ensures
        tree_entries(record(mode, name, digest)) == Err::<Seq<FileView>, ObjectError>(
            ObjectError::TruncatedHash,
        ),
{
    let c = record(mode, name, digest);
    let after_mode = name + seq![0u8] + digest;
    assert(c =~= mode + (seq![32u8] + after_mode));
    lemma_find_byte(seq![32u8] + after_mode, 32u8, 0);
    lemma_find_byte_skip(mode, seq![32u8] + after_mode, 32u8);
    assert(c.take(mode.len() as int) =~= mode);
    assert(c.skip(mode.len() + 1 as int) =~= after_mode);
    assert(after_mode =~= name + (seq![0u8] + digest));
    lemma_find_byte(seq![0u8] + digest, 0u8, 0);
    lemma_find_byte_skip(name, seq![0u8] + digest, 0u8);
    assert(after_mode.take(name.len() as int) =~= name);
    assert(after_mode.skip(name.len() + 1 as int) =~= digest);
}

/// A tree body made of well-formed records followed by a record whose digest
/// is shorter than 20 bytes fails with `TruncatedHash`: none of the complete
/// records before it is handed out.
pub proof fn lemma_short_final_digest_fails(
    rs: Seq<(Seq<u8>, Seq<u8>, Seq<u8>)>,
    mode: Seq<u8>,
    name: Seq<u8>,
    digest: Seq<u8>,
)
    requires
        forall|i: int| 0 <= i < rs.len() ==> well_formed_record(#[trigger] rs[i].0, rs[i].1, rs[i].2),
        valid_utf8(mode),
        forall|j: int| 0 <= j < mode.len() ==> #[trigger] mode[j] != 32u8,
        valid_utf8(name),
        forall|j: int| 0 <= j < name.len() ==> #[trigger] name[j] != 0u8,
        digest.len() < 20,
    ensures
        tree_entries(records_bytes(rs) + record(mode, name, digest)) == Err::<
            Seq<FileView>,
            ObjectError,
        >(ObjectError::TruncatedHash),
    decreases rs.len(),
{
    let last = record(mode, name, digest);
    if rs.len() == 0 {
        assert(records_bytes(rs) + last =~= last);
        lemma_short_digest(mode, name, digest);
    } else {
        let tail = rs.drop_first();
        assert forall|i: int| 0 <= i < tail.len() implies well_formed_record(
            #[trigger] tail[i].0,
            tail[i].1,
            tail[i].2,
        ) by {
            assert(tail[i] == rs[i + 1]);
        }
        lemma_short_final_digest_fails(tail, mode, name, digest);
        assert(well_formed_record(rs[0].0, rs[0].1, rs[0].2));
        assert(records_bytes(rs) + last =~= record(rs[0].0, rs[0].1, rs[0].2) + (records_bytes(
            tail,
        ) + last));
        lemma_record_then(rs[0].0, rs[0].1, rs[0].2, records_bytes(tail) + last);
    }
}

/// The type tag of trees, as bytes.
pub open spec fn tree_tag() -> Seq<u8> {
    seq![116u8, 114u8, 101u8, 101u8]
}

/// A tree envelope decodes to the records that its body decodes to, or fails
/// as its body does.
pub proof fn lemma_tree_envelope_decodes(body: Seq<u8>)
    requires
        body.len() <= usize::MAX,
    ensures
        decode_object(envelope(tree_tag(), body)) == match tree_entries(body) {
            Ok(files) => Ok::<ObjectView, ObjectError>(ObjectView::Tree(files)),
            Err(e) => Err::<ObjectView, ObjectError>(e),
        },
{
    let t = tree_tag();
    lemma_ascii_utf8(t);
    reveal_strlit("tree");
    reveal_strlit("blob");
    assert(ascii_chars(t) =~= "tree"@);
    assert("tree"@ != "blob"@) by {
        assert("tree"@[0] != "blob"@[0]);
    }
    lemma_envelope_header(t, body);
}

/// A tree envelope whose body is well-formed records followed by a record
/// with a digest shorter than 20 bytes fails to decode with `TruncatedHash`.
pub proof fn lemma_tree_short_final_digest_fails(
    rs: Seq<(Seq<u8>, Seq<u8>, Seq<u8>)>,
    mode: Seq<u8>,
    name: Seq<u8>,
    digest: Seq<u8>,
)
    requires
        forall|i: int| 0 <= i < rs.len() ==> well_formed_record(#[trigger] rs[i].0, rs[i].1, rs[i].2),
        valid_utf8(mode),
        forall|j: int| 0 <= j < mode.len() ==> #[trigger] mode[j] != 32u8,
        valid_utf8(name),
        forall|j: int| 0 <= j < name.len() ==> #[trigger] name[j] != 0u8,
        digest.len() < 20,
        (records_bytes(rs) + record(mode, name, digest)).len() <= usize::MAX,
    ensures
        decode_object(envelope(tree_tag(), records_bytes(rs) + record(mode, name, digest)))
            == Err::<ObjectView, ObjectError>(ObjectError::TruncatedHash),
{
    lemma_short_final_digest_fails(rs, mode, name, digest);
    lemma_tree_envelope_decodes(records_bytes(rs) + record(mode, name, digest));
}

/// Every mode outside the table of known modes is classified `Unknown`.
pub proof fn lemma_unlisted_mode_unknown(mode: Seq<char>)
    requires
        mode != "100644"@,
        mode != "100755"@,
        mode != "120000"@,
        mode != "40000"@,
        mode != "160000"@,
    ensures
        kind_of(mode) == EntryKind::Unknown,
{
}

} // verus!
