use gitobj::{hash, Blob, EntryKind, File, Object, ObjectError, Tree};
use std::io::Write;

fn envelope(tag: &str, content: &[u8]) -> Vec<u8> {
    let mut s = format!("{} {}\0", tag, content.len()).into_bytes();
    s.extend_from_slice(content);
    s
}

fn file(mode: &str) -> File {
    File {
        mode: mode.to_string(),
        name: "x".to_string(),
        hash: "00".to_string(),
    }
}

#[test]
fn header_ignores_what_follows() {
    let mut s = b"blob 16\0".to_vec();
    s.extend_from_slice(b"\0 anything \xff at all");
    assert_eq!(
        Object::parse_header(&s).unwrap(),
        ("blob".to_string(), 16, 7)
    );
}

#[test]
fn header_without_space_or_nul() {
    assert_eq!(Object::parse_header(b"blob16\0"), Err(ObjectError::HeaderFormat));
    assert_eq!(Object::parse_header(b""), Err(ObjectError::HeaderFormat));
    assert_eq!(Object::parse_header(b"a\0b c"), Err(ObjectError::HeaderFormat));
}

#[test]
fn header_size_forms() {
    assert_eq!(Object::parse_header(b"tree +12\0").unwrap(), ("tree".to_string(), 12, 8));
    assert_eq!(Object::parse_header(b"tree 007\0").unwrap(), ("tree".to_string(), 7, 8));
    assert_eq!(Object::parse_header(b"blob \0"), Err(ObjectError::SizeFormat));
    assert_eq!(Object::parse_header(b"blob +\0"), Err(ObjectError::SizeFormat));
    assert_eq!(Object::parse_header(b"blob -1\0"), Err(ObjectError::SizeFormat));
    assert_eq!(Object::parse_header(b"blob 1x\0"), Err(ObjectError::SizeFormat));
    assert_eq!(
        Object::parse_header(b"blob 99999999999999999999999\0"),
        Err(ObjectError::SizeFormat)
    );
    let max = format!("blob {}\0", usize::MAX);
    assert_eq!(Object::parse_header(max.as_bytes()).unwrap().1, usize::MAX);
}

#[test]
fn header_tag_must_be_utf8() {
    assert_eq!(Object::parse_header(b"bl\xffb 1\0"), Err(ObjectError::Encoding));
    assert_eq!(
        Object::parse_header("blöb 3\0".as_bytes()).unwrap(),
        ("blöb".to_string(), 3, 7)
    );
}

#[test]
fn blob_size_mismatch() {
    assert_eq!(
        Object::from_bytes(b"blob 0\0hi").unwrap_err(),
        ObjectError::SizeMismatch
    );
    assert_eq!(
        Object::from_bytes(b"blob 3\0hi").unwrap_err(),
        ObjectError::SizeMismatch
    );
}

#[test]
fn empty_blob_decodes() {
    let Object::Blob(blob) = Object::from_bytes(b"blob 0\0").unwrap() else {
        panic!("Expected a Blob");
    };
    assert!(blob.content.is_empty());
}

#[test]
fn unknown_object_types() {
    assert_eq!(
        Object::from_bytes(b"commit 2\0hi").unwrap_err(),
        ObjectError::UnknownObjectType
    );
    assert_eq!(
        Object::from_bytes(b"tag 0\0").unwrap_err(),
        ObjectError::UnknownObjectType
    );
    assert_eq!(
        Object::from_bytes(b"Blob 2\0hi").unwrap_err(),
        ObjectError::UnknownObjectType
    );
}

#[test]
fn empty_tree_decodes() {
    let Object::Tree(tree) = Object::from_bytes(b"tree 0\0").unwrap() else {
        panic!("Expected a tree");
    };
    assert!(tree.files.is_empty());
}

#[test]
fn tree_record_without_space_or_nul() {
    assert_eq!(
        Object::from_bytes(b"tree 6\0100644").unwrap_err(),
        ObjectError::TruncatedEntry
    );
    assert_eq!(
        Object::from_bytes(b"tree 10\0100644 abc").unwrap_err(),
        ObjectError::TruncatedEntry
    );
}

#[test]
fn tree_record_text_must_be_utf8() {
    let mut body = b"1\xff4 a\0".to_vec();
    body.extend_from_slice(&[7u8; 20]);
    assert_eq!(
        Object::from_bytes(&envelope("tree", &body)).unwrap_err(),
        ObjectError::Encoding
    );

    let mut body = b"1 \xc3(x\0".to_vec();
    body.extend_from_slice(&[7u8; 20]);
    assert_eq!(
        Object::from_bytes(&envelope("tree", &body)).unwrap_err(),
        ObjectError::Encoding
    );
}

#[test]
fn tree_digest_rendered_in_lowercase_hex() {
    let mut body = b"100755 run\0".to_vec();
    body.extend_from_slice(&[
        0xde, 0xad, 0xbe, 0xef, 0x00, 0x01, 0x0a, 0xf0, 0xff, 0x10, 0x20, 0x30, 0x40, 0x50, 0x60,
        0x70, 0x80, 0x90, 0xa0, 0xb0,
    ]);
    let s = envelope("tree", &body);
    assert!(s.starts_with(b"tree 31\0"));
    let Object::Tree(tree) = Object::from_bytes(&s).unwrap() else {
        panic!("Expected a tree");
    };
    assert_eq!(tree.files.len(), 1);
    assert_eq!(tree.files[0].mode, "100755");
    assert_eq!(tree.files[0].name, "run");
    assert_eq!(tree.files[0].hash, "deadbeef00010af0ff102030405060708090a0b0");
    assert_eq!(tree.files[0].type_str(), "blob");
}

#[test]
fn tree_record_with_short_digest() {
    let mut body = b"100644 a\0".to_vec();
    body.extend_from_slice(&[1u8; 20]);
    body.extend_from_slice(b"100644 b\0");
    body.extend_from_slice(&[2u8; 19]);
    assert_eq!(
        Object::from_bytes(&envelope("tree", &body)).unwrap_err(),
        ObjectError::TruncatedHash
    );
}

#[test]
fn decoding_twice_gives_equal_results() {
    let mut body = b"40000 sub\0".to_vec();
    body.extend_from_slice(&[9u8; 20]);
    let s = envelope("tree", &body);
    let Object::Tree(a) = Object::from_bytes(&s).unwrap() else {
        panic!("Expected a tree");
    };
    let Object::Tree(b) = Object::from_bytes(&s).unwrap() else {
        panic!("Expected a tree");
    };
    assert_eq!(a.files, b.files);
    let bad = b"tree 18\0100644 file1.txt\0\x01";
    assert_eq!(Object::from_bytes(bad).unwrap_err(), Object::from_bytes(bad).unwrap_err());
}

#[test]
fn entry_kinds_for_every_mode() {
    assert_eq!(file("100644").kind(), EntryKind::RegularFile);
    assert_eq!(file("100755").kind(), EntryKind::ExecutableFile);
    assert_eq!(file("120000").kind(), EntryKind::Symlink);
    assert_eq!(file("40000").kind(), EntryKind::Subtree);
    assert_eq!(file("160000").kind(), EntryKind::Submodule);
    assert_eq!(file("040000").kind(), EntryKind::Unknown);
    assert_eq!(file("").kind(), EntryKind::Unknown);
    assert_eq!(file("1006440").kind(), EntryKind::Unknown);
    assert_eq!(file("ünknown").kind(), EntryKind::Unknown);
}

#[test]
fn type_names_for_every_mode() {
    assert_eq!(file("100644").type_str(), "blob");
    assert_eq!(file("100755").type_str(), "blob");
    assert_eq!(file("120000").type_str(), "symlink");
    assert_eq!(file("40000").type_str(), "tree");
    assert_eq!(file("160000").type_str(), "submodule");
    assert_eq!(file("644").type_str(), "unknown");
}

#[test]
fn hash_of_empty_blob() {
    let blob = Blob::new(Vec::new());
    assert_eq!(blob.hash(), "e69de29bb2d1d6434b8b29ae775ad8c2e48c5391");
    assert_eq!(hash(b"blob 0\0"), "e69de29bb2d1d6434b8b29ae775ad8c2e48c5391");
}

#[test]
fn blob_hash_covers_multi_digit_sizes() {
    let content = vec![b'a'; 1234];
    let mut envelope = b"blob 1234\0".to_vec();
    envelope.extend_from_slice(&content);
    let expected = hash(&envelope);
    assert_eq!(expected.len(), 40);
    assert_eq!(Blob::new(content).hash(), expected);
}

#[test]
fn blob_envelope_decodes_back() {
    let content = b"hello\0world".to_vec();
    let mut envelope = b"blob 11\0".to_vec();
    envelope.extend_from_slice(&content);
    let Object::Blob(blob) = Object::from_bytes(&envelope).unwrap() else {
        panic!("Expected a Blob");
    };
    assert_eq!(blob.content, content);
}

#[test]
fn tree_new_keeps_order() {
    let tree = Tree::new(vec![file("40000"), file("100644")]);
    assert_eq!(tree.files[0].mode, "40000");
    assert_eq!(tree.files[1].mode, "100644");
}

#[test]
fn error_messages() {
    assert_eq!(ObjectError::HeaderFormat.message(), "Incorrect header format");
    assert_eq!(ObjectError::SizeMismatch.message(), "Incorrect header length");
    assert_eq!(ObjectError::TruncatedHash.message(), "Failed to read hash");
    assert_eq!(ObjectError::UnknownObjectType.message(), "Unknown object type");
    assert_eq!(ObjectError::Decompression.message(), "Could not decompress object");
}

#[test]
fn compressed_object_decodes() {
    let mut enc = flate2::write::ZlibEncoder::new(Vec::new(), flate2::Compression::default());
    enc.write_all(b"blob 16\0what is up, doc?").unwrap();
    let data = enc.finish().unwrap();
    let Object::Blob(blob) = Object::from_compressed(&data).unwrap() else {
        panic!("Expected a Blob");
    };
    assert_eq!(blob.content, b"what is up, doc?");
}

#[test]
fn compressed_garbage_fails() {
    assert_eq!(
        Object::from_compressed(b"not a zlib stream").unwrap_err(),
        ObjectError::Decompression
    );
}

#[test]
fn compressed_object_fails_as_its_bytes_do() {
    let raw = b"tree 18\0100644 file1.txt\0\x01";
    let mut enc = flate2::write::ZlibEncoder::new(Vec::new(), flate2::Compression::default());
    enc.write_all(raw).unwrap();
    let data = enc.finish().unwrap();
    assert_eq!(
        Object::from_compressed(&data).unwrap_err(),
        Object::from_bytes(raw).unwrap_err()
    );
    assert_eq!(
        Object::from_compressed(&data).unwrap_err(),
        ObjectError::TruncatedHash
    );
}
