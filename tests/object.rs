use gitobj::{hash, Blob, File, Object, ObjectError};

#[test]
fn test_object_parse_header() {
    assert_eq!(
        Object::parse_header(b"blob 16\0").unwrap(),
        ("blob".to_string(), 16, 7)
    );
}

#[test]
fn test_object_parse_header_incorrect_format() {
    assert_eq!(
        Object::parse_header(b"blob 16").unwrap_err().message(),
        "Incorrect header format"
    );
    assert_eq!(
        Object::parse_header(b"blob").unwrap_err().message(),
        "Incorrect header format"
    );
}

#[test]
fn test_object_from_bytes_for_blob() {
    let s = b"blob 16\0what is up, doc?";
    let object = Object::from_bytes(s.as_ref()).unwrap();
    let Object::Blob(blob) = object else {
        panic!("Expected a Blob");
    };
    assert_eq!(blob.content, b"what is up, doc?");
}

#[test]
fn test_object_from_bytes_for_tree() {
    let s = b"tree 107\0\
        100644 file1.txt\0\x01\x02\x03\x04\x05\x06\x07\x08\x09\x0a\x0b\x0c\x0d\x0e\x0f\x10\x11\x12\x13\x14\
        100644 file2.txt\0\x51\x52\x53\x54\x55\x56\x57\x58\x59\x5a\x5b\x5c\x5d\x5e\x5f\x60\x61\x62\x63\x64\
        40000 folder\0\x81\x82\x83\x84\x85\x86\x87\x88\x89\x8a\x8b\x8c\x8d\x8e\x8f\x90\x91\x92\x93\x94";
    let object = Object::from_bytes(s.as_ref()).unwrap();
    let Object::Tree(tree) = object else {
        panic!("Expected a tree");
    };
    assert_eq!(
        tree.files,
        vec![
            File {
                mode: "100644".to_string(),
                name: "file1.txt".to_string(),
                hash: "0102030405060708090a0b0c0d0e0f1011121314".to_string(),
            },
            File {
                mode: "100644".to_string(),
                name: "file2.txt".to_string(),
                hash: "5152535455565758595a5b5c5d5e5f6061626364".to_string(),
            },
            File {
                mode: "40000".to_string(),
                name: "folder".to_string(),
                hash: "8182838485868788898a8b8c8d8e8f9091929394".to_string(),
            },
        ]
    );
}

#[test]
fn test_object_from_bytes_for_tree_incorrect_hash_length() {
    let s = b"tree 18\0\
        100644 file1.txt\0\x01";
    let err = Object::from_bytes(s.as_ref()).unwrap_err();
    assert_eq!(err.message(), "Failed to read hash");
}

#[test]
fn test_object_from_bytes_incorrect_header_size() {
    let s = b"blob 0\0hi";
    let err = Object::from_bytes(s.as_ref()).unwrap_err();
    assert_eq!(err.message(), "Incorrect header length");
}

#[test]
fn test_blob_hash_is_correct() {
    let blob = Blob::new(b"what is up, doc?".to_vec());
    assert_eq!(blob.hash(), "bd9dbf5aae1a3862dd1526723246b20206e5fc37");
}

#[test]
fn test_hash_is_correct() {
    let s = b"blob 16\0what is up, doc?";
    assert_eq!(hash(s), "bd9dbf5aae1a3862dd1526723246b20206e5fc37");
}
