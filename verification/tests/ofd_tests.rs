use std::io::{Cursor, Write};

use ofd_reader::archive::EntryOutcome;
use ofd_reader::errs::OfdError;
use ofd_reader::OFD;
use zip::write::SimpleFileOptions;

/// Builds an in-memory archive. `Some(data)` makes a file entry, `None` a
/// directory entry.
fn build_archive(entries: &[(&str, Option<&[u8]>)]) -> Vec<u8> {
    let mut w = zip::ZipWriter::new(Cursor::new(Vec::new()));
    let opts = SimpleFileOptions::default().compression_method(zip::CompressionMethod::Stored);
    for (name, data) in entries {
        match data {
            Some(d) => {
                w.start_file(*name, opts).unwrap();
                w.write_all(d).unwrap();
            }
            None => {
                w.add_directory(*name, opts).unwrap();
            }
        }
    }
    w.finish().unwrap().into_inner()
}

/// Replaces every occurrence of `from` with `to` (same length) in `bytes`,
/// so stored entry names can be rewritten into shapes a writer would refuse.
fn patch_name(bytes: &mut Vec<u8>, from: &[u8], to: &[u8]) {
    assert_eq!(from.len(), to.len());
    let mut i = 0;
    while i + from.len() <= bytes.len() {
        if &bytes[i..i + from.len()] == from {
            bytes[i..i + from.len()].copy_from_slice(to);
            i += from.len();
        } else {
            i += 1;
        }
    }
}

fn sample_archive() -> Vec<u8> {
    build_archive(&[
        (
            "OFD.xml",
            Some(b"<OFD><DocBody><DocRoot>Doc_0/Document.xml</DocRoot></DocBody></OFD>" as &[u8]),
        ),
        (
            "Doc_0/Document.xml",
            Some(b"<Document><PageList>Doc_0/PageList.xml</PageList></Document>"),
        ),
        (
            "Doc_0/PageList.xml",
            Some(b"<Pages><Page/><Page/><Page/></Pages>"),
        ),
    ])
}

#[test]
fn open_rejects_wrong_extension() {
    let bytes = sample_archive();
    for path in [
        "",
        "abc",
        "abc.txt",
        "abc.OFD",
        "abc.Ofd",
        ".ofd",
        "abc.ofd.bak",
        "dir.ofd/inner.txt",
    ] {
        let r = OFD::from_local_file(path, &bytes);
        assert!(r.is_err(), "path {path:?} must be rejected");
        let msg = r.err().unwrap().to_string();
        assert!(msg.contains("filename extension invalid."), "got {msg}");
    }
}

#[test]
fn open_accepts_exact_extension() {
    let bytes = sample_archive();
    for path in ["abc.ofd", "some/dir/with.dots/abc.ofd", "a.ofd"] {
        assert!(OFD::from_local_file(path, &bytes).is_ok(), "path {path:?}");
    }
}

#[test]
fn open_rejects_invalid_archive() {
    let r = OFD::from_local_file("abc.ofd", b"this is not an archive at all");
    assert!(r.is_err());
    let msg = r.err().unwrap().to_string();
    assert!(msg.contains("init zip file error."), "got {msg}");
}

#[test]
fn open_fills_identity_fields() {
    let bytes = sample_archive();
    let ofd = OFD::from_local_file("some/dir/sample.ofd", &bytes).unwrap();
    assert_eq!(ofd.get_ofd_name(), "sample.ofd");
    assert_eq!(ofd.get_ofd_path(), "some/dir/sample.ofd");
    assert_eq!(ofd.get_unzip_root_path(), "./unzipDestDir/sample.ofd");
}

#[test]
fn sample_container_has_three_pages() {
    let bytes = sample_archive();
    let mut ofd = OFD::from_local_file("sample.ofd", &bytes).unwrap();
    assert_eq!(ofd.get_page_count().unwrap(), 3);
}

#[test]
fn page_count_is_idempotent() {
    let bytes = sample_archive();
    let mut ofd = OFD::from_local_file("sample.ofd", &bytes).unwrap();
    let first = ofd.get_page_count().unwrap();
    let second = ofd.get_page_count().unwrap();
    assert_eq!(first, 3);
    assert_eq!(first, second);
}

#[test]
fn zero_documents_is_zero_pages_not_an_error() {
    let bytes = build_archive(&[("OFD.xml", Some(b"<OFD><DocBody></DocBody></OFD>" as &[u8]))]);
    let mut ofd = OFD::from_local_file("empty.ofd", &bytes).unwrap();
    assert_eq!(ofd.get_page_count().unwrap(), 0);
}

#[test]
fn missing_document_is_unresolvable_despite_siblings() {
    let bytes = build_archive(&[
        (
            "OFD.xml",
            Some(
                b"<OFD><DocRoot>Doc_0/Document.xml</DocRoot><DocRoot>Doc_1/Document.xml</DocRoot></OFD>"
                    as &[u8],
            ),
        ),
        (
            "Doc_0/Document.xml",
            Some(b"<Document><PageList>Doc_0/PageList.xml</PageList></Document>"),
        ),
        ("Doc_0/PageList.xml", Some(b"<Pages><Page/></Pages>")),
    ]);
    let mut ofd = OFD::from_local_file("partial.ofd", &bytes).unwrap();
    let r = ofd.get_page_count();
    assert!(r.is_err());
    let msg = r.err().unwrap().to_string();
    assert!(msg.contains("referenced document unresolvable."), "got {msg}");
}

#[test]
fn resolution_failure_does_not_poison_the_handle() {
    let bytes = build_archive(&[("README.txt", Some(b"no root descriptor here" as &[u8]))]);
    let mut ofd = OFD::from_local_file("norroot.ofd", &bytes).unwrap();
    let first = ofd.get_page_count();
    assert!(first.err().unwrap().to_string().contains("root descriptor not found."));
    let second = ofd.get_page_count();
    assert!(second.err().unwrap().to_string().contains("root descriptor not found."));
}

#[test]
fn malformed_root_descriptor_is_a_parse_error() {
    let bytes = build_archive(&[("OFD.xml", Some(b"<OFD><DocBody></OFD>" as &[u8]))]);
    let mut ofd = OFD::from_local_file("broken.ofd", &bytes).unwrap();
    let msg = ofd.get_page_count().err().unwrap().to_string();
    assert!(msg.contains("failed to parse descriptor xml."), "got {msg}");
}

#[test]
fn traversal_and_absolute_entries_are_skipped_not_fatal() {
    let mut bytes = build_archive(&[
        ("AB/CD/evil.txt", Some(b"gotcha" as &[u8])),
        ("Xabs.txt", Some(b"abs" as &[u8])),
        ("good.txt", Some(b"fine" as &[u8])),
    ]);
    patch_name(&mut bytes, b"AB/CD/evil.txt", b"../../evil.txt");
    patch_name(&mut bytes, b"Xabs.txt", b"/abs.txt");
    let ofd = OFD::from_local_file("bad.ofd", &bytes).unwrap();
    let entries = ofd.extracted_entries();
    assert_eq!(entries.len(), 3);
    let mut skipped = Vec::new();
    for e in entries {
        match e {
            EntryOutcome::File { path, data } => {
                // no extracted path escapes the destination
                let p = String::from_utf8(path.clone()).unwrap();
                assert!(!p.starts_with('/'));
                assert!(!p.split('/').any(|c| c == ".."));
                assert_eq!(p, "good.txt");
                assert_eq!(data.as_slice(), &b"fine"[..]);
            }
            EntryOutcome::Dir { .. } => panic!("no directory entries in this archive"),
            EntryOutcome::Skipped { name } => skipped.push(String::from_utf8(name.clone()).unwrap()),
        }
    }
    skipped.sort();
    assert_eq!(skipped, vec!["../../evil.txt".to_string(), "/abs.txt".to_string()]);
}

#[test]
fn curdir_and_doubled_separators_extract_in_place() {
    // "./cur.txt" and "a//b.txt" resolve inside the destination and keep
    // their stored path verbatim
    let mut bytes = build_archive(&[
        ("X/cur.txt", Some(b"c" as &[u8])),
        ("a/Xb.txt", Some(b"d" as &[u8])),
    ]);
    patch_name(&mut bytes, b"X/cur.txt", b"./cur.txt");
    patch_name(&mut bytes, b"a/Xb.txt", b"a//b.txt");
    let ofd = OFD::from_local_file("dots.ofd", &bytes).unwrap();
    let entries = ofd.extracted_entries();
    assert_eq!(entries.len(), 2);
    match &entries[0] {
        EntryOutcome::File { path, data } => {
            assert_eq!(path.as_slice(), &b"./cur.txt"[..]);
            assert_eq!(data.as_slice(), &b"c"[..]);
        }
        _ => panic!("first entry is a file"),
    }
    match &entries[1] {
        EntryOutcome::File { path, .. } => assert_eq!(path.as_slice(), &b"a//b.txt"[..]),
        _ => panic!("second entry is a file"),
    }
}

#[test]
fn inner_traversal_and_backslash_names_are_skipped() {
    // paths that mention ".." anywhere, and windows-style separators, are
    // treated as unsafe rather than reinterpreted
    let mut bytes = build_archive(&[
        ("a/ZZ/b.txt", Some(b"x" as &[u8])),
        ("aXb.txt", Some(b"y" as &[u8])),
    ]);
    patch_name(&mut bytes, b"a/ZZ/b.txt", b"a/../b.txt");
    patch_name(&mut bytes, b"aXb.txt", b"a\\b.txt");
    let ofd = OFD::from_local_file("odd.ofd", &bytes).unwrap();
    let entries = ofd.extracted_entries();
    assert_eq!(entries.len(), 2);
    assert!(matches!(&entries[0], EntryOutcome::Skipped { .. }));
    assert!(matches!(&entries[1], EntryOutcome::Skipped { .. }));
}

#[test]
fn extraction_preserves_paths_and_content() {
    let bytes = build_archive(&[
        ("a/", None),
        ("a/b.txt", Some(b"hello bytes \x00\x01\x02" as &[u8])),
        ("top.txt", Some(b"" as &[u8])),
    ]);
    let ofd = OFD::from_local_file("tree.ofd", &bytes).unwrap();
    let entries = ofd.extracted_entries();
    assert_eq!(entries.len(), 3);
    match &entries[0] {
        EntryOutcome::Dir { path } => assert_eq!(path.as_slice(), &b"a"[..]),
        _ => panic!("first entry is a directory"),
    }
    match &entries[1] {
        EntryOutcome::File { path, data } => {
            assert_eq!(path.as_slice(), &b"a/b.txt"[..]);
            assert_eq!(data.as_slice(), &b"hello bytes \x00\x01\x02"[..]);
        }
        _ => panic!("second entry is a file"),
    }
    match &entries[2] {
        EntryOutcome::File { path, data } => {
            assert_eq!(path.as_slice(), &b"top.txt"[..]);
            assert_eq!(data.as_slice(), &b""[..]);
        }
        _ => panic!("third entry is a file"),
    }
}

#[test]
fn corrupt_entry_aborts_extraction() {
    let mut bytes = build_archive(&[("x.txt", Some(b"hello-corruptible-payload" as &[u8]))]);
    // flip a payload byte so the checksum no longer matches
    let pos = bytes
        .windows(b"hello-corruptible-payload".len())
        .position(|w| w == b"hello-corruptible-payload")
        .unwrap();
    bytes[pos] ^= 0xff;
    let r = OFD::from_local_file("corrupt.ofd", &bytes);
    assert!(r.is_err());
    let msg = r.err().unwrap().to_string();
    assert!(msg.contains("err occurs during unzip"), "got {msg}");
}

#[test]
fn error_to_string_format() {
    let e = OfdError::from("some message", "some detail".to_string());
    assert_eq!(e.to_string(), "\n===> err=some message extra=some detail <===");
}

#[test]
fn empty_page_list_means_zero_pages_for_that_document() {
    let bytes = build_archive(&[
        ("OFD.xml", Some(b"<OFD><DocRoot>D/Document.xml</DocRoot></OFD>" as &[u8])),
        ("D/Document.xml", Some(b"<Document><PageList>D/PL.xml</PageList></Document>")),
        ("D/PL.xml", Some(b"<Pages></Pages>")),
    ]);
    let mut ofd = OFD::from_local_file("zeropages.ofd", &bytes).unwrap();
    assert_eq!(ofd.get_page_count().unwrap(), 0);
}

#[test]
fn pages_sum_across_documents_in_declaration_order() {
    let bytes = build_archive(&[
        (
            "OFD.xml",
            Some(b"<OFD><DocRoot>A/Document.xml</DocRoot><DocRoot>B/Document.xml</DocRoot></OFD>"
                as &[u8]),
        ),
        ("A/Document.xml", Some(b"<Document><PageList>A/PL.xml</PageList></Document>")),
        ("A/PL.xml", Some(b"<Pages><Page/><Page/></Pages>")),
        ("B/Document.xml", Some(b"<Document><PageList>B/PL.xml</PageList></Document>")),
        ("B/PL.xml", Some(b"<Pages><Page/><Page/><Page/><Page/></Pages>")),
    ]);
    let mut ofd = OFD::from_local_file("multi.ofd", &bytes).unwrap();
    assert_eq!(ofd.get_page_count().unwrap(), 6);
}

#[test]
fn document_without_page_list_is_unresolvable() {
    let bytes = build_archive(&[
        ("OFD.xml", Some(b"<OFD><DocRoot>D/Document.xml</DocRoot></OFD>" as &[u8])),
        ("D/Document.xml", Some(b"<Document></Document>")),
    ]);
    let mut ofd = OFD::from_local_file("nopl.ofd", &bytes).unwrap();
    let msg = ofd.get_page_count().err().unwrap().to_string();
    assert!(msg.contains("referenced document unresolvable."), "got {msg}");
}
