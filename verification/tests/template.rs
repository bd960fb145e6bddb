use std::io::{Cursor, Write};

use soma::template::{template_files, TemplateError, TemplateFile};
use zip::write::SimpleFileOptions;
use zip::{CompressionMethod, ZipWriter};

fn archive(entries: &[(&str, Option<&[u8]>)]) -> Vec<u8> {
    let mut w = ZipWriter::new(Cursor::new(Vec::new()));
    let opts = SimpleFileOptions::default()
        .compression_method(CompressionMethod::Stored)
        .unix_permissions(0o755);
    for (name, contents) in entries {
        match contents {
            None => w.add_directory(*name, opts).unwrap(),
            Some(c) => {
                w.start_file(*name, opts).unwrap();
                w.write_all(c).unwrap();
            }
        }
    }
    w.finish().unwrap().into_inner()
}

#[test]
fn template_unpacks_below_the_root_directory() {
    let bytes = archive(&[
        ("js-agent-template-main/", None),
        ("js-agent-template-main/src/", None),
        ("js-agent-template-main/src/index.ts", Some(b"export {}")),
        ("other/readme.md", Some(b"skip me")),
        ("js-agent-template-main/package.json", Some(b"{}")),
    ]);
    let files = template_files(&bytes, "js-agent", "/work/app").unwrap();
    assert_eq!(files.len(), 3);
    match &files[0] {
        TemplateFile::Dir { path } => assert_eq!(path, "/work/app/src/"),
        _ => panic!("expected a directory"),
    }
    match &files[1] {
        TemplateFile::File { path, contents, unix_mode } => {
            assert_eq!(path, "/work/app/src/index.ts");
            assert_eq!(contents.as_slice(), b"export {}");
            assert_eq!(unix_mode.map(|m| m & 0o777), Some(0o755));
        }
        _ => panic!("expected a file"),
    }
    match &files[2] {
        TemplateFile::File { path, contents, .. } => {
            assert_eq!(path, "/work/app/package.json");
            assert_eq!(contents.as_slice(), b"{}");
        }
        _ => panic!("expected a file"),
    }
}

#[test]
fn template_from_other_template_skips_everything() {
    let bytes = archive(&[("js-agent-template-main/a.txt", Some(b"a"))]);
    let files = template_files(&bytes, "py-agent", "/work").unwrap();
    assert!(files.is_empty());
}

#[test]
fn template_rejects_bytes_that_are_no_archive() {
    let r = template_files(b"not a zip archive", "js-agent", "/work");
    assert!(matches!(r, Err(TemplateError::ArchiveUnreadable)));
}

#[test]
fn template_stops_at_a_file_it_cannot_read() {
    let mut bytes = archive(&[
        ("js-agent-template-main/ok.txt", Some(b"fine")),
        ("js-agent-template-main/bad.txt", Some(b"HELLOWORLD")),
    ]);
    let at = bytes.windows(10).position(|w| w == b"HELLOWORLD").unwrap();
    bytes[at] = b'J';
    match template_files(&bytes, "js-agent", "/work") {
        Err(TemplateError::EntryUnreadable(path)) => assert_eq!(path, "/work/bad.txt"),
        _ => panic!("expected the unreadable entry"),
    }
}
