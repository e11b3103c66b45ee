use std::io::Cursor;
use std::io::Read;
use std::io::Write;

use iwd_filter::policy::RemovalPolicy;
use iwd_filter::rebuild::ArchiveError;
use iwd_filter::rebuild::rebuild_container;

fn build_container(entries: &[(&str, &[u8])]) -> Vec<u8> {
    let mut writer = zip::ZipWriter::new(Cursor::new(Vec::new()));
    let options = zip::write::SimpleFileOptions::default()
        .compression_method(zip::CompressionMethod::Stored);
    for (name, data) in entries {
        writer.start_file(name.to_string(), options).unwrap();
        writer.write_all(data).unwrap();
    }
    writer.finish().unwrap().into_inner()
}

fn entry_names(bytes: &[u8]) -> Vec<String> {
    let mut archive = zip::ZipArchive::new(Cursor::new(bytes.to_vec())).unwrap();
    let mut names = Vec::new();
    for i in 0..archive.len() {
        names.push(archive.by_index_raw(i).unwrap().name().to_string());
    }
    names
}

#[test]
fn scenario_removes_marked_entries_in_order() {
    let input = build_container(&[
        ("a.cfg", b"alpha"),
        ("images/x.iwi", b"image-bytes"),
        ("sound/y.mp3", b"sound-bytes!"),
        ("b.dat", b"beta"),
    ]);
    let policy = RemovalPolicy::default_rules();
    let out = rebuild_container(input, &policy).unwrap();
    assert_eq!(out.removed_count, 2);
    assert_eq!(out.removed_bytes, (b"image-bytes".len() + b"sound-bytes!".len()) as u128);
    assert!(out.dropped.is_empty());
    let output = out.output.expect("entries were removable, so a rebuild must happen");
    assert_eq!(entry_names(&output), vec!["a.cfg".to_string(), "b.dat".to_string()]);
}

#[test]
fn kept_entry_record_is_preserved_byte_for_byte() {
    let input = build_container(&[("a.cfg", b"alpha"), ("images/x.iwi", b"image-bytes")]);
    let mut before = zip::ZipArchive::new(Cursor::new(input.clone())).unwrap();
    let (crc_before, csize_before, method_before) = {
        let f = before.by_index_raw(0).unwrap();
        (f.crc32(), f.compressed_size(), f.compression())
    };
    let policy = RemovalPolicy::default_rules();
    let out = rebuild_container(input, &policy).unwrap();
    let output = out.output.unwrap();
    let mut after = zip::ZipArchive::new(Cursor::new(output)).unwrap();
    assert_eq!(after.len(), 1);
    {
        let f = after.by_index_raw(0).unwrap();
        assert_eq!(f.name(), "a.cfg");
        assert_eq!(f.crc32(), crc_before);
        assert_eq!(f.compressed_size(), csize_before);
        assert_eq!(f.compression(), method_before);
        assert_eq!(f.size(), b"alpha".len() as u64);
    }
    let mut content = Vec::new();
    after.by_index(0).unwrap().read_to_end(&mut content).unwrap();
    assert_eq!(content, b"alpha".to_vec());
}

#[test]
fn container_without_removable_entries_is_left_alone() {
    let input = build_container(&[("a.cfg", b"alpha"), ("scripts/images_backup.txt", b"notes")]);
    let policy = RemovalPolicy::default_rules();
    let out = rebuild_container(input, &policy).unwrap();
    assert_eq!(out.removed_count, 0);
    assert_eq!(out.removed_bytes, 0);
    assert!(out.output.is_none());
    assert!(out.dropped.is_empty());
}

#[test]
fn second_rebuild_changes_nothing() {
    let input = build_container(&[
        ("a.cfg", b"alpha"),
        ("images/x.iwi", b"image-bytes"),
        ("b.dat", b"beta"),
    ]);
    let policy = RemovalPolicy::default_rules();
    let first = rebuild_container(input, &policy).unwrap();
    let rebuilt = first.output.unwrap();
    let second = rebuild_container(rebuilt, &policy).unwrap();
    assert_eq!(second.removed_count, 0);
    assert_eq!(second.removed_bytes, 0);
    assert!(second.output.is_none());
}

#[test]
fn unparseable_bytes_give_open_error() {
    let policy = RemovalPolicy::default_rules();
    let r = rebuild_container(b"this is no container at all".to_vec(), &policy);
    assert!(matches!(r, Err(ArchiveError::Open)));
}

#[test]
fn corrupt_entry_record_aborts_inspection() {
    let mut input = build_container(&[("images/x.iwi", b"image-bytes"), ("a.cfg", b"alpha")]);
    // Tear up the first entry's local record: its signature sits at the
    // very start of the container.
    input[0] = 0;
    input[1] = 0;
    input[2] = 0;
    input[3] = 0;
    let policy = RemovalPolicy::default_rules();
    let r = rebuild_container(input, &policy);
    assert!(matches!(r, Err(ArchiveError::CorruptEntry { index: 0 })));
}

#[test]
fn corrupt_entry_error_names_first_unreadable_index() {
    let mut input =
        build_container(&[("a.cfg", b"alpha"), ("b.dat", b"beta"), ("c.cfg", b"gamma")]);
    let magic = [0x50u8, 0x4b, 0x03, 0x04];
    let mut positions = Vec::new();
    for i in 0..input.len() - 3 {
        if input[i..i + 4] == magic {
            positions.push(i);
        }
    }
    assert!(positions.len() >= 3);
    // Tear up the second and third local records; inspection must stop at
    // the second entry, the first unreadable one.
    for &p in &positions[1..3] {
        input[p] = 0;
    }
    let policy = RemovalPolicy::default_rules();
    let r = rebuild_container(input, &policy);
    assert!(matches!(r, Err(ArchiveError::CorruptEntry { index: 1 })));
}

#[test]
fn empty_container_reports_nothing_removed() {
    let input = build_container(&[]);
    let policy = RemovalPolicy::default_rules();
    let out = rebuild_container(input, &policy).unwrap();
    assert_eq!(out.removed_count, 0);
    assert_eq!(out.removed_bytes, 0);
    assert!(out.output.is_none());
}
