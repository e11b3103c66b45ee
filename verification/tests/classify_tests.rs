use iwd_filter::classify::EntryMeta;
use iwd_filter::classify::classify;
use iwd_filter::policy::RemovalPolicy;

fn meta(name: &str, size: u64) -> EntryMeta {
    EntryMeta { name: name.as_bytes().to_vec(), uncompressed_size: size }
}

#[test]
fn classify_selects_removable_indices_in_order() {
    let entries = vec![
        meta("a.cfg", 10),
        meta("images/x.iwi", 100),
        meta("sound/y.mp3", 1000),
        meta("b.dat", 7),
    ];
    let policy = RemovalPolicy::default_rules();
    let rs = classify(&entries, &policy);
    assert_eq!(rs.indices, vec![1, 2]);
    assert_eq!(rs.removed_bytes, 1100);
}

#[test]
fn classify_of_clean_entries_is_empty() {
    let entries = vec![meta("a.cfg", 10), meta("readme.txt", 5)];
    let policy = RemovalPolicy::default_rules();
    let rs = classify(&entries, &policy);
    assert!(rs.indices.is_empty());
    assert_eq!(rs.removed_bytes, 0);
}

#[test]
fn classify_counts_extension_matches_anywhere() {
    let entries = vec![meta("maps/mp/load.iwi", 3), meta("weapon.mp3", 4), meta("x.txt", 9)];
    let policy = RemovalPolicy::default_rules();
    let rs = classify(&entries, &policy);
    assert_eq!(rs.indices, vec![0, 1]);
    assert_eq!(rs.removed_bytes, 7);
}
