use iwd_filter::policy::RemovalPolicy;
use iwd_filter::policy::should_remove_file;

#[test]
fn removes_name_under_images_tree() {
    let policy = RemovalPolicy::default_rules();
    assert!(should_remove_file(b"images/hud/icon.iwi", &policy));
}

#[test]
fn keeps_name_whose_first_segment_only_contains_a_pattern() {
    let policy = RemovalPolicy::default_rules();
    assert!(!should_remove_file(b"scripts/images_backup.txt", &policy));
}

#[test]
fn keeps_name_whose_first_segment_extends_a_pattern() {
    let policy = RemovalPolicy::default_rules();
    assert!(!should_remove_file(b"imagesbackup/foo.dat", &policy));
}

#[test]
fn removes_top_level_name_with_matching_extension() {
    let policy = RemovalPolicy::default_rules();
    assert!(should_remove_file(b"weapon.iwi", &policy));
}

#[test]
fn keeps_plain_text_name() {
    let policy = RemovalPolicy::default_rules();
    assert!(!should_remove_file(b"readme.txt", &policy));
}

#[test]
fn removes_exact_directory_name_itself() {
    let policy = RemovalPolicy::default_rules();
    assert!(should_remove_file(b"sound", &policy));
    assert!(should_remove_file(b"video/intro.bik", &policy));
}

#[test]
fn extension_must_sit_in_final_segment() {
    let policy = RemovalPolicy::default_rules();
    assert!(!should_remove_file(b"docs.iwi/readme", &policy));
    assert!(should_remove_file(b"docs/nested/a.mp3", &policy));
}

#[test]
fn empty_name_is_kept() {
    let policy = RemovalPolicy::default_rules();
    assert!(!should_remove_file(b"", &policy));
}

#[test]
fn custom_rules_are_honoured() {
    let policy = RemovalPolicy {
        prefixes: vec![b"cache".to_vec()],
        extensions: vec![b"tmp".to_vec()],
    };
    assert!(should_remove_file(b"cache/x.bin", &policy));
    assert!(should_remove_file(b"a/b/c.tmp", &policy));
    assert!(!should_remove_file(b"images/hud/icon.iwi", &policy));
    assert!(!should_remove_file(b"cachedir/x.bin", &policy));
}
