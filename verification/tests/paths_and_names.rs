use magisk::paths::{join, module_dir, path_file_name};
use magisk::sepolicy::{
    generate_and_save_domain,
    generate_random_name, get_sepol_file_type, get_sepol_proc_domain, magisk_file_con,
    magisk_proc_con, random_name_from_seed,
};

#[test]
fn join_inserts_one_separator() {
    assert_eq!(join("/a", "b"), "/a/b");
    assert_eq!(join("/a/", "b"), "/a/b");
    assert_eq!(join("", "b"), "b");
    assert_eq!(join("/a", "/abs"), "/abs");
}

#[test]
fn module_dir_is_under_module_root() {
    assert_eq!(module_dir("meta-suinject"), "/data/adb/modules/meta-suinject");
}

#[test]
fn file_name_follows_path_components() {
    assert_eq!(path_file_name("/data/adb/modules/abc"), Some("abc".to_string()));
    assert_eq!(path_file_name("/usr/bin/"), Some("bin".to_string()));
    assert_eq!(path_file_name("tmp/foo.txt"), Some("foo.txt".to_string()));
    assert_eq!(path_file_name("foo.txt/."), Some("foo.txt".to_string()));
    assert_eq!(path_file_name("foo.txt/.//"), Some("foo.txt".to_string()));
    assert_eq!(path_file_name("foo.txt/.."), None);
    assert_eq!(path_file_name("/"), None);
    assert_eq!(path_file_name(""), None);
    assert_eq!(path_file_name("."), None);
    assert_eq!(path_file_name("name"), Some("name".to_string()));
}

#[test]
fn random_names_from_known_seeds() {
    assert_eq!(random_name_from_seed(0), "a7gpybs5yf");
    assert_eq!(random_name_from_seed(1), "bgpy7ctev4");
    assert_eq!(random_name_from_seed(123456789), "jgpyjo9mfw");
    assert_eq!(random_name_from_seed(u128::MAX), "d2bktarw1m");
}

#[test]
fn random_name_seed_wraps() {
    assert_eq!(generate_random_name(u128::MAX, 5), "e7gpyf09eb");
    assert_eq!(generate_random_name(1, 0), random_name_from_seed(1));
}

#[test]
fn random_name_shape() {
    for seed in [0u128, 7, 99999, 1 << 100] {
        let n = generate_random_name(seed, 1);
        assert_eq!(n.len(), 10);
        assert!(n.chars().all(|c| c.is_ascii_lowercase() || c.is_ascii_digit()));
    }
}

#[test]
fn saved_names_are_trimmed_or_default() {
    assert_eq!(get_sepol_proc_domain(Some("  xyz123\n")), "xyz123");
    assert_eq!(get_sepol_proc_domain(Some(" \n\t")), "magisk");
    assert_eq!(get_sepol_proc_domain(None), "magisk");
    assert_eq!(get_sepol_file_type(Some("abc\n")), "abc");
    assert_eq!(get_sepol_file_type(None), "magisk_file");
}

#[test]
fn contexts() {
    assert_eq!(magisk_proc_con(None), "u:r:magisk:s0");
    assert_eq!(magisk_proc_con(Some("q1w2e3r4t5\n")), "u:r:q1w2e3r4t5:s0");
    assert_eq!(magisk_file_con(None), "u:object_r:magisk_file:s0");
    assert_eq!(magisk_file_con(Some("zz")), "u:object_r:zz:s0");
}

#[test]
fn domain_generation_only_when_missing() {
    assert_eq!(generate_and_save_domain(true, true, 0, 0), None);
    assert_eq!(
        generate_and_save_domain(true, false, 0, 0),
        Some(("a7gpybs5yf".to_string(), "bgpy7ctev4".to_string()))
    );
    assert_eq!(
        generate_and_save_domain(false, true, 1, 0),
        Some(("bgpy7ctev4".to_string(), "bgpy7ctev4".to_string()))
    );
}
