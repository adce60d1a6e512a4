use magisk::config::{
    clear_temp_configs, config_file_path, delete_config, get_config, get_module_config_dir,
    list_configs, read_config_file, set_config, write_config_file, ConfigStore, DirEntry,
};

fn get(c: &ConfigStore, k: &str) -> Option<String> {
    get_config(c, k)
}

#[test]
fn read_skips_blank_comment_and_malformed_lines() {
    let text = "# a comment\n\n   \nkey=value\nnoequals\n  #x=1\n";
    let c = read_config_file(text);
    assert_eq!(c.len(), 1);
    assert_eq!(get(&c, "key"), Some("value".to_string()));
    assert_eq!(get(&c, "noequals"), None);
    assert_eq!(get(&c, "#x"), None);
}

#[test]
fn read_trims_keys_and_values() {
    let c = read_config_file("  spaced key \t=\t spaced value  \r\n");
    assert_eq!(get(&c, "spaced key"), Some("spaced value".to_string()));
}

#[test]
fn read_splits_at_first_equals() {
    let c = read_config_file("a=b=c\n=empty\nk=\n");
    assert_eq!(get(&c, "a"), Some("b=c".to_string()));
    assert_eq!(get(&c, ""), Some("empty".to_string()));
    assert_eq!(get(&c, "k"), Some("".to_string()));
}

#[test]
fn read_later_line_overrides_earlier() {
    let c = read_config_file("a=1\nb=2\na=3");
    assert_eq!(c.len(), 2);
    assert_eq!(get(&c, "a"), Some("3".to_string()));
    assert_eq!(get(&c, "b"), Some("2".to_string()));
}

#[test]
fn read_non_ascii_and_unicode_whitespace() {
    let c = read_config_file("\u{3000}名前=値\u{a0}\n");
    assert_eq!(get(&c, "名前"), Some("値".to_string()));
}

#[test]
fn read_empty_file_is_empty() {
    let c = read_config_file("");
    assert_eq!(c.len(), 0);
}

#[test]
fn set_then_get() {
    let mut c = read_config_file("a=1\n");
    set_config(&mut c, "b", "2");
    set_config(&mut c, "a", "9");
    assert_eq!(get(&c, "a"), Some("9".to_string()));
    assert_eq!(get(&c, "b"), Some("2".to_string()));
    assert_eq!(c.len(), 2);
}

#[test]
fn delete_removes_only_that_key() {
    let mut c = read_config_file("a=1\nb=2\nc=3\n");
    delete_config(&mut c, "b");
    assert_eq!(get(&c, "b"), None);
    assert_eq!(get(&c, "a"), Some("1".to_string()));
    assert_eq!(get(&c, "c"), Some("3".to_string()));
    delete_config(&mut c, "missing");
    assert_eq!(c.len(), 2);
}

#[test]
fn write_renders_key_value_lines_in_order() {
    let mut c = ConfigStore::new();
    set_config(&mut c, "x", "1");
    set_config(&mut c, "y", "two words");
    set_config(&mut c, "x", "3");
    assert_eq!(write_config_file(&c), "x=3\ny=two words\n");
}

#[test]
fn write_of_empty_store_is_empty() {
    assert_eq!(write_config_file(&ConfigStore::new()), "");
}

#[test]
fn written_value_reads_back() {
    let mut c = read_config_file("# header\n manage.su_compat = 1 \n");
    set_config(&mut c, "manage.kernel_umount", "0");
    let again = read_config_file(&write_config_file(&c));
    assert_eq!(get(&again, "manage.kernel_umount"), Some("0".to_string()));
    assert_eq!(get(&again, "manage.su_compat"), Some("1".to_string()));
    assert_eq!(again.len(), 2);
}

#[test]
fn deleted_value_does_not_read_back() {
    let mut c = read_config_file("a=1\nb=2\n");
    delete_config(&mut c, "a");
    let again = read_config_file(&write_config_file(&c));
    assert_eq!(get(&again, "a"), None);
    assert_eq!(get(&again, "b"), Some("2".to_string()));
}

#[test]
fn unclean_value_is_trimmed_when_read_back() {
    let mut c = ConfigStore::new();
    set_config(&mut c, "k", " v ");
    let again = read_config_file(&write_config_file(&c));
    assert_eq!(get(&again, "k"), Some("v".to_string()));
}

#[test]
fn temp_overrides_persist() {
    let p = read_config_file("a=p\nb=p\n");
    let t = read_config_file("b=t\nc=t\n");
    let all = list_configs(&p, &t);
    assert_eq!(all.len(), 3);
    assert_eq!(get(&all, "a"), Some("p".to_string()));
    assert_eq!(get(&all, "b"), Some("t".to_string()));
    assert_eq!(get(&all, "c"), Some("t".to_string()));
}

#[test]
fn to_pairs_lists_entries_in_order() {
    let c = read_config_file("z=1\na=2\n");
    assert_eq!(
        c.to_pairs(),
        vec![("z".to_string(), "1".to_string()), ("a".to_string(), "2".to_string())]
    );
}

#[test]
fn config_paths() {
    assert_eq!(get_module_config_dir("mod"), "/data/adb/module_configs/mod");
    assert_eq!(config_file_path("mod", false), "/data/adb/module_configs/mod/persist.config");
    assert_eq!(config_file_path("mod", true), "/data/adb/module_configs/mod/tmp.config");
}

#[test]
fn temp_configs_cleared_for_directories_only() {
    let entries = vec![
        DirEntry { name: "a".to_string(), is_dir: true },
        DirEntry { name: "file".to_string(), is_dir: false },
        DirEntry { name: "b".to_string(), is_dir: true },
    ];
    assert_eq!(
        clear_temp_configs(&entries),
        vec![
            "/data/adb/module_configs/a/tmp.config".to_string(),
            "/data/adb/module_configs/b/tmp.config".to_string()
        ]
    );
}
