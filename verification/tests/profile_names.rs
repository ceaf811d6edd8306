use wgswitch::profile::{
    conf_path, discover_ids, resolve, validate_name, wg_dirs, NameError, ProfileError,
};

#[test]
fn accepts_typical_names() {
    for n in ["work", "home", "vpn-eu", "test_1", "a.b", "x+y=z"] {
        assert!(validate_name(n).is_ok(), "expected ok: {}", n);
    }
}

#[test]
fn rejects_path_traversal() {
    for n in [
        "",
        "..",
        ".",
        "../etc/passwd",
        "a/b",
        "a\\b",
        "a b",
        "a:b",
        "name_that_is_way_too_long",
    ] {
        assert!(validate_name(n).is_err(), "expected err: {:?}", n);
    }
}

#[test]
fn rejects_shell_metacharacters() {
    for n in ["a;b", "a$b", "a`b", "a|b", "a&b", "a*b"] {
        assert!(validate_name(n).is_err(), "expected err: {:?}", n);
    }
}

#[test]
fn name_errors_come_in_order() {
    assert_eq!(validate_name(""), Err(NameError::Empty));
    assert_eq!(validate_name("abcdefghijklmnop"), Err(NameError::TooLong));
    assert_eq!(validate_name("abcdefghijklmno"), Ok(()));
    // Fifteen bytes is the limit, counted in UTF-8: eight two-byte letters are too long.
    assert_eq!(validate_name("éééééééé"), Err(NameError::TooLong));
    assert_eq!(validate_name("é"), Err(NameError::BadChar('é')));
    assert_eq!(validate_name(".."), Err(NameError::Reserved));
    assert_eq!(validate_name("."), Err(NameError::Reserved));
    assert_eq!(validate_name("..."), Ok(()));
    assert_eq!(validate_name("a/b;c"), Err(NameError::BadChar('/')));
}

#[test]
fn conf_path_joins_dir_and_name() {
    assert_eq!(conf_path("/etc/wireguard", "work"), "/etc/wireguard/work.conf");
}

#[test]
fn resolve_takes_first_directory_that_has_the_file() {
    let dirs = wg_dirs();
    assert_eq!(dirs.len(), 3);
    let p = resolve("work", &vec![false, true, true]).unwrap();
    assert_eq!(p.conf_path, "/usr/local/etc/wireguard/work.conf");
    let p = resolve("work", &vec![true, true, true]).unwrap();
    assert_eq!(p.conf_path, "/etc/wireguard/work.conf");
    assert_eq!(
        resolve("work", &vec![false, false, false]).unwrap_err(),
        ProfileError::NotFound
    );
    assert_eq!(
        resolve("../x", &vec![true, true, true]).unwrap_err(),
        ProfileError::Invalid(NameError::BadChar('/'))
    );
}

#[test]
fn discover_ids_sorts_and_dedups_valid_conf_stems() {
    let names: Vec<String> = [
        "work.conf",
        "home.conf",
        "README",
        ".conf",
        "a b.conf",
        "work.conf",
        "x.conf.bak",
        "vpn-eu.conf",
        "name_that_is_way_too_long.conf",
    ]
    .iter()
    .map(|s| s.to_string())
    .collect();
    assert_eq!(discover_ids(&names), vec!["home", "vpn-eu", "work"]);
    assert!(discover_ids(&Vec::new()).is_empty());
}
