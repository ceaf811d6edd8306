use wgswitch::wg::{
    active_config_names, child_path_dirs, child_path_parts, kept_entries, down, down_iface, find_bin, first_occurrences,
    kernel_interfaces, name_file_config_of, name_map, up, wg, wg_paths, wg_quick, wg_quick_paths,
    BinNotFound, NameMap, RunEntry,
};
use wgswitch::profile::{NameError, ResolvedProfile};

fn entry(f: &str, c: Option<&str>) -> RunEntry {
    RunEntry { file_name: f.to_string(), content: c.map(|s| s.to_string()) }
}

#[test]
fn binaries_are_found_in_trusted_order() {
    assert_eq!(wg_quick(&vec![false, false, true, true, false]).unwrap(), "/opt/homebrew/bin/wg-quick");
    assert_eq!(wg(&vec![true, true, true, true, true]).unwrap(), "/usr/bin/wg");
    assert_eq!(wg(&vec![false; 5]), Err(BinNotFound));
    assert_eq!(wg_quick(&vec![]), Err(BinNotFound));
    assert_eq!(wg_quick_paths().len(), 5);
    assert_eq!(wg_paths()[4], "/usr/sbin/wg");
    let c = vec!["a".to_string(), "b".to_string()];
    assert_eq!(find_bin(&c, &vec![false, true]).unwrap(), "b");
}

#[test]
fn quick_commands() {
    let p = ResolvedProfile { conf_path: "/etc/wireguard/work.conf".into() };
    let u = up(&p);
    assert_eq!((u.action.as_str(), u.target.as_str()), ("up", "/etc/wireguard/work.conf"));
    let d = down(&p);
    assert_eq!((d.action.as_str(), d.target.as_str()), ("down", "/etc/wireguard/work.conf"));
    let i = down_iface("utun6").unwrap();
    assert_eq!((i.action.as_str(), i.target.as_str()), ("down", "utun6"));
    assert_eq!(down_iface("a;rm").unwrap_err(), NameError::BadChar(';'));
}

#[test]
fn name_files_map_kernel_interfaces_to_configs() {
    assert_eq!(name_file_config_of("ua.name").as_deref(), Some("ua"));
    assert!(name_file_config_of(".name").is_none());
    assert!(name_file_config_of("a b.name").is_none());
    assert!(name_file_config_of("ua.conf").is_none());
    let m = name_map(&vec![
        entry("ua.name", Some("utun6\n")),
        entry("work.name", Some("  utun7 ")),
        entry("empty.name", Some("  \n")),
        entry("unread.name", None),
        entry("bad name.name", Some("utun9")),
        entry("notes.txt", Some("utun8")),
        entry("home.name", Some("utun6")),
    ]);
    assert_eq!(m.get(&"utun6".to_string()).map(|s| s.as_str()), Some("home"));
    assert_eq!(m.get(&"utun7".to_string()).map(|s| s.as_str()), Some("work"));
    assert!(m.get(&"utun8".to_string()).is_none());
    assert!(m.get(&"utun9".to_string()).is_none());
    assert_eq!(active_config_names(&m).unwrap(), vec!["home", "work"]);
    assert!(active_config_names(&NameMap::new()).is_none());
}

#[test]
fn active_names_are_sorted_and_distinct() {
    let mut m = NameMap::new();
    m.insert("utun3".into(), "b".into());
    m.insert("utun1".into(), "a".into());
    m.insert("utun2".into(), "b".into());
    assert!(!m.is_empty());
    assert_eq!(active_config_names(&m).unwrap(), vec!["a", "b"]);
}

#[test]
fn kernel_interfaces_from_wg_show() {
    assert_eq!(kernel_interfaces(true, "wg0 wg1\n", "").unwrap(), vec!["wg0", "wg1"]);
    assert!(kernel_interfaces(true, " \n", "").unwrap().is_empty());
    assert!(kernel_interfaces(false, "", "Unable to access interface: Operation not permitted\n")
        .unwrap()
        .is_empty());
    assert!(kernel_interfaces(false, "", "PERMISSION denied").unwrap().is_empty());
    let e = kernel_interfaces(false, "", "  boom \n").unwrap_err();
    assert_eq!(e.stderr, "boom");
}

#[test]
fn search_path_keeps_first_of_each() {
    let keys: Vec<Vec<u8>> = vec![b"/a".to_vec(), b"/b".to_vec(), b"/a".to_vec(), b"/c".to_vec(), b"/b".to_vec()];
    assert_eq!(first_occurrences(&keys), vec![true, true, false, true, false]);
    assert!(first_occurrences(&Vec::new()).is_empty());
    assert_eq!(child_path_dirs()[0], "/opt/homebrew/bin");
    assert_eq!(child_path_dirs().len(), 8);
}

fn b(xs: &[&str]) -> Vec<Vec<u8>> {
    xs.iter().map(|s| s.as_bytes().to_vec()).collect()
}

#[test]
fn child_path_puts_own_dir_first_then_fixed_then_inherited() {
    let parts = child_path_parts(Some(b"/opt/wg/bin".to_vec()), b(&["/usr/bin", "/home/u/bin"]));
    let fixed: Vec<Vec<u8>> = child_path_dirs().iter().map(|s| s.as_bytes().to_vec()).collect();
    let mut want = b(&["/opt/wg/bin"]);
    want.extend(fixed.clone());
    want.extend(b(&["/usr/bin", "/home/u/bin"]));
    assert_eq!(parts, want);
    assert_eq!(parts[1], b"/opt/homebrew/bin".to_vec());
    let parts = child_path_parts(None, Vec::new());
    assert_eq!(parts, fixed);
}

#[test]
fn child_path_drops_repeats_keeping_first() {
    let parts = child_path_parts(None, b(&["/usr/bin", "/x"]));
    let keep = first_occurrences(&parts);
    let kept = kept_entries(parts.clone(), &keep);
    assert_eq!(kept.len(), 9);
    assert_eq!(kept[8], b"/x".to_vec());
    assert_eq!(kept[4], b"/usr/bin".to_vec());
    assert_eq!(kept_entries(b(&["a", "b", "c"]), &vec![true, false]), b(&["a"]));
}
