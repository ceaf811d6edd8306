use wgswitch::cli::{connect_plan, list_line, no_profiles_message, off_all_result};
use wgswitch::config::ProfileMeta;

fn v(xs: &[&str]) -> Vec<String> {
    xs.iter().map(|s| s.to_string()).collect()
}

#[test]
fn connect_downs_others_and_keeps_target() {
    let p = connect_plan("work", &v(&["home", "work", "eu"]));
    assert_eq!(p.to_down, v(&["home", "eu"]));
    assert!(p.already_active);
    let p = connect_plan("work", &v(&["home"]));
    assert_eq!(p.to_down, v(&["home"]));
    assert!(!p.already_active);
    let p = connect_plan("work", &Vec::new());
    assert!(p.to_down.is_empty() && !p.already_active);
}

#[test]
fn off_all_reports_last_error_only_when_nothing_went_down() {
    assert_eq!(off_all_result(&vec![true, false, true]), Ok(vec![0, 2]));
    assert_eq!(off_all_result(&vec![false, false]), Err(1));
    assert_eq!(off_all_result(&vec![]), Ok(vec![]));
}

#[test]
fn list_lines_pad_the_id() {
    let m = ProfileMeta { label: Some("Work VPN".into()), description: None, emoji: Some("🏢".into()) };
    assert_eq!(list_line("work", Some(&m)), format!("{:<16} {}{}{}", "work", "🏢", " ", "Work VPN"));
    assert_eq!(list_line("work", None), format!("{:<16} ", "work"));
    assert_eq!(list_line("abcdefghijklmnopq", None), "abcdefghijklmnopq ");
}

#[test]
fn empty_list_names_the_searched_directories() {
    assert_eq!(
        no_profiles_message(),
        "(no profiles found in /etc/wireguard, /usr/local/etc/wireguard, /opt/homebrew/etc/wireguard)"
    );
}
