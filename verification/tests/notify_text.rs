use wgswitch::config::ProfileMeta;
use wgswitch::notify::{
    applescript, applescript_quote, format_profile, linux_command, macos_command, DownItem,
    Notifier,
};

#[test]
fn body_uses_emoji_and_description() {
    let meta = ProfileMeta {
        label: Some("Work VPN".into()),
        description: Some("Office network".into()),
        emoji: Some("🏢".into()),
    };
    assert_eq!(
        format_profile("work", Some(&meta)),
        "🏢 Work VPN\nOffice network"
    );
}

#[test]
fn body_falls_back_to_id_when_no_meta() {
    assert_eq!(format_profile("ua", None), "ua");
}

#[test]
fn empty_description_is_ignored() {
    let meta = ProfileMeta {
        label: Some("Home".into()),
        description: Some("".into()),
        emoji: Some("🏠".into()),
    };
    assert_eq!(format_profile("home", Some(&meta)), "🏠 Home");
}

#[test]
fn label_falls_back_to_id_with_emoji() {
    let meta = ProfileMeta { label: None, description: Some("d".into()), emoji: Some("🌍".into()) };
    assert_eq!(format_profile("eu", Some(&meta)), "🌍 eu\nd");
}

#[test]
fn disabled_notifier_sends_nothing() {
    let n = Notifier::new(false);
    assert!(n.connected("work", None).is_none());
    assert!(n.error("boom").is_none());
    let items = vec![DownItem { name: "work".into(), meta: None }];
    assert!(n.disconnected(&items).is_none());
}

#[test]
fn enabled_notifier_titles_and_bodies() {
    let n = Notifier::new(true);
    let c = n.connected("work", None).unwrap();
    assert_eq!(c.title, "✅ Connected");
    assert_eq!(c.body, "work");
    let e = n.error("boom").unwrap();
    assert_eq!(e.title, "🆘 Error");
    assert_eq!(e.body, "boom");
    assert!(n.disconnected(&Vec::new()).is_none());
    let items = vec![
        DownItem { name: "work".into(), meta: None },
        DownItem {
            name: "home".into(),
            meta: Some(ProfileMeta { label: Some("Home".into()), description: None, emoji: None }),
        },
    ];
    let d = n.disconnected(&items).unwrap();
    assert_eq!(d.title, "⭕ Disconnected");
    assert_eq!(d.body, "work\nHome");
}

#[test]
fn applescript_escapes_quotes_and_backslashes() {
    assert_eq!(applescript_quote(r#"a"b\c"#), r#"a\"b\\c"#);
    assert_eq!(
        applescript("T\"", "B"),
        "display notification \"B\" with title \"T\\\"\""
    );
}

#[test]
fn notification_commands() {
    let cmd = linux_command(Some("/usr/bin/notify-send".into()), None, None, "t", "b").unwrap();
    assert_eq!(cmd, vec!["/usr/bin/notify-send", "t", "b"]);
    let cmd = linux_command(
        Some("/usr/bin/notify-send".into()),
        Some("/usr/bin/sudo".into()),
        Some("alice"),
        "t",
        "b",
    )
    .unwrap();
    assert_eq!(cmd, vec!["/usr/bin/sudo", "-u", "alice", "/usr/bin/notify-send", "t", "b"]);
    // An empty SUDO_USER counts as unset.
    let cmd = linux_command(Some("/usr/bin/notify-send".into()), None, Some(""), "t", "b").unwrap();
    assert_eq!(cmd, vec!["/usr/bin/notify-send", "t", "b"]);
    assert!(linux_command(Some("/usr/bin/notify-send".into()), None, Some("bob"), "t", "b").is_none());
    assert!(linux_command(None, Some("/usr/bin/sudo".into()), None, "t", "b").is_none());
    let cmd = macos_command(Some("/usr/bin/osascript".into()), None, None, "t", "b").unwrap();
    assert_eq!(
        cmd,
        vec!["/usr/bin/osascript", "-e", "display notification \"b\" with title \"t\""]
    );
}
