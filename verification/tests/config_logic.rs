use wgswitch::config::{
    check_perms, system_defaults, when_missing, Config, ConfigError, PermError, ProfileEntry,
    ProfileMeta,
};

fn meta(label: &str) -> ProfileMeta {
    ProfileMeta { label: Some(label.into()), description: None, emoji: None }
}

#[test]
fn world_writable_config_is_refused() {
    assert_eq!(
        check_perms(0o100666, 0, 0, None),
        Err(PermError::WorldWritable { mode: 0o666 })
    );
    assert_eq!(check_perms(0o100644, 0, 0, None), Ok(()));
    assert_eq!(check_perms(0o100640, 1000, 1000, None), Ok(()));
}

#[test]
fn owner_must_be_root_euid_or_sudo_caller() {
    assert_eq!(check_perms(0o644, 1000, 0, Some("1000")), Ok(()));
    assert_eq!(
        check_perms(0o644, 1001, 0, Some("1000")),
        Err(PermError::BadOwner { owner: 1001, euid: 0, allowed: 1000 })
    );
    // An unparsable SUDO_UID falls back to the effective uid.
    assert_eq!(
        check_perms(0o644, 1001, 0, Some("x")),
        Err(PermError::BadOwner { owner: 1001, euid: 0, allowed: 0 })
    );
    assert_eq!(check_perms(0o644, 1001, 0, Some("+1001")), Ok(()));
    assert_eq!(
        check_perms(0o644, 5, 7, Some("4294967296")),
        Err(PermError::BadOwner { owner: 5, euid: 7, allowed: 7 })
    );
}

#[test]
fn config_lookup_and_defaults() {
    let cfg = Config {
        profiles: vec![
            ProfileEntry { id: "work".into(), meta: meta("Work") },
            ProfileEntry { id: "home".into(), meta: meta("Home") },
        ],
    };
    assert_eq!(cfg.get("home").unwrap().label.as_deref(), Some("Home"));
    assert!(cfg.get("nope").is_none());
    assert!(cfg.meta_or_empty("nope").label.is_none());
    assert_eq!(cfg.meta_or_empty("work").label.as_deref(), Some("Work"));
    assert!(Config::empty().profiles.is_empty());
    assert_eq!(system_defaults(), vec!["/etc/wgswitch.json", "/usr/local/etc/wgswitch.json"]);
    assert_eq!(when_missing(true).unwrap_err(), ConfigError::Missing);
    assert!(when_missing(false).unwrap().profiles.is_empty());
}
