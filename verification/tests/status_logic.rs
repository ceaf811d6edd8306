use wgswitch::config::{Config, ProfileEntry, ProfileMeta};
use wgswitch::status::{
    build_totals, collect, enrich_peer, parse_dump, translate_keys, PeerInfo, ProfileStatus,
    Sample, SampleEntry, Snapshot, State,
};
use wgswitch::wg::NameMap;

fn v(xs: &[&str]) -> Vec<String> {
    xs.iter().map(|s| s.to_string()).collect()
}

fn peer(hs: Option<u64>) -> PeerInfo {
    PeerInfo {
        public_key: None,
        endpoint: None,
        allowed_ips: None,
        last_handshake: hs,
        last_handshake_ago_seconds: None,
        last_handshake_ago_human: None,
        rx_bytes: None,
        tx_bytes: None,
    }
}

fn state(ts: u64, id: &str, rx: u64, tx: u64) -> Option<State> {
    Some(State { timestamp_ms: ts, samples: vec![SampleEntry { id: id.into(), sample: Sample { rx, tx } }] })
}

const DUMP: &str = "utun6\tpriv\tpub\t51820\toff\n\
utun6\tpeer1\t(none)\t1.2.3.4:51820\t10.0.0.0/24\t1000\t2048\t1024\toff\n\
utun6\tpeer2\t(none)\t(none)\t10.0.1.0/24\t0\t1\t2\toff\n\
home\tpriv\tpub2\t51821\toff\n";

#[test]
fn enrich_peer_fills_handshake_age() {
    let p = enrich_peer(peer(Some(1000)), 1120);
    assert_eq!(p.last_handshake_ago_seconds, Some(120));
    assert_eq!(p.last_handshake_ago_human.as_deref(), Some("2m ago"));
    let p = enrich_peer(peer(Some(2000)), 1120);
    assert!(p.last_handshake_ago_seconds.is_none());
    let p = enrich_peer(peer(None), 1120);
    assert!(p.last_handshake_ago_human.is_none());
}

#[test]
fn build_totals_and_rate_window() {
    let id = "work".to_string();
    let (t, b) = build_totals(&id, (3 * 1024 * 1024, 1536), 10_000, &None);
    assert_eq!(t.rx_human, "3.00 MiB");
    assert_eq!(t.tx_human, "1.50 KiB");
    assert!(t.rx_per_sec.is_none());
    assert!(b.is_none());
    let (_, b) = build_totals(&id, (5000, 3000), 10_000, &state(9_000, "work", 1000, 1000));
    let b = b.unwrap();
    assert_eq!((b.rx_delta, b.tx_delta, b.elapsed_ms), (4000, 2000, 1000));
    // Too soon, too late, counters going backwards, or another profile: no rate.
    assert!(build_totals(&id, (5000, 3000), 10_000, &state(9_990, "work", 0, 0)).1.is_none());
    assert!(build_totals(&id, (5000, 3000), 700_000, &state(9_000, "work", 0, 0)).1.is_none());
    assert!(build_totals(&id, (5000, 3000), 10_000, &state(9_000, "work", 6000, 0)).1.is_none());
    assert!(build_totals(&id, (5000, 3000), 10_000, &state(9_000, "home", 0, 0)).1.is_none());
    // A clock that went backwards counts as no time elapsed.
    assert!(build_totals(&id, (5000, 3000), 1_000, &state(9_000, "work", 0, 0)).1.is_none());
}

#[test]
fn translate_keys_renames_and_merges() {
    let mut m = NameMap::new();
    m.insert("utun6".into(), "work".into());
    m.insert("utun7".into(), "work".into());
    let raw = parse_dump("utun6\ta\tk6\t1\toff\nutun7\ta\tk7\t2\toff\nutun7\tp\t(none)\t(none)\t(none)\t0\t1\t1\toff\nutun6\tp\t(none)\t(none)\t(none)\t0\t1\t1\toff\nhome\ta\tk\t3\toff\n");
    let t = translate_keys(raw, &m);
    assert_eq!(t.len(), 2);
    assert_eq!(t[0].iface, "work");
    assert_eq!(t[0].interface.as_ref().unwrap().public_key.as_deref(), Some("k6"));
    assert_eq!(t[0].peers.len(), 2);
    assert_eq!(t[1].iface, "home");
}

#[test]
fn translate_keys_without_mapping_keeps_the_dump() {
    let text = "wg0\ta\tk0\t51820\toff\nwg0\tp\t(none)\t1.2.3.4:1\t10.0.0.0/8\t5\t7\t9\toff\nwg1\ta\tk1\t1\toff\n";
    let raw = parse_dump(text);
    let before = format!("{:?}", raw);
    let t = translate_keys(raw, &NameMap::new());
    assert_eq!(format!("{:?}", t), before);
    assert_eq!(t.len(), 2);
    assert_eq!(t[0].iface, "wg0");
    assert_eq!(t[0].peers.len(), 1);
}

fn cfg() -> Config {
    Config {
        profiles: vec![ProfileEntry {
            id: "work".into(),
            meta: ProfileMeta { label: Some("Work".into()), description: None, emoji: Some("🏢".into()) },
        }],
    }
}

#[test]
fn collect_reports_discovered_and_active_profiles() {
    let mut m = NameMap::new();
    m.insert("utun6".into(), "work".into());
    let names = v(&["home.conf", "work.conf", "readme"]);
    let c = collect(&cfg(), &v(&["work"]), &m, &names, DUMP, 1_120_500, &state(1_119_500, "work", 0, 0));
    let s = &c.snapshot;
    assert_eq!(s.current.as_deref(), Some("work"));
    assert_eq!(s.active, v(&["work"]));
    let ids: Vec<&str> = s.profiles.iter().map(|p| p.id.as_str()).collect();
    assert_eq!(ids, vec!["home", "work"]);
    let home = &s.profiles[0];
    assert!(!home.active && home.interface.is_none() && home.totals.is_none() && home.peers.is_empty());
    let work = &s.profiles[1];
    assert!(work.active);
    assert_eq!(work.label.as_deref(), Some("Work"));
    assert_eq!(work.interface.as_ref().unwrap().listen_port, Some(51820));
    let t = work.totals.as_ref().unwrap();
    assert_eq!((t.rx_bytes, t.tx_bytes), (2049, 1026));
    assert_eq!(work.peers.len(), 2);
    assert_eq!(work.peers[0].last_handshake_ago_human.as_deref(), Some("2m ago"));
    assert_eq!(c.state.timestamp_ms, 1_120_500);
    assert_eq!(c.state.samples.len(), 1);
    assert_eq!(c.state.samples[0].id, "work");
    assert_eq!(c.state.samples[0].sample, Sample { rx: 2049, tx: 1026 });
    assert_eq!(c.rates.len(), 1);
    assert_eq!(c.rates[0].index, 1);
    assert_eq!(c.rates[0].basis.rx_delta, 2049);
}

#[test]
fn collect_with_several_active_has_no_current() {
    let c = collect(&Config::empty(), &v(&["b", "a"]), &NameMap::new(), &Vec::new(), "", 0, &None);
    assert!(c.snapshot.current.is_none());
    let ids: Vec<&str> = c.snapshot.profiles.iter().map(|p| p.id.as_str()).collect();
    assert_eq!(ids, vec!["a", "b"]);
    assert!(c.rates.is_empty());
    let c = collect(&Config::empty(), &Vec::new(), &NameMap::new(), &Vec::new(), "", 0, &None);
    assert!(c.snapshot.profiles.is_empty());
    assert_eq!(c.snapshot.to_text(), "(no profiles)");
}

#[test]
fn text_rendering_of_a_snapshot() {
    let mut m = NameMap::new();
    m.insert("utun6".into(), "work".into());
    let c = collect(&cfg(), &v(&["work"]), &m, &v(&["home.conf"]), DUMP, 1_120_500, &state(1_119_500, "work", 0, 0));
    let mut snap = c.snapshot;
    snap.apply_rate(c.rates[0].index, 2049, 1026);
    snap.apply_rate(0, 1, 1);
    snap.apply_rate(99, 1, 1);
    assert!(snap.profiles[0].totals.is_none());
    let text = snap.to_text();
    assert_eq!(
        text,
        "○ home  (home)\n\
● 🏢 Work  (work)\n    total:    ↓ 2.00 KiB / ↑ 1.00 KiB\n    speed:    ↓ 2.00 KiB/s / ↑ 1.00 KiB/s\n    peer:     1.2.3.4:51820  •  handshake: 2m ago\n    peer:     (none)  •  handshake: never"
    );
}

#[test]
fn inactive_profile_text_has_no_extras() {
    let snap = Snapshot {
        current: Some("work".into()),
        active: vec!["work".into()],
        profiles: vec![ProfileStatus {
            id: "home".into(),
            label: Some("Home".into()),
            description: None,
            emoji: Some("🏠".into()),
            active: false,
            interface: None,
            totals: None,
            peers: Vec::new(),
        }],
    };
    assert_eq!(snap.to_text(), "○ 🏠 Home  (home)");
}
