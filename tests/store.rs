use xfixtouch::config::{XFixConfig, XFixTouchscreen};

fn record(vendor: &str, id_path: &str, output: Option<&str>) -> XFixTouchscreen {
    XFixTouchscreen {
        vendor: vendor.to_string(),
        id_path: id_path.to_string(),
        map_to_output: output.map(|o| o.to_string()),
    }
}

#[test]
fn equality_ignores_mapping() {
    let a = record("ACME", "PCI0:0", Some("HDMI-1"));
    let b = record("ACME", "PCI0:0", Some("DP-1"));
    let c = record("ACME", "PCI0:1", Some("HDMI-1"));
    assert!(a == b);
    assert!(a != c);
}

#[test]
fn add_replaces_instead_of_duplicating() {
    let mut config = XFixConfig::new();
    config.add_touchscreen(record("ACME", "PCI0:0", Some("HDMI-1")));
    config.add_touchscreen(record("Other", "USB0", None));
    config.add_touchscreen(record("ACME", "PCI0:0", Some("DP-2")));
    assert_eq!(config.touchscreens.len(), 2);
    assert_eq!(config.get_mapping("ACME", "PCI0:0").map(|s| s.as_str()), Some("DP-2"));
    assert_eq!(config.get_mapping("Other", "USB0"), None);
}

#[test]
fn add_same_record_twice_is_add_once() {
    let mut once = XFixConfig::new();
    once.add_touchscreen(record("ACME", "PCI0:0", Some("HDMI-1")));
    let mut twice = once.clone();
    twice.add_touchscreen(record("ACME", "PCI0:0", Some("HDMI-1")));
    assert_eq!(twice.touchscreens.len(), 1);
    assert_eq!(twice.touchscreens[0].map_to_output.as_deref(), Some("HDMI-1"));
}

#[test]
fn get_mapping_is_exact_on_identity() {
    let mut config = XFixConfig::new();
    config.add_touchscreen(record("ACME", "PCI0:0", Some("HDMI-1")));
    assert_eq!(config.get_mapping("ACME", "PCI0:1"), None);
    assert_eq!(config.get_mapping("ACM", "PCI0:0"), None);
    assert_eq!(config.get_mapping("ACME", "PCI0:0").map(|s| s.as_str()), Some("HDMI-1"));
}

#[test]
fn get_mapping_of_unmapped_record() {
    let mut config = XFixConfig::new();
    config.add_touchscreen(record("ACME", "PCI0:0", None));
    assert_eq!(config.get_mapping("ACME", "PCI0:0"), None);
    assert_eq!(config.touchscreens.len(), 1);
}

#[test]
fn empty_store_has_no_mapping() {
    let config = XFixConfig::new();
    assert!(config.touchscreens.is_empty());
    assert_eq!(config.get_mapping("", ""), None);
}

#[test]
fn duplicate_copies_every_field() {
    let a = record("ACME", "PCI0:0", Some("HDMI-1"));
    let b = a.duplicate();
    assert_eq!(b.vendor, "ACME");
    assert_eq!(b.id_path, "PCI0:0");
    assert_eq!(b.map_to_output.as_deref(), Some("HDMI-1"));
}
