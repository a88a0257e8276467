use xfixtouch::assign::{map_touchscreen, resolve_bindings, screen_label};
use xfixtouch::config::{XFixConfig, XFixTouchscreen};
use xfixtouch::error::XFixError;
use xfixtouch::node::{find_all_touchscreens_nodes, XFixEventNode};
use xfixtouch::pointer::{device_node_mapping, pointer_device_ids};

fn acme_store() -> XFixConfig {
    let mut config = XFixConfig::new();
    config.add_touchscreen(XFixTouchscreen {
        vendor: "ACME".to_string(),
        id_path: "PCI0:0".to_string(),
        map_to_output: Some("HDMI-1".to_string()),
    });
    config
}

fn acme_inputs() -> (Vec<XFixEventNode>, Vec<(String, u32)>) {
    let dumps = vec![(
        "/dev/input/event3".to_string(),
        "DEVNAME=/dev/input/event3\nID_INPUT=1\nID_INPUT_MOUSE=1\nID_VENDOR=ACME\nID_PATH=PCI0:0\n".to_string(),
    )];
    let nodes = find_all_touchscreens_nodes(&dumps);
    let listing = "\u{23a1} Virtual core pointer\tid=2\t[master pointer  (3)]\n\u{239c}   \u{21b3} ACME Touch\tid=11\t[slave  pointer  (2)]\n\u{23a3} Virtual core keyboard\tid=3\t[master keyboard (2)]\n";
    let ids = pointer_device_ids(listing).unwrap();
    let listings: Vec<(u32, String)> = ids
        .iter()
        .map(|id| (*id, format!("Device 'ACME Touch':\n\tDevice Node (265):\t\"/dev/input/event3\"\n")))
        .collect();
    (nodes, device_node_mapping(&listings))
}

#[test]
fn end_to_end_single_binding() {
    let config = acme_store();
    let (nodes, mapping) = acme_inputs();
    let commands = resolve_bindings(&config, &nodes, &mapping);
    assert_eq!(commands, vec![(11u32, "HDMI-1".to_string())]);
    assert_eq!(config.touchscreens.len(), 1);
    assert_eq!(config.get_mapping("ACME", "PCI0:0").map(|s| s.as_str()), Some("HDMI-1"));
}

#[test]
fn assign_twice_gives_same_commands() {
    let config = acme_store();
    let (nodes, mapping) = acme_inputs();
    let first = resolve_bindings(&config, &nodes, &mapping);
    let second = resolve_bindings(&config, &nodes, &mapping);
    assert_eq!(first, second);
    assert_eq!(config.touchscreens.len(), 1);
}

#[test]
fn unmatched_identity_is_skipped() {
    let mut config = acme_store();
    config.add_touchscreen(XFixTouchscreen {
        vendor: "Gone".to_string(),
        id_path: "USB9".to_string(),
        map_to_output: Some("DP-1".to_string()),
    });
    let (nodes, mapping) = acme_inputs();
    assert_eq!(resolve_bindings(&config, &nodes, &mapping), vec![(11u32, "HDMI-1".to_string())]);
    assert!(resolve_bindings(&config, &Vec::new(), &mapping).is_empty());
}

#[test]
fn label_shows_stored_output() {
    let config = acme_store();
    let mapped = XFixEventNode::new("/dev/input/event3".to_string(), "Touch".to_string(), "ACME".to_string(), "PCI0:0".to_string());
    assert_eq!(screen_label(&config, &mapped), "ACME - Touch (/dev/input/event3) (-> HDMI-1)");
    let other = XFixEventNode::new("/dev/input/event4".to_string(), "Pad".to_string(), "ACME".to_string(), "PCI0:1".to_string());
    assert_eq!(screen_label(&config, &other), "ACME - Pad (/dev/input/event4)");
}

#[test]
fn map_binds_chosen_node_to_chosen_output() {
    let mut config = acme_store();
    let nodes = vec![
        XFixEventNode::new("/dev/input/event3".to_string(), "Touch".to_string(), "ACME".to_string(), "PCI0:0".to_string()),
        XFixEventNode::new("/dev/input/event4".to_string(), "Pad".to_string(), "Other".to_string(), "USB1".to_string()),
    ];
    let outputs = vec!["eDP-1".to_string(), "DP-2".to_string()];
    assert_eq!(map_touchscreen(&mut config, &nodes, 0, &outputs, 1), Ok(()));
    assert_eq!(config.touchscreens.len(), 1);
    assert_eq!(config.get_mapping("ACME", "PCI0:0").map(|s| s.as_str()), Some("DP-2"));
    assert_eq!(map_touchscreen(&mut config, &nodes, 1, &outputs, 0), Ok(()));
    assert_eq!(config.touchscreens.len(), 2);
    assert_eq!(config.get_mapping("Other", "USB1").map(|s| s.as_str()), Some("eDP-1"));
}

#[test]
fn map_rejects_bad_choices() {
    let mut config = acme_store();
    let nodes = vec![XFixEventNode::from_properties("/dev/input/event9".to_string(), Vec::new())];
    let outputs = vec!["eDP-1".to_string()];
    assert_eq!(map_touchscreen(&mut config, &nodes, 1, &outputs, 0), Err(XFixError::NoSuchChoice));
    assert_eq!(map_touchscreen(&mut config, &nodes, 0, &outputs, 1), Err(XFixError::NoSuchChoice));
    assert_eq!(map_touchscreen(&mut config, &nodes, 0, &outputs, 0), Err(XFixError::VendorNotFound));
    assert_eq!(config.touchscreens.len(), 1);
    assert_eq!(config.get_mapping("ACME", "PCI0:0").map(|s| s.as_str()), Some("HDMI-1"));
}
