use xfixtouch::config::{XFixConfig, XFixTouchscreen};
use xfixtouch::error::XFixError;
use xfixtouch::node::{find_all_touchscreens_nodes, find_touchscreen_nodes, parse_properties, XFixEventNode};

fn dump(vendor: &str, id_path: &str, pointer: Option<&str>) -> String {
    let mut s = format!("DEVNAME=/dev/input/x\nID_VENDOR={}\nID_PATH={}\nID_MODEL=Panel\n", vendor, id_path);
    if let Some(p) = pointer {
        s.push_str(&format!("ID_INPUT_MOUSE={}\n", p));
    }
    s
}

#[test]
fn properties_split_at_first_equals() {
    let props = parse_properties("A=1\nnot a property\nB=x=y\r\n\nC=\n");
    let expected: Vec<(String, String)> = vec![
        ("A".to_string(), "1".to_string()),
        ("B".to_string(), "x=y".to_string()),
        ("C".to_string(), "".to_string()),
    ];
    assert_eq!(props, expected);
}

#[test]
fn properties_of_empty_dump() {
    assert!(parse_properties("").is_empty());
}

#[test]
fn node_accessors_read_properties() {
    let n = XFixEventNode::new("/dev/input/event0".to_string(), "Touch 1".to_string(), "Maker".to_string(), "P1".to_string());
    assert_eq!(n.event_path(), "/dev/input/event0");
    assert_eq!(n.vendor(), Some("Maker"));
    assert_eq!(n.model(), Some("Touch 1"));
    assert_eq!(n.id_path(), Some("P1"));
    assert_eq!(n.describe(), "Maker - Touch 1 (/dev/input/event0)");
}

#[test]
fn later_property_wins() {
    let props = parse_properties("ID_VENDOR=First\nID_VENDOR=Second\n");
    let n = XFixEventNode::from_properties("/dev/input/event1".to_string(), props);
    assert_eq!(n.vendor(), Some("Second"));
    assert_eq!(n.model(), None);
    assert_eq!(n.describe(), "Second - /dev/input/event1");
}

#[test]
fn to_touchscreen_errors() {
    let none = XFixEventNode::from_properties("/dev/input/event1".to_string(), Vec::new());
    assert_eq!(none.describe(), "/dev/input/event1");
    assert_eq!(none.to_touchscreen(None).unwrap_err(), XFixError::VendorNotFound);
    let vendor_only = XFixEventNode::from_properties("/e".to_string(), parse_properties("ID_VENDOR=V"));
    assert_eq!(vendor_only.to_touchscreen(None).unwrap_err(), XFixError::IdPathNotFound);
    let full = XFixEventNode::new("/e".to_string(), "M".to_string(), "V".to_string(), "P".to_string());
    let t = full.to_touchscreen(Some("HDMI-1".to_string())).unwrap();
    assert_eq!(t.vendor, "V");
    assert_eq!(t.id_path, "P");
    assert_eq!(t.map_to_output.as_deref(), Some("HDMI-1"));
}

#[test]
fn pointer_class_filtering() {
    let dumps = vec![
        ("/dev/input/event0".to_string(), dump("ACME", "PCI0:0", Some("0"))),
        ("/dev/input/event1".to_string(), dump("ACME", "PCI0:0", None)),
        ("/dev/input/event2".to_string(), dump("ACME", "PCI0:0", Some("1"))),
        ("/dev/input/event3".to_string(), dump("ACME", "PCI0:0", Some("10"))),
    ];
    let nodes = find_all_touchscreens_nodes(&dumps);
    assert_eq!(nodes.len(), 1);
    assert_eq!(nodes[0].event_path(), "/dev/input/event2");
}

#[test]
fn no_dumps_no_nodes() {
    assert!(find_all_touchscreens_nodes(&Vec::new()).is_empty());
}

#[test]
fn matching_is_exact_on_vendor_and_path() {
    let mut config = XFixConfig::new();
    config.add_touchscreen(XFixTouchscreen {
        vendor: "ACME".to_string(),
        id_path: "PCI0:0".to_string(),
        map_to_output: Some("HDMI-1".to_string()),
    });
    let nodes = vec![
        XFixEventNode::new("/dev/input/event0".to_string(), "M".to_string(), "ACME".to_string(), "PCI0:1".to_string()),
        XFixEventNode::new("/dev/input/event1".to_string(), "M".to_string(), "ACMEX".to_string(), "PCI0:0".to_string()),
    ];
    let resolved = find_touchscreen_nodes(&config.touchscreens, &nodes);
    assert_eq!(resolved.len(), 1);
    assert_eq!(resolved[0].node(), None);
    assert_eq!(resolved[0].screen().vendor, "ACME");
}

#[test]
fn first_matching_node_wins() {
    let screens = vec![
        XFixTouchscreen { vendor: "B".to_string(), id_path: "2".to_string(), map_to_output: None },
        XFixTouchscreen { vendor: "A".to_string(), id_path: "1".to_string(), map_to_output: None },
    ];
    let nodes = vec![
        XFixEventNode::new("/dev/input/event5".to_string(), "M".to_string(), "A".to_string(), "1".to_string()),
        XFixEventNode::new("/dev/input/event6".to_string(), "M".to_string(), "A".to_string(), "1".to_string()),
        XFixEventNode::new("/dev/input/event7".to_string(), "M".to_string(), "B".to_string(), "2".to_string()),
    ];
    let resolved = find_touchscreen_nodes(&screens, &nodes);
    assert_eq!(resolved.len(), 2);
    assert_eq!(resolved[0].node(), Some("/dev/input/event7"));
    assert_eq!(resolved[1].node(), Some("/dev/input/event5"));
}
