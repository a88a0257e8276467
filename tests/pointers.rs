use xfixtouch::config::XFixTouchscreen;
use xfixtouch::error::XFixError;
use xfixtouch::node::{find_touchscreen_nodes, XFixEventNode};
use xfixtouch::outputs::find_connected_video_outputs;
use xfixtouch::pointer::{assign_screens_to_outputs, device_node_mapping, device_node_of, find_xinput_id, pointer_device_ids};

const LISTING: &str = "\u{23a1} Virtual core pointer                    \tid=2\t[master pointer  (3)]\n\
\u{239c}   \u{21b3} Virtual core XTEST pointer              \tid=4\t[slave  pointer  (2)]\n\
\u{239c}   \u{21b3} ACME Touch                              \tid=11\t[slave  pointer  (2)]\n\
\u{239c}   \u{21b3} Some bridge without an id\n\
\u{23a3} Virtual core keyboard                   \tid=3\t[master keyboard (2)]\n\
    \u{21b3} Virtual core XTEST keyboard             \tid=5\t[slave  keyboard (3)]\n";

#[test]
fn pointer_ids_between_markers() {
    assert_eq!(pointer_device_ids(LISTING).unwrap(), vec![4, 11]);
}

#[test]
fn pointer_listing_without_markers_fails() {
    assert_eq!(pointer_device_ids("").unwrap_err(), XFixError::DeviceQuery);
    assert_eq!(
        pointer_device_ids("Virtual core pointer id=2\n  x id=4\n").unwrap_err(),
        XFixError::DeviceQuery
    );
    assert_eq!(
        pointer_device_ids("Virtual core keyboard id=3\nVirtual core pointer id=2\n").unwrap_err(),
        XFixError::DeviceQuery
    );
}

#[test]
fn pointer_id_too_large_is_skipped() {
    let listing = "Virtual core pointer\n a id=4294967295\n b id=4294967296\n c id=007\nVirtual core keyboard\n";
    assert_eq!(pointer_device_ids(listing).unwrap(), vec![4294967295, 7]);
}

#[test]
fn pointer_id_takes_last_marker() {
    let listing = "Virtual core pointer\n name id=9 thing id=12 [slave]\n name id=x\nVirtual core keyboard\n";
    assert_eq!(pointer_device_ids(listing).unwrap(), vec![12]);
}

#[test]
fn device_node_from_props() {
    let props = "Device 'ACME Touch':\n\tDevice Enabled (115):\t1\n\tDevice Node (265):\t\"/dev/input/event3\"\n\tDevice Product ID (264):\t1267, 12345\n";
    assert_eq!(device_node_of(props).as_deref(), Some("/dev/input/event3"));
    assert_eq!(device_node_of("Device 'Virtual core XTEST pointer':\n\tDevice Enabled (115):\t1\n"), None);
    assert_eq!(device_node_of("Device Node (1):\t\"\"\n"), None);
}

#[test]
fn node_mapping_drops_devices_without_node() {
    let listings = vec![
        (4u32, "Device 'XTEST':\n\tDevice Enabled (115):\t1\n".to_string()),
        (11u32, "\tDevice Node (265):\t\"/dev/input/event3\"\n".to_string()),
    ];
    let mapping = device_node_mapping(&listings);
    assert_eq!(mapping, vec![("/dev/input/event3".to_string(), 11u32)]);
}

#[test]
fn join_and_assign_skip_missing_values() {
    let screens = vec![
        XFixTouchscreen { vendor: "A".to_string(), id_path: "1".to_string(), map_to_output: Some("HDMI-1".to_string()) },
        XFixTouchscreen { vendor: "B".to_string(), id_path: "2".to_string(), map_to_output: Some("DP-1".to_string()) },
        XFixTouchscreen { vendor: "C".to_string(), id_path: "3".to_string(), map_to_output: None },
        XFixTouchscreen { vendor: "D".to_string(), id_path: "4".to_string(), map_to_output: Some("".to_string()) },
    ];
    let nodes = vec![
        XFixEventNode::new("/dev/input/event1".to_string(), "M".to_string(), "A".to_string(), "1".to_string()),
        XFixEventNode::new("/dev/input/event3".to_string(), "M".to_string(), "C".to_string(), "3".to_string()),
        XFixEventNode::new("/dev/input/event4".to_string(), "M".to_string(), "D".to_string(), "4".to_string()),
    ];
    let mapping = vec![
        ("/dev/input/event1".to_string(), 7u32),
        ("/dev/input/event1".to_string(), 8u32),
        ("/dev/input/event3".to_string(), 9u32),
        ("/dev/input/event4".to_string(), 10u32),
    ];
    let with_ids = find_xinput_id(find_touchscreen_nodes(&screens, &nodes), &mapping);
    let ids: Vec<Option<u32>> = with_ids.iter().map(|s| s.id()).collect();
    assert_eq!(ids, vec![Some(8), None, Some(9), Some(10)]);
    assert_eq!(with_ids[1].resolved_node().node(), None);
    let commands = assign_screens_to_outputs(&with_ids);
    assert_eq!(commands, vec![(8u32, "HDMI-1".to_string())]);
}

#[test]
fn connected_outputs_only() {
    let listing = "Screen 0: minimum 320 x 200, current 1920 x 1080\neDP-1 connected primary 1920x1080+0+0 (normal) 344mm x 194mm\n   1920x1080     60.02*+\nHDMI-1 disconnected (normal left inverted right x axis y axis)\n";
    assert_eq!(find_connected_video_outputs(listing), vec!["eDP-1".to_string()]);
}

#[test]
fn connected_output_listing_lines() {
    let outputs = find_connected_video_outputs("eDP-1 connected primary ...\nHDMI-1 disconnected");
    assert_eq!(outputs, vec!["eDP-1".to_string()]);
}

#[test]
fn no_outputs_in_empty_listing() {
    assert!(find_connected_video_outputs("").is_empty());
    assert!(find_connected_video_outputs("connected\n").is_empty());
    assert_eq!(find_connected_video_outputs("DP-2\tconnected\r\n"), vec!["DP-2".to_string()]);
}

#[test]
fn output_name_is_first_token() {
    assert_eq!(find_connected_video_outputs("A B connected\n"), vec!["A".to_string()]);
    assert_eq!(find_connected_video_outputs("X connected foo connected\n"), vec!["X".to_string()]);
}

#[test]
fn unicode_white_space_counts() {
    assert_eq!(find_connected_video_outputs("HDMI-2\u{a0}connected\n"), vec!["HDMI-2".to_string()]);
    assert_eq!(find_connected_video_outputs("DP-3\u{3000}connected primary\n"), vec!["DP-3".to_string()]);
}

#[test]
fn device_node_takes_last_quoted_text() {
    assert_eq!(device_node_of("\tDevice Node (265):\t\"/dev/a\" \"/dev/b\"\n").as_deref(), Some("/dev/b"));
    assert_eq!(device_node_of("\tDevice Node (265):\t\"/dev/a\"\"\"\n").as_deref(), Some("/dev/a"));
    assert_eq!(device_node_of("\"/dev/x\" Device Node (1): \"/dev/y\"\n").as_deref(), Some("/dev/y"));
}
