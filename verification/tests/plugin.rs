use pocket_relay_plugin::plugin::is_plugin;

#[test]
fn asi_files_are_plugins() {
    assert!(is_plugin(true, "widescreen.asi"));
    assert!(is_plugin(true, ".asi"));
    assert!(!is_plugin(false, "widescreen.asi"));
    assert!(!is_plugin(true, "widescreen.ASI"));
    assert!(!is_plugin(true, "widescreen.asi.txt"));
    assert!(!is_plugin(true, "asi"));
    assert!(!is_plugin(true, ""));
    assert!(is_plugin(true, "ünïcode.asi"));
}
