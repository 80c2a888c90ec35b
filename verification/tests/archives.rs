use ios_emu::ipa::discovery::{
    default_executable_name, find_bundle_dir, icon_candidates, info_path, inspect, is_ipa_name,
    metadata_from_plist, pick_icon_name, sort_bundles, AppMetadata, IpaBundle,
};
use ios_emu::ipa::extract::plan_entry;
use ios_emu::ipa::plist;

#[test]
fn icon_scheme_precedence() {
    let doc = br#"<plist><dict>
            <key>CFBundleIcons</key>
            <dict><key>CFBundlePrimaryIcon</key>
              <dict><key>CFBundleIconFiles</key>
                <array><string>AppIcon60x60</string></array>
              </dict>
            </dict>
        </dict></plist>"#;
    let v = plist::parse(doc).unwrap();
    assert_eq!(pick_icon_name(&v).as_deref(), Some("AppIcon60x60"));
}

#[test]
fn candidates_include_retina() {
    let c = icon_candidates("Icon");
    assert!(c.contains(&"Icon@2x.png".to_string()));
    assert!(c.contains(&"Icon.png".to_string()));
}

#[test]
fn candidates_drop_the_extension() {
    assert_eq!(
        icon_candidates("Icon.png.png"),
        vec!["Icon@2x.png", "Icon.png", "Icon@3x.png", "Icon.png.png"]
    );
}

#[test]
fn older_icon_schemes_are_fallbacks() {
    let v = plist::parse(
        b"<plist><dict><key>CFBundleIcons</key><string>x</string>\
          <key>CFBundleIconFiles</key><array><string>A</string><string>B</string></array>\
          <key>CFBundleIconFile</key><string>C</string></dict></plist>",
    )
    .unwrap();
    assert_eq!(pick_icon_name(&v).as_deref(), Some("B"));
    let v = plist::parse(
        b"<plist><dict><key>CFBundleIconFiles</key><array></array>\
          <key>CFBundleIconFile</key><string>C</string></dict></plist>",
    )
    .unwrap();
    assert_eq!(pick_icon_name(&v).as_deref(), Some("C"));
    let v = plist::parse(b"<plist><dict></dict></plist>").unwrap();
    assert_eq!(pick_icon_name(&v), None);
}

fn names(v: &[&str]) -> Vec<String> {
    v.iter().map(|s| s.to_string()).collect()
}

#[test]
fn the_shallowest_bundle_is_the_main_one() {
    let dir = find_bundle_dir(&names(&[
        "Payload/Demo.app/PlugIns/Ext.app/Info.plist",
        "Payload/Demo.app/Info.plist",
        "Payload/Other.app/Info.plist",
        "Payload/Demo.app/Demo",
    ]))
    .unwrap();
    assert_eq!(dir, "Payload/Demo.app");
    let e = find_bundle_dir(&names(&["Info.plist", "Payload/Demo/Info.plist", "X/D.app/Info.plist"]));
    assert_eq!(e.unwrap_err().message(), "archive: no Payload/*.app/Info.plist found");
}

#[test]
fn metadata_prefers_the_display_name() {
    let v = plist::parse(
        b"<plist><dict><key>CFBundleDisplayName</key><string>Shown</string>\
          <key>CFBundleName</key><string>Plain</string>\
          <key>CFBundleIdentifier</key><string>com.x</string>\
          <key>LSMinimumSystemVersion</key><string>6.1</string></dict></plist>",
    )
    .unwrap();
    let m = metadata_from_plist(&v);
    assert_eq!(m.name, "Shown");
    assert_eq!(m.bundle_identifier, "com.x");
    assert_eq!(m.minimum_os_version, "6.1");
    assert_eq!(m.executable, "");
    assert!(m.icon_png.is_none());
}

#[test]
fn executables_default_to_the_bundle_name() {
    assert_eq!(default_executable_name("Payload/Demo.app"), "Demo");
    assert_eq!(default_executable_name("Payload/Demo"), "App");
    assert_eq!(default_executable_name(""), "App");
}

#[test]
fn inspection_describes_the_bundle_and_finds_its_icon() {
    let info: &[u8] = b"<plist><dict><key>CFBundleName</key><string>Demo</string>\
          <key>CFBundleIconFile</key><string>Icon.png</string></dict></plist>";
    assert_eq!(info_path("Payload/Demo.app"), "Payload/Demo.app/Info.plist");
    let mut i = inspect("/x/demo.ipa", "Payload/Demo.app", Some(info)).unwrap();
    assert_eq!(i.bundle.metadata.name, "Demo");
    assert_eq!(i.bundle.metadata.executable, "Demo");
    assert_eq!(i.bundle.executable_path, "Payload/Demo.app/Demo");
    assert_eq!(i.next_icon(), Some("Payload/Demo.app/Icon@2x.png"));
    i.icon_read(None);
    assert_eq!(i.next_icon(), Some("Payload/Demo.app/Icon.png"));
    i.icon_read(Some(vec![1, 2]));
    assert_eq!(i.next_icon(), None);
    assert_eq!(i.bundle.metadata.icon_png, Some(vec![1, 2]));
}

#[test]
fn inspection_reports_what_is_missing() {
    let e = inspect("/x.ipa", "Payload/D.app", None).unwrap_err();
    assert_eq!(e.message(), "archive: missing Payload/D.app/Info.plist");
    let e = inspect("/x.ipa", "Payload/D.app", Some(b"junk")).unwrap_err();
    assert_eq!(e.message(), "plist: not a recognised plist");
}

#[test]
fn archives_are_known_by_extension() {
    assert!(is_ipa_name("Demo.ipa"));
    assert!(is_ipa_name("Demo.1.IpA"));
    assert!(!is_ipa_name(".ipa"));
    assert!(!is_ipa_name("Demoipa"));
    assert!(!is_ipa_name("Demo.ipa.zip"));
    assert!(!is_ipa_name("Demo"));
}

fn bundle(name: &str, path: &str) -> IpaBundle {
    IpaBundle {
        ipa_path: path.to_string(),
        bundle_dir: String::new(),
        executable_path: String::new(),
        metadata: AppMetadata { name: name.to_string(), ..AppMetadata::default() },
    }
}

#[test]
fn bundles_are_sorted_by_name_ignoring_case() {
    let sorted = sort_bundles(vec![
        bundle("beta", "1"),
        bundle("Alpha", "2"),
        bundle("\u{c9}clair", "3"),
        bundle("BETA", "4"),
        bundle("alpha", "5"),
        bundle("\u{e9}clair", "6"),
    ]);
    let paths: Vec<&str> = sorted.iter().map(|b| b.ipa_path.as_str()).collect();
    assert_eq!(paths, vec!["2", "5", "1", "4", "3", "6"]);
}

#[test]
fn only_the_bundle_is_unpacked() {
    let plan = |name: &str| plan_entry("Payload/D.app", "/c/D.app", name);
    assert!(plan("Payload/E.app/x").unwrap().is_none());
    assert!(plan("Payload/D.app/").unwrap().is_none());
    assert!(plan("Payload/D.app").unwrap().is_none());
    let x = plan("Payload/D.app/sub/file").unwrap().unwrap();
    assert_eq!(x.path, "/c/D.app/sub/file");
    assert!(!x.directory);
    let x = plan("Payload/D.app/sub/").unwrap().unwrap();
    assert_eq!(x.path, "/c/D.app/sub/");
    assert!(x.directory);
}

#[test]
fn nothing_is_unpacked_outside() {
    let plan = |name: &str| plan_entry("Payload/D.app", "/c/D.app", name);
    assert_eq!(
        plan("Payload/D.app/../../etc").unwrap_err().message(),
        "archive: unsafe archive path: Payload/D.app/../../etc"
    );
    assert!(plan("Payload/D.app//etc/passwd").is_err());
    assert!(plan("Payload/D.app/a/..").is_err());
    assert!(plan("Payload/D.app/a..b/..c").is_ok());
}
