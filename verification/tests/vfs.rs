use ios_emu::vfs::sandbox::{sanitize_component, strip_prefix_dir, path_join};
use ios_emu::vfs::translate::{normalize_ios_path, TranslationError};
use ios_emu::vfs::Sandbox;

#[test]
fn collapses_dots() {
    assert_eq!(
        normalize_ios_path("/var/mobile/./Documents/../Documents/a.txt").unwrap(),
        vec!["var", "mobile", "Documents", "a.txt"]
    );
}

#[test]
fn rejects_escape() {
    assert_eq!(normalize_ios_path("/../../etc/passwd"), Err(TranslationError::Escape));
    assert_eq!(normalize_ios_path("a/../../b"), Err(TranslationError::Escape));
}

#[test]
fn rejects_empty_and_nul() {
    assert_eq!(normalize_ios_path(""), Err(TranslationError::Malformed));
    assert_eq!(normalize_ios_path("a\0b"), Err(TranslationError::Malformed));
}

#[test]
fn prefix_is_component_aware() {
    assert_eq!(strip_prefix_dir("/usr/lib/x", "/usr").as_deref(), Some("lib/x"));
    assert_eq!(strip_prefix_dir("/usrlocal/x", "/usr").as_deref(), None);
    assert_eq!(strip_prefix_dir("/usr", "/usr").as_deref(), Some(""));
}

#[test]
fn prepare_and_translate() {
    let sb = Sandbox::prepare("/tmp/containers", "/tmp/containers/system", "My App", "ABCD-UUID");

    let (host, ro) = sb.translate("/var/mobile/Applications/ABCD-UUID/Documents/x.dat").unwrap();
    assert!(!ro);
    assert!(host.ends_with("Documents/x.dat"));

    let (_, ro) = sb.translate("/System/Library/Fonts/Helvetica.ttf").unwrap();
    assert!(ro);

    assert!(sb.translate("/var/mobile/Applications/ABCD-UUID/../../../etc/passwd").is_err());
}

#[test]
fn sandbox_layout_is_fixed() {
    let sb = Sandbox::prepare("/c", "/sys", "My App", "U1");
    let dirs = sb.directories();
    assert!(!dirs.is_empty());
    for d in &dirs {
        assert!(d.starts_with("/c/"));
    }
    assert_eq!(sb.uuid(), "U1");
    assert_eq!(sb.ios_prefix(), "/var/mobile/Applications/U1");
    assert!(sb.layout().bundle_dir.ends_with("My App.app"));
    assert!(sb.layout().documents.ends_with("Documents"));
    assert!(sb.bundle_ios_path().starts_with(sb.ios_prefix()));
}

#[test]
fn translated_paths_stay_below_their_root() {
    let sb = Sandbox::prepare("/c", "/sys", "App", "U1");
    let root = sb.host_root.clone();
    for p in ["/var/mobile/Applications/U1/tmp/../Documents/./a", "Documents/b", "tmp//c"] {
        if let Ok((host, ro)) = sb.translate(p) {
            if ro {
                assert!(host.starts_with("/sys"));
            } else {
                assert!(host.starts_with(&root));
            }
            assert!(!host.contains(".."));
        }
    }
    for p in ["/usr/lib/libSystem.dylib", "/System/x"] {
        let (host, ro) = sb.translate(p).unwrap();
        assert!(ro);
        assert!(host.starts_with("/sys/"));
    }
    assert!(sb.translate("/Applications/Other.app/x").is_err());
    assert!(sb.translate("/etc/passwd").is_err());
}

#[test]
fn names_become_one_component() {
    assert_eq!(sanitize_component("My App"), "My App");
    let s = sanitize_component("a/b\\c\0d");
    assert!(!s.contains('/') && !s.contains('\\') && !s.contains('\0'));
    assert!(!sanitize_component("").is_empty());
}

#[test]
fn joining_paths() {
    assert_eq!(path_join("/a", "b"), "/a/b");
    assert_eq!(path_join("/a/", "b"), "/a/b");
    assert_eq!(path_join("/a", "/b"), "/b");
    assert_eq!(path_join("", "b"), "b");
}

#[test]
fn translation_errors_print() {
    assert_eq!(TranslationError::Escape.message(), "path escapes sandbox");
    assert_eq!(TranslationError::Malformed.message(), "malformed path");
    let sb = Sandbox::prepare("/c", "/sys", "App", "U1");
    let message = |p: &str| sb.translate(p).unwrap_err().message();
    assert_eq!(message("/etc/passwd"), "vfs: path outside sandbox: /etc/passwd");
    assert_eq!(message("/usr/../../x"), "vfs: sandbox escape: ../../x");
    assert_eq!(message("/usr"), "vfs: bad path: ");
}
