use ios_emu::ipa::discovery::{AppMetadata, IpaBundle};
use ios_emu::session::{app_info, format_uuid, launch_outcome, listing};

#[test]
fn uuid_shape() {
    let u = format_uuid(1_700_000_000_123_456_789, 4242, 0);
    let parts: Vec<&str> = u.split('-').collect();
    assert_eq!(parts.len(), 5);
    assert_eq!(parts[0].len(), 8);
    assert_eq!(parts[4].len(), 12);
    assert_ne!(
        format_uuid(1_700_000_000_123_456_789, 4242, 1),
        format_uuid(1_700_000_000_123_456_789, 4242, 2)
    );
}

#[test]
fn uuid_value() {
    let (nanos, pid, seq) = (0x0123_4567_89ab_cdefu64, 0x1111u64, 3u64);
    let a = nanos ^ (pid << 32);
    let b = nanos.rotate_left(17) ^ seq.wrapping_mul(0x9e37_79b9_7f4a_7c15);
    let expected = format!(
        "{:08X}-{:04X}-{:04X}-{:04X}-{:012X}",
        (a >> 32) as u32,
        (a >> 16) as u16,
        a as u16,
        (b >> 48) as u16,
        b & 0xffff_ffff_ffff,
    );
    assert_eq!(format_uuid(nanos, pid, seq), expected);
    assert_eq!(format_uuid(0, 0, 0), "00000000-0000-0000-0000-000000000000");
}

#[test]
fn identifiers_differ_by_time_and_counter() {
    let mut seen = Vec::new();
    for n in 0..20u64 {
        for s in 0..20u64 {
            let u = format_uuid(n, 7, s);
            assert!(!seen.contains(&u));
            seen.push(u);
        }
    }
}

#[test]
fn outcomes_are_reported() {
    let o = launch_outcome(Ok(3));
    assert_eq!((o.exit_code, o.message.as_str()), (3, "exited"));
    let o = launch_outcome(Err("no such file".to_string()));
    assert_eq!((o.exit_code, o.message.as_str()), (-1, "no such file"));
}

#[test]
fn listings_keep_the_order() {
    let bundle = |n: &str| IpaBundle {
        ipa_path: format!("/ipas/{n}.ipa"),
        bundle_dir: String::new(),
        executable_path: String::new(),
        metadata: AppMetadata {
            name: n.to_string(),
            bundle_identifier: format!("com.{n}"),
            minimum_os_version: "7.0".to_string(),
            executable: String::new(),
            icon_png: Some(vec![1]),
        },
    };
    let a = app_info(bundle("one"));
    assert_eq!(a.name, "one");
    assert_eq!(a.bundle_identifier, "com.one");
    assert_eq!(a.minimum_os_version, "7.0");
    assert_eq!(a.ipa_path, "/ipas/one.ipa");
    assert_eq!(a.icon_png, Some(vec![1]));
    let l = listing(vec![bundle("one"), bundle("two")]);
    assert_eq!(l.len(), 2);
    assert_eq!(l[1].name, "two");
    assert!(listing(Vec::new()).is_empty());
}
