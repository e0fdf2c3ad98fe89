use cg_stats::labels::{extract_uid, system_display_name, user_display_name, MAX_NAME_LEN};
use cg_stats::delta::LoadRatio;
use cg_stats::render::{
    bar_cells, color_band, min_report_width, percent_of, rounded_elapsed_secs, LoadBand,
};

#[test]
fn scenario_docker_scope_truncated() {
    // "docker-" plus 64 hex characters plus ".scope"
    let hex: Vec<u8> = (0..64u32)
        .map(|i| b"0123456789abcdef"[(i % 16) as usize])
        .collect();
    let mut raw = b"docker-".to_vec();
    raw.extend_from_slice(&hex);
    raw.extend_from_slice(b".scope");
    let display = system_display_name(&raw);
    assert_eq!(display.len(), MAX_NAME_LEN);
    let mut expected = b"docker-".to_vec();
    expected.extend_from_slice(&hex[..13]);
    expected.extend_from_slice(b"...");
    assert_eq!(display, expected);
}

#[test]
fn marker_stripping() {
    assert_eq!(system_display_name(&b"cron.service".to_vec()), b"cron".to_vec());
    assert_eq!(system_display_name(&b"system.slice".to_vec()), b"system".to_vec());
    assert_eq!(system_display_name(&b"plain-name".to_vec()), b"plain-name".to_vec());
    // only the first marker goes
    assert_eq!(
        system_display_name(&b"a.service.scope".to_vec()),
        b"a.scope".to_vec()
    );
    // a marker in the middle counts too
    assert_eq!(
        system_display_name(&b"x.serviceable".to_vec()),
        b"xable".to_vec()
    );
}

#[test]
fn truncation_bounds() {
    // exactly the maximum passes unchanged
    let raw = b"abcdefghijklmnopqrstuvw".to_vec();
    assert_eq!(raw.len(), MAX_NAME_LEN);
    assert_eq!(system_display_name(&raw), raw);
    // one more byte forces the ellipsis
    let mut long = raw.clone();
    long.push(b'x');
    let display = system_display_name(&long);
    assert_eq!(display.len(), MAX_NAME_LEN);
    assert!(display.ends_with(b"..."));
    assert_eq!(&display[..MAX_NAME_LEN - 3], &long[..MAX_NAME_LEN - 3]);
}

#[test]
fn uid_extraction() {
    assert_eq!(extract_uid(&b"user-1000.slice".to_vec()), Some(1000));
    assert_eq!(extract_uid(&b"user-0.slice".to_vec()), Some(0));
    assert_eq!(extract_uid(&b"user-.slice".to_vec()), None);
    assert_eq!(extract_uid(&b"user-12x.slice".to_vec()), None);
    assert_eq!(extract_uid(&b"user-4294967295.slice".to_vec()), Some(u32::MAX));
    assert_eq!(extract_uid(&b"user-4294967296.slice".to_vec()), None);
    assert_eq!(extract_uid(&b"session-2.scope".to_vec()), None);
    assert_eq!(extract_uid(&b"user-+12.slice".to_vec()), None);
}

#[test]
fn user_names_without_uid_shape_pass_through() {
    assert_eq!(user_display_name(&b"alice".to_vec()), b"alice".to_vec());
    assert_eq!(
        user_display_name(&b"user-x.slice".to_vec()),
        b"user-x.slice".to_vec()
    );
}

#[test]
fn uid_zero_resolves_or_falls_back() {
    // uid 0 exists on any standard host; either the resolved account name
    // comes back or, on a degenerate host, the raw name is kept
    let raw = b"user-0.slice".to_vec();
    let display = user_display_name(&raw);
    assert!(!display.is_empty());
    if display != raw {
        // labeling replaced the name, so the lookup answered
        assert_ne!(display, b"user-0.slice".to_vec());
    }
}

#[test]
fn elapsed_rounding() {
    assert_eq!(rounded_elapsed_secs(0), 0);
    assert_eq!(rounded_elapsed_secs(179_999_999), 179);
    assert_eq!(rounded_elapsed_secs(180_000_000), 180);
    assert_eq!(rounded_elapsed_secs(200_000_000), 180);
    assert_eq!(rounded_elapsed_secs(210_000_000), 240);
    assert_eq!(rounded_elapsed_secs(3_599_000_000), 3600);
}

#[test]
fn percent_rounding() {
    assert_eq!(percent_of(&LoadRatio { num: 4_000_000, den: 4_000_000 }), 100);
    assert_eq!(percent_of(&LoadRatio { num: 1_000_000, den: 16_000_000 }), 6);
    assert_eq!(percent_of(&LoadRatio { num: 1, den: 2 }), 50);
    assert_eq!(percent_of(&LoadRatio { num: -1, den: 2 }), -50);
    assert_eq!(percent_of(&LoadRatio { num: 0, den: 5 }), 0);
    // more than one core is reported unclamped
    assert_eq!(percent_of(&LoadRatio { num: 3, den: 2 }), 150);
}

#[test]
fn bar_clamps_but_percent_does_not() {
    assert_eq!(bar_cells(10, &LoadRatio { num: 1, den: 2 }), (5, 5));
    assert_eq!(bar_cells(10, &LoadRatio { num: 3, den: 2 }), (10, 0));
    assert_eq!(bar_cells(10, &LoadRatio { num: -1, den: 2 }), (0, 10));
    assert_eq!(bar_cells(10, &LoadRatio { num: 1, den: 4 }), (3, 7));
    assert_eq!(bar_cells(0, &LoadRatio { num: 1, den: 2 }), (0, 0));
}

#[test]
fn color_bands() {
    assert_eq!(color_band(&LoadRatio { num: 75, den: 100 }), LoadBand::Low);
    assert_eq!(color_band(&LoadRatio { num: 76, den: 100 }), LoadBand::Mid);
    assert_eq!(color_band(&LoadRatio { num: 95, den: 100 }), LoadBand::Mid);
    assert_eq!(color_band(&LoadRatio { num: 96, den: 100 }), LoadBand::High);
    assert_eq!(color_band(&LoadRatio { num: -5, den: 100 }), LoadBand::Low);
    assert_eq!(color_band(&LoadRatio { num: 19, den: 20 }), LoadBand::Mid);
}

#[test]
fn minimum_width() {
    assert_eq!(min_report_width(0), 19);
    assert_eq!(min_report_width(11), 30);
}
