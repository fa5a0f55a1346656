use dscan11::double::Double;
use dscan11::rates::human_count_rate;
use dscan11::sizes::{human_duration, human_rate, human_size};
use dscan11::paths::{
    components_of, extension_of, file_name_of, is_under, join_path, parent_of, same_components,
    PathStyle,
};

const STYLE: PathStyle = PathStyle::Windows;

#[test]
fn sizes_pick_the_largest_unit() {
    assert_eq!(human_size(0), "0 B");
    assert_eq!(human_size(1023), "1023 B");
    assert_eq!(human_size(2_048), "2.00 KB");
    assert_eq!(human_size(1_152), "1.12 KB");
    assert_eq!(human_size(u64::MAX), "16384 PB");
    for n in [1024u64, 1536, 99_999, 1 << 20, (1 << 20) - 1, 123_456_789, 1 << 53, (1 << 53) + 1, u64::MAX - 1025, 987_654_321_987_654_321] {
        let mut value = n as f64;
        let units = ["B", "KB", "MB", "GB", "TB", "PB"];
        let mut unit = 0;
        while value >= 1024.0 && unit < 5 {
            value /= 1024.0;
            unit += 1;
        }
        let expected = if value >= 100.0 {
            format!("{value:.0} {}", units[unit])
        } else if value >= 10.0 {
            format!("{value:.1} {}", units[unit])
        } else {
            format!("{value:.2} {}", units[unit])
        };
        assert_eq!(human_size(n), expected);
    }
    assert_eq!(human_duration(61_000), "1m 01s");
}

#[test]
fn windows_paths_are_taken_apart() {
    assert_eq!(parent_of(STYLE, r"C:\a\b").as_deref(), Some(r"C:\a"));
    assert_eq!(parent_of(STYLE, r"C:\a").as_deref(), Some(r"C:\"));
    assert_eq!(parent_of(STYLE, r"C:\"), None);
    assert_eq!(file_name_of(STYLE, r"C:\a\b.txt").as_deref(), Some("b.txt"));
    assert_eq!(extension_of(STYLE, r"C:\a\b.txt").as_deref(), Some("txt"));
    assert_eq!(extension_of(STYLE, r"C:\a\.git"), None);
    assert_eq!(join_path(STYLE, r"C:\a", "b"), r"C:\a\b");
}

#[test]
fn rates_are_written_as_doubles_are() {
    let mut values = vec![
        0.0f64,
        -0.0,
        -1.0,
        f64::NAN,
        f64::INFINITY,
        f64::NEG_INFINITY,
        f64::MIN_POSITIVE,
        5e-324,
        0.004_999,
        0.005,
        0.125,
        1.005,
        9.995,
        9.999,
        10.0,
        10.25,
        99.95,
        99.949_999,
        100.5,
        101.5,
        1e15,
        9_007_199_254_740_993.0,
        1e22,
        f64::MAX,
    ];
    let mut x: u64 = 0x1234_5678_9abc_def1;
    for _ in 0..2_000 {
        x ^= x << 13;
        x ^= x >> 7;
        x ^= x << 17;
        values.push(f64::from_bits(x));
        values.push(f64::from_bits(x >> 12 | ((1023 + x % 20) << 52)));
    }
    for value in values {
        let expected = if !value.is_finite() || value <= 0.0 {
            "0".to_string()
        } else if value >= 100.0 {
            format!("{value:.0}")
        } else if value >= 10.0 {
            format!("{value:.1}")
        } else {
            format!("{value:.2}")
        };
        assert_eq!(human_count_rate(Double { bits: value.to_bits() }), expected, "{value:e}");
        let bytes = if !value.is_finite() || value <= 0.0 {
            "0 B/s".to_string()
        } else {
            format!("{}/s", human_size(value.round() as u64))
        };
        assert_eq!(human_rate(Double { bits: value.to_bits() }), bytes, "{value:e}");
    }
}

#[test]
fn verbatim_paths_are_taken_as_they_are_written() {
    assert!(same_components(STYLE, r"\\?\c:\x", r"\\?\C:\x"));
    assert!(!same_components(STYLE, r"\\?\C:\x", r"C:\x"));
    assert!(!same_components(STYLE, r"\\?\C:\x", r"//?/C:/x"));
    assert!(!same_components(STYLE, r"\\?\C:\a/b", r"\\?\C:\a\b"));
    assert!(!same_components(STYLE, r"\\?\C:\a\.\b", r"\\?\C:\a\b"));
    assert!(same_components(STYLE, r"\\?\C:\a\\b\", r"\\?\C:\a\b"));
    assert!(!same_components(STYLE, r"\\?\C:", r"\\?\C:\"));
    assert!(same_components(STYLE, r"\\server\share", r"//server/share/"));
    assert!(!same_components(STYLE, r"\\?\UNC\server\share\x", r"\\server\share\x"));
    assert_eq!(
        components_of(STYLE, r"\\?\c:\a/b\."),
        vec![r"\\?\C:".to_string(), r"\".to_string(), "a/b".to_string(), ".".to_string()]
    );
    assert_eq!(components_of(STYLE, r"\\?\UNC\server\share").len(), 1);
    assert_eq!(components_of(STYLE, r"\\?\UNC\server\share\x").len(), 3);
    assert_eq!(components_of(STYLE, r"\\?\C:x\y"), vec![r"\\?\C:x", r"\", "y"]);
    assert!(is_under(STYLE, r"\\?\C:\a\b", r"\\?\c:\a"));
    assert_eq!(parent_of(STYLE, r"\\?\C:\a\b").as_deref(), Some(r"\\?\C:\a"));
    assert_eq!(parent_of(STYLE, r"\\?\C:\a").as_deref(), Some(r"\\?\C:\"));
    assert_eq!(parent_of(STYLE, r"\\?\C:\"), None);
    assert_eq!(parent_of(STYLE, r"\\?\C:\a\.").as_deref(), Some(r"\\?\C:\a"));
    assert_eq!(file_name_of(STYLE, r"\\?\C:\a\."), None);
    assert_eq!(file_name_of(STYLE, r"\\?\C:\a/b").as_deref(), Some("a/b"));
}

#[test]
fn paths_are_joined_to_verbatim_paths_step_by_step() {
    assert_eq!(join_path(STYLE, r"\\?\C:\a", "b/c"), r"\\?\C:\a\b\c");
    assert_eq!(join_path(STYLE, r"\\?\C:\a", r".\..\b"), r"\\?\C:\b");
    assert_eq!(join_path(STYLE, r"\\?\C:\a", r"..\..\b"), r"\\?\C:\b");
    assert_eq!(join_path(STYLE, r"\\?\C:\a", r"\b"), r"\\?\C:\b");
    assert_eq!(join_path(STYLE, r"\\?\C:", "b"), r"\\?\C:\b");
    assert_eq!(join_path(STYLE, r"\\?\C:", "."), r"\\?\C:");
    assert_eq!(join_path(STYLE, r"\\?\C:\a", ""), r"\\?\C:\a\");
    assert_eq!(join_path(STYLE, r"\\?\C:\a", r"D:\b"), r"D:\b");
}

#[test]
fn unix_paths_are_taken_apart_as_std_does() {
    if std::path::MAIN_SEPARATOR != '/' {
        return;
    }
    let mut all = vec![String::new()];
    let mut last = all.clone();
    for _ in 0..5 {
        let mut next = Vec::new();
        for text in &last {
            for c in ['/', '.', 'a', '\\', ':'] {
                next.push(format!("{text}{c}"));
            }
        }
        all.extend(next.iter().cloned());
        last = next;
    }
    let unix = PathStyle::Unix;
    for text in &all {
        let path = std::path::Path::new(text);
        assert_eq!(parent_of(unix, text).as_deref(), path.parent().and_then(|p| p.to_str()));
        assert_eq!(file_name_of(unix, text).as_deref(), path.file_name().and_then(|n| n.to_str()));
        assert_eq!(extension_of(unix, text).as_deref(), path.extension().and_then(|e| e.to_str()));
        assert_eq!(components_of(unix, text).len(), path.components().count());
    }
    for text in all.iter().take(156) {
        for other in all.iter().take(156) {
            let (a, b) = (std::path::Path::new(text), std::path::Path::new(other));
            assert_eq!(same_components(unix, text, other), a == b);
            assert_eq!(is_under(unix, text, other), a.starts_with(b));
            assert_eq!(Some(join_path(unix, text, other).as_str()), a.join(b).to_str());
        }
    }
}
