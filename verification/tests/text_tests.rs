use ue_trim::platforms::{
    all_platforms, any_apple_kept, apple_kept, folder_names_to_remove, normalize_platform_name,
    normalize_platforms, parse_platforms, platforms_to_remove,
};
use ue_trim::text::{eq_ignore_ascii_case, str_ends_with, trim_str, white_space};

/// The comma-list parse done with the standard library.
fn parse_with_std(arg: &str) -> Vec<String> {
    arg.split(',').map(|s| s.trim().to_string()).filter(|s| !s.is_empty()).collect()
}

#[test]
fn parse_platforms_examples() {
    assert_eq!(parse_platforms("Windows,Linux,Android,IOS"), vec!["Windows", "Linux", "Android", "IOS"]);
    assert_eq!(parse_platforms(" Windows, ,IOS "), vec!["Windows", "IOS"]);
    assert_eq!(parse_platforms(""), Vec::<String>::new());
    assert_eq!(parse_platforms(",,,"), Vec::<String>::new());
    assert_eq!(parse_platforms("\u{3000}Mac\t,\u{a0}TVOS\u{2028}"), vec!["Mac", "TVOS"]);
    assert_eq!(parse_platforms("Win dows"), vec!["Win dows"]);
}

#[test]
fn parse_platforms_agrees_with_std() {
    let samples = [
        "", " ", ",", "a", "a,b", " a , b ", "a,,b", ",a,", "\t\n a \r\n,", "Ω, é ,ß",
        "\u{85}x\u{85}", "\u{200b}x", "x\u{1680},\u{205f}y", "\u{2000}\u{200a}", "a\u{3000}b, c",
        "Windows,Linux,Android,IOS", "mac,  ,  ,tvos", "\u{feff}a",
    ];
    for s in samples {
        assert_eq!(parse_platforms(s), parse_with_std(s), "input {:?}", s);
    }
}

#[test]
fn white_space_agrees_with_std() {
    for u in 0u32..0x3100 {
        if let Some(c) = char::from_u32(u) {
            assert_eq!(white_space(c), c.is_whitespace(), "char {:#x}", u);
        }
    }
    for c in ['\u{feff}', '\u{10ffff}', '\u{e000}'] {
        assert_eq!(white_space(c), c.is_whitespace());
    }
}

#[test]
fn trim_agrees_with_std() {
    for s in ["", "   ", " a ", "\u{3000}b\u{3000}", "x y", "\t\n"] {
        assert_eq!(trim_str(s), s.trim());
    }
}

#[test]
fn eq_ignore_ascii_case_agrees_with_std() {
    let samples = ["", "a", "A", "windows", "WINDOWS", "Windows", "Ä", "ä", "é", "É", "ios", "IOS", "i0s", "[", "{", "@", "`"];
    for a in samples {
        for b in samples {
            assert_eq!(eq_ignore_ascii_case(a, b), a.eq_ignore_ascii_case(b), "{:?} {:?}", a, b);
        }
    }
}

#[test]
fn ends_with_examples() {
    assert!(str_ends_with("CoreTests", "Tests"));
    assert!(str_ends_with("Tests", "Tests"));
    assert!(!str_ends_with("CoreTest", "Tests"));
    assert!(!str_ends_with("coretests", "Tests"));
    assert!(!str_ends_with("ests", "Tests"));
}

#[test]
fn normalize_platform_name_examples() {
    assert_eq!(normalize_platform_name("windows"), Some("Windows"));
    assert_eq!(normalize_platform_name("IOS"), Some("IOS"));
    assert_eq!(normalize_platform_name("ios"), Some("IOS"));
    assert_eq!(normalize_platform_name("STEAMDECK"), Some("SteamDeck"));
    assert_eq!(normalize_platform_name("xbox"), None);
    assert_eq!(normalize_platform_name(""), None);
    assert_eq!(normalize_platform_name("Win64"), None);
}

#[test]
fn normalize_is_idempotent_on_every_platform() {
    for p in all_platforms() {
        assert_eq!(normalize_platform_name(p.name), Some(p.name));
        assert_eq!(normalize_platform_name(&p.name.to_lowercase()), Some(p.name));
        assert_eq!(normalize_platform_name(&p.name.to_uppercase()), Some(p.name));
    }
}

#[test]
fn normalize_platforms_reports_first_unknown() {
    let names: Vec<String> = vec!["linux".into(), "Xbox".into(), "PS5".into()];
    assert_eq!(normalize_platforms(&names), Err("Xbox".to_string()));
    let names: Vec<String> = vec!["linux".into(), "mac".into()];
    assert_eq!(normalize_platforms(&names), Ok(vec!["Linux", "Mac"]));
    assert_eq!(normalize_platforms(&Vec::new()), Ok(Vec::new()));
}

#[test]
fn table_has_nine_platforms() {
    let t = all_platforms();
    let names: Vec<&str> = t.iter().map(|p| p.name).collect();
    assert_eq!(names, vec!["Windows", "Linux", "Android", "IOS", "Mac", "TVOS", "VisionOS", "HoloLens", "SteamDeck"]);
    let apple: Vec<&str> = t.iter().filter(|p| p.requires_apple).map(|p| p.name).collect();
    assert_eq!(apple, vec!["IOS", "Mac", "TVOS", "VisionOS"]);
}

#[test]
fn selection_for_mobile_and_desktop() {
    let keep = vec!["Windows", "Linux", "Android", "IOS"];
    let removed: Vec<&str> = platforms_to_remove(&keep).iter().map(|p| p.name).collect();
    assert_eq!(removed, vec!["Mac", "TVOS", "VisionOS", "HoloLens", "SteamDeck"]);
    assert!(any_apple_kept(&keep));
    assert_eq!(apple_kept(&keep), vec!["IOS"]);
    let names = folder_names_to_remove(&platforms_to_remove(&keep));
    assert_eq!(names, vec!["Mac", "macos", "osx", "Darwin", "TVOS", "VisionOS", "HoloLens", "SteamDeck"]);
}

#[test]
fn selection_for_windows_only() {
    let keep = vec!["Windows"];
    let removed: Vec<&str> = platforms_to_remove(&keep).iter().map(|p| p.name).collect();
    assert_eq!(removed, vec!["Linux", "Android", "IOS", "Mac", "TVOS", "VisionOS", "HoloLens", "SteamDeck"]);
    assert!(!any_apple_kept(&keep));
    assert!(apple_kept(&keep).is_empty());
    let names = folder_names_to_remove(&platforms_to_remove(&keep));
    assert!(!names.iter().any(|n| n.eq_ignore_ascii_case("win64") || n.eq_ignore_ascii_case("windows")));
    assert_eq!(names.len(), 12);
}

#[test]
fn selection_keeping_everything() {
    let keep: Vec<&'static str> = all_platforms().iter().map(|p| p.name).collect();
    assert!(platforms_to_remove(&keep).is_empty());
    assert!(folder_names_to_remove(&platforms_to_remove(&keep)).is_empty());
    assert_eq!(apple_kept(&keep), vec!["IOS", "Mac", "TVOS", "VisionOS"]);
}

#[test]
fn apple_check_is_exact_on_names() {
    // The kept names are canonical; a name in other case is no Apple platform here.
    assert!(!any_apple_kept(&vec!["ios"]));
    assert!(any_apple_kept(&vec!["Linux", "VisionOS"]));
    assert_eq!(apple_kept(&vec!["Mac", "Linux", "TVOS"]), vec!["Mac", "TVOS"]);
}

#[test]
fn folder_names_are_listed_once() {
    let removed = platforms_to_remove(&vec![]);
    let names = folder_names_to_remove(&removed);
    for (i, a) in names.iter().enumerate() {
        for b in names.iter().skip(i + 1) {
            assert!(!a.eq_ignore_ascii_case(b));
        }
    }
    assert_eq!(names.len(), 15);
}
