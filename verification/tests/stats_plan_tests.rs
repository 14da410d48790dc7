use ue_trim::args::parse_args;
use ue_trim::plan::{build_plan, Check, Section, Step};
use ue_trim::stats::{Outcome, TrimStats};

#[test]
fn trim_stats_new_is_zero() {
    let s = TrimStats::new();
    assert_eq!(s.dirs_found(), 0);
    assert_eq!(s.files_found(), 0);
    assert_eq!(s.dirs_removed(), 0);
    assert_eq!(s.files_removed(), 0);
    assert_eq!(s.bytes_freed(), 0);
    assert!(s.errors().is_empty());
}

#[test]
fn trim_stats_counts_outcomes() {
    let mut s = TrimStats::new();
    s.record(true, 100, Outcome::Removed);
    s.record(true, 50, Outcome::Failed("E: denied".to_string()));
    s.record(false, 7, Outcome::Removed);
    s.record(false, 3, Outcome::Listed);
    assert_eq!(s.dirs_found(), 2);
    assert_eq!(s.dirs_removed(), 1);
    assert_eq!(s.files_found(), 2);
    assert_eq!(s.files_removed(), 1);
    assert_eq!(s.bytes_freed(), 160);
    assert_eq!(s.errors(), &vec!["E: denied".to_string()]);
}

#[test]
fn trim_stats_preview_removes_nothing() {
    let mut s = TrimStats::new();
    s.record(true, 1 << 40, Outcome::Listed);
    s.record(false, 1, Outcome::Listed);
    assert_eq!(s.dirs_removed(), 0);
    assert_eq!(s.files_removed(), 0);
    assert_eq!(s.bytes_freed(), (1 << 40) + 1);
    assert!(s.errors().is_empty());
}

fn opts(extra: &[&str]) -> ue_trim::args::Options {
    let mut v: Vec<String> = vec!["ue-trim".into(), "/ue".into(), "--platforms".into(), "x".into()];
    v.extend(extra.iter().map(|s| s.to_string()));
    parse_args(&v).ok().unwrap()
}

fn dir_paths(plan: &[Step]) -> Vec<String> {
    plan.iter()
        .filter_map(|s| match s {
            Step::RemoveDir { path, .. } => Some(path.join("|")),
            _ => None,
        })
        .collect()
}

#[test]
fn plan_for_mobile_keep() {
    let plan = build_plan(&opts(&[]), &vec!["Windows", "Linux", "Android", "IOS"]);
    assert!(matches!(plan[0], Step::Heading(Section::General)));
    assert!(matches!(&plan[1], Step::RemoveDir { path, check: Check::IsDir } if path == &vec![".git"]));
    assert!(matches!(&plan[2], Step::RemoveDir { path, check: Check::IsDir } if path == &vec!["Engine/Intermediate"]));
    let dirs = dir_paths(&plan);
    assert!(dirs.contains(&"Engine/Binaries|Mac".to_string()));
    assert!(dirs.contains(&"Engine/Build|TVOS".to_string()));
    assert!(dirs.contains(&"Engine/Config|TVOS".to_string()));
    assert!(dirs.contains(&"Engine/Platforms|VisionOS".to_string()));
    assert!(dirs.contains(&"Engine/Extras|LLDBDataFormatters".to_string()));
    assert!(dirs.contains(&"Engine/Source/Programs/AutomationTool/Mac".to_string()));
    assert!(!dirs.iter().any(|d| d.contains("Windows") || d.contains("Win64") || d.contains("IOS")));
    assert!(!plan.iter().any(|s| matches!(s, Step::Heading(Section::AppleShared))));
    assert!(plan.iter().any(|s| matches!(s, Step::Heading(Section::ThirdParty))));
    assert!(!plan.iter().any(|s| matches!(s, Step::ScanTestDirs { .. } | Step::ScanPdbFiles { .. })));
    let files: Vec<&str> = plan
        .iter()
        .filter_map(|s| match s {
            Step::RemoveFile { path, check: Check::IsFile } => Some(path[0]),
            _ => None,
        })
        .collect();
    assert_eq!(files, vec![".tgitconfig", "PULL_REQUEST_TEMPLATE.md", "UE5.sln"]);
}

#[test]
fn plan_for_windows_only_with_everything() {
    let plan = build_plan(&opts(&["--keep-git", "--keep-intermediate", "--remove-tests", "--strip-pdb"]), &vec!["Windows"]);
    let dirs = dir_paths(&plan);
    assert!(!dirs.contains(&".git".to_string()));
    assert!(!dirs.contains(&"Engine/Intermediate".to_string()));
    assert!(plan.iter().any(|s| matches!(s, Step::Heading(Section::AppleShared))));
    assert!(dirs.contains(&"Engine/Build/Xcode".to_string()));
    assert!(dirs.contains(&"Engine/Extras/Xcode".to_string()));
    let n = plan.len();
    assert!(matches!(plan[n - 1], Step::ScanPdbFiles { root: "Engine/Binaries" }));
    assert!(matches!(plan[n - 2], Step::Heading(Section::DebugSymbols)));
    assert!(matches!(&plan[n - 3], Step::RemoveDir { path, check: Check::Exists } if path == &vec!["Engine/Binaries/Win64/HeadlessChaos"]));
    assert!(matches!(plan[n - 4], Step::ScanTestDirs { root: "Engine/Binaries/Win64" }));
    assert!(matches!(plan[n - 5], Step::Heading(Section::TestBinaries)));
}

#[test]
fn plan_keeping_all_platforms() {
    let all = vec!["Windows", "Linux", "Android", "IOS", "Mac", "TVOS", "VisionOS", "HoloLens", "SteamDeck"];
    let plan = build_plan(&opts(&[]), &all);
    // heading + .git + Intermediate + 16 folders + 3 files, then the platform heading alone
    assert_eq!(plan.len(), 23);
    assert!(matches!(plan[22], Step::Heading(Section::Platforms)));
}

#[test]
fn plan_step_counts_for_no_platform_kept() {
    let plan = build_plan(&opts(&[]), &vec![]);
    let platform_steps = plan
        .iter()
        .filter(|s| matches!(s, Step::RemoveDir { path, check: Check::Exists } if path.len() == 2 || path[0].starts_with("Engine/Source/")))
        .count();
    // Windows 5, Linux 5, Android 6, IOS 5, Mac 6, TVOS 3, VisionOS 1, HoloLens 0, SteamDeck 1
    assert_eq!(platform_steps, 32);
    assert!(plan.iter().any(|s| matches!(s, Step::Heading(Section::AppleShared))));
    let scans: Vec<&str> = plan
        .iter()
        .filter_map(|s| match s {
            Step::ScanPlatformDirs { root } => Some(*root),
            _ => None,
        })
        .collect();
    assert_eq!(scans, vec!["Engine/Binaries/ThirdParty", "Engine/Source/ThirdParty"]);
}
