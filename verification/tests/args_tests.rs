use ue_trim::args::{is_confirmation, parse_args, ArgError};
use ue_trim::plan::{ue_root_markers, validate_ue_root};

fn strings(v: &[&str]) -> Vec<String> {
    v.iter().map(|s| s.to_string()).collect()
}

#[test]
fn parse_args_too_few() {
    assert!(matches!(parse_args(&strings(&[])), Err(ArgError::Usage)));
    assert!(matches!(parse_args(&strings(&["ue-trim"])), Err(ArgError::Usage)));
}

#[test]
fn parse_args_missing_platforms() {
    assert!(matches!(parse_args(&strings(&["ue-trim", "C:\\UE5"])), Err(ArgError::MissingPlatforms)));
    assert!(matches!(
        parse_args(&strings(&["ue-trim", "C:\\UE5", "--execute", "--platforms"])),
        Err(ArgError::MissingPlatforms)
    ));
}

#[test]
fn parse_args_full() {
    let o = parse_args(&strings(&[
        "ue-trim", "C:\\UE5", "--platforms", "Windows,IOS", "--keep-git", "--remove-tests", "--strip-pdb",
    ]))
    .ok()
    .unwrap();
    assert_eq!(o.ue_root, "C:\\UE5");
    assert_eq!(o.platforms, "Windows,IOS");
    assert!(!o.execute);
    assert!(o.keep_git);
    assert!(!o.keep_intermediate);
    assert!(o.remove_tests);
    assert!(o.strip_pdb);
}

#[test]
fn parse_args_first_platforms_wins_and_switches_anywhere() {
    let o = parse_args(&strings(&[
        "ue-trim", "--execute", "--platforms", "Mac", "--platforms", "Linux", "--keep-intermediate",
    ]))
    .ok()
    .unwrap();
    assert_eq!(o.ue_root, "--execute");
    assert!(o.execute);
    assert!(o.keep_intermediate);
    assert_eq!(o.platforms, "Mac");
}

#[test]
fn parse_args_value_may_look_like_a_switch() {
    let o = parse_args(&strings(&["ue-trim", "/ue", "--platforms", "--execute"])).ok().unwrap();
    assert_eq!(o.platforms, "--execute");
    assert!(o.execute);
}

#[test]
fn ue_root_markers_and_validation() {
    assert_eq!(ue_root_markers(), vec!["Engine/Source", "Engine/Binaries", "Engine/Build", "GenerateProjectFiles.bat"]);
    assert!(validate_ue_root(&vec![true, true, true, true]));
    assert!(!validate_ue_root(&vec![true, false, true, true]));
    assert!(!validate_ue_root(&vec![false, false, false, false]));
}

#[test]
fn confirmation_answers() {
    assert!(is_confirmation("y"));
    assert!(is_confirmation("Y\n"));
    assert!(is_confirmation("  y \r\n"));
    assert!(!is_confirmation(""));
    assert!(!is_confirmation("\n"));
    assert!(!is_confirmation("yes"));
    assert!(!is_confirmation("n"));
    assert!(!is_confirmation("у"));
}
