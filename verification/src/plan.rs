//! The ordered list of what a run removes, before anything on disk is looked at.
use vstd::prelude::*;
use crate::args::Options;
use crate::platforms::{
    PlatformInfo, PlatformSpec, platform_views, removed_platforms, platforms_to_remove, platform_table,
    lemma_removed_platforms, apple_kept_spec, any_apple_kept, all_folder_names, dedup_ignore_case,
    folder_names_to_remove,
};
use crate::text::{views, str_views, matches_any};

verus! {

/// When a listed path is removed.
#[derive(Clone, Copy, PartialEq, Eq, Structural)]
pub enum Check {
    /// When it exists.
    Exists,
    /// When it exists and is a directory.
    IsDir,
    /// When it exists and is a file.
    IsFile,
}

/// The parts of a run, each announced by a heading.
#[derive(Clone, Copy, PartialEq, Eq, Structural)]
pub enum Section {
    /// Caches, history and other material no platform needs.
    General,
    /// The folders of the platforms that are not kept.
    Platforms,
    /// The components shared by Apple platforms.
    AppleShared,
    /// Platform folders inside the third-party trees.
    ThirdParty,
    /// Test binaries.
    TestBinaries,
    /// Debug symbols.
    DebugSymbols,
}

/// One step of a run. A path is a list of parts, joined one after the other
/// onto the engine root.
pub enum Step {
    /// Announces a part of the run.
    Heading(Section),
    /// Removes a directory, when `check` holds of it.
    RemoveDir { path: Vec<&'static str>, check: Check },
    /// Removes a file, when `check` holds of it.
    RemoveFile { path: Vec<&'static str>, check: Check },
    /// If `root` exists, removes the folders named like a removed platform in it
    /// (see `find_platform_dirs`, searching five levels deep).
    ScanPlatformDirs { root: &'static str },
    /// If `root` exists, removes the directories directly in it whose names end in `Tests`.
    ScanTestDirs { root: &'static str },
    /// If `root` exists, removes every `.pdb` file below it.
    ScanPdbFiles { root: &'static str },
}

/// `Step` with its strings as text.
pub enum StepView {
    Heading(Section),
    RemoveDir { path: Seq<Seq<char>>, check: Check },
    RemoveFile { path: Seq<Seq<char>>, check: Check },
    ScanPlatformDirs { root: Seq<char> },
    ScanTestDirs { root: Seq<char> },
    ScanPdbFiles { root: Seq<char> },
}

impl View for Step {
    type V = StepView;

    open spec fn view(&self) -> StepView {
        match self {
            Step::Heading(s) => StepView::Heading(*s),
            Step::RemoveDir { path, check } => StepView::RemoveDir { path: str_views(path@), check: *check },
            Step::RemoveFile { path, check } => StepView::RemoveFile { path: str_views(path@), check: *check },
            Step::ScanPlatformDirs { root } => StepView::ScanPlatformDirs { root: root@ },
            Step::ScanTestDirs { root } => StepView::ScanTestDirs { root: root@ },
            Step::ScanPdbFiles { root } => StepView::ScanPdbFiles { root: root@ },
        }
    }
}

/// The views of a list of steps.
pub open spec fn step_views(v: Seq<Step>) -> Seq<StepView> {
    v.map_values(|s: Step| s@)
}

/// Directories removed in every run, relative to the engine root.
pub open spec fn always_removed_dirs() -> Seq<Seq<char>> {
    seq![
        "Engine/DerivedDataCache"@,
        "Templates"@,
        "Samples"@,
        "FeaturePacks"@,
        "Engine/Documentation"@,
        "Engine/Extras/Horde"@,
        "Engine/Extras/P4VUtils"@,
        "Engine/Extras/Maya_AnimationRiggingTools"@,
        "Engine/Extras/MayaVelocityGridExporter"@,
        "Engine/Extras/UnrealEngineLauncher"@,
        "Engine/Extras/ThirdPartyNotUE"@,
        "Engine/Extras/VirtualProduction"@,
        "Engine/Extras/RoboMerge"@,
        "Engine/Extras/Flutter"@,
        "Engine/Extras/3dsMaxScripts"@,
        ".idea"@,
    ]
}

/// Files removed in every run, relative to the engine root.
pub open spec fn always_removed_files() -> Seq<Seq<char>> {
    seq![".tgitconfig"@, "PULL_REQUEST_TEMPLATE.md"@, "UE5.sln"@]
}

/// Directories only Apple platforms need.
pub open spec fn apple_shared_dirs() -> Seq<Seq<char>> {
    seq!["Engine/Build/Xcode"@, "Engine/Extras/Xcode"@]
}

/// Executable `always_removed_dirs`.
pub fn always_remove_dirs() -> (r: Vec<&'static str>)
    ensures
        str_views(r@) == always_removed_dirs(),
{
    let r = vec![
        "Engine/DerivedDataCache",
        "Templates",
        "Samples",
        "FeaturePacks",
        "Engine/Documentation",
        "Engine/Extras/Horde",
        "Engine/Extras/P4VUtils",
        "Engine/Extras/Maya_AnimationRiggingTools",
        "Engine/Extras/MayaVelocityGridExporter",
        "Engine/Extras/UnrealEngineLauncher",
        "Engine/Extras/ThirdPartyNotUE",
        "Engine/Extras/VirtualProduction",
        "Engine/Extras/RoboMerge",
        "Engine/Extras/Flutter",
        "Engine/Extras/3dsMaxScripts",
        ".idea",
    ];
    assert(str_views(r@) =~= always_removed_dirs());
    r
}

/// Executable `always_removed_files`.
pub fn always_remove_files() -> (r: Vec<&'static str>)
    ensures
        str_views(r@) == always_removed_files(),
{
    let r = vec![".tgitconfig", "PULL_REQUEST_TEMPLATE.md", "UE5.sln"];
    assert(str_views(r@) =~= always_removed_files());
    r
}

/// Executable `apple_shared_dirs`.
pub fn apple_shared() -> (r: Vec<&'static str>)
    ensures
        str_views(r@) == apple_shared_dirs(),
{
    let r = vec!["Engine/Build/Xcode", "Engine/Extras/Xcode"];
    assert(str_views(r@) =~= apple_shared_dirs());
    r
}

/// One directory step per path of `dirs`, each a single part under the root.
pub open spec fn dir_steps(dirs: Seq<Seq<char>>, check: Check) -> Seq<StepView> {
    dirs.map_values(|d: Seq<char>| StepView::RemoveDir { path: seq![d], check })
}

/// One file step per path of `files`.
pub open spec fn file_steps(files: Seq<Seq<char>>, check: Check) -> Seq<StepView> {
    files.map_values(|f: Seq<char>| StepView::RemoveFile { path: seq![f], check })
}

/// Directory steps for the folders `dirs` under `base`.
pub open spec fn dir_steps_under(base: Seq<char>, dirs: Seq<Seq<char>>) -> Seq<StepView> {
    dirs.map_values(|d: Seq<char>| StepView::RemoveDir { path: seq![base, d], check: Check::Exists })
}

/// A directory step for `dir` under `base`, when there is such a folder.
pub open spec fn opt_dir_step(base: Seq<char>, dir: Option<Seq<char>>) -> Seq<StepView> {
    match dir {
        Some(d) => seq![StepView::RemoveDir { path: seq![base, d], check: Check::Exists }],
        None => Seq::empty(),
    }
}

/// The steps that remove the folders of one platform.
pub open spec fn platform_steps(p: PlatformSpec) -> Seq<StepView> {
    opt_dir_step("Engine/Platforms"@, p.platforms_dir)
        + opt_dir_step("Engine/Binaries"@, p.binaries_dir)
        + opt_dir_step("Engine/Build"@, p.build_dir)
        + opt_dir_step("Engine/Config"@, p.config_dir)
        + dir_steps_under("Engine/Extras"@, p.extras_dirs)
        + dir_steps(p.source_dirs, Check::Exists)
}

/// The steps that remove the folders of the platforms, one after the other.
pub open spec fn platforms_steps(ps: Seq<PlatformSpec>) -> Seq<StepView>
    decreases ps.len(),
{
    if ps.len() == 0 {
        Seq::empty()
    } else {
        platforms_steps(ps.drop_last()) + platform_steps(ps.last())
    }
}

/// The first part of a run: history, intermediate files, caches and extras.
pub open spec fn general_steps(keep_git: bool, keep_intermediate: bool) -> Seq<StepView> {
    seq![StepView::Heading(Section::General)]
        + (if keep_git { Seq::empty() } else { dir_steps(seq![".git"@], Check::IsDir) })
        + (if keep_intermediate { Seq::empty() } else { dir_steps(seq!["Engine/Intermediate"@], Check::IsDir) })
        + dir_steps(always_removed_dirs(), Check::IsDir)
        + file_steps(always_removed_files(), Check::IsFile)
}

/// The optional parts of a run after the platform folders.
pub open spec fn apple_part(apple_kept: bool) -> Seq<StepView> {
    if apple_kept {
        Seq::empty()
    } else {
        seq![StepView::Heading(Section::AppleShared)] + dir_steps(apple_shared_dirs(), Check::Exists)
    }
}

/// The third-party part, present when some folder name is to be searched for.
pub open spec fn third_party_part(any_names: bool) -> Seq<StepView> {
    if any_names {
        seq![
            StepView::Heading(Section::ThirdParty),
            StepView::ScanPlatformDirs { root: "Engine/Binaries/ThirdParty"@ },
            StepView::ScanPlatformDirs { root: "Engine/Source/ThirdParty"@ },
        ]
    } else {
        Seq::empty()
    }
}

/// The test-binary part.
pub open spec fn tests_part(remove_tests: bool) -> Seq<StepView> {
    if remove_tests {
        seq![
            StepView::Heading(Section::TestBinaries),
            StepView::ScanTestDirs { root: "Engine/Binaries/Win64"@ },
            StepView::RemoveDir {
                path: seq!["Engine/Binaries/Win64/HeadlessChaos"@],
                check: Check::Exists,
            },
        ]
    } else {
        Seq::empty()
    }
}

/// The debug-symbol part.
pub open spec fn pdb_part(strip_pdb: bool) -> Seq<StepView> {
    if strip_pdb {
        seq![
            StepView::Heading(Section::DebugSymbols),
            StepView::ScanPdbFiles { root: "Engine/Binaries"@ },
        ]
    } else {
        Seq::empty()
    }
}

/// The whole run, for the given switches and the platforms named `keep`.
pub open spec fn plan_spec(
    keep_git: bool,
    keep_intermediate: bool,
    remove_tests: bool,
    strip_pdb: bool,
    keep: Seq<Seq<char>>,
) -> Seq<StepView> {
    let removed = removed_platforms(keep);
    general_steps(keep_git, keep_intermediate)
        + seq![StepView::Heading(Section::Platforms)]
        + platforms_steps(removed)
        + apple_part(apple_kept_spec(keep))
        + third_party_part(dedup_ignore_case(all_folder_names(removed)).len() > 0)
        + tests_part(remove_tests)
        + pdb_part(strip_pdb)
}


/// Paths that an engine root holds, relative to it.
pub open spec fn ue_root_markers_spec() -> Seq<Seq<char>> {
    seq!["Engine/Source"@, "Engine/Binaries"@, "Engine/Build"@, "GenerateProjectFiles.bat"@]
}

/// The paths whose presence marks a directory as an engine root.
pub fn ue_root_markers() -> (r: Vec<&'static str>)
    ensures
        str_views(r@) == ue_root_markers_spec(),
{
    let r = vec!["Engine/Source", "Engine/Binaries", "Engine/Build", "GenerateProjectFiles.bat"];
    assert(str_views(r@) =~= ue_root_markers_spec());
    r
}

/// Whether a directory is an engine root, given for each path of
/// `ue_root_markers()` whether it exists there: it is when all of them do.
pub fn validate_ue_root(present: &Vec<bool>) -> (r: bool)
    requires
        present@.len() == ue_root_markers_spec().len(),
    ensures
        r == forall|i: int| 0 <= i < present@.len() ==> #[trigger] present@[i],
{
    let mut i: usize = 0;
    while i < present.len()
        invariant
            i <= present@.len(),
            forall|j: int| 0 <= j < i ==> #[trigger] present@[j],
        decreases present.len() - i,
    {
        if !present[i] {
            return false;
        }
        i = i + 1;
    }
    true
}

/// Appends a directory step for each of `dirs`, one part under the root each.
fn push_dirs(steps: &mut Vec<Step>, dirs: &Vec<&'static str>, check: Check)
    ensures
        step_views(final(steps)@) == step_views(old(steps)@) + dir_steps(str_views(dirs@), check),
{
    let ghost start = step_views(steps@);
    let mut i: usize = 0;
    while i < dirs.len()
        invariant
            i <= dirs@.len(),
            step_views(steps@) == start + dir_steps(str_views(dirs@).take(i as int), check),
        decreases dirs.len() - i,
    {
        let ghost before = step_views(steps@);
        let path = vec![dirs[i]];
        steps.push(Step::RemoveDir { path, check });
        assert(str_views(path@) =~= seq![dirs@[i as int]@]);
        assert(dir_steps(str_views(dirs@).take(i as int + 1), check)
            =~= dir_steps(str_views(dirs@).take(i as int), check).push(
            StepView::RemoveDir { path: seq![dirs@[i as int]@], check },
        ));
        assert(step_views(steps@) =~= before.push(
            StepView::RemoveDir { path: seq![dirs@[i as int]@], check },
        ));
        i = i + 1;
    }
    assert(str_views(dirs@).take(dirs@.len() as int) =~= str_views(dirs@));
}

/// Appends a file step for each of `files`.
fn push_files(steps: &mut Vec<Step>, files: &Vec<&'static str>, check: Check)
    ensures
        step_views(final(steps)@) == step_views(old(steps)@) + file_steps(str_views(files@), check),
{
    let ghost start = step_views(steps@);
    let mut i: usize = 0;
    while i < files.len()
        invariant
            i <= files@.len(),
            step_views(steps@) == start + file_steps(str_views(files@).take(i as int), check),
        decreases files.len() - i,
    {
        let ghost before = step_views(steps@);
        let path = vec![files[i]];
        steps.push(Step::RemoveFile { path, check });
        assert(str_views(path@) =~= seq![files@[i as int]@]);
        assert(file_steps(str_views(files@).take(i as int + 1), check)
            =~= file_steps(str_views(files@).take(i as int), check).push(
            StepView::RemoveFile { path: seq![files@[i as int]@], check },
        ));
        assert(step_views(steps@) =~= before.push(
            StepView::RemoveFile { path: seq![files@[i as int]@], check },
        ));
        i = i + 1;
    }
    assert(str_views(files@).take(files@.len() as int) =~= str_views(files@));
}

/// Appends a directory step for each of `dirs` under `base`.
fn push_dirs_under(steps: &mut Vec<Step>, base: &'static str, dirs: &Vec<&'static str>)
    ensures
        step_views(final(steps)@) == step_views(old(steps)@) + dir_steps_under(base@, str_views(dirs@)),
{
    let ghost start = step_views(steps@);
    let mut i: usize = 0;
    while i < dirs.len()
        invariant
            i <= dirs@.len(),
            step_views(steps@) == start + dir_steps_under(base@, str_views(dirs@).take(i as int)),
        decreases dirs.len() - i,
    {
        let ghost before = step_views(steps@);
        let path = vec![base, dirs[i]];
        steps.push(Step::RemoveDir { path, check: Check::Exists });
        assert(str_views(path@) =~= seq![base@, dirs@[i as int]@]);
        assert(dir_steps_under(base@, str_views(dirs@).take(i as int + 1))
            =~= dir_steps_under(base@, str_views(dirs@).take(i as int)).push(
            StepView::RemoveDir { path: seq![base@, dirs@[i as int]@], check: Check::Exists },
        ));
        assert(step_views(steps@) =~= before.push(
            StepView::RemoveDir { path: seq![base@, dirs@[i as int]@], check: Check::Exists },
        ));
        i = i + 1;
    }
    assert(str_views(dirs@).take(dirs@.len() as int) =~= str_views(dirs@));
}

/// Appends the step for the folder `dir` under `base`, when there is one.
fn push_opt_dir(steps: &mut Vec<Step>, base: &'static str, dir: Option<&'static str>)
    ensures
        step_views(final(steps)@) == step_views(old(steps)@) + opt_dir_step(base@, crate::platforms::opt_view(dir)),
{
    let ghost start = step_views(steps@);
    match dir {
        Some(d) => {
            let path = vec![base, d];
            steps.push(Step::RemoveDir { path, check: Check::Exists });
            assert(str_views(path@) =~= seq![base@, d@]);
            assert(step_views(steps@) =~= start + opt_dir_step(base@, crate::platforms::opt_view(dir)));
        },
        None => {
            assert(step_views(steps@) =~= start + opt_dir_step(base@, crate::platforms::opt_view(dir)));
        },
    }
}

/// Appends the steps that remove the folders of the platform `p`.
fn push_platform_steps(steps: &mut Vec<Step>, p: &PlatformInfo)
    ensures
        step_views(final(steps)@) == step_views(old(steps)@) + platform_steps(p@),
{
    let ghost start = step_views(steps@);
    push_opt_dir(steps, "Engine/Platforms", p.platforms_dir);
    push_opt_dir(steps, "Engine/Binaries", p.binaries_dir);
    push_opt_dir(steps, "Engine/Build", p.build_dir);
    push_opt_dir(steps, "Engine/Config", p.config_dir);
    push_dirs_under(steps, "Engine/Extras", &p.extras_dirs);
    push_dirs(steps, &p.source_dirs, Check::Exists);
    assert(step_views(steps@) =~= start + platform_steps(p@));
}

/// Appends the general part.
fn push_general(steps: &mut Vec<Step>, keep_git: bool, keep_intermediate: bool)
    ensures
        step_views(final(steps)@) == step_views(old(steps)@) + general_steps(keep_git, keep_intermediate),
{
    let ghost start = step_views(steps@);
    steps.push(Step::Heading(Section::General));
    if !keep_git {
        let v = vec![".git"];
        assert(str_views(v@) =~= seq![".git"@]);
        push_dirs(steps, &v, Check::IsDir);
    }
    if !keep_intermediate {
        let v = vec!["Engine/Intermediate"];
        assert(str_views(v@) =~= seq!["Engine/Intermediate"@]);
        push_dirs(steps, &v, Check::IsDir);
    }
    push_dirs(steps, &always_remove_dirs(), Check::IsDir);
    push_files(steps, &always_remove_files(), Check::IsFile);
    assert(step_views(steps@) =~= start + general_steps(keep_git, keep_intermediate));
}

/// Appends the heading of the platform part and the steps of each removed platform.
fn push_platforms(steps: &mut Vec<Step>, removed: &Vec<PlatformInfo>)
    ensures
        step_views(final(steps)@) == step_views(old(steps)@) + seq![StepView::Heading(Section::Platforms)]
            + platforms_steps(platform_views(removed@)),
{
    steps.push(Step::Heading(Section::Platforms));
    let ghost ps = platform_views(removed@);
    let ghost base = step_views(steps@);
    let mut i: usize = 0;
    assert(ps.take(0) =~= Seq::<PlatformSpec>::empty());
    assert(base + platforms_steps(ps.take(0)) =~= base);
    while i < removed.len()
        invariant
            ps == platform_views(removed@),
            i <= removed@.len(),
            step_views(steps@) == base + platforms_steps(ps.take(i as int)),
        decreases removed.len() - i,
    {
        assert(ps.take(i as int + 1).drop_last() =~= ps.take(i as int));
        assert(ps.take(i as int + 1).last() == removed@[i as int]@);
        push_platform_steps(steps, &removed[i]);
        assert(step_views(steps@) =~= base + platforms_steps(ps.take(i as int + 1)));
        i = i + 1;
    }
    assert(ps.take(removed@.len() as int) =~= ps);
}

/// Appends the Apple part, unless an Apple platform is kept.
fn push_apple(steps: &mut Vec<Step>, apple_kept: bool)
    ensures
        step_views(final(steps)@) == step_views(old(steps)@) + apple_part(apple_kept),
{
    let ghost start = step_views(steps@);
    if !apple_kept {
        steps.push(Step::Heading(Section::AppleShared));
        push_dirs(steps, &apple_shared(), Check::Exists);
    }
    assert(step_views(steps@) =~= start + apple_part(apple_kept));
}

/// Appends the third-party, test-binary and debug-symbol parts.
fn push_tail(steps: &mut Vec<Step>, any_names: bool, remove_tests: bool, strip_pdb: bool)
    ensures
        step_views(final(steps)@) == step_views(old(steps)@) + third_party_part(any_names)
            + tests_part(remove_tests) + pdb_part(strip_pdb),
{
    let ghost start = step_views(steps@);
    if any_names {
        steps.push(Step::Heading(Section::ThirdParty));
        steps.push(Step::ScanPlatformDirs { root: "Engine/Binaries/ThirdParty" });
        steps.push(Step::ScanPlatformDirs { root: "Engine/Source/ThirdParty" });
    }
    let ghost a = step_views(steps@);
    assert(a =~= start + third_party_part(any_names));
    if remove_tests {
        steps.push(Step::Heading(Section::TestBinaries));
        steps.push(Step::ScanTestDirs { root: "Engine/Binaries/Win64" });
        let path = vec!["Engine/Binaries/Win64/HeadlessChaos"];
        assert(str_views(path@) =~= seq!["Engine/Binaries/Win64/HeadlessChaos"@]);
        steps.push(Step::RemoveDir { path, check: Check::Exists });
    }
    let ghost b = step_views(steps@);
    assert(b =~= a + tests_part(remove_tests));
    if strip_pdb {
        steps.push(Step::Heading(Section::DebugSymbols));
        steps.push(Step::ScanPdbFiles { root: "Engine/Binaries" });
    }
    assert(step_views(steps@) =~= b + pdb_part(strip_pdb));
}

/// The steps of a run with the switches of `o`, keeping the platforms named
/// `keep` (canonical names): the general part, the folders of every platform
/// not kept, the Apple components unless an Apple platform is kept, the
/// third-party folders of the removed platforms, and, when asked for, test
/// binaries and debug symbols.
pub fn build_plan(o: &Options, keep: &Vec<&'static str>) -> (r: Vec<Step>)
    ensures
        step_views(r@) == plan_spec(o.keep_git, o.keep_intermediate, o.remove_tests, o.strip_pdb, str_views(keep@)),
{
    let mut steps: Vec<Step> = Vec::new();
    push_general(&mut steps, o.keep_git, o.keep_intermediate);
    let removed = platforms_to_remove(keep);
    push_platforms(&mut steps, &removed);
    push_apple(&mut steps, any_apple_kept(keep));
    let names = folder_names_to_remove(&removed);
    assert(views(names@).len() == names@.len());
    push_tail(&mut steps, names.len() > 0, o.remove_tests, o.strip_pdb);
    assert(step_views(steps@) =~= plan_spec(o.keep_git, o.keep_intermediate, o.remove_tests, o.strip_pdb, str_views(keep@)));
    steps
}


/// A step of the platform part belongs to one of the platforms.
proof fn lemma_platforms_steps_member(ps: Seq<PlatformSpec>, st: StepView)
    requires
        platforms_steps(ps).contains(st),
    ensures
        exists|k: int| 0 <= k < ps.len() && platform_steps(#[trigger] ps[k]).contains(st),
    decreases ps.len(),
{
    if ps.len() > 0 {
        let a = platforms_steps(ps.drop_last());
        let b = platform_steps(ps.last());
        let m = choose|m: int| 0 <= m < platforms_steps(ps).len() && platforms_steps(ps)[m] == st;
        if m < a.len() {
            assert(a[m] == st);
            lemma_platforms_steps_member(ps.drop_last(), st);
            let k = choose|k: int| 0 <= k < ps.drop_last().len() && platform_steps(#[trigger] ps.drop_last()[k]).contains(st);
            assert(ps[k] == ps.drop_last()[k]);
        } else {
            assert(b[m - a.len()] == st);
            assert(platform_steps(ps[ps.len() - 1]).contains(st));
        }
    }
}

/// Every step that removes the folders of a platform names a path of two
/// parts, or one of its own folders relative to the root.
proof fn lemma_platform_step_shape(p: PlatformSpec, st: StepView)
    requires
        platform_steps(p).contains(st),
    ensures
        st matches StepView::RemoveDir { path, check } && check == Check::Exists
            && (path.len() == 2 || (path.len() == 1 && p.source_dirs.contains(path[0]))),
{
    let s = platform_steps(p);
    let m = choose|m: int| 0 <= m < s.len() && s[m] == st;
    let a = opt_dir_step("Engine/Platforms"@, p.platforms_dir);
    let b = opt_dir_step("Engine/Binaries"@, p.binaries_dir);
    let c = opt_dir_step("Engine/Build"@, p.build_dir);
    let d = opt_dir_step("Engine/Config"@, p.config_dir);
    let e = dir_steps_under("Engine/Extras"@, p.extras_dirs);
    let f = dir_steps(p.source_dirs, Check::Exists);
    let n1 = a.len();
    let n2 = n1 + b.len();
    let n3 = n2 + c.len();
    let n4 = n3 + d.len();
    let n5 = n4 + e.len();
    if m >= n5 {
        assert(st == f[m - n5]);
        assert(p.source_dirs[m - n5] == p.source_dirs[m - n5]);
    } else if m >= n4 {
        assert(st == e[m - n4]);
    } else if m >= n3 {
        assert(st == d[m - n3]);
    } else if m >= n2 {
        assert(st == c[m - n2]);
    } else if m >= n1 {
        assert(st == b[m - n1]);
    } else {
        assert(st == a[m]);
    }
}

/// What a concatenation holds is what its parts hold.
proof fn lemma_add_contains<A>(a: Seq<A>, b: Seq<A>, x: A)
    ensures
        (a + b).contains(x) <==> a.contains(x) || b.contains(x),
{
    if (a + b).contains(x) {
        let m = choose|m: int| 0 <= m < (a + b).len() && (a + b)[m] == x;
        if m < a.len() {
            assert(a[m] == x);
        } else {
            assert(b[m - a.len()] == x);
        }
    }
    if a.contains(x) {
        let m = choose|m: int| 0 <= m < a.len() && a[m] == x;
        assert((a + b)[m] == x);
    }
    if b.contains(x) {
        let m = choose|m: int| 0 <= m < b.len() && b[m] == x;
        assert((a + b)[m + a.len()] == x);
    }
}

/// The step that removes `.git`.
pub open spec fn git_step() -> StepView {
    StepView::RemoveDir { path: seq![".git"@], check: Check::IsDir }
}

/// The step that removes `Engine/Intermediate`.
pub open spec fn intermediate_step() -> StepView {
    StepView::RemoveDir { path: seq!["Engine/Intermediate"@], check: Check::IsDir }
}

/// A step among `dir_steps` removes one of the given folders.
proof fn lemma_dir_steps_contains(dirs: Seq<Seq<char>>, check: Check, st: StepView)
    requires
        dir_steps(dirs, check).contains(st),
    ensures
        exists|k: int| 0 <= k < dirs.len() && st == (StepView::RemoveDir { path: seq![#[trigger] dirs[k]], check }),
        st matches StepView::RemoveDir { path, check: c } && c == check && path.len() == 1 && dirs.contains(path[0]),
{
    let m = choose|m: int| 0 <= m < dir_steps(dirs, check).len() && dir_steps(dirs, check)[m] == st;
    assert(st == (StepView::RemoveDir { path: seq![dirs[m]], check }));
    assert(seq![dirs[m]][0] == dirs[m]);
}

/// `.git` and `Engine/Intermediate` are not among the folders removed in every run.
proof fn lemma_always_dirs_avoid()
    ensures
        forall|k: int| 0 <= k < always_removed_dirs().len() ==>
            #[trigger] always_removed_dirs()[k] != ".git"@ && always_removed_dirs()[k] != "Engine/Intermediate"@,
{
    reveal_strlit(".git");
    reveal_strlit("Engine/Intermediate");
    reveal_strlit("Engine/DerivedDataCache");
    reveal_strlit("Templates");
    reveal_strlit("Samples");
    reveal_strlit("FeaturePacks");
    reveal_strlit("Engine/Documentation");
    reveal_strlit("Engine/Extras/Horde");
    reveal_strlit("Engine/Extras/P4VUtils");
    reveal_strlit("Engine/Extras/Maya_AnimationRiggingTools");
    reveal_strlit("Engine/Extras/MayaVelocityGridExporter");
    reveal_strlit("Engine/Extras/UnrealEngineLauncher");
    reveal_strlit("Engine/Extras/ThirdPartyNotUE");
    reveal_strlit("Engine/Extras/VirtualProduction");
    reveal_strlit("Engine/Extras/RoboMerge");
    reveal_strlit("Engine/Extras/Flutter");
    reveal_strlit("Engine/Extras/3dsMaxScripts");
    reveal_strlit(".idea");
    assert("Engine/Extras/Horde"@[7] != "Engine/Intermediate"@[7]);
    assert("Engine/Extras/Horde"@ != "Engine/Intermediate"@);
    let d = always_removed_dirs();
    assert forall|k: int| 0 <= k < d.len() implies
        #[trigger] d[k] != ".git"@ && d[k] != "Engine/Intermediate"@ by {
        assert(d[k].len() != 4 && (d[k].len() != 19 || d[k] == "Engine/Extras/Horde"@));
    }
}

/// What the general part holds, and what it never holds.
proof fn lemma_general_has(keep_git: bool, keep_intermediate: bool)
    ensures
        general_steps(keep_git, keep_intermediate).contains(git_step()) <==> !keep_git,
        general_steps(keep_git, keep_intermediate).contains(intermediate_step()) <==> !keep_intermediate,
        !general_steps(keep_git, keep_intermediate).contains(StepView::Heading(Section::AppleShared)),
        forall|st: StepView| #[trigger] general_steps(keep_git, keep_intermediate).contains(st)
            ==> st matches StepView::Heading(Section::General)
                || (st matches StepView::RemoveDir { check, .. } && check == Check::IsDir)
                || st is RemoveFile,
{
    reveal_strlit(".git");
    reveal_strlit("Engine/Intermediate");
    lemma_always_dirs_avoid();
    let h = seq![StepView::Heading(Section::General)];
    let g: Seq<StepView> = if keep_git { Seq::empty() } else { dir_steps(seq![".git"@], Check::IsDir) };
    let i: Seq<StepView> = if keep_intermediate { Seq::empty() } else { dir_steps(seq!["Engine/Intermediate"@], Check::IsDir) };
    let a = dir_steps(always_removed_dirs(), Check::IsDir);
    let f = file_steps(always_removed_files(), Check::IsFile);
    assert(general_steps(keep_git, keep_intermediate) == h + g + i + a + f);
    assert forall|st: StepView| #[trigger] general_steps(keep_git, keep_intermediate).contains(st)
        implies st matches StepView::Heading(Section::General)
            || (st matches StepView::RemoveDir { check, .. } && check == Check::IsDir)
            || st is RemoveFile by {
        lemma_add_contains(h + g + i + a, f, st);
        lemma_add_contains(h + g + i, a, st);
        lemma_add_contains(h + g, i, st);
        lemma_add_contains(h, g, st);
        if f.contains(st) {
            let m = choose|m: int| 0 <= m < f.len() && f[m] == st;
        }
        if a.contains(st) {
            lemma_dir_steps_contains(always_removed_dirs(), Check::IsDir, st);
        }
        if i.contains(st) {
            lemma_dir_steps_contains(seq!["Engine/Intermediate"@], Check::IsDir, st);
        }
        if g.contains(st) {
            lemma_dir_steps_contains(seq![".git"@], Check::IsDir, st);
        }
    }
    let x = StepView::Heading(Section::AppleShared);
    lemma_add_contains(h + g + i + a, f, x);
    lemma_add_contains(h + g + i, a, x);
    lemma_add_contains(h + g, i, x);
    lemma_add_contains(h, g, x);
    if f.contains(x) {
        let m = choose|m: int| 0 <= m < f.len() && f[m] == x;
    }
    if a.contains(x) {
        lemma_dir_steps_contains(always_removed_dirs(), Check::IsDir, x);
    }
    if i.contains(x) {
        lemma_dir_steps_contains(seq!["Engine/Intermediate"@], Check::IsDir, x);
    }
    if g.contains(x) {
        lemma_dir_steps_contains(seq![".git"@], Check::IsDir, x);
    }
    let y = git_step();
    lemma_add_contains(h + g + i + a, f, y);
    lemma_add_contains(h + g + i, a, y);
    lemma_add_contains(h + g, i, y);
    lemma_add_contains(h, g, y);
    if f.contains(y) {
        let m = choose|m: int| 0 <= m < f.len() && f[m] == y;
    }
    if a.contains(y) {
        lemma_dir_steps_contains(always_removed_dirs(), Check::IsDir, y);
    }
    if i.contains(y) {
        lemma_dir_steps_contains(seq!["Engine/Intermediate"@], Check::IsDir, y);
    }
    if !keep_git {
        assert(g[0] == y);
    }
    assert(!seq!["Engine/Intermediate"@].contains(".git"@)) by {
        if seq!["Engine/Intermediate"@].contains(".git"@) {
            let k = choose|k: int| 0 <= k < 1 && seq!["Engine/Intermediate"@][k] == ".git"@;
            assert(seq!["Engine/Intermediate"@][0] == "Engine/Intermediate"@);
        }
    }
    let z = intermediate_step();
    lemma_add_contains(h + g + i + a, f, z);
    lemma_add_contains(h + g + i, a, z);
    lemma_add_contains(h + g, i, z);
    lemma_add_contains(h, g, z);
    if f.contains(z) {
        let m = choose|m: int| 0 <= m < f.len() && f[m] == z;
    }
    if a.contains(z) {
        lemma_dir_steps_contains(always_removed_dirs(), Check::IsDir, z);
    }
    if g.contains(z) {
        lemma_dir_steps_contains(seq![".git"@], Check::IsDir, z);
    }
    if !keep_intermediate {
        assert(i[0] == z);
    }
}


/// The platform part holds its heading and unconditional directory removals.
proof fn lemma_platform_part(ps: Seq<PlatformSpec>, st: StepView)
    requires
        (seq![StepView::Heading(Section::Platforms)] + platforms_steps(ps)).contains(st),
    ensures
        st matches StepView::Heading(Section::Platforms)
            || (st matches StepView::RemoveDir { check, .. } && check == Check::Exists),
{
    lemma_add_contains(seq![StepView::Heading(Section::Platforms)], platforms_steps(ps), st);
    if platforms_steps(ps).contains(st) {
        lemma_platforms_steps_member(ps, st);
        let k = choose|k: int| 0 <= k < ps.len() && platform_steps(#[trigger] ps[k]).contains(st);
        lemma_platform_step_shape(ps[k], st);
    }
}

/// The Apple part holds its heading and unconditional directory removals.
proof fn lemma_apple_part(apple_kept: bool, st: StepView)
    requires
        apple_part(apple_kept).contains(st),
    ensures
        !apple_kept,
        st matches StepView::Heading(Section::AppleShared)
            || (st matches StepView::RemoveDir { check, .. } && check == Check::Exists),
{
    if !apple_kept {
        let h = seq![StepView::Heading(Section::AppleShared)];
        let d = dir_steps(apple_shared_dirs(), Check::Exists);
        lemma_add_contains(h, d, st);
        if d.contains(st) {
            lemma_dir_steps_contains(apple_shared_dirs(), Check::Exists, st);
        }
    }
}

/// A step of a run is a step of one of its parts.
proof fn lemma_plan_parts(
    keep_git: bool,
    keep_intermediate: bool,
    remove_tests: bool,
    strip_pdb: bool,
    keep: Seq<Seq<char>>,
    st: StepView,
)
    ensures
        plan_spec(keep_git, keep_intermediate, remove_tests, strip_pdb, keep).contains(st) <==> (
        general_steps(keep_git, keep_intermediate).contains(st)
            || (seq![StepView::Heading(Section::Platforms)] + platforms_steps(removed_platforms(keep))).contains(st)
            || apple_part(apple_kept_spec(keep)).contains(st)
            || third_party_part(dedup_ignore_case(all_folder_names(removed_platforms(keep)))
                .len() > 0).contains(st)
            || tests_part(remove_tests).contains(st)
            || pdb_part(strip_pdb).contains(st)),
{
    let removed = removed_platforms(keep);
    let g = general_steps(keep_git, keep_intermediate);
    let h = seq![StepView::Heading(Section::Platforms)];
    let q = platforms_steps(removed);
    let a = apple_part(apple_kept_spec(keep));
    let t = third_party_part(dedup_ignore_case(all_folder_names(removed)).len() > 0);
    let x = tests_part(remove_tests);
    let d = pdb_part(strip_pdb);
    assert(plan_spec(keep_git, keep_intermediate, remove_tests, strip_pdb, keep) == g + h + q + a + t + x + d);
    lemma_add_contains(g + h + q + a + t + x, d, st);
    lemma_add_contains(g + h + q + a + t, x, st);
    lemma_add_contains(g + h + q + a, t, st);
    lemma_add_contains(g + h + q, a, st);
    lemma_add_contains(g + h, q, st);
    lemma_add_contains(g, h, st);
    lemma_add_contains(h, q, st);
}

/// The parts of a run other than the general part and the test and debug
/// symbol parts never remove a directory unconditionally nor scan for tests
/// or symbols.
proof fn lemma_middle_parts(keep: Seq<Seq<char>>, st: StepView)
    requires
        (seq![StepView::Heading(Section::Platforms)] + platforms_steps(removed_platforms(keep))).contains(st)
            || apple_part(apple_kept_spec(keep)).contains(st)
            || third_party_part(dedup_ignore_case(all_folder_names(removed_platforms(keep))).len() > 0).contains(st),
    ensures
        ({
            ||| (st matches StepView::Heading(sec) && sec != Section::General && sec != Section::TestBinaries
                && sec != Section::DebugSymbols)
            ||| (st matches StepView::RemoveDir { check, .. } && check == Check::Exists)
            ||| st is ScanPlatformDirs
        }),
        st == StepView::Heading(Section::AppleShared) ==> apple_part(apple_kept_spec(keep)).contains(st),
{
    let removed = removed_platforms(keep);
    let pp = seq![StepView::Heading(Section::Platforms)] + platforms_steps(removed);
    if pp.contains(st) {
        lemma_platform_part(removed, st);
    }
    if apple_part(apple_kept_spec(keep)).contains(st) {
        lemma_apple_part(apple_kept_spec(keep), st);
    }
}

/// Law: a switch decides whether its part of the run is there:
/// `.git` is removed unless `--keep-git`, `Engine/Intermediate` unless
/// `--keep-intermediate`, the Apple components exactly when no kept platform
/// needs them, test binaries only with `--remove-tests`, debug symbols only
/// with `--strip-pdb`.
pub proof fn lemma_plan_switches(
    keep_git: bool,
    keep_intermediate: bool,
    remove_tests: bool,
    strip_pdb: bool,
    keep: Seq<Seq<char>>,
)
    ensures
        ({
            let p = plan_spec(keep_git, keep_intermediate, remove_tests, strip_pdb, keep);
            &&& p.contains(git_step()) <==> !keep_git
            &&& p.contains(intermediate_step()) <==> !keep_intermediate
            &&& p.contains(StepView::Heading(Section::AppleShared)) <==> !apple_kept_spec(keep)
            &&& p.contains(StepView::ScanTestDirs { root: "Engine/Binaries/Win64"@ }) <==> remove_tests
            &&& p.contains(StepView::ScanPdbFiles { root: "Engine/Binaries"@ }) <==> strip_pdb
        }),
{
    lemma_plan_switch(keep_git, keep_intermediate, remove_tests, strip_pdb, keep, git_step());
    lemma_plan_switch(keep_git, keep_intermediate, remove_tests, strip_pdb, keep, intermediate_step());
    lemma_plan_switch(keep_git, keep_intermediate, remove_tests, strip_pdb, keep, StepView::Heading(Section::AppleShared));
    lemma_plan_switch(keep_git, keep_intermediate, remove_tests, strip_pdb, keep,
        StepView::ScanTestDirs { root: "Engine/Binaries/Win64"@ });
    lemma_plan_switch(keep_git, keep_intermediate, remove_tests, strip_pdb, keep,
        StepView::ScanPdbFiles { root: "Engine/Binaries"@ });
}

/// One of the steps of `lemma_plan_switches`.
proof fn lemma_plan_switch(
    keep_git: bool,
    keep_intermediate: bool,
    remove_tests: bool,
    strip_pdb: bool,
    keep: Seq<Seq<char>>,
    st: StepView,
)
    requires
        st == git_step() || st == intermediate_step() || st == StepView::Heading(Section::AppleShared)
            || st == (StepView::ScanTestDirs { root: "Engine/Binaries/Win64"@ })
            || st == (StepView::ScanPdbFiles { root: "Engine/Binaries"@ }),
    ensures
        ({
            let p = plan_spec(keep_git, keep_intermediate, remove_tests, strip_pdb, keep);
            &&& st == git_step() ==> (p.contains(st) <==> !keep_git)
            &&& st == intermediate_step() ==> (p.contains(st) <==> !keep_intermediate)
            &&& st == StepView::Heading(Section::AppleShared) ==> (p.contains(st) <==> !apple_kept_spec(keep))
            &&& st == (StepView::ScanTestDirs { root: "Engine/Binaries/Win64"@ }) ==> (p.contains(st) <==> remove_tests)
            &&& st == (StepView::ScanPdbFiles { root: "Engine/Binaries"@ }) ==> (p.contains(st) <==> strip_pdb)
        }),
{
    let removed = removed_platforms(keep);
    let pp = seq![StepView::Heading(Section::Platforms)] + platforms_steps(removed);
    let a = apple_part(apple_kept_spec(keep));
    let t = third_party_part(dedup_ignore_case(all_folder_names(removed)).len() > 0);
    let x = tests_part(remove_tests);
    let d = pdb_part(strip_pdb);
    lemma_general_has(keep_git, keep_intermediate);
    lemma_plan_parts(keep_git, keep_intermediate, remove_tests, strip_pdb, keep, st);
    if pp.contains(st) || a.contains(st) || t.contains(st) {
        lemma_middle_parts(keep, st);
    }
    if !apple_kept_spec(keep) {
        assert(a[0] == StepView::Heading(Section::AppleShared));
    }
    if remove_tests {
        assert(x[1] == (StepView::ScanTestDirs { root: "Engine/Binaries/Win64"@ }));
    }
    if strip_pdb {
        assert(d[1] == (StepView::ScanPdbFiles { root: "Engine/Binaries"@ }));
    }
}


/// Each step of each platform belongs to the platform part.
proof fn lemma_platforms_steps_has(ps: Seq<PlatformSpec>, k: int, st: StepView)
    requires
        0 <= k < ps.len(),
        platform_steps(ps[k]).contains(st),
    ensures
        platforms_steps(ps).contains(st),
    decreases ps.len(),
{
    let a = platforms_steps(ps.drop_last());
    let b = platform_steps(ps.last());
    lemma_add_contains(a, b, st);
    if k < ps.len() - 1 {
        assert(ps.drop_last()[k] == ps[k]);
        lemma_platforms_steps_has(ps.drop_last(), k, st);
    }
}

/// Law: every folder of every platform that is not kept is removed: its
/// folders under `Engine/Platforms`, `Engine/Binaries`, `Engine/Build`,
/// `Engine/Config` and `Engine/Extras`, and its own source folders.
pub proof fn lemma_plan_removes_unkept(
    keep_git: bool,
    keep_intermediate: bool,
    remove_tests: bool,
    strip_pdb: bool,
    keep: Seq<Seq<char>>,
    i: int,
    st: StepView,
)
    requires
        0 <= i < platform_table().len(),
        !matches_any(keep, platform_table()[i].name),
        platform_steps(platform_table()[i]).contains(st),
    ensures
        plan_spec(keep_git, keep_intermediate, remove_tests, strip_pdb, keep).contains(st),
{
    let removed = removed_platforms(keep);
    let p = platform_table()[i];
    assert(platform_table().contains(p));
    lemma_removed_platforms(keep, p);
    let k = choose|k: int| 0 <= k < removed.len() && removed[k] == p;
    lemma_platforms_steps_has(removed, k, st);
    lemma_add_contains(seq![StepView::Heading(Section::Platforms)], platforms_steps(removed), st);
    lemma_plan_parts(keep_git, keep_intermediate, remove_tests, strip_pdb, keep, st);
}


/// The last parts of the paths that a platform's own steps remove.
pub open spec fn own_names(p: PlatformSpec) -> Seq<Seq<char>> {
    opt_seq(p.platforms_dir) + opt_seq(p.binaries_dir) + opt_seq(p.build_dir) + opt_seq(p.config_dir)
        + p.extras_dirs + p.source_dirs
}

/// The value of an option, as a list of at most one element.
pub open spec fn opt_seq(o: Option<Seq<char>>) -> Seq<Seq<char>> {
    match o {
        Some(x) => seq![x],
        None => Seq::empty(),
    }
}

/// A platform's own step removes a folder named by one of its own names.
proof fn lemma_platform_step_own_name(p: PlatformSpec, st: StepView)
    requires
        platform_steps(p).contains(st),
    ensures
        st matches StepView::RemoveDir { path, check } && path.len() >= 1 && own_names(p).contains(path.last()),
{
    let s = platform_steps(p);
    let m = choose|m: int| 0 <= m < s.len() && s[m] == st;
    let a = opt_dir_step("Engine/Platforms"@, p.platforms_dir);
    let b = opt_dir_step("Engine/Binaries"@, p.binaries_dir);
    let c = opt_dir_step("Engine/Build"@, p.build_dir);
    let d = opt_dir_step("Engine/Config"@, p.config_dir);
    let e = dir_steps_under("Engine/Extras"@, p.extras_dirs);
    let f = dir_steps(p.source_dirs, Check::Exists);
    let oa = opt_seq(p.platforms_dir);
    let ob = opt_seq(p.binaries_dir);
    let oc = opt_seq(p.build_dir);
    let od = opt_seq(p.config_dir);
    let n1 = a.len();
    let n2 = n1 + b.len();
    let n3 = n2 + c.len();
    let n4 = n3 + d.len();
    let n5 = n4 + e.len();
    let o = own_names(p);
    assert(oa.len() == a.len() && ob.len() == b.len() && oc.len() == c.len() && od.len() == d.len());
    if m >= n5 {
        assert(st == f[m - n5]);
        assert(o[m] == p.source_dirs[m - n5]);
    } else if m >= n4 {
        assert(st == e[m - n4]);
        assert(o[m] == p.extras_dirs[m - n4]);
    } else if m >= n3 {
        assert(st == d[m - n3]);
        assert(o[m] == od[m - n3]);
    } else if m >= n2 {
        assert(st == c[m - n2]);
        assert(o[m] == oc[m - n2]);
    } else if m >= n1 {
        assert(st == b[m - n1]);
        assert(o[m] == ob[m - n1]);
    } else {
        assert(st == a[m]);
        assert(o[m] == oa[m]);
    }
}


/// The platform to which a folder name of its own belongs, told by its length
/// and its first and last characters (-1 for none).
pub open spec fn own_name_owner(n: Seq<char>) -> int {
    if (n.len() == 7 && n[0] == 'W' && n[6] == 's') || (n.len() == 5 && n[0] == 'W' && n[4] == '4') || (n.len() == 31 && n[0] == 'E' && n[30] == 's') {
        0
    } else if (n.len() == 5 && n[0] == 'L' && n[4] == 'x') || (n.len() == 11 && n[0] == 'G' && n[10] == 's') || (n.len() == 29 && n[0] == 'E' && n[28] == 'x') || (n.len() == 43 && n[0] == 'E' && n[42] == 'x') {
        1
    } else if (n.len() == 7 && n[0] == 'A' && n[6] == 'd') || (n.len() == 31 && n[0] == 'E' && n[30] == 'd') || (n.len() == 45 && n[0] == 'E' && n[44] == 'd') {
        2
    } else if (n.len() == 3 && n[0] == 'I' && n[2] == 'S') || (n.len() == 6 && n[0] == 'i' && n[5] == 's') || (n.len() == 27 && n[0] == 'E' && n[26] == 'S') || (n.len() == 41 && n[0] == 'E' && n[40] == 'S') {
        3
    } else if (n.len() == 3 && n[0] == 'M' && n[2] == 'c') || (n.len() == 18 && n[0] == 'L' && n[17] == 's') || (n.len() == 11 && n[0] == 'I' && n[10] == 's') || (n.len() == 27 && n[0] == 'E' && n[26] == 'c') || (n.len() == 41 && n[0] == 'E' && n[40] == 'c') {
        4
    } else if (n.len() == 4 && n[0] == 'T' && n[3] == 'S') || (n.len() == 42 && n[0] == 'E' && n[41] == 'S') {
        5
    } else if (n.len() == 8 && n[0] == 'V' && n[7] == 'S') {
        6
    } else if (n.len() == 9 && n[0] == 'S' && n[8] == 'k') {
        8
    } else {
        -1
    }
}

/// Each folder name of its own that a platform has belongs to it.
proof fn lemma_own_names_owner(i: int)
    requires
        0 <= i < platform_table().len(),
    ensures
        forall|k: int| 0 <= k < own_names(platform_table()[i]).len()
            ==> own_name_owner(#[trigger] own_names(platform_table()[i])[k]) == i,
{
    if i == 0 {
        reveal_strlit("Windows");
        reveal_strlit("Win64");
        reveal_strlit("Engine/Source/Developer/Windows");
        let o = own_names(platform_table()[i]);
        assert forall|k: int| 0 <= k < o.len() implies own_name_owner(#[trigger] o[k]) == i by {}
    } else if i == 1 {
        reveal_strlit("Linux");
        reveal_strlit("GDBPrinters");
        reveal_strlit("Engine/Source/Developer/Linux");
        reveal_strlit("Engine/Source/Programs/AutomationTool/Linux");
        let o = own_names(platform_table()[i]);
        assert forall|k: int| 0 <= k < o.len() implies own_name_owner(#[trigger] o[k]) == i by {}
    } else if i == 2 {
        reveal_strlit("Android");
        reveal_strlit("Engine/Source/Developer/Android");
        reveal_strlit("Engine/Source/Programs/AutomationTool/Android");
        let o = own_names(platform_table()[i]);
        assert forall|k: int| 0 <= k < o.len() implies own_name_owner(#[trigger] o[k]) == i by {}
    } else if i == 3 {
        reveal_strlit("IOS");
        reveal_strlit("iTunes");
        reveal_strlit("Engine/Source/Developer/IOS");
        reveal_strlit("Engine/Source/Programs/AutomationTool/IOS");
        let o = own_names(platform_table()[i]);
        assert forall|k: int| 0 <= k < o.len() implies own_name_owner(#[trigger] o[k]) == i by {}
    } else if i == 4 {
        reveal_strlit("Mac");
        reveal_strlit("LLDBDataFormatters");
        reveal_strlit("Instruments");
        reveal_strlit("Engine/Source/Developer/Mac");
        reveal_strlit("Engine/Source/Programs/AutomationTool/Mac");
        let o = own_names(platform_table()[i]);
        assert forall|k: int| 0 <= k < o.len() implies own_name_owner(#[trigger] o[k]) == i by {}
    } else if i == 5 {
        reveal_strlit("TVOS");
        reveal_strlit("Engine/Source/Programs/AutomationTool/TVOS");
        let o = own_names(platform_table()[i]);
        assert forall|k: int| 0 <= k < o.len() implies own_name_owner(#[trigger] o[k]) == i by {}
    } else if i == 6 {
        reveal_strlit("VisionOS");
        let o = own_names(platform_table()[i]);
        assert forall|k: int| 0 <= k < o.len() implies own_name_owner(#[trigger] o[k]) == i by {}
    } else if i == 7 {
        let o = own_names(platform_table()[i]);
        assert forall|k: int| 0 <= k < o.len() implies own_name_owner(#[trigger] o[k]) == i by {}
    } else if i == 8 {
        reveal_strlit("SteamDeck");
        let o = own_names(platform_table()[i]);
        assert forall|k: int| 0 <= k < o.len() implies own_name_owner(#[trigger] o[k]) == i by {}
    }
}

/// Different platforms never name the same folder of their own.
proof fn lemma_own_names_disjoint(i: int, j: int, a: Seq<char>)
    requires
        0 <= i < platform_table().len(),
        0 <= j < platform_table().len(),
        i != j,
        own_names(platform_table()[i]).contains(a),
    ensures
        !own_names(platform_table()[j]).contains(a),
{
    lemma_own_names_owner(i);
    lemma_own_names_owner(j);
}


/// A kept platform's own step is not among the steps of the removed platforms.
proof fn lemma_kept_not_in_platform_part(keep: Seq<Seq<char>>, j: int, st: StepView)
    requires
        0 <= j < platform_table().len(),
        matches_any(keep, platform_table()[j].name),
        platform_steps(platform_table()[j]).contains(st),
    ensures
        !platforms_steps(removed_platforms(keep)).contains(st),
{
    let removed = removed_platforms(keep);
    if platforms_steps(removed).contains(st) {
        lemma_platform_step_own_name(platform_table()[j], st);
        let last = st->RemoveDir_path.last();
        lemma_platforms_steps_member(removed, st);
        let k = choose|k: int| 0 <= k < removed.len() && platform_steps(#[trigger] removed[k]).contains(st);
        assert(removed.contains(removed[k]));
        lemma_removed_platforms(keep, removed[k]);
        let i = choose|i: int| 0 <= i < platform_table().len() && platform_table()[i] == removed[k];
        assert(i != j);
        lemma_platform_step_own_name(platform_table()[i], st);
        lemma_own_names_disjoint(i, j, last);
    }
}

/// No platform's own step is among the Apple, third-party, test or symbol steps.
proof fn lemma_kept_not_in_tail(keep: Seq<Seq<char>>, remove_tests: bool, strip_pdb: bool, j: int, st: StepView)
    requires
        0 <= j < platform_table().len(),
        platform_steps(platform_table()[j]).contains(st),
    ensures
        !apple_part(apple_kept_spec(keep)).contains(st),
        !third_party_part(dedup_ignore_case(all_folder_names(removed_platforms(keep))).len() > 0).contains(st),
        !tests_part(remove_tests).contains(st),
        !pdb_part(strip_pdb).contains(st),
{
    let a = apple_part(apple_kept_spec(keep));
    let t = third_party_part(dedup_ignore_case(all_folder_names(removed_platforms(keep))).len() > 0);
    let x = tests_part(remove_tests);
    let d = pdb_part(strip_pdb);
    lemma_platform_step_own_name(platform_table()[j], st);
    lemma_own_names_owner(j);
    let last = st->RemoveDir_path.last();
    assert(own_name_owner(last) == j);
    if a.contains(st) {
        lemma_apple_part(apple_kept_spec(keep), st);
        let ad = dir_steps(apple_shared_dirs(), Check::Exists);
        lemma_add_contains(seq![StepView::Heading(Section::AppleShared)], ad, st);
        lemma_dir_steps_contains(apple_shared_dirs(), Check::Exists, st);
        reveal_strlit("Engine/Build/Xcode");
        reveal_strlit("Engine/Extras/Xcode");
        let m = choose|m: int| 0 <= m < apple_shared_dirs().len() && apple_shared_dirs()[m] == last;
        assert(own_name_owner(last) == -1);
    }
    if x.contains(st) {
        reveal_strlit("Engine/Binaries/Win64/HeadlessChaos");
        let m = choose|m: int| 0 <= m < x.len() && x[m] == st;
        assert(own_name_owner(last) == -1);
    }
    if d.contains(st) {
        let m = choose|m: int| 0 <= m < d.len() && d[m] == st;
    }
    if t.contains(st) {
        let m = choose|m: int| 0 <= m < t.len() && t[m] == st;
    }
}

/// Law: nothing a kept platform owns is removed: no step of the run removes
/// a folder that one of the kept platforms' own steps would remove.
pub proof fn lemma_plan_spares_kept(
    keep_git: bool,
    keep_intermediate: bool,
    remove_tests: bool,
    strip_pdb: bool,
    keep: Seq<Seq<char>>,
    j: int,
    st: StepView,
)
    requires
        0 <= j < platform_table().len(),
        matches_any(keep, platform_table()[j].name),
        platform_steps(platform_table()[j]).contains(st),
    ensures
        !plan_spec(keep_git, keep_intermediate, remove_tests, strip_pdb, keep).contains(st),
{
    let removed = removed_platforms(keep);
    let h = seq![StepView::Heading(Section::Platforms)];
    let q = platforms_steps(removed);
    lemma_platform_step_own_name(platform_table()[j], st);
    lemma_general_has(keep_git, keep_intermediate);
    lemma_plan_parts(keep_git, keep_intermediate, remove_tests, strip_pdb, keep, st);
    lemma_add_contains(h, q, st);
    lemma_kept_not_in_platform_part(keep, j, st);
    lemma_kept_not_in_tail(keep, remove_tests, strip_pdb, j, st);
}


/// Law: whatever the switches and the kept platforms, every folder of
/// `always_removed_dirs()` is removed (when it is a directory) and every file
/// of `always_removed_files()` (when it is a file); `--keep-git` and
/// `--keep-intermediate` take out only their own folder.
pub proof fn lemma_plan_always_removes(
    keep_git: bool,
    keep_intermediate: bool,
    remove_tests: bool,
    strip_pdb: bool,
    keep: Seq<Seq<char>>,
)
    ensures
        forall|k: int| 0 <= k < always_removed_dirs().len() ==> plan_spec(
            keep_git,
            keep_intermediate,
            remove_tests,
            strip_pdb,
            keep,
        ).contains(StepView::RemoveDir { path: seq![#[trigger] always_removed_dirs()[k]], check: Check::IsDir }),
        forall|k: int| 0 <= k < always_removed_files().len() ==> plan_spec(
            keep_git,
            keep_intermediate,
            remove_tests,
            strip_pdb,
            keep,
        ).contains(StepView::RemoveFile { path: seq![#[trigger] always_removed_files()[k]], check: Check::IsFile }),
{
    let h = seq![StepView::Heading(Section::General)];
    let g: Seq<StepView> = if keep_git { Seq::empty() } else { dir_steps(seq![".git"@], Check::IsDir) };
    let i: Seq<StepView> = if keep_intermediate { Seq::empty() } else { dir_steps(seq!["Engine/Intermediate"@], Check::IsDir) };
    let a = dir_steps(always_removed_dirs(), Check::IsDir);
    let f = file_steps(always_removed_files(), Check::IsFile);
    assert forall|k: int| 0 <= k < always_removed_dirs().len() implies plan_spec(
        keep_git,
        keep_intermediate,
        remove_tests,
        strip_pdb,
        keep,
    ).contains(StepView::RemoveDir { path: seq![#[trigger] always_removed_dirs()[k]], check: Check::IsDir }) by {
        let st = StepView::RemoveDir { path: seq![always_removed_dirs()[k]], check: Check::IsDir };
        assert(a[k] == st);
        assert(a.contains(st));
        assert(general_steps(keep_git, keep_intermediate) == h + g + i + a + f);
        lemma_add_contains(h + g + i + a, f, st);
        lemma_add_contains(h + g + i, a, st);
        lemma_plan_parts(keep_git, keep_intermediate, remove_tests, strip_pdb, keep, st);
    }
    assert forall|k: int| 0 <= k < always_removed_files().len() implies plan_spec(
        keep_git,
        keep_intermediate,
        remove_tests,
        strip_pdb,
        keep,
    ).contains(StepView::RemoveFile { path: seq![#[trigger] always_removed_files()[k]], check: Check::IsFile }) by {
        let st = StepView::RemoveFile { path: seq![always_removed_files()[k]], check: Check::IsFile };
        assert(f[k] == st);
        assert(f.contains(st));
        assert(general_steps(keep_git, keep_intermediate) == h + g + i + a + f);
        lemma_add_contains(h + g + i + a, f, st);
        lemma_plan_parts(keep_git, keep_intermediate, remove_tests, strip_pdb, keep, st);
    }
}

} // verus!
