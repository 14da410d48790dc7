//! The platforms the engine ships for, and the choice of what to keep.
use vstd::prelude::*;
use crate::text::{
    comma_list, split_commas, trim_str, trimmed_nonempty, eq_ignore_case, eq_ignore_ascii_case, views,
    str_views, matches_any, lemma_eq_ignore_case_equivalence, fold, any_str_eq_ignore_ascii_case, str_eq,
    any_eq_ignore_ascii_case,
};

verus! {

/// Splits the `--platforms` argument at commas, trims each piece and leaves
/// out the empty ones: `" Windows, ,IOS "` gives `["Windows", "IOS"]`.
pub fn parse_platforms(arg: &str) -> (r: Vec<String>)
    ensures
        views(r@) == comma_list(arg@),
{
    let n = arg.unicode_len();
    let mut result: Vec<String> = Vec::new();
    let mut start: usize = 0;
    let mut i: usize = 0;
    let ghost mut raw: Seq<Seq<char>> = Seq::empty();
    assert(arg@.take(0) =~= Seq::<char>::empty());
    assert(arg@.subrange(0, 0) =~= Seq::<char>::empty());
    while i < n
        invariant
            n == arg@.len(),
            start <= i <= n,
            split_commas(arg@.take(i as int)) == raw.push(arg@.subrange(start as int, i as int)),
            views(result@) == trimmed_nonempty(raw),
        decreases n - i,
    {
        let c = arg.get_char(i);
        assert(arg@.take(i as int + 1).drop_last() =~= arg@.take(i as int));
        assert(arg@.take(i as int + 1).last() == c);
        if c == ',' {
            let piece = trim_str(arg.substring_char(start, i));
            let ghost old_raw = raw;
            proof { raw = raw.push(arg@.subrange(start as int, i as int)); }
            assert(raw.drop_last() =~= old_raw);
            if piece.unicode_len() > 0 {
                result.push(String::from_str(piece));
                assert(views(result@) =~= trimmed_nonempty(raw));
            }
            start = i + 1;
            assert(arg@.subrange(start as int, i as int + 1) =~= Seq::<char>::empty());
            assert(split_commas(arg@.take(i as int + 1)) =~= raw.push(arg@.subrange(start as int, i as int + 1)));
        } else {
            assert(arg@.subrange(start as int, i as int + 1) =~= arg@.subrange(start as int, i as int).push(c));
            assert(split_commas(arg@.take(i as int + 1)) =~= raw.push(arg@.subrange(start as int, i as int + 1)));
        }
        i = i + 1;
    }
    let piece = trim_str(arg.substring_char(start, n));
    let ghost old_raw = raw;
    proof { raw = raw.push(arg@.subrange(start as int, n as int)); }
    assert(raw.drop_last() =~= old_raw);
    assert(arg@.take(n as int) =~= arg@);
    if piece.unicode_len() > 0 {
        result.push(String::from_str(piece));
        assert(views(result@) =~= trimmed_nonempty(raw));
    }
    result
}


/// What the engine holds for one platform.
pub struct PlatformInfo {
    /// The name by which the platform is chosen.
    pub name: &'static str,
    /// Folder names that stand for the platform inside third-party trees.
    pub folder_names: Vec<&'static str>,
    /// Its folder under `Engine/Binaries`.
    pub binaries_dir: Option<&'static str>,
    /// Its folder under `Engine/Platforms`.
    pub platforms_dir: Option<&'static str>,
    /// Its folder under `Engine/Build`.
    pub build_dir: Option<&'static str>,
    /// Its folder under `Engine/Config`.
    pub config_dir: Option<&'static str>,
    /// Its folders under `Engine/Extras`.
    pub extras_dirs: Vec<&'static str>,
    /// Further folders of its own, relative to the engine root.
    pub source_dirs: Vec<&'static str>,
    /// Whether it needs the components shared by Apple platforms.
    pub requires_apple: bool,
}

/// `PlatformInfo` with its strings as text.
pub struct PlatformSpec {
    pub name: Seq<char>,
    pub folder_names: Seq<Seq<char>>,
    pub binaries_dir: Option<Seq<char>>,
    pub platforms_dir: Option<Seq<char>>,
    pub build_dir: Option<Seq<char>>,
    pub config_dir: Option<Seq<char>>,
    pub extras_dirs: Seq<Seq<char>>,
    pub source_dirs: Seq<Seq<char>>,
    pub requires_apple: bool,
}

/// The text view of an optional string slice.
pub open spec fn opt_view(o: Option<&'static str>) -> Option<Seq<char>> {
    match o {
        Some(x) => Some(x@),
        None => None,
    }
}

impl View for PlatformInfo {
    type V = PlatformSpec;

    open spec fn view(&self) -> PlatformSpec {
        PlatformSpec {
            name: self.name@,
            folder_names: str_views(self.folder_names@),
            binaries_dir: opt_view(self.binaries_dir),
            platforms_dir: opt_view(self.platforms_dir),
            build_dir: opt_view(self.build_dir),
            config_dir: opt_view(self.config_dir),
            extras_dirs: str_views(self.extras_dirs@),
            source_dirs: str_views(self.source_dirs@),
            requires_apple: self.requires_apple,
        }
    }
}

/// The platforms, in the order in which they are listed and removed.
pub open spec fn platform_table() -> Seq<PlatformSpec> {
    seq![
        PlatformSpec {
            name: "Windows"@,
            folder_names: seq!["Win64"@, "Win32"@, "Windows"@],
            binaries_dir: Some("Win64"@),
            platforms_dir: Some("Windows"@),
            build_dir: Some("Windows"@),
            config_dir: None,
            extras_dirs: seq!["Windows"@],
            source_dirs: seq!["Engine/Source/Developer/Windows"@],
            requires_apple: false,
        },
        PlatformSpec {
            name: "Linux"@,
            folder_names: seq!["Linux"@, "LinuxArm64"@],
            binaries_dir: Some("Linux"@),
            platforms_dir: None,
            build_dir: Some("Linux"@),
            config_dir: None,
            extras_dirs: seq!["GDBPrinters"@],
            source_dirs: seq![
                "Engine/Source/Developer/Linux"@,
                "Engine/Source/Programs/AutomationTool/Linux"@,
            ],
            requires_apple: false,
        },
        PlatformSpec {
            name: "Android"@,
            folder_names: seq!["Android"@],
            binaries_dir: None,
            platforms_dir: Some("Android"@),
            build_dir: Some("Android"@),
            config_dir: Some("Android"@),
            extras_dirs: seq!["Android"@],
            source_dirs: seq![
                "Engine/Source/Developer/Android"@,
                "Engine/Source/Programs/AutomationTool/Android"@,
            ],
            requires_apple: false,
        },
        PlatformSpec {
            name: "IOS"@,
            folder_names: seq!["IOS"@],
            binaries_dir: None,
            platforms_dir: Some("IOS"@),
            build_dir: Some("IOS"@),
            config_dir: None,
            extras_dirs: seq!["iTunes"@],
            source_dirs: seq![
                "Engine/Source/Developer/IOS"@,
                "Engine/Source/Programs/AutomationTool/IOS"@,
            ],
            requires_apple: true,
        },
        PlatformSpec {
            name: "Mac"@,
            folder_names: seq!["Mac"@, "macos"@, "osx"@, "Darwin"@],
            binaries_dir: Some("Mac"@),
            platforms_dir: None,
            build_dir: Some("Mac"@),
            config_dir: None,
            extras_dirs: seq!["LLDBDataFormatters"@, "Instruments"@],
            source_dirs: seq![
                "Engine/Source/Developer/Mac"@,
                "Engine/Source/Programs/AutomationTool/Mac"@,
            ],
            requires_apple: true,
        },
        PlatformSpec {
            name: "TVOS"@,
            folder_names: seq!["TVOS"@],
            binaries_dir: None,
            platforms_dir: None,
            build_dir: Some("TVOS"@),
            config_dir: Some("TVOS"@),
            extras_dirs: seq![],
            source_dirs: seq!["Engine/Source/Programs/AutomationTool/TVOS"@],
            requires_apple: true,
        },
        PlatformSpec {
            name: "VisionOS"@,
            folder_names: seq!["VisionOS"@],
            binaries_dir: None,
            platforms_dir: Some("VisionOS"@),
            build_dir: None,
            config_dir: None,
            extras_dirs: seq![],
            source_dirs: seq![],
            requires_apple: true,
        },
        PlatformSpec {
            name: "HoloLens"@,
            folder_names: seq!["HoloLens"@],
            binaries_dir: None,
            platforms_dir: None,
            build_dir: None,
            config_dir: None,
            extras_dirs: seq![],
            source_dirs: seq![],
            requires_apple: false,
        },
        PlatformSpec {
            name: "SteamDeck"@,
            folder_names: seq!["SteamDeck"@],
            binaries_dir: None,
            platforms_dir: None,
            build_dir: Some("SteamDeck"@),
            config_dir: None,
            extras_dirs: seq![],
            source_dirs: seq![],
            requires_apple: false,
        },
    ]
}

/// The table of platforms.
pub fn all_platforms() -> (r: Vec<PlatformInfo>)
    ensures
        r@.len() == platform_table().len(),
        forall|i: int| 0 <= i < r@.len() ==> #[trigger] r@[i]@ == platform_table()[i],
{
    let r = vec![
        PlatformInfo {
            name: "Windows",
            folder_names: vec!["Win64", "Win32", "Windows"],
            binaries_dir: Some("Win64"),
            platforms_dir: Some("Windows"),
            build_dir: Some("Windows"),
            config_dir: None,
            extras_dirs: vec!["Windows"],
            source_dirs: vec!["Engine/Source/Developer/Windows"],
            requires_apple: false,
        },
        PlatformInfo {
            name: "Linux",
            folder_names: vec!["Linux", "LinuxArm64"],
            binaries_dir: Some("Linux"),
            platforms_dir: None,
            build_dir: Some("Linux"),
            config_dir: None,
            extras_dirs: vec!["GDBPrinters"],
            source_dirs: vec![
                "Engine/Source/Developer/Linux",
                "Engine/Source/Programs/AutomationTool/Linux",
            ],
            requires_apple: false,
        },
        PlatformInfo {
            name: "Android",
            folder_names: vec!["Android"],
            binaries_dir: None,
            platforms_dir: Some("Android"),
            build_dir: Some("Android"),
            config_dir: Some("Android"),
            extras_dirs: vec!["Android"],
            source_dirs: vec![
                "Engine/Source/Developer/Android",
                "Engine/Source/Programs/AutomationTool/Android",
            ],
            requires_apple: false,
        },
        PlatformInfo {
            name: "IOS",
            folder_names: vec!["IOS"],
            binaries_dir: None,
            platforms_dir: Some("IOS"),
            build_dir: Some("IOS"),
            config_dir: None,
            extras_dirs: vec!["iTunes"],
            source_dirs: vec![
                "Engine/Source/Developer/IOS",
                "Engine/Source/Programs/AutomationTool/IOS",
            ],
            requires_apple: true,
        },
        PlatformInfo {
            name: "Mac",
            folder_names: vec!["Mac", "macos", "osx", "Darwin"],
            binaries_dir: Some("Mac"),
            platforms_dir: None,
            build_dir: Some("Mac"),
            config_dir: None,
            extras_dirs: vec!["LLDBDataFormatters", "Instruments"],
            source_dirs: vec![
                "Engine/Source/Developer/Mac",
                "Engine/Source/Programs/AutomationTool/Mac",
            ],
            requires_apple: true,
        },
        PlatformInfo {
            name: "TVOS",
            folder_names: vec!["TVOS"],
            binaries_dir: None,
            platforms_dir: None,
            build_dir: Some("TVOS"),
            config_dir: Some("TVOS"),
            extras_dirs: vec![],
            source_dirs: vec!["Engine/Source/Programs/AutomationTool/TVOS"],
            requires_apple: true,
        },
        PlatformInfo {
            name: "VisionOS",
            folder_names: vec!["VisionOS"],
            binaries_dir: None,
            platforms_dir: Some("VisionOS"),
            build_dir: None,
            config_dir: None,
            extras_dirs: vec![],
            source_dirs: vec![],
            requires_apple: true,
        },
        PlatformInfo {
            name: "HoloLens",
            folder_names: vec!["HoloLens"],
            binaries_dir: None,
            platforms_dir: None,
            build_dir: None,
            config_dir: None,
            extras_dirs: vec![],
            source_dirs: vec![],
            requires_apple: false,
        },
        PlatformInfo {
            name: "SteamDeck",
            folder_names: vec!["SteamDeck"],
            binaries_dir: None,
            platforms_dir: None,
            build_dir: Some("SteamDeck"),
            config_dir: None,
            extras_dirs: vec![],
            source_dirs: vec![],
            requires_apple: false,
        },
    ];
    assert forall|i: int| 0 <= i < r@.len() implies #[trigger] r@[i]@ == platform_table()[i] by {
        assert(str_views(r@[i].folder_names@) =~= platform_table()[i].folder_names);
        assert(str_views(r@[i].extras_dirs@) =~= platform_table()[i].extras_dirs);
        assert(str_views(r@[i].source_dirs@) =~= platform_table()[i].source_dirs);
    }
    r
}


/// The position of the first platform whose name equals `input`, ASCII case ignored.
pub open spec fn platform_index(input: Seq<char>) -> Option<int> {
    if exists|i: int| 0 <= i < platform_table().len() && eq_ignore_case(#[trigger] platform_table()[i].name, input) {
        Some(choose|i: int| {
            &&& 0 <= i < platform_table().len()
            &&& eq_ignore_case(#[trigger] platform_table()[i].name, input)
            &&& forall|j: int| 0 <= j < i ==> !eq_ignore_case(#[trigger] platform_table()[j].name, input)
        })
    } else {
        None
    }
}

/// The canonical name of the platform that `input` names, ASCII case ignored.
pub open spec fn normalized_name(input: Seq<char>) -> Option<Seq<char>> {
    match platform_index(input) {
        Some(i) => Some(platform_table()[i].name),
        None => None,
    }
}

proof fn lemma_platform_index_first(input: Seq<char>, i: int)
    requires
        0 <= i < platform_table().len(),
        eq_ignore_case(platform_table()[i].name, input),
        forall|j: int| 0 <= j < i ==> !eq_ignore_case(#[trigger] platform_table()[j].name, input),
    ensures
        platform_index(input) == Some(i),
{
    assert({
        &&& 0 <= i < platform_table().len()
        &&& eq_ignore_case(platform_table()[i].name, input)
        &&& forall|j: int| 0 <= j < i ==> !eq_ignore_case(#[trigger] platform_table()[j].name, input)
    });
    let k = platform_index(input)->0;
    if k < i {
        assert(!eq_ignore_case(platform_table()[k].name, input));
    } else if k > i {
        assert(!eq_ignore_case(platform_table()[i].name, input));
    }
}

/// Law: a platform name is recognised whatever the case of its ASCII letters,
/// and the canonical name it stands for is recognised as itself.
pub proof fn lemma_normalized_name(a: Seq<char>, b: Seq<char>)
    ensures
        eq_ignore_case(a, b) ==> normalized_name(a) == normalized_name(b),
        normalized_name(a) matches Some(c) ==> normalized_name(c) == Some(c),
{
    if eq_ignore_case(a, b) {
        lemma_eq_ignore_case_equivalence(a, b, a);
        if platform_index(a) is Some {
            let i = platform_index(a)->0;
            assert forall|j: int| 0 <= j < i implies !eq_ignore_case(#[trigger] platform_table()[j].name, b) by {
                lemma_eq_ignore_case_equivalence(platform_table()[j].name, b, a);
            }
            lemma_eq_ignore_case_equivalence(platform_table()[i].name, a, b);
            lemma_platform_index_first(b, i);
        } else if platform_index(b) is Some {
            let i = platform_index(b)->0;
            lemma_eq_ignore_case_equivalence(platform_table()[i].name, b, a);
        }
    }
    if platform_index(a) is Some {
        let i = platform_index(a)->0;
        let c = platform_table()[i].name;
        lemma_eq_ignore_case_equivalence(c, c, c);
        assert forall|j: int| 0 <= j < i implies !eq_ignore_case(#[trigger] platform_table()[j].name, c) by {
            lemma_eq_ignore_case_equivalence(platform_table()[j].name, c, a);
        }
        lemma_platform_index_first(c, i);
    }
}

/// The canonical spelling of a platform name given in any ASCII case,
/// or `None` when no platform has that name.
pub fn normalize_platform_name(input: &str) -> (r: Option<&'static str>)
    ensures
        match r {
            Some(n) => normalized_name(input@) == Some(n@),
            None => normalized_name(input@) is None,
        },
{
    let table = all_platforms();
    let mut i: usize = 0;
    while i < table.len()
        invariant
            i <= table@.len(),
            table@.len() == platform_table().len(),
            forall|k: int| 0 <= k < table@.len() ==> #[trigger] table@[k]@ == platform_table()[k],
            forall|j: int| 0 <= j < i ==> !eq_ignore_case(#[trigger] platform_table()[j].name, input@),
        decreases table.len() - i,
    {
        assert(table@[i as int]@ == platform_table()[i as int]);
        if eq_ignore_ascii_case(table[i].name, input) {
            proof { lemma_platform_index_first(input@, i as int); }
            return Some(table[i].name);
        }
        i = i + 1;
    }
    None
}


/// Turns every requested name into its canonical spelling, in order; the
/// first name that is no platform is the error.
pub fn normalize_platforms(names: &Vec<String>) -> (r: Result<Vec<&'static str>, String>)
    ensures
        match r {
            Ok(v) => {
                &&& v@.len() == names@.len()
                &&& forall|i: int| 0 <= i < v@.len() ==> normalized_name(#[trigger] names@[i]@) == Some(v@[i]@)
            },
            Err(e) => exists|i: int| {
                &&& 0 <= i < names@.len()
                &&& normalized_name(#[trigger] names@[i]@) is None
                &&& e@ == names@[i]@
                &&& forall|j: int| 0 <= j < i ==> normalized_name(#[trigger] names@[j]@) is Some
            },
        },
{
    let mut v: Vec<&'static str> = Vec::new();
    let mut i: usize = 0;
    while i < names.len()
        invariant
            i <= names@.len(),
            v@.len() == i,
            forall|k: int| 0 <= k < i ==> normalized_name(#[trigger] names@[k]@) == Some(v@[k]@),
        decreases names.len() - i,
    {
        match normalize_platform_name(names[i].as_str()) {
            Some(n) => v.push(n),
            None => {
                let e = names[i].clone();
                assert(forall|j: int| 0 <= j < i ==> normalized_name(#[trigger] names@[j]@) is Some);
                assert(normalized_name(names@[i as int]@) is None);
                return Err(e);
            },
        }
        i = i + 1;
    }
    Ok(v)
}

/// The platforms of the table whose names are not among `keep` (ASCII case ignored), in table order.
pub open spec fn removed_from(t: Seq<PlatformSpec>, keep: Seq<Seq<char>>) -> Seq<PlatformSpec>
    decreases t.len(),
{
    if t.len() == 0 {
        Seq::empty()
    } else if matches_any(keep, t.last().name) {
        removed_from(t.drop_last(), keep)
    } else {
        removed_from(t.drop_last(), keep).push(t.last())
    }
}

/// The platforms to remove when those named `keep` are kept.
pub open spec fn removed_platforms(keep: Seq<Seq<char>>) -> Seq<PlatformSpec> {
    removed_from(platform_table(), keep)
}

proof fn lemma_removed_from(t: Seq<PlatformSpec>, keep: Seq<Seq<char>>, p: PlatformSpec)
    ensures
        removed_from(t, keep).contains(p) <==> t.contains(p) && !matches_any(keep, p.name),
    decreases t.len(),
{
    if t.len() > 0 {
        lemma_removed_from(t.drop_last(), keep, p);
        let r0 = removed_from(t.drop_last(), keep);
        if t.contains(p) && !matches_any(keep, p.name) {
            let k = choose|k: int| 0 <= k < t.len() && t[k] == p;
            if k < t.len() - 1 {
                assert(t.drop_last()[k] == p);
            }
            if !matches_any(keep, t.last().name) {
                assert(removed_from(t, keep).last() == t.last());
                if r0.contains(p) {
                    let m = choose|m: int| 0 <= m < r0.len() && r0[m] == p;
                    assert(removed_from(t, keep)[m] == p);
                }
            }
        }
        if removed_from(t, keep).contains(p) {
            let m = choose|m: int| 0 <= m < removed_from(t, keep).len() && removed_from(t, keep)[m] == p;
            if !matches_any(keep, t.last().name) && m == r0.len() {
                assert(t[t.len() - 1] == p);
            } else {
                assert(r0[m] == p);
                let k = choose|k: int| 0 <= k < t.drop_last().len() && t.drop_last()[k] == p;
                assert(t[k] == p);
            }
        }
    } else {
        assert(!t.contains(p));
    }
}

/// Law: the platforms to remove are exactly the platforms of the table that
/// are not kept; none is both kept and removed.
pub proof fn lemma_removed_platforms(keep: Seq<Seq<char>>, p: PlatformSpec)
    ensures
        removed_platforms(keep).contains(p) <==> platform_table().contains(p) && !matches_any(keep, p.name),
{
    lemma_removed_from(platform_table(), keep, p);
}

/// Law: folder names of different platforms never name the same folder,
/// even with ASCII case ignored.
pub proof fn lemma_folder_names_disjoint(i: int, j: int, a: Seq<char>, b: Seq<char>)
    requires
        0 <= i < platform_table().len(),
        0 <= j < platform_table().len(),
        i != j,
        platform_table()[i].folder_names.contains(a),
        platform_table()[j].folder_names.contains(b),
    ensures
        !eq_ignore_case(a, b),
{
    reveal_strlit("Win64");
    reveal_strlit("Win32");
    reveal_strlit("Windows");
    reveal_strlit("Linux");
    reveal_strlit("LinuxArm64");
    reveal_strlit("Android");
    reveal_strlit("IOS");
    reveal_strlit("Mac");
    reveal_strlit("macos");
    reveal_strlit("osx");
    reveal_strlit("Darwin");
    reveal_strlit("TVOS");
    reveal_strlit("VisionOS");
    reveal_strlit("HoloLens");
    reveal_strlit("SteamDeck");
    let fa = platform_table()[i].folder_names;
    let fb = platform_table()[j].folder_names;
    let ka = choose|k: int| 0 <= k < fa.len() && fa[k] == a;
    let kb = choose|k: int| 0 <= k < fb.len() && fb[k] == b;
    if eq_ignore_case(a, b) {
        assert(fold(a[0]) == fold(b[0]));
    }
}

/// The views of a list of platforms.
pub open spec fn platform_views(v: Seq<PlatformInfo>) -> Seq<PlatformSpec> {
    v.map_values(|p: PlatformInfo| p@)
}

/// The platforms whose names are not among `keep` (ASCII case ignored), in table order.
pub fn platforms_to_remove(keep: &Vec<&'static str>) -> (r: Vec<PlatformInfo>)
    ensures
        platform_views(r@) == removed_platforms(str_views(keep@)),
{
    let mut table = all_platforms();
    let ghost t = platform_views(table@);
    assert(t =~= platform_table());
    let mut r: Vec<PlatformInfo> = Vec::new();
    let mut rev: Vec<PlatformInfo> = Vec::new();
    assert(t.take(table@.len() as int) =~= t);
    assert(platform_views(rev@).reverse() =~= Seq::<PlatformSpec>::empty());
    assert(removed_from(t, str_views(keep@)) + Seq::<PlatformSpec>::empty() =~= removed_from(t, str_views(keep@)));
    // take entries from the back, keeping them in reverse, then restore the order
    while table.len() > 0
        invariant
            t == platform_table(),
            platform_views(table@) == t.take(table@.len() as int),
            table@.len() <= t.len(),
            removed_from(t, str_views(keep@)) == removed_from(t.take(table@.len() as int), str_views(keep@))
                + platform_views(rev@).reverse(),
        decreases table.len(),
    {
        let n = table.len();
        let p = table.pop().unwrap();
        let ghost pre_len = n as int;
        assert(t.take(pre_len).drop_last() =~= t.take(pre_len - 1));
        assert(t.take(pre_len).last() == p@);
        assert(platform_views(table@) =~= t.take(table@.len() as int));
        if !any_str_eq_ignore_ascii_case(keep, p.name) {
            let ghost old_rev = rev@;
            rev.push(p);
            assert(platform_views(rev@).reverse() =~= seq![p@] + platform_views(old_rev).reverse());
        }
    }
    assert(t.take(0) =~= Seq::<PlatformSpec>::empty());
    let ghost all = platform_views(rev@).reverse();
    assert(removed_from(t, str_views(keep@)) =~= all);
    while rev.len() > 0
        invariant
            platform_views(r@) + platform_views(rev@).reverse() == all,
        decreases rev.len(),
    {
        let ghost old_rev = rev@;
        let ghost old_r = r@;
        let p = rev.pop().unwrap();
        r.push(p);
        assert(platform_views(old_rev).reverse() =~= seq![p@] + platform_views(rev@).reverse());
        assert(platform_views(r@) =~= platform_views(old_r).push(p@));
    }
    assert(platform_views(rev@).reverse() =~= Seq::<PlatformSpec>::empty());
    assert(platform_views(r@) =~= all);
    r
}


/// `name` is the name of a platform that needs the Apple components.
pub open spec fn is_apple_platform(name: Seq<char>) -> bool {
    exists|i: int| 0 <= i < platform_table().len() && #[trigger] platform_table()[i].name == name
        && platform_table()[i].requires_apple
}

/// Whether `name` is the name of a platform that needs the Apple components.
pub fn apple_platform(name: &str) -> (r: bool)
    ensures
        r == is_apple_platform(name@),
{
    let table = all_platforms();
    let mut i: usize = 0;
    while i < table.len()
        invariant
            i <= table@.len(),
            table@.len() == platform_table().len(),
            forall|k: int| 0 <= k < table@.len() ==> #[trigger] table@[k]@ == platform_table()[k],
            forall|j: int| 0 <= j < i ==> !(#[trigger] platform_table()[j].name == name@
                && platform_table()[j].requires_apple),
        decreases table.len() - i,
    {
        assert(table@[i as int]@ == platform_table()[i as int]);
        if str_eq(table[i].name, name) && table[i].requires_apple {
            assert(platform_table()[i as int].name == name@ && platform_table()[i as int].requires_apple);
            return true;
        }
        i = i + 1;
    }
    false
}

/// Some kept platform needs the components shared by Apple platforms.
pub open spec fn apple_kept_spec(keep: Seq<Seq<char>>) -> bool {
    exists|k: int| 0 <= k < keep.len() && is_apple_platform(#[trigger] keep[k])
}

/// Whether some kept platform needs the components shared by Apple platforms.
pub fn any_apple_kept(keep: &Vec<&'static str>) -> (r: bool)
    ensures
        r == apple_kept_spec(str_views(keep@)),
{
    let mut k: usize = 0;
    while k < keep.len()
        invariant
            k <= keep@.len(),
            forall|j: int| 0 <= j < k ==> !is_apple_platform(#[trigger] str_views(keep@)[j]),
        decreases keep.len() - k,
    {
        if apple_platform(keep[k]) {
            assert(is_apple_platform(str_views(keep@)[k as int]));
            return true;
        }
        k = k + 1;
    }
    false
}

/// The kept names that need the Apple components, in order.
pub open spec fn apple_names(keep: Seq<Seq<char>>) -> Seq<Seq<char>>
    decreases keep.len(),
{
    if keep.len() == 0 {
        Seq::empty()
    } else if is_apple_platform(keep.last()) {
        apple_names(keep.drop_last()).push(keep.last())
    } else {
        apple_names(keep.drop_last())
    }
}

/// The kept platforms that need the Apple components, in the order given.
pub fn apple_kept(keep: &Vec<&'static str>) -> (r: Vec<&'static str>)
    ensures
        str_views(r@) == apple_names(str_views(keep@)),
{
    let mut r: Vec<&'static str> = Vec::new();
    let mut k: usize = 0;
    while k < keep.len()
        invariant
            k <= keep@.len(),
            str_views(r@) == apple_names(str_views(keep@).take(k as int)),
        decreases keep.len() - k,
    {
        assert(str_views(keep@).take(k as int + 1).drop_last() =~= str_views(keep@).take(k as int));
        if apple_platform(keep[k]) {
            r.push(keep[k]);
        }
        assert(str_views(r@) =~= apple_names(str_views(keep@).take(k as int + 1)));
        k = k + 1;
    }
    assert(str_views(keep@).take(keep@.len() as int) =~= str_views(keep@));
    r
}

/// Law: the list of kept Apple platforms is empty exactly when no kept
/// platform needs the Apple components.
pub proof fn lemma_apple_names_nonempty(keep: Seq<Seq<char>>)
    ensures
        apple_names(keep).len() > 0 <==> apple_kept_spec(keep),
    decreases keep.len(),
{
    if keep.len() > 0 {
        lemma_apple_names_nonempty(keep.drop_last());
        if apple_kept_spec(keep.drop_last()) {
            let k = choose|k: int| 0 <= k < keep.drop_last().len() && is_apple_platform(#[trigger] keep.drop_last()[k]);
            assert(keep[k] == keep.drop_last()[k]);
        }
        if apple_kept_spec(keep) && !is_apple_platform(keep.last()) {
            let k = choose|k: int| 0 <= k < keep.len() && is_apple_platform(#[trigger] keep[k]);
            assert(keep.drop_last()[k] == keep[k]);
        }
        if is_apple_platform(keep.last()) {
            assert(is_apple_platform(keep[keep.len() - 1]));
        }
    }
}

/// The folder names of the platforms, one platform after the other.
pub open spec fn all_folder_names(ps: Seq<PlatformSpec>) -> Seq<Seq<char>>
    decreases ps.len(),
{
    if ps.len() == 0 {
        Seq::empty()
    } else {
        all_folder_names(ps.drop_last()) + ps.last().folder_names
    }
}

/// The names in order, each left out when an earlier one equals it, ASCII case ignored.
pub open spec fn dedup_ignore_case(ns: Seq<Seq<char>>) -> Seq<Seq<char>>
    decreases ns.len(),
{
    if ns.len() == 0 {
        Seq::empty()
    } else {
        let d = dedup_ignore_case(ns.drop_last());
        if matches_any(d, ns.last()) {
            d
        } else {
            d.push(ns.last())
        }
    }
}

/// The folder names that stand for the removed platforms in third-party
/// trees, in order, each name once (ASCII case ignored).
pub fn folder_names_to_remove(removed: &Vec<PlatformInfo>) -> (r: Vec<String>)
    ensures
        views(r@) == dedup_ignore_case(all_folder_names(platform_views(removed@))),
{
    let ghost ps = platform_views(removed@);
    let mut r: Vec<String> = Vec::new();
    let mut i: usize = 0;
    assert(ps.take(0) =~= Seq::<PlatformSpec>::empty());
    while i < removed.len()
        invariant
            ps == platform_views(removed@),
            i <= removed@.len(),
            views(r@) == dedup_ignore_case(all_folder_names(ps.take(i as int))),
        decreases removed.len() - i,
    {
        let p = &removed[i];
        let ghost base = all_folder_names(ps.take(i as int));
        assert(ps.take(i as int + 1).drop_last() =~= ps.take(i as int));
        assert(ps.take(i as int + 1).last() == p@);
        let mut j: usize = 0;
        assert(base + str_views(p.folder_names@).take(0) =~= base);
        while j < p.folder_names.len()
            invariant
                j <= p.folder_names@.len(),
                views(r@) == dedup_ignore_case(base + str_views(p.folder_names@).take(j as int)),
            decreases p.folder_names.len() - j,
        {
            let name = p.folder_names[j];
            let ghost cur = base + str_views(p.folder_names@).take(j as int);
            let ghost next = base + str_views(p.folder_names@).take(j as int + 1);
            assert(next.drop_last() =~= cur);
            assert(next.last() == name@);
            if !any_eq_ignore_ascii_case(&r, name) {
                r.push(String::from_str(name));
                assert(views(r@) =~= dedup_ignore_case(cur).push(name@));
            }
            j = j + 1;
        }
        assert(str_views(p.folder_names@).take(p.folder_names@.len() as int) =~= str_views(p.folder_names@));
        assert(all_folder_names(ps.take(i as int + 1)) =~= base + str_views(p.folder_names@));
        i = i + 1;
    }
    assert(ps.take(removed@.len() as int) =~= ps);
    r
}


proof fn lemma_dedup_members(ns: Seq<Seq<char>>)
    ensures
        forall|k: int| 0 <= k < dedup_ignore_case(ns).len() ==> ns.contains(#[trigger] dedup_ignore_case(ns)[k]),
        forall|k: int, l: int| 0 <= k < l < dedup_ignore_case(ns).len()
            ==> !eq_ignore_case(#[trigger] dedup_ignore_case(ns)[k], #[trigger] dedup_ignore_case(ns)[l]),
    decreases ns.len(),
{
    if ns.len() > 0 {
        let init = ns.drop_last();
        lemma_dedup_members(init);
        let d = dedup_ignore_case(init);
        assert forall|k: int| 0 <= k < dedup_ignore_case(ns).len() implies ns.contains(#[trigger] dedup_ignore_case(ns)[k]) by {
            if k < d.len() {
                let m = choose|m: int| 0 <= m < init.len() && init[m] == d[k];
                assert(ns[m] == d[k]);
            } else {
                assert(ns[ns.len() - 1] == dedup_ignore_case(ns)[k]);
            }
        }
        if !matches_any(d, ns.last()) {
            assert forall|k: int, l: int| 0 <= k < l < dedup_ignore_case(ns).len()
                implies !eq_ignore_case(#[trigger] dedup_ignore_case(ns)[k], #[trigger] dedup_ignore_case(ns)[l]) by {
                if l == d.len() {
                    assert(dedup_ignore_case(ns)[k] == d[k]);
                    if eq_ignore_case(d[k], ns.last()) {
                        assert(matches_any(d, ns.last()));
                    }
                } else {
                    assert(dedup_ignore_case(ns)[k] == d[k]);
                    assert(dedup_ignore_case(ns)[l] == d[l]);
                }
            }
        }
    }
}

proof fn lemma_all_folder_names_member(ps: Seq<PlatformSpec>, n: Seq<char>)
    requires
        all_folder_names(ps).contains(n),
    ensures
        exists|k: int| 0 <= k < ps.len() && (#[trigger] ps[k]).folder_names.contains(n),
    decreases ps.len(),
{
    if ps.len() > 0 {
        let init = all_folder_names(ps.drop_last());
        let last = ps.last().folder_names;
        let m = choose|m: int| 0 <= m < all_folder_names(ps).len() && all_folder_names(ps)[m] == n;
        if m < init.len() {
            assert(init[m] == n);
            lemma_all_folder_names_member(ps.drop_last(), n);
            let k = choose|k: int| 0 <= k < ps.drop_last().len() && (#[trigger] ps.drop_last()[k]).folder_names.contains(n);
            assert(ps[k] == ps.drop_last()[k]);
        } else {
            assert(last[m - init.len()] == n);
            assert(ps[ps.len() - 1].folder_names.contains(n));
        }
    }
}

proof fn lemma_dedup_covers(ns: Seq<Seq<char>>, n: Seq<char>)
    requires
        ns.contains(n),
    ensures
        matches_any(dedup_ignore_case(ns), n),
    decreases ns.len(),
{
    let d = dedup_ignore_case(ns.drop_last());
    let k = choose|k: int| 0 <= k < ns.len() && ns[k] == n;
    if k < ns.len() - 1 {
        assert(ns.drop_last()[k] == n);
        lemma_dedup_covers(ns.drop_last(), n);
        let j = choose|j: int| 0 <= j < d.len() && eq_ignore_case(#[trigger] d[j], n);
        if !matches_any(d, ns.last()) {
            assert(dedup_ignore_case(ns)[j] == d[j]);
        }
    } else {
        lemma_eq_ignore_case_equivalence(n, n, n);
        if matches_any(d, n) {
        } else {
            assert(dedup_ignore_case(ns)[d.len() as int] == n);
        }
    }
}

/// Law: every folder name of every platform that is not kept is searched
/// for in the third-party trees (ASCII case ignored).
pub proof fn lemma_folder_names_cover_removed(keep: Seq<Seq<char>>, i: int, n: Seq<char>)
    requires
        0 <= i < platform_table().len(),
        !matches_any(keep, platform_table()[i].name),
        platform_table()[i].folder_names.contains(n),
    ensures
        matches_any(dedup_ignore_case(all_folder_names(removed_platforms(keep))), n),
{
    let ps = removed_platforms(keep);
    let p = platform_table()[i];
    assert(platform_table().contains(p));
    lemma_removed_platforms(keep, p);
    let k = choose|k: int| 0 <= k < ps.len() && ps[k] == p;
    lemma_all_folder_names_has(ps, k, n);
    lemma_dedup_covers(all_folder_names(ps), n);
}

proof fn lemma_all_folder_names_has(ps: Seq<PlatformSpec>, k: int, n: Seq<char>)
    requires
        0 <= k < ps.len(),
        ps[k].folder_names.contains(n),
    ensures
        all_folder_names(ps).contains(n),
    decreases ps.len(),
{
    let a = all_folder_names(ps.drop_last());
    let b = ps.last().folder_names;
    if k < ps.len() - 1 {
        assert(ps.drop_last()[k] == ps[k]);
        lemma_all_folder_names_has(ps.drop_last(), k, n);
        let m = choose|m: int| 0 <= m < a.len() && a[m] == n;
        assert((a + b)[m] == n);
    } else {
        let m = choose|m: int| 0 <= m < b.len() && b[m] == n;
        assert((a + b)[a.len() + m] == n);
    }
}

/// Law: the folder names searched for in third-party trees are pairwise
/// different (ASCII case ignored), and none of them names a folder of a kept
/// platform.
pub proof fn lemma_folder_names_to_remove(keep: Seq<Seq<char>>)
    ensures
        ({
            let d = dedup_ignore_case(all_folder_names(removed_platforms(keep)));
            &&& forall|k: int, l: int| 0 <= k < l < d.len() ==> !eq_ignore_case(#[trigger] d[k], #[trigger] d[l])
            &&& forall|k: int, j: int, b: Seq<char>|
                #![trigger d[k], platform_table()[j].folder_names.contains(b)]
                0 <= k < d.len() && 0 <= j < platform_table().len()
                    && matches_any(keep, platform_table()[j].name)
                    && platform_table()[j].folder_names.contains(b)
                    ==> !eq_ignore_case(d[k], b)
        }),
{
    let ps = removed_platforms(keep);
    let d = dedup_ignore_case(all_folder_names(ps));
    lemma_dedup_members(all_folder_names(ps));
    assert forall|k: int, j: int, b: Seq<char>|
                #![trigger d[k], platform_table()[j].folder_names.contains(b)]
        0 <= k < d.len() && 0 <= j < platform_table().len()
            && matches_any(keep, platform_table()[j].name)
            && platform_table()[j].folder_names.contains(b)
            implies !eq_ignore_case(d[k], b) by {
        let n = d[k];
        assert(all_folder_names(ps).contains(n));
        lemma_all_folder_names_member(ps, n);
        let m = choose|m: int| 0 <= m < ps.len() && (#[trigger] ps[m]).folder_names.contains(n);
        assert(ps.contains(ps[m]));
        lemma_removed_platforms(keep, ps[m]);
        let i = choose|i: int| 0 <= i < platform_table().len() && platform_table()[i] == ps[m];
        assert(i != j);
        lemma_folder_names_disjoint(i, j, n, b);
    }
}

} // verus!
