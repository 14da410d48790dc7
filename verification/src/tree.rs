//! A snapshot of a directory tree and the selections made on it.
use vstd::prelude::*;
use crate::text::{
    any_eq_ignore_ascii_case, matches_any, views, eq_ignore_case, ends_with, str_ends_with,
    eq_ignore_ascii_case,
};

verus! {

/// One entry of a directory listing, as a walk that follows links sees it.
pub struct FsEntry {
    /// A handle by which the caller finds the entry again.
    pub id: u64,
    /// The file name (lossily decoded where it is not valid Unicode).
    pub name: String,
    /// Whether the file name is valid Unicode.
    pub name_is_unicode: bool,
    /// Whether the entry is a directory.
    pub is_dir: bool,
    /// The length of a file, when its metadata could be read.
    pub len: Option<u64>,
    /// The entries of a directory that could be listed; empty for a file.
    pub children: Vec<FsEntry>,
}

/// Total size in bytes of the files below `e` (the entry itself included).
pub open spec fn entry_size(e: FsEntry) -> nat
    decreases e, 0nat,
{
    if e.is_dir {
        entries_size(e.children@)
    } else {
        match e.len {
            Some(l) => l as nat,
            None => 0,
        }
    }
}

/// Total size of a list of entries.
pub open spec fn entries_size(s: Seq<FsEntry>) -> nat
    decreases s, 1nat,
{
    if s.len() == 0 {
        0
    } else {
        entries_size(s.drop_last()) + entry_size(s.last())
    }
}


/// Size of the files below one entry, `None` when it does not fit in a `u64`.
fn checked_entry_size(e: &FsEntry) -> (r: Option<u64>)
    ensures
        match r {
            Some(v) => v == entry_size(*e),
            None => entry_size(*e) > u64::MAX,
        },
    decreases *e, 0nat,
{
    if e.is_dir {
        checked_entries_size(&e.children)
    } else {
        match e.len {
            Some(l) => Some(l),
            None => Some(0),
        }
    }
}

/// Size of the files below a list of entries, `None` when it does not fit in a `u64`.
fn checked_entries_size(v: &Vec<FsEntry>) -> (r: Option<u64>)
    ensures
        match r {
            Some(t) => t == entries_size(v@),
            None => entries_size(v@) > u64::MAX,
        },
    decreases *v, 1nat,
{
    let mut total: u64 = 0;
    let mut i: usize = 0;
    while i < v.len()
        invariant
            i <= v.len(),
            total == entries_size(v@.take(i as int)),
        decreases v.len() - i,
    {
        assert(v@.take(i as int + 1).drop_last() =~= v@.take(i as int));
        proof { assert(decreases_to!(*v => v@[i as int])); }
        match checked_entry_size(&v[i]) {
            Some(s) => {
                if s > u64::MAX - total {
                    proof { lemma_entries_size_prefix(v@, i as int + 1); }
                    return None;
                }
                total = total + s;
            }
            None => {
                proof { lemma_entries_size_prefix(v@, i as int + 1); }
                return None;
            }
        }
        i = i + 1;
    }
    assert(v@.take(v.len() as int) =~= v@);
    Some(total)
}

/// The size of a prefix never exceeds that of the whole list.
proof fn lemma_entries_size_prefix(s: Seq<FsEntry>, k: int)
    requires
        0 <= k <= s.len(),
    ensures
        entries_size(s.take(k)) <= entries_size(s),
    decreases s.len(),
{
    if k < s.len() {
        assert(s.drop_last().take(k) =~= s.take(k));
        lemma_entries_size_prefix(s.drop_last(), k);
    } else {
        assert(s.take(k) =~= s);
    }
}


/// The directories that a search for the folder names `names` collects
/// among entries `s` listed at depth `depth`, searching no deeper than `max_depth`:
/// a directory whose name matches is collected and not entered, one that does
/// not match is searched one level deeper, and names that are not valid Unicode
/// are passed over.
pub open spec fn platform_dirs_in(s: Seq<FsEntry>, names: Seq<Seq<char>>, depth: nat, max_depth: nat) -> Seq<u64>
    decreases s, 1nat,
{
    if depth > max_depth || s.len() == 0 {
        Seq::empty()
    } else {
        platform_dirs_in(s.drop_last(), names, depth, max_depth)
            + platform_dirs_at(s.last(), names, depth, max_depth)
    }
}

/// What the search collects from one entry listed at depth `depth`.
pub open spec fn platform_dirs_at(e: FsEntry, names: Seq<Seq<char>>, depth: nat, max_depth: nat) -> Seq<u64>
    decreases e, 0nat,
{
    if !e.is_dir || !e.name_is_unicode {
        Seq::empty()
    } else if matches_any(names, e.name@) {
        seq![e.id]
    } else {
        platform_dirs_in(e.children@, names, depth + 1, max_depth)
    }
}

/// Appends to `result` the directories collected among `v`, listed at depth `depth`.
fn find_platform_dirs_inner(
    v: &Vec<FsEntry>,
    names: &Vec<String>,
    max_depth: u32,
    depth: u32,
    result: &mut Vec<u64>,
)
    requires
        depth <= max_depth,
    ensures
        final(result)@ == old(result)@ + platform_dirs_in(v@, views(names@), depth as nat, max_depth as nat),
    decreases *v, 1nat,
{
    let ghost start = old(result)@;
    let mut i: usize = 0;
    while i < v.len()
        invariant
            i <= v.len(),
            depth <= max_depth,
            result@ == start + platform_dirs_in(v@.take(i as int), views(names@), depth as nat, max_depth as nat),
        decreases v.len() - i,
    {
        assert(v@.take(i as int + 1).drop_last() =~= v@.take(i as int));
        let e = &v[i];
        proof { assert(decreases_to!(*v => v@[i as int])); }
        let ghost before = result@;
        let ghost at = platform_dirs_at(v@[i as int], views(names@), depth as nat, max_depth as nat);
        assert(platform_dirs_in(v@.take(i as int + 1), views(names@), depth as nat, max_depth as nat)
            == platform_dirs_in(v@.take(i as int), views(names@), depth as nat, max_depth as nat) + at);
        if e.is_dir && e.name_is_unicode {
            if any_eq_ignore_ascii_case(names, e.name.as_str()) {
                result.push(e.id);
                assert(result@ =~= before + at);
            } else if depth < max_depth {
                find_platform_dirs_at(e, names, max_depth, depth + 1, result);
            } else {
                assert(at =~= Seq::<u64>::empty());
                assert(result@ =~= before + at);
            }
        } else {
            assert(result@ =~= before + at);
        }
        assert(result@ =~= start + platform_dirs_in(v@.take(i as int + 1), views(names@), depth as nat, max_depth as nat));
        i = i + 1;
    }
    assert(v@.take(v.len() as int) =~= v@);
}

/// Appends to `result` the directories collected among the entries of `e`, listed at depth `depth`.
fn find_platform_dirs_at(
    e: &FsEntry,
    names: &Vec<String>,
    max_depth: u32,
    depth: u32,
    result: &mut Vec<u64>,
)
    requires
        depth <= max_depth,
    ensures
        final(result)@ == old(result)@ + platform_dirs_in(e.children@, views(names@), depth as nat, max_depth as nat),
    decreases *e, 0nat,
{
    find_platform_dirs_inner(&e.children, names, max_depth, depth, result);
}

/// Searches the directory `root` for sub-directories named like one of `names`
/// (ASCII case ignored), down to `max_depth` levels below it, without entering
/// a directory once it has been collected. Returns their handles in walk order.
pub fn find_platform_dirs(root: &FsEntry, names: &Vec<String>, max_depth: u32) -> (r: Vec<u64>)
    ensures
        r@ == platform_dirs_in(root.children@, views(names@), 0, max_depth as nat),
{
    let mut result: Vec<u64> = Vec::new();
    find_platform_dirs_inner(&root.children, names, max_depth, 0, &mut result);
    assert(result@ =~= platform_dirs_in(root.children@, views(names@), 0, max_depth as nat));
    result
}


/// Total size in bytes of the files below the directory `root`, or `None`
/// when the total does not fit in a `u64`.
pub fn checked_dir_size(root: &FsEntry) -> (r: Option<u64>)
    ensures
        match r {
            Some(v) => v == entries_size(root.children@),
            None => entries_size(root.children@) > u64::MAX,
        },
{
    checked_entries_size(&root.children)
}

/// Total size in bytes of the files below the directory `root`: directories
/// are entered, and a file whose length could not be read counts as empty.
pub fn dir_size(root: &FsEntry) -> (r: u64)
    requires
        entries_size(root.children@) <= u64::MAX,
    ensures
        r == entries_size(root.children@),
{
    match checked_entries_size(&root.children) {
        Some(v) => v,
        None => 0,
    }
}

/// The name has the extension `pdb`, in any case: it ends in `.pdb` after at
/// least one other character.
pub open spec fn has_pdb_extension(n: Seq<char>) -> bool {
    &&& n.len() >= 5
    &&& eq_ignore_case(n.subrange(n.len() - 4, n.len() as int), ".pdb"@)
}

/// Executable `has_pdb_extension`.
pub fn is_pdb_name(n: &str) -> (r: bool)
    ensures
        r == has_pdb_extension(n@),
{
    let len = n.unicode_len();
    if len < 5 {
        return false;
    }
    let ext = n.substring_char(len - 4, len);
    eq_ignore_ascii_case(ext, ".pdb")
}

/// The files with the extension `pdb` among entries `s` and below them, in walk order.
pub open spec fn pdb_files_in(s: Seq<FsEntry>) -> Seq<u64>
    decreases s, 1nat,
{
    if s.len() == 0 {
        Seq::empty()
    } else {
        pdb_files_in(s.drop_last()) + pdb_files_at(s.last())
    }
}

/// The files with the extension `pdb` at or below one entry.
pub open spec fn pdb_files_at(e: FsEntry) -> Seq<u64>
    decreases e, 0nat,
{
    if e.is_dir {
        pdb_files_in(e.children@)
    } else if has_pdb_extension(e.name@) {
        seq![e.id]
    } else {
        Seq::empty()
    }
}

fn pdb_files_inner(v: &Vec<FsEntry>, result: &mut Vec<u64>)
    ensures
        final(result)@ == old(result)@ + pdb_files_in(v@),
    decreases *v, 1nat,
{
    let ghost start = old(result)@;
    let mut i: usize = 0;
    while i < v.len()
        invariant
            i <= v.len(),
            result@ == start + pdb_files_in(v@.take(i as int)),
        decreases v.len() - i,
    {
        assert(v@.take(i as int + 1).drop_last() =~= v@.take(i as int));
        let e = &v[i];
        proof { assert(decreases_to!(*v => v@[i as int])); }
        let ghost before = result@;
        let ghost at = pdb_files_at(v@[i as int]);
        if e.is_dir {
            pdb_files_at_entry(e, result);
        } else if is_pdb_name(e.name.as_str()) {
            result.push(e.id);
        }
        assert(result@ =~= before + at);
        assert(result@ =~= start + pdb_files_in(v@.take(i as int + 1)));
        i = i + 1;
    }
    assert(v@.take(v.len() as int) =~= v@);
}

fn pdb_files_at_entry(e: &FsEntry, result: &mut Vec<u64>)
    ensures
        final(result)@ == old(result)@ + pdb_files_in(e.children@),
    decreases *e, 0nat,
{
    pdb_files_inner(&e.children, result);
}

/// The files with the extension `pdb` (any case) anywhere below the directory
/// `root`, in walk order.
pub fn pdb_files_to_remove(root: &FsEntry) -> (r: Vec<u64>)
    ensures
        r@ == pdb_files_in(root.children@),
{
    let mut result: Vec<u64> = Vec::new();
    pdb_files_inner(&root.children, &mut result);
    assert(result@ =~= pdb_files_in(root.children@));
    result
}

/// An entry directly in a directory that holds test binaries: a directory
/// whose (valid Unicode) name ends in `Tests`.
pub open spec fn is_test_dir(e: FsEntry) -> bool {
    e.is_dir && e.name_is_unicode && ends_with(e.name@, "Tests"@)
}

/// The handles of the entries of `s` that are test directories, in order.
pub open spec fn test_dirs_in(s: Seq<FsEntry>) -> Seq<u64>
    decreases s.len(),
{
    if s.len() == 0 {
        Seq::empty()
    } else if is_test_dir(s.last()) {
        test_dirs_in(s.drop_last()).push(s.last().id)
    } else {
        test_dirs_in(s.drop_last())
    }
}

/// The directories directly in `root` whose names end in `Tests`, in listing order.
pub fn test_dirs_to_remove(root: &FsEntry) -> (r: Vec<u64>)
    ensures
        r@ == test_dirs_in(root.children@),
{
    let v = &root.children;
    let mut result: Vec<u64> = Vec::new();
    let mut i: usize = 0;
    while i < v.len()
        invariant
            i <= v.len(),
            v == root.children,
            result@ == test_dirs_in(v@.take(i as int)),
        decreases v.len() - i,
    {
        assert(v@.take(i as int + 1).drop_last() =~= v@.take(i as int));
        let e = &v[i];
        if e.is_dir && e.name_is_unicode && str_ends_with(e.name.as_str(), "Tests") {
            result.push(e.id);
        }
        i = i + 1;
    }
    assert(v@.take(v.len() as int) =~= v@);
    result
}


/// Law: the size of a listing is the sum of the sizes of its parts.
pub proof fn lemma_entries_size_concat(a: Seq<FsEntry>, b: Seq<FsEntry>)
    ensures
        entries_size(a + b) == entries_size(a) + entries_size(b),
    decreases b.len(),
{
    if b.len() == 0 {
        assert(a + b =~= a);
    } else {
        assert((a + b).drop_last() =~= a + b.drop_last());
        assert((a + b).last() == b.last());
        lemma_entries_size_concat(a, b.drop_last());
    }
}

/// `e` is one of the entries `s`, or lies below one of them.
pub open spec fn in_forest(s: Seq<FsEntry>, e: FsEntry) -> bool
    decreases s, 1nat,
{
    if s.len() == 0 {
        false
    } else {
        in_forest(s.drop_last(), e) || in_entry(s.last(), e)
    }
}

/// `e` is `x`, or lies below it.
pub open spec fn in_entry(x: FsEntry, e: FsEntry) -> bool
    decreases x, 0nat,
{
    x == e || in_forest(x.children@, e)
}

proof fn lemma_platform_dirs_found(s: Seq<FsEntry>, names: Seq<Seq<char>>, depth: nat, max_depth: nat, id: u64)
    requires
        platform_dirs_in(s, names, depth, max_depth).contains(id),
    ensures
        exists|e: FsEntry| #[trigger] in_forest(s, e) && e.id == id && e.is_dir && e.name_is_unicode
            && matches_any(names, e.name@),
    decreases s, 1nat,
{
    let a = platform_dirs_in(s.drop_last(), names, depth, max_depth);
    let b = platform_dirs_at(s.last(), names, depth, max_depth);
    assert(platform_dirs_in(s, names, depth, max_depth) == a + b);
    let m = choose|m: int| 0 <= m < (a + b).len() && (a + b)[m] == id;
    if m < a.len() {
        assert(a[m] == id);
        lemma_platform_dirs_found(s.drop_last(), names, depth, max_depth, id);
        let e = choose|e: FsEntry| #[trigger] in_forest(s.drop_last(), e) && e.id == id && e.is_dir
            && e.name_is_unicode && matches_any(names, e.name@);
        assert(in_forest(s, e));
    } else {
        assert(b[m - a.len()] == id);
        lemma_platform_dirs_found_at(s.last(), names, depth, max_depth, id);
        let e = choose|e: FsEntry| #[trigger] in_entry(s.last(), e) && e.id == id && e.is_dir
            && e.name_is_unicode && matches_any(names, e.name@);
        assert(in_forest(s, e));
    }
}

proof fn lemma_platform_dirs_found_at(x: FsEntry, names: Seq<Seq<char>>, depth: nat, max_depth: nat, id: u64)
    requires
        platform_dirs_at(x, names, depth, max_depth).contains(id),
    ensures
        exists|e: FsEntry| #[trigger] in_entry(x, e) && e.id == id && e.is_dir && e.name_is_unicode
            && matches_any(names, e.name@),
    decreases x, 0nat,
{
    if x.is_dir && x.name_is_unicode && matches_any(names, x.name@) {
        assert(in_entry(x, x));
    } else {
        lemma_platform_dirs_found(x.children@, names, depth + 1, max_depth, id);
        let e = choose|e: FsEntry| #[trigger] in_forest(x.children@, e) && e.id == id && e.is_dir
            && e.name_is_unicode && matches_any(names, e.name@);
        assert(in_entry(x, e));
    }
}

/// Law: each handle the search returns is that of a directory in the tree
/// whose valid Unicode name matches one of the folder names.
pub proof fn lemma_find_platform_dirs_matches(root: FsEntry, names: Seq<Seq<char>>, max_depth: nat, id: u64)
    requires
        platform_dirs_in(root.children@, names, 0, max_depth).contains(id),
    ensures
        exists|e: FsEntry| #[trigger] in_forest(root.children@, e) && e.id == id && e.is_dir
            && e.name_is_unicode && matches_any(names, e.name@),
{
    lemma_platform_dirs_found(root.children@, names, 0, max_depth, id);
}


proof fn lemma_pdb_found(s: Seq<FsEntry>, id: u64)
    requires
        pdb_files_in(s).contains(id),
    ensures
        exists|e: FsEntry| #[trigger] in_forest(s, e) && e.id == id && !e.is_dir && has_pdb_extension(e.name@),
    decreases s, 1nat,
{
    let a = pdb_files_in(s.drop_last());
    let b = pdb_files_at(s.last());
    let m = choose|m: int| 0 <= m < (a + b).len() && (a + b)[m] == id;
    if m < a.len() {
        assert(a[m] == id);
        lemma_pdb_found(s.drop_last(), id);
        let e = choose|e: FsEntry| #[trigger] in_forest(s.drop_last(), e) && e.id == id && !e.is_dir
            && has_pdb_extension(e.name@);
        assert(in_forest(s, e));
    } else {
        assert(b[m - a.len()] == id);
        lemma_pdb_found_at(s.last(), id);
        let e = choose|e: FsEntry| #[trigger] in_entry(s.last(), e) && e.id == id && !e.is_dir
            && has_pdb_extension(e.name@);
        assert(in_forest(s, e));
    }
}

proof fn lemma_pdb_found_at(x: FsEntry, id: u64)
    requires
        pdb_files_at(x).contains(id),
    ensures
        exists|e: FsEntry| #[trigger] in_entry(x, e) && e.id == id && !e.is_dir && has_pdb_extension(e.name@),
    decreases x, 0nat,
{
    if x.is_dir {
        lemma_pdb_found(x.children@, id);
        let e = choose|e: FsEntry| #[trigger] in_forest(x.children@, e) && e.id == id && !e.is_dir
            && has_pdb_extension(e.name@);
        assert(in_entry(x, e));
    } else {
        assert(in_entry(x, x));
    }
}

/// Law: each handle selected for debug-symbol removal is that of a file (not
/// a directory) in the tree whose name has the extension `pdb`.
pub proof fn lemma_pdb_files_are_pdb(root: FsEntry, id: u64)
    requires
        pdb_files_in(root.children@).contains(id),
    ensures
        exists|e: FsEntry| #[trigger] in_forest(root.children@, e) && e.id == id && !e.is_dir
            && has_pdb_extension(e.name@),
{
    lemma_pdb_found(root.children@, id);
}

/// Law: each handle selected as a test directory is that of a directory
/// directly in the listing whose (valid Unicode) name ends in `Tests`.
pub proof fn lemma_test_dirs_are_tests(s: Seq<FsEntry>, id: u64)
    requires
        test_dirs_in(s).contains(id),
    ensures
        exists|k: int| 0 <= k < s.len() && (#[trigger] s[k]).id == id && is_test_dir(s[k]),
    decreases s.len(),
{
    let init = test_dirs_in(s.drop_last());
    if is_test_dir(s.last()) && test_dirs_in(s)[test_dirs_in(s).len() - 1] == id && !init.contains(id) {
        assert(s[s.len() - 1].id == id);
    } else {
        let m = choose|m: int| 0 <= m < test_dirs_in(s).len() && test_dirs_in(s)[m] == id;
        if is_test_dir(s.last()) && m == init.len() {
            assert(s[s.len() - 1].id == id);
        } else {
            assert(init[m] == id);
            lemma_test_dirs_are_tests(s.drop_last(), id);
            let k = choose|k: int| 0 <= k < s.drop_last().len() && (#[trigger] s.drop_last()[k]).id == id
                && is_test_dir(s.drop_last()[k]);
            assert(s[k] == s.drop_last()[k]);
        }
    }
}


/// `p` is a path of positions into the listing `s`: its first position picks an
/// entry of `s`, each further one an entry of the directory listing before it.
pub open spec fn valid_path(s: Seq<FsEntry>, p: Seq<int>) -> bool
    decreases p.len(),
{
    &&& p.len() >= 1
    &&& 0 <= p[0] < s.len()
    &&& (p.len() == 1 || valid_path(s[p[0]].children@, p.drop_first()))
}

/// The entry that the path `p` leads to.
pub open spec fn entry_at(s: Seq<FsEntry>, p: Seq<int>) -> FsEntry
    decreases p.len(),
{
    if p.len() <= 1 {
        s[p[0]]
    } else {
        entry_at(s[p[0]].children@, p.drop_first())
    }
}

/// Every entry that the path passes through before its end is a directory;
/// when `unmatched`, each also has a valid Unicode name that matches none of `names`.
pub open spec fn passes_through_dirs(s: Seq<FsEntry>, p: Seq<int>, names: Seq<Seq<char>>, unmatched: bool) -> bool
    decreases p.len(),
{
    p.len() <= 1 || {
        &&& s[p[0]].is_dir
        &&& (unmatched ==> s[p[0]].name_is_unicode && !matches_any(names, s[p[0]].name@))
        &&& passes_through_dirs(s[p[0]].children@, p.drop_first(), names, unmatched)
    }
}

proof fn lemma_platform_dirs_in_has(s: Seq<FsEntry>, names: Seq<Seq<char>>, depth: nat, max_depth: nat, k: int, id: u64)
    requires
        depth <= max_depth,
        0 <= k < s.len(),
        platform_dirs_at(s[k], names, depth, max_depth).contains(id),
    ensures
        platform_dirs_in(s, names, depth, max_depth).contains(id),
    decreases s.len(),
{
    let a = platform_dirs_in(s.drop_last(), names, depth, max_depth);
    let b = platform_dirs_at(s.last(), names, depth, max_depth);
    assert(platform_dirs_in(s, names, depth, max_depth) == a + b);
    if k < s.len() - 1 {
        assert(s.drop_last()[k] == s[k]);
        lemma_platform_dirs_in_has(s.drop_last(), names, depth, max_depth, k, id);
        let m = choose|m: int| 0 <= m < a.len() && a[m] == id;
        assert((a + b)[m] == id);
    } else {
        let m = choose|m: int| 0 <= m < b.len() && b[m] == id;
        assert((a + b)[a.len() + m] == id);
    }
}

proof fn lemma_platform_dirs_complete_from(
    s: Seq<FsEntry>,
    names: Seq<Seq<char>>,
    depth: nat,
    max_depth: nat,
    p: Seq<int>,
)
    requires
        valid_path(s, p),
        depth + p.len() - 1 <= max_depth,
        passes_through_dirs(s, p, names, true),
        entry_at(s, p).is_dir,
        entry_at(s, p).name_is_unicode,
        matches_any(names, entry_at(s, p).name@),
    ensures
        platform_dirs_in(s, names, depth, max_depth).contains(entry_at(s, p).id),
    decreases p.len(),
{
    let x = s[p[0]];
    let id = entry_at(s, p).id;
    if p.len() == 1 {
        assert(platform_dirs_at(x, names, depth, max_depth)[0] == id);
    } else {
        lemma_platform_dirs_complete_from(x.children@, names, depth + 1, max_depth, p.drop_first());
        assert(platform_dirs_at(x, names, depth, max_depth) == platform_dirs_in(x.children@, names, depth + 1, max_depth));
    }
    lemma_platform_dirs_in_has(s, names, depth, max_depth, p[0], id);
}

/// Law: the search misses nothing: every directory at most `max_depth` levels
/// below the root whose valid Unicode name matches one of `names`, reached
/// through directories whose valid Unicode names match none of them, is collected.
pub proof fn lemma_find_platform_dirs_complete(root: FsEntry, names: Seq<Seq<char>>, max_depth: nat, p: Seq<int>)
    requires
        valid_path(root.children@, p),
        p.len() <= max_depth + 1,
        passes_through_dirs(root.children@, p, names, true),
        entry_at(root.children@, p).is_dir,
        entry_at(root.children@, p).name_is_unicode,
        matches_any(names, entry_at(root.children@, p).name@),
    ensures
        platform_dirs_in(root.children@, names, 0, max_depth).contains(entry_at(root.children@, p).id),
{
    lemma_platform_dirs_complete_from(root.children@, names, 0, max_depth, p);
}

proof fn lemma_pdb_files_in_has(s: Seq<FsEntry>, k: int, id: u64)
    requires
        0 <= k < s.len(),
        pdb_files_at(s[k]).contains(id),
    ensures
        pdb_files_in(s).contains(id),
    decreases s.len(),
{
    let a = pdb_files_in(s.drop_last());
    let b = pdb_files_at(s.last());
    assert(pdb_files_in(s) == a + b);
    if k < s.len() - 1 {
        assert(s.drop_last()[k] == s[k]);
        lemma_pdb_files_in_has(s.drop_last(), k, id);
        let m = choose|m: int| 0 <= m < a.len() && a[m] == id;
        assert((a + b)[m] == id);
    } else {
        let m = choose|m: int| 0 <= m < b.len() && b[m] == id;
        assert((a + b)[a.len() + m] == id);
    }
}

proof fn lemma_pdb_complete_from(s: Seq<FsEntry>, p: Seq<int>)
    requires
        valid_path(s, p),
        passes_through_dirs(s, p, Seq::empty(), false),
        !entry_at(s, p).is_dir,
        has_pdb_extension(entry_at(s, p).name@),
    ensures
        pdb_files_in(s).contains(entry_at(s, p).id),
    decreases p.len(),
{
    let x = s[p[0]];
    let id = entry_at(s, p).id;
    if p.len() == 1 {
        assert(pdb_files_at(x)[0] == id);
    } else {
        lemma_pdb_complete_from(x.children@, p.drop_first());
    }
    lemma_pdb_files_in_has(s, p[0], id);
}

/// Law: debug-symbol selection misses nothing: every file anywhere below the
/// root whose name has the extension `pdb` is selected, whatever its length.
pub proof fn lemma_pdb_files_complete(root: FsEntry, p: Seq<int>)
    requires
        valid_path(root.children@, p),
        passes_through_dirs(root.children@, p, Seq::empty(), false),
        !entry_at(root.children@, p).is_dir,
        entry_at(root.children@, p).name@.len() >= 5,
        eq_ignore_case(
            entry_at(root.children@, p).name@.subrange(
                entry_at(root.children@, p).name@.len() - 4,
                entry_at(root.children@, p).name@.len() as int,
            ),
            ".pdb"@,
        ),
    ensures
        pdb_files_in(root.children@).contains(entry_at(root.children@, p).id),
{
    lemma_pdb_complete_from(root.children@, p);
}

/// Law: test-directory selection misses nothing: every directory directly in
/// the listing whose valid Unicode name ends in `Tests` is selected.
pub proof fn lemma_test_dirs_complete(s: Seq<FsEntry>, k: int)
    requires
        0 <= k < s.len(),
        s[k].is_dir,
        s[k].name_is_unicode,
        ends_with(s[k].name@, "Tests"@),
    ensures
        test_dirs_in(s).contains(s[k].id),
    decreases s.len(),
{
    let init = test_dirs_in(s.drop_last());
    if k < s.len() - 1 {
        assert(s.drop_last()[k] == s[k]);
        lemma_test_dirs_complete(s.drop_last(), k);
        let m = choose|m: int| 0 <= m < init.len() && init[m] == s[k].id;
        assert(test_dirs_in(s)[m] == s[k].id);
    } else {
        assert(test_dirs_in(s)[init.len() as int] == s[k].id);
    }
}

} // verus!
