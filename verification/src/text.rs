//! Text helpers: ASCII case folding, Unicode white space, trimming and
//! comma-separated lists.
use vstd::prelude::*;

verus! {

/// The code of `c` after ASCII lower-casing: letters `A`..=`Z` map to `a`..=`z`,
/// every other character keeps its code.
pub open spec fn fold(c: char) -> u32 {
    if 'A' <= c && c <= 'Z' {
        (c as u32 + 32) as u32
    } else {
        c as u32
    }
}

/// `a` and `b` are equal when ASCII letters are compared without regard to case.
pub open spec fn eq_ignore_case(a: Seq<char>, b: Seq<char>) -> bool {
    &&& a.len() == b.len()
    &&& forall|i: int| 0 <= i < a.len() ==> #[trigger] fold(a[i]) == fold(b[i])
}

/// Comparing without regard to ASCII case is symmetric and transitive.
pub proof fn lemma_eq_ignore_case_equivalence(a: Seq<char>, b: Seq<char>, c: Seq<char>)
    ensures
        eq_ignore_case(a, a),
        eq_ignore_case(a, b) ==> eq_ignore_case(b, a),
        eq_ignore_case(a, b) && eq_ignore_case(b, c) ==> eq_ignore_case(a, c),
{
    if eq_ignore_case(a, b) {
        assert forall|i: int| 0 <= i < b.len() implies #[trigger] fold(b[i]) == fold(a[i]) by {
            assert(fold(a[i]) == fold(b[i]));
        }
        if eq_ignore_case(b, c) {
            assert forall|i: int| 0 <= i < a.len() implies #[trigger] fold(a[i]) == fold(c[i]) by {
                assert(fold(a[i]) == fold(b[i]));
                assert(fold(b[i]) == fold(c[i]));
            }
        }
    }
}

/// Executable `fold`.
pub fn fold_char(c: char) -> (r: u32)
    ensures
        r == fold(c),
{
    let code = c as u32;
    if 'A' <= c && c <= 'Z' {
        code + 32
    } else {
        code
    }
}

/// Compares two strings, ignoring the case of ASCII letters.
pub fn eq_ignore_ascii_case(a: &str, b: &str) -> (r: bool)
    ensures
        r == eq_ignore_case(a@, b@),
{
    let n = a.unicode_len();
    if n != b.unicode_len() {
        return false;
    }
    let mut i: usize = 0;
    while i < n
        invariant
            n == a@.len(),
            n == b@.len(),
            i <= n,
            forall|j: int| 0 <= j < i ==> #[trigger] fold(a@[j]) == fold(b@[j]),
        decreases n - i,
    {
        if fold_char(a.get_char(i)) != fold_char(b.get_char(i)) {
            return false;
        }
        i = i + 1;
    }
    true
}

/// `s` ends with `suffix`, character for character.
pub open spec fn ends_with(s: Seq<char>, suffix: Seq<char>) -> bool {
    &&& suffix.len() <= s.len()
    &&& s.subrange(s.len() - suffix.len(), s.len() as int) == suffix
}

/// Executable `ends_with`.
pub fn str_ends_with(s: &str, suffix: &str) -> (r: bool)
    ensures
        r == ends_with(s@, suffix@),
{
    let n = s.unicode_len();
    let m = suffix.unicode_len();
    if m > n {
        return false;
    }
    let off = n - m;
    let mut i: usize = 0;
    while i < m
        invariant
            n == s@.len(),
            m == suffix@.len(),
            off == n - m,
            i <= m,
            forall|j: int| 0 <= j < i ==> s@[off + j] == suffix@[j],
        decreases m - i,
    {
        if s.get_char(off + i) != suffix.get_char(i) {
            assert(s@.subrange(off as int, n as int)[i as int] != suffix@[i as int]);
            return false;
        }
        i = i + 1;
    }
    assert(s@.subrange(off as int, n as int) =~= suffix@);
    true
}

/// The text views of a list of strings.
pub open spec fn views(v: Seq<String>) -> Seq<Seq<char>> {
    v.map_values(|x: String| x@)
}

/// The text views of a list of string slices.
pub open spec fn str_views(v: Seq<&'static str>) -> Seq<Seq<char>> {
    v.map_values(|x: &'static str| x@)
}

/// Some text of `names` equals `n` when ASCII case is ignored.
pub open spec fn matches_any(names: Seq<Seq<char>>, n: Seq<char>) -> bool {
    exists|j: int| 0 <= j < names.len() && eq_ignore_case(#[trigger] names[j], n)
}

/// Executable `matches_any` on strings.
pub fn any_eq_ignore_ascii_case(names: &Vec<String>, n: &str) -> (r: bool)
    ensures
        r == matches_any(views(names@), n@),
{
    let mut j: usize = 0;
    while j < names.len()
        invariant
            j <= names.len(),
            forall|k: int| 0 <= k < j ==> !eq_ignore_case(#[trigger] views(names@)[k], n@),
        decreases names.len() - j,
    {
        if eq_ignore_ascii_case(names[j].as_str(), n) {
            assert(eq_ignore_case(views(names@)[j as int], n@));
            return true;
        }
        j = j + 1;
    }
    false
}

/// Executable `matches_any` on string slices.
pub fn any_str_eq_ignore_ascii_case(names: &Vec<&'static str>, n: &str) -> (r: bool)
    ensures
        r == matches_any(str_views(names@), n@),
{
    let mut j: usize = 0;
    while j < names.len()
        invariant
            j <= names.len(),
            forall|k: int| 0 <= k < j ==> !eq_ignore_case(#[trigger] str_views(names@)[k], n@),
        decreases names.len() - j,
    {
        if eq_ignore_ascii_case(names[j], n) {
            assert(eq_ignore_case(str_views(names@)[j as int], n@));
            return true;
        }
        j = j + 1;
    }
    false
}

/// Whether two strings hold the same characters.
pub fn str_eq(a: &str, b: &str) -> (r: bool)
    ensures
        r == (a@ == b@),
{
    let n = a.unicode_len();
    if n != b.unicode_len() {
        return false;
    }
    let mut i: usize = 0;
    while i < n
        invariant
            n == a@.len(),
            n == b@.len(),
            i <= n,
            forall|j: int| 0 <= j < i ==> a@[j] == b@[j],
        decreases n - i,
    {
        if a.get_char(i) != b.get_char(i) {
            return false;
        }
        i = i + 1;
    }
    assert(a@ =~= b@);
    true
}

/// `c` has the Unicode property White_Space, as `char::is_whitespace` tests.
pub open spec fn is_white_space(c: char) -> bool {
    let u = c as u32;
    ||| 0x09 <= u && u <= 0x0d
    ||| u == 0x20
    ||| u == 0x85
    ||| u == 0xa0
    ||| u == 0x1680
    ||| 0x2000 <= u && u <= 0x200a
    ||| u == 0x2028
    ||| u == 0x2029
    ||| u == 0x202f
    ||| u == 0x205f
    ||| u == 0x3000
}

/// Executable `is_white_space`.
pub fn white_space(c: char) -> (r: bool)
    ensures
        r == is_white_space(c),
{
    let u = c as u32;
    (0x09 <= u && u <= 0x0d) || u == 0x20 || u == 0x85 || u == 0xa0 || u == 0x1680 || (0x2000 <= u
        && u <= 0x200a) || u == 0x2028 || u == 0x2029 || u == 0x202f || u == 0x205f || u == 0x3000
}

/// The first index at or after `i` whose character is not white space (or the length).
pub open spec fn skip_space_forward(s: Seq<char>, i: int) -> int
    decreases s.len() - i,
{
    if 0 <= i < s.len() && is_white_space(s[i]) {
        skip_space_forward(s, i + 1)
    } else {
        i
    }
}

/// The end of `s.subrange(lo, j)` once white space is dropped from its end.
pub open spec fn skip_space_backward(s: Seq<char>, j: int, lo: int) -> int
    decreases j - lo,
{
    if lo < j && j <= s.len() && is_white_space(s[j - 1]) {
        skip_space_backward(s, j - 1, lo)
    } else {
        j
    }
}

/// `s` without white space at its start and at its end.
pub open spec fn trim(s: Seq<char>) -> Seq<char> {
    let a = skip_space_forward(s, 0);
    s.subrange(a, skip_space_backward(s, s.len() as int, a))
}

proof fn lemma_skip_forward_bounds(s: Seq<char>, i: int)
    requires
        0 <= i <= s.len(),
    ensures
        i <= skip_space_forward(s, i) <= s.len(),
    decreases s.len() - i,
{
    if i < s.len() && is_white_space(s[i]) {
        lemma_skip_forward_bounds(s, i + 1);
    }
}

proof fn lemma_skip_backward_bounds(s: Seq<char>, j: int, lo: int)
    requires
        0 <= lo <= j <= s.len(),
    ensures
        lo <= skip_space_backward(s, j, lo) <= j,
    decreases j - lo,
{
    if lo < j && is_white_space(s[j - 1]) {
        lemma_skip_backward_bounds(s, j - 1, lo);
    }
}

/// `s` without white space at either end (Unicode White_Space, as `str::trim`).
pub fn trim_str(s: &str) -> (r: &str)
    ensures
        r@ == trim(s@),
{
    let n = s.unicode_len();
    let mut a: usize = 0;
    while a < n && white_space(s.get_char(a))
        invariant
            n == s@.len(),
            a <= n,
            skip_space_forward(s@, a as int) == skip_space_forward(s@, 0),
        decreases n - a,
    {
        a = a + 1;
    }
    let mut b: usize = n;
    while b > a && white_space(s.get_char(b - 1))
        invariant
            n == s@.len(),
            a <= b <= n,
            a == skip_space_forward(s@, 0),
            skip_space_backward(s@, b as int, a as int) == skip_space_backward(s@, n as int, a as int),
        decreases b - a,
    {
        b = b - 1;
    }
    s.substring_char(a, b)
}

/// The pieces of `s` between commas, in order: one more piece than there are commas.
pub open spec fn split_commas(s: Seq<char>) -> Seq<Seq<char>>
    decreases s.len(),
{
    if s.len() == 0 {
        seq![Seq::empty()]
    } else {
        let init = split_commas(s.drop_last());
        if s.last() == ',' {
            init.push(Seq::empty())
        } else {
            init.update(init.len() - 1, init.last().push(s.last()))
        }
    }
}

/// The pieces, trimmed, with the empty ones left out.
pub open spec fn trimmed_nonempty(pieces: Seq<Seq<char>>) -> Seq<Seq<char>>
    decreases pieces.len(),
{
    if pieces.len() == 0 {
        Seq::empty()
    } else if trim(pieces.last()).len() == 0 {
        trimmed_nonempty(pieces.drop_last())
    } else {
        trimmed_nonempty(pieces.drop_last()).push(trim(pieces.last()))
    }
}

/// A comma-separated list: its pieces, trimmed, empty ones left out.
pub open spec fn comma_list(s: Seq<char>) -> Seq<Seq<char>> {
    trimmed_nonempty(split_commas(s))
}

proof fn lemma_split_commas_len(s: Seq<char>)
    ensures
        split_commas(s).len() >= 1,
    decreases s.len(),
{
    if s.len() > 0 {
        lemma_split_commas_len(s.drop_last());
    }
}


proof fn lemma_skip_forward_stops(s: Seq<char>, i: int)
    requires
        0 <= i <= s.len(),
    ensures
        skip_space_forward(s, i) < s.len() ==> !is_white_space(s[skip_space_forward(s, i)]),
    decreases s.len() - i,
{
    if i < s.len() && is_white_space(s[i]) {
        lemma_skip_forward_stops(s, i + 1);
    }
}

proof fn lemma_skip_backward_stops(s: Seq<char>, j: int, lo: int)
    requires
        0 <= lo <= j <= s.len(),
    ensures
        skip_space_backward(s, j, lo) > lo ==> !is_white_space(s[skip_space_backward(s, j, lo) - 1]),
    decreases j - lo,
{
    if lo < j && is_white_space(s[j - 1]) {
        lemma_skip_backward_stops(s, j - 1, lo);
    }
}

/// A trimmed text that is not empty starts and ends with a character that is
/// not white space, and holds only characters of the untrimmed text.
pub proof fn lemma_trim_ends(s: Seq<char>)
    ensures
        trim(s).len() > 0 ==> !is_white_space(trim(s)[0]) && !is_white_space(trim(s).last()),
        forall|c: char| trim(s).contains(c) ==> s.contains(c),
{
    let a = skip_space_forward(s, 0);
    lemma_skip_forward_bounds(s, 0);
    lemma_skip_backward_bounds(s, s.len() as int, a);
    lemma_skip_forward_stops(s, 0);
    lemma_skip_backward_stops(s, s.len() as int, a);
    let b = skip_space_backward(s, s.len() as int, a);
    assert forall|c: char| trim(s).contains(c) implies s.contains(c) by {
        let k = choose|k: int| 0 <= k < trim(s).len() && trim(s)[k] == c;
        assert(s[a + k] == c);
    }
}

/// No piece between commas holds a comma.
pub proof fn lemma_split_commas_pieces(s: Seq<char>)
    ensures
        forall|i: int| 0 <= i < split_commas(s).len() ==> !(#[trigger] split_commas(s)[i]).contains(','),
    decreases s.len(),
{
    lemma_split_commas_len(s);
    if s.len() > 0 {
        lemma_split_commas_pieces(s.drop_last());
        lemma_split_commas_len(s.drop_last());
        let init = split_commas(s.drop_last());
        if s.last() != ',' {
            assert forall|i: int| 0 <= i < split_commas(s).len() implies !(#[trigger] split_commas(s)[i]).contains(',') by {
                if i == init.len() - 1 {
                    let p = init.last().push(s.last());
                    assert(!init[i].contains(','));
                    if p.contains(',') {
                        let k = choose|k: int| 0 <= k < p.len() && p[k] == ',';
                        if k < p.len() - 1 {
                            assert(init.last()[k] == ',');
                        }
                    }
                }
            }
        } else {
            assert forall|i: int| 0 <= i < split_commas(s).len() implies !(#[trigger] split_commas(s)[i]).contains(',') by {
                if i < init.len() {
                    assert(split_commas(s)[i] == init[i]);
                }
            }
        }
    }
}

proof fn lemma_trimmed_nonempty_items(pieces: Seq<Seq<char>>)
    requires
        forall|i: int| 0 <= i < pieces.len() ==> !(#[trigger] pieces[i]).contains(','),
    ensures
        forall|i: int| 0 <= i < trimmed_nonempty(pieces).len() ==> {
            let n = #[trigger] trimmed_nonempty(pieces)[i];
            &&& n.len() > 0
            &&& !is_white_space(n[0])
            &&& !is_white_space(n.last())
            &&& !n.contains(',')
        },
    decreases pieces.len(),
{
    if pieces.len() > 0 {
        let init = pieces.drop_last();
        assert forall|i: int| 0 <= i < init.len() implies !(#[trigger] init[i]).contains(',') by {
            assert(init[i] == pieces[i]);
        }
        lemma_trimmed_nonempty_items(init);
        lemma_trim_ends(pieces.last());
        assert(!pieces[pieces.len() - 1].contains(','));
        let t = trim(pieces.last());
        assert(t.contains(',') ==> pieces.last().contains(','));
        assert(!t.contains(','));
        let r = trimmed_nonempty(pieces);
        let ri = trimmed_nonempty(init);
        assert forall|i: int| 0 <= i < r.len() implies {
            let n = #[trigger] r[i];
            &&& n.len() > 0
            &&& !is_white_space(n[0])
            &&& !is_white_space(n.last())
            &&& !n.contains(',')
        } by {
            if i < ri.len() {
                assert(r[i] == ri[i]);
            } else {
                assert(r[i] == t);
            }
        }
    }
}

/// Law: every name in a comma-separated list is non-empty, starts and ends
/// with a character that is not white space, and holds no comma.
pub proof fn lemma_comma_list_items(s: Seq<char>)
    ensures
        forall|i: int| 0 <= i < comma_list(s).len() ==> {
            let n = #[trigger] comma_list(s)[i];
            &&& n.len() > 0
            &&& !is_white_space(n[0])
            &&& !is_white_space(n.last())
            &&& !n.contains(',')
        },
{
    lemma_split_commas_pieces(s);
    lemma_trimmed_nonempty_items(split_commas(s));
}


proof fn lemma_trimmed_nonempty_complete(pieces: Seq<Seq<char>>, k: int)
    requires
        0 <= k < pieces.len(),
        trim(pieces[k]).len() > 0,
    ensures
        trimmed_nonempty(pieces).contains(trim(pieces[k])),
    decreases pieces.len(),
{
    let init = trimmed_nonempty(pieces.drop_last());
    if k < pieces.len() - 1 {
        assert(pieces.drop_last()[k] == pieces[k]);
        lemma_trimmed_nonempty_complete(pieces.drop_last(), k);
        let m = choose|m: int| 0 <= m < init.len() && init[m] == trim(pieces[k]);
        assert(trimmed_nonempty(pieces)[m] == trim(pieces[k]));
    } else {
        assert(trimmed_nonempty(pieces)[init.len() as int] == trim(pieces[k]));
    }
}

/// Law: a comma-separated list misses nothing: every piece between commas
/// that is not blank is in the list, trimmed.
pub proof fn lemma_comma_list_complete(s: Seq<char>, k: int)
    requires
        0 <= k < split_commas(s).len(),
        trim(split_commas(s)[k]).len() > 0,
    ensures
        comma_list(s).contains(trim(split_commas(s)[k])),
{
    lemma_trimmed_nonempty_complete(split_commas(s), k);
}

} // verus!
