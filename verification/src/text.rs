//! Character-level text operations on addresses: whitespace trimming,
//! searching, splitting and ASCII case-insensitive comparison.
use vstd::prelude::*;

verus! {

/// The Unicode `White_Space` property (PropList.txt), which `char::is_whitespace`
/// and `str::trim` go by.
pub open spec fn is_white_space(c: char) -> bool {
    let u = c as u32;
    ||| 0x09 <= u <= 0x0d
    ||| u == 0x20
    ||| u == 0x85
    ||| u == 0xa0
    ||| u == 0x1680
    ||| 0x2000 <= u <= 0x200a
    ||| u == 0x2028
    ||| u == 0x2029
    ||| u == 0x202f
    ||| u == 0x205f
    ||| u == 0x3000
}

pub fn is_whitespace(c: char) -> (r: bool)
    ensures
        r == is_white_space(c),
{
    let u = c as u32;
    (0x09 <= u && u <= 0x0d) || u == 0x20 || u == 0x85 || u == 0xa0 || u == 0x1680 || (0x2000
        <= u && u <= 0x200a) || u == 0x2028 || u == 0x2029 || u == 0x202f || u == 0x205f || u
        == 0x3000
}

pub open spec fn has_white_space(s: Seq<char>) -> bool {
    exists|i: int| 0 <= i < s.len() && is_white_space(#[trigger] s[i])
}

/// `s` without its leading whitespace.
pub open spec fn trim_start(s: Seq<char>) -> Seq<char>
    decreases s.len(),
{
    if s.len() > 0 && is_white_space(s[0]) {
        trim_start(s.drop_first())
    } else {
        s
    }
}

/// `s` without its trailing whitespace.
pub open spec fn trim_end(s: Seq<char>) -> Seq<char>
    decreases s.len(),
{
    if s.len() > 0 && is_white_space(s.last()) {
        trim_end(s.drop_last())
    } else {
        s
    }
}

/// `s` without leading and trailing whitespace, as `str::trim` gives it.
pub open spec fn trim(s: Seq<char>) -> Seq<char> {
    trim_end(trim_start(s))
}

/// Index of the first occurrence of `pat` in `s` at or after `start`.
pub open spec fn find_from(s: Seq<char>, pat: Seq<char>, start: int) -> Option<int>
    decreases s.len() + 1 - start,
{
    if start < 0 || start + pat.len() > s.len() {
        None
    } else if s.subrange(start, start + pat.len()) == pat {
        Some(start)
    } else {
        find_from(s, pat, start + 1)
    }
}

/// Index of the first occurrence of `pat` in `s`.
pub open spec fn find(s: Seq<char>, pat: Seq<char>) -> Option<int> {
    find_from(s, pat, 0)
}

/// Index of the last occurrence of `c` among the first `end` characters of `s`.
pub open spec fn rfind_before(s: Seq<char>, c: char, end: int) -> Option<int>
    decreases end,
{
    if end <= 0 || end > s.len() {
        None
    } else if s[end - 1] == c {
        Some(end - 1)
    } else {
        rfind_before(s, c, end - 1)
    }
}

/// Index of the last occurrence of `c` in `s`.
pub open spec fn rfind(s: Seq<char>, c: char) -> Option<int> {
    rfind_before(s, c, s.len() as int)
}

/// The pieces of `s` between occurrences of `sep`, as `str::split` gives them:
/// always at least one piece, empty pieces included.
pub open spec fn split(s: Seq<char>, sep: char) -> Seq<Seq<char>>
    decreases s.len(),
{
    if s.len() == 0 {
        seq![Seq::empty()]
    } else {
        let parts = split(s.drop_last(), sep);
        if s.last() == sep {
            parts.push(Seq::empty())
        } else {
            parts.update(parts.len() - 1, parts.last().push(s.last()))
        }
    }
}

/// `c` with an ASCII capital letter turned into its small letter.
pub open spec fn ascii_lower(c: char) -> u32 {
    let u = c as u32;
    if 0x41 <= u <= 0x5a {
        (u + 0x20) as u32
    } else {
        u
    }
}

/// ASCII case-insensitive equality, as `str::eq_ignore_ascii_case` decides it.
pub open spec fn eq_ignore_ascii_case(a: Seq<char>, b: Seq<char>) -> bool {
    &&& a.len() == b.len()
    &&& forall|i: int| 0 <= i < a.len() ==> ascii_lower(#[trigger] a[i]) == ascii_lower(b[i])
}

pub open spec fn starts_with(s: Seq<char>, prefix: Seq<char>) -> bool {
    prefix.len() <= s.len() && s.take(prefix.len() as int) == prefix
}

/// The views of a sequence of character vectors.
pub open spec fn views(v: Seq<Vec<char>>) -> Seq<Seq<char>> {
    Seq::new(v.len(), |i: int| v[i]@)
}

pub proof fn lemma_split_nonempty(s: Seq<char>, sep: char)
    ensures
        split(s, sep).len() >= 1,
    decreases s.len(),
{
    if s.len() > 0 {
        lemma_split_nonempty(s.drop_last(), sep);
    }
}

proof fn lemma_trim_start_shape(s: Seq<char>)
    ensures
        trim_start(s).len() == 0 || !is_white_space(trim_start(s)[0]),
    decreases s.len(),
{
    if s.len() > 0 && is_white_space(s[0]) {
        lemma_trim_start_shape(s.drop_first());
    }
}

proof fn lemma_trim_end_shape(s: Seq<char>)
    ensures
        trim_end(s) == s.take(trim_end(s).len() as int),
        trim_end(s).len() <= s.len(),
        trim_end(s).len() == 0 || !is_white_space(trim_end(s).last()),
    decreases s.len(),
{
    if s.len() > 0 && is_white_space(s.last()) {
        lemma_trim_end_shape(s.drop_last());
        assert(s.drop_last().take(trim_end(s).len() as int) =~= s.take(trim_end(s).len() as int));
    } else {
        assert(s.take(s.len() as int) =~= s);
    }
}

/// Text with no whitespace at either end is its own trim.
pub proof fn lemma_trim_clean(t: Seq<char>)
    requires
        t.len() == 0 || (!is_white_space(t[0]) && !is_white_space(t.last())),
    ensures
        trim(t) == t,
{
}

/// Trimmed text has no whitespace at either end.
pub proof fn lemma_trim_ends(s: Seq<char>)
    ensures
        trim(s).len() == 0 || (!is_white_space(trim(s)[0]) && !is_white_space(trim(s).last())),
{
    lemma_trim_start_shape(s);
    lemma_trim_end_shape(trim_start(s));
}

/// Trimming twice is trimming once.
pub proof fn lemma_trim_idempotent(s: Seq<char>)
    ensures
        trim(trim(s)) == trim(s),
{
    lemma_trim_ends(s);
    lemma_trim_clean(trim(s));
}

/// `pat` occurs in `s` at index `k`.
pub open spec fn occurs_at(s: Seq<char>, pat: Seq<char>, k: int) -> bool {
    s.subrange(k, k + pat.len()) == pat
}

/// Where `pat` does not occur at `start..target` but does at `target`, the
/// search from `start` finds `target`.
pub proof fn lemma_find_reaches(s: Seq<char>, pat: Seq<char>, start: int, target: int)
    requires
        0 <= start <= target,
        target + pat.len() <= s.len(),
        s.subrange(target, target + pat.len()) == pat,
        forall|k: int| start <= k < target ==> !occurs_at(s, pat, k),
    ensures
        find_from(s, pat, start) == Some(target),
    decreases target - start,
{
    if start < target {
        assert(!occurs_at(s, pat, start));
        lemma_find_reaches(s, pat, start + 1, target);
    }
}

/// Every character of `s` other than `sep` stands in one of its pieces.
pub proof fn lemma_split_covers(s: Seq<char>, sep: char, i: int)
    requires
        0 <= i < s.len(),
        s[i] != sep,
    ensures
        exists|j: int, k: int|
            0 <= j < split(s, sep).len() && 0 <= k < split(s, sep)[j].len() && #[trigger] split(
                s,
                sep,
            )[j][k] == s[i],
    decreases s.len(),
{
    let p = split(s.drop_last(), sep);
    lemma_split_nonempty(s.drop_last(), sep);
    let q = split(s, sep);
    if i == s.len() - 1 {
        let j = p.len() - 1;
        let k = p.last().len() as int;
        assert(q[j][k] == s[i]);
    } else {
        lemma_split_covers(s.drop_last(), sep, i);
        let (j, k) = choose|j: int, k: int|
            0 <= j < p.len() && 0 <= k < p[j].len() && #[trigger] p[j][k] == s.drop_last()[i];
        if s.last() == sep {
            assert(q[j] == p[j]);
        } else if j == p.len() - 1 {
            assert(q[j][k] == p[j][k]);
        } else {
            assert(q[j] == p[j]);
        }
        assert(q[j][k] == s[i]);
    }
}

/// Two or more pieces means `sep` occurs.
pub proof fn lemma_split_many_has_sep(s: Seq<char>, sep: char)
    requires
        split(s, sep).len() >= 2,
    ensures
        s.contains(sep),
    decreases s.len(),
{
    if s.len() > 0 {
        if s.last() == sep {
            assert(s[s.len() - 1] == sep);
        } else {
            lemma_split_nonempty(s.drop_last(), sep);
            lemma_split_many_has_sep(s.drop_last(), sep);
            let k = choose|k: int| 0 <= k < s.drop_last().len() && s.drop_last()[k] == sep;
            assert(s[k] == sep);
        }
    }
}

/// Where `c` does not occur, there is no last occurrence of it.
pub proof fn lemma_rfind_absent(s: Seq<char>, c: char, end: int)
    requires
        0 <= end <= s.len(),
        !s.contains(c),
    ensures
        rfind_before(s, c, end) is None,
    decreases end,
{
    if end > 0 {
        assert(s[end - 1] != c);
        lemma_rfind_absent(s, c, end - 1);
    }
}

proof fn lemma_trim_start_skip(s: Seq<char>, i: int)
    requires
        0 <= i <= s.len(),
        forall|k: int| 0 <= k < i ==> is_white_space(#[trigger] s[k]),
    ensures
        trim_start(s) == trim_start(s.skip(i)),
    decreases i,
{
    if i > 0 {
        assert(s.drop_first().skip(i - 1) =~= s.skip(i));
        lemma_trim_start_skip(s.drop_first(), i - 1);
    } else {
        assert(s.skip(0) =~= s);
    }
}

proof fn lemma_trim_end_take(s: Seq<char>, j: int)
    requires
        0 <= j <= s.len(),
        forall|k: int| j <= k < s.len() ==> is_white_space(#[trigger] s[k]),
    ensures
        trim_end(s) == trim_end(s.take(j)),
    decreases s.len() - j,
{
    if j < s.len() {
        assert(s.drop_last().take(j) =~= s.take(j));
        lemma_trim_end_take(s.drop_last(), j);
    } else {
        assert(s.take(j) =~= s);
    }
}

/// The characters of `s`.
pub fn chars_of(s: &str) -> (v: Vec<char>)
    ensures
        v@ == s@,
{
    broadcast use vstd::string::group_string_axioms;

    let mut v: Vec<char> = Vec::new();
    for c in it: s.chars()
        invariant
            it.seq() == s@,
            v@ == s@.take(it.index()),
    {
        v.push(c);
    }
    v
}

/// A `String` holding the characters of `v`.
#[verifier::external_body]
pub fn string_of(v: &[char]) -> (r: String)
    ensures
        r@ == v@,
{
    String::from_iter(v.iter())
}

/// `a` followed by `b`.
pub fn concat(a: &str, b: &str) -> (r: String)
    ensures
        r@ == a@ + b@,
{
    let mut r = a.to_owned();
    r.append(b);
    r
}

/// The characters `s[from..to]`.
pub fn sub_chars(s: &[char], from: usize, to: usize) -> (r: Vec<char>)
    requires
        from <= to <= s@.len(),
    ensures
        r@ == s@.subrange(from as int, to as int),
{
    let mut r: Vec<char> = Vec::new();
    let mut k = from;
    while k < to
        invariant
            from <= k <= to <= s@.len(),
            r@ == s@.subrange(from as int, k as int),
        decreases to - k,
    {
        r.push(s[k]);
        k = k + 1;
    }
    r
}

/// `s` without leading and trailing whitespace.
pub fn trim_chars(s: &[char]) -> (r: Vec<char>)
    ensures
        r@ == trim(s@),
{
    let mut i: usize = 0;
    while i < s.len() && is_whitespace(s[i])
        invariant
            0 <= i <= s@.len(),
            forall|k: int| 0 <= k < i ==> is_white_space(#[trigger] s@[k]),
        decreases s.len() - i,
    {
        i = i + 1;
    }
    proof {
        lemma_trim_start_skip(s@, i as int);
    }
    let ghost t = s@.skip(i as int);
    assert(trim_start(t) == t);
    let mut j: usize = s.len();
    while j > i && is_whitespace(s[j - 1])
        invariant
            i <= j <= s@.len(),
            t == s@.skip(i as int),
            forall|k: int| j - i <= k < t.len() ==> is_white_space(#[trigger] t[k]),
        decreases j,
    {
        j = j - 1;
    }
    proof {
        lemma_trim_end_take(t, (j - i) as int);
        assert(t.take((j - i) as int) =~= s@.subrange(i as int, j as int));
        let u = t.take((j - i) as int);
        assert(u.len() == 0 || !is_white_space(u.last()));
    }
    sub_chars(s, i, j)
}

/// Where `pat` first occurs in `s`.
pub fn find_chars(s: &[char], pat: &[char]) -> (r: Option<usize>)
    ensures
        r matches Some(i) ==> find(s@, pat@) == Some(i as int),
        r is None ==> find(s@, pat@) is None,
{
    if pat.len() > s.len() {
        return None;
    }
    let mut i: usize = 0;
    while i <= s.len() - pat.len()
        invariant
            pat@.len() <= s@.len(),
            i <= s@.len() - pat@.len() + 1,
            find(s@, pat@) == find_from(s@, pat@, i as int),
        decreases s.len() - pat.len() + 1 - i,
    {
        let mut k: usize = 0;
        let mut same = true;
        let n = s.len();
        while k < pat.len()
            invariant
                n == s@.len(),
                i + pat@.len() <= s@.len(),
                k <= pat@.len(),
                same <==> (forall|m: int| 0 <= m < k ==> s@[i + m] == pat@[m]),
            decreases pat.len() - k,
        {
            if s[i + k] != pat[k] {
                same = false;
            }
            k = k + 1;
        }
        if same {
            assert(s@.subrange(i as int, i + pat@.len()) =~= pat@);
            return Some(i);
        }
        assert(s@.subrange(i as int, i + pat@.len()) != pat@) by {
            let m = choose|m: int| 0 <= m < pat@.len() && s@[i + m] != pat@[m];
            assert(s@.subrange(i as int, i + pat@.len())[m] != pat@[m]);
        }
        i = i + 1;
    }
    None
}

/// Where `c` last occurs in `s`.
pub fn rfind_char(s: &[char], c: char) -> (r: Option<usize>)
    ensures
        r matches Some(i) ==> rfind(s@, c) == Some(i as int) && i < s@.len() && s@[i as int] == c,
        r is None ==> rfind(s@, c) is None,
{
    let mut end: usize = s.len();
    while end > 0
        invariant
            end <= s@.len(),
            rfind(s@, c) == rfind_before(s@, c, end as int),
        decreases end,
    {
        if s[end - 1] == c {
            return Some(end - 1);
        }
        end = end - 1;
    }
    None
}

/// The pieces of `s` between occurrences of `sep`.
pub fn split_chars(s: &[char], sep: char) -> (parts: Vec<Vec<char>>)
    ensures
        views(parts@) == split(s@, sep),
{
    let mut parts: Vec<Vec<char>> = Vec::new();
    let mut cur: Vec<char> = Vec::new();
    let mut i: usize = 0;
    assert(s@.take(0) =~= Seq::<char>::empty());
    while i < s.len()
        invariant
            i <= s@.len(),
            views(parts@).push(cur@) == split(s@.take(i as int), sep),
        decreases s.len() - i,
    {
        let ghost before = views(parts@);
        let ghost cur_before = cur@;
        assert(s@.take(i + 1).drop_last() =~= s@.take(i as int));
        proof {
            lemma_split_nonempty(s@.take(i as int), sep);
        }
        if s[i] == sep {
            parts.push(cur);
            cur = Vec::new();
            assert(views(parts@) =~= before.push(cur_before));
        } else {
            cur.push(s[i]);
            assert(views(parts@).push(cur@) =~= before.push(cur_before).update(
                before.len() as int,
                cur_before.push(s@[i as int]),
            ));
        }
        i = i + 1;
    }
    assert(s@.take(s@.len() as int) =~= s@);
    let ghost before = views(parts@);
    let ghost last = cur@;
    parts.push(cur);
    assert(views(parts@) =~= before.push(last));
    parts
}

pub fn char_eq_ignore_ascii_case(a: char, b: char) -> (r: bool)
    ensures
        r == (ascii_lower(a) == ascii_lower(b)),
{
    let x = a as u32;
    let y = b as u32;
    let lx = if 0x41 <= x && x <= 0x5a { x + 0x20 } else { x };
    let ly = if 0x41 <= y && y <= 0x5a { y + 0x20 } else { y };
    lx == ly
}

/// ASCII case-insensitive equality of two character sequences.
pub fn chars_eq_ignore_ascii_case(a: &[char], b: &[char]) -> (r: bool)
    ensures
        r == eq_ignore_ascii_case(a@, b@),
{
    if a.len() != b.len() {
        return false;
    }
    let mut i: usize = 0;
    while i < a.len()
        invariant
            a@.len() == b@.len(),
            i <= a@.len(),
            forall|k: int| 0 <= k < i ==> ascii_lower(#[trigger] a@[k]) == ascii_lower(b@[k]),
        decreases a.len() - i,
    {
        if !char_eq_ignore_ascii_case(a[i], b[i]) {
            return false;
        }
        i = i + 1;
    }
    true
}

/// Whether `s` begins with `prefix`.
pub fn chars_start_with(s: &[char], prefix: &[char]) -> (r: bool)
    ensures
        r == starts_with(s@, prefix@),
{
    if prefix.len() > s.len() {
        return false;
    }
    let mut i: usize = 0;
    while i < prefix.len()
        invariant
            prefix@.len() <= s@.len(),
            i <= prefix@.len(),
            forall|k: int| 0 <= k < i ==> s@[k] == prefix@[k],
        decreases prefix.len() - i,
    {
        if s[i] != prefix[i] {
            assert(s@.take(prefix@.len() as int)[i as int] != prefix@[i as int]);
            return false;
        }
        i = i + 1;
    }
    assert(s@.take(prefix@.len() as int) =~= prefix@);
    true
}

/// Whether `c` occurs in `s`.
pub fn contains_char(s: &[char], c: char) -> (r: bool)
    ensures
        r == s@.contains(c),
{
    let mut i: usize = 0;
    while i < s.len()
        invariant
            i <= s@.len(),
            forall|k: int| 0 <= k < i ==> s@[k] != c,
        decreases s.len() - i,
    {
        if s[i] == c {
            return true;
        }
        i = i + 1;
    }
    false
}

} // verus!
