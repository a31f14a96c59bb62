//! Text operations on `&str` and `String`, specified over their `Seq<char>` views.
use vstd::prelude::*;

verus! {

/// Whether `c` has the Unicode `White_Space` property (what `char::is_whitespace`
/// returns): U+0009 to U+000D, U+0020, U+0085, U+00A0, U+1680, U+2000 to
/// U+200A, U+2028, U+2029, U+202F, U+205F and U+3000.
pub open spec fn is_white_space(c: char) -> bool {
    let u = c as u32;
    (0x09 <= u && u <= 0x0d) || u == 0x20 || u == 0x85 || u == 0xa0 || u == 0x1680 || (0x2000 <= u && u
        <= 0x200a) || u == 0x2028 || u == 0x2029 || u == 0x202f || u == 0x205f || u == 0x3000
}

fn char_is_whitespace(c: char) -> (res: bool)
    ensures
        res == is_white_space(c),
{
    let u = c as u32;
    (0x09 <= u && u <= 0x0d) || u == 0x20 || u == 0x85 || u == 0xa0 || u == 0x1680 || (0x2000 <= u && u
        <= 0x200a) || u == 0x2028 || u == 0x2029 || u == 0x202f || u == 0x205f || u == 0x3000
}

/// `s` without its leading white space.
pub open spec fn trim_start_spec(s: Seq<char>) -> Seq<char>
    decreases s.len(),
{
    if s.len() > 0 && is_white_space(s[0]) {
        trim_start_spec(s.drop_first())
    } else {
        s
    }
}

/// `s` without its trailing white space.
pub open spec fn trim_end_spec(s: Seq<char>) -> Seq<char>
    decreases s.len(),
{
    if s.len() > 0 && is_white_space(s.last()) {
        trim_end_spec(s.drop_last())
    } else {
        s
    }
}

/// `s` without leading and trailing white space (what `str::trim` returns).
pub open spec fn trim_spec(s: Seq<char>) -> Seq<char> {
    trim_end_spec(trim_start_spec(s))
}

/// `s` without the copies of `c` at its end (what `str::trim_end_matches(c)` returns).
pub open spec fn trim_end_char_spec(s: Seq<char>, c: char) -> Seq<char>
    decreases s.len(),
{
    if s.len() > 0 && s.last() == c {
        trim_end_char_spec(s.drop_last(), c)
    } else {
        s
    }
}

/// Returns a copy of `s` without leading and trailing white space.
pub fn trim(s: &str) -> (res: String)
    ensures
        res@ == trim_spec(s@),
{
    let n = s.unicode_len();
    let mut i: usize = 0;
    assert(s@.subrange(0, n as int) =~= s@);
    while i < n
        invariant
            n == s@.len(),
            i <= n,
            trim_start_spec(s@) == trim_start_spec(s@.subrange(i as int, n as int)),
        ensures
            i <= n,
            trim_start_spec(s@) == s@.subrange(i as int, n as int),
        decreases n - i,
    {
        if !char_is_whitespace(s.get_char(i)) {
            break;
        }
        assert(s@.subrange(i as int, n as int).drop_first() =~= s@.subrange(i + 1, n as int));
        i = i + 1;
    }
    let ghost t = s@.subrange(i as int, n as int);
    let mut j: usize = n;
    while j > i
        invariant
            n == s@.len(),
            i <= j <= n,
            t == s@.subrange(i as int, n as int),
            trim_end_spec(t) == trim_end_spec(s@.subrange(i as int, j as int)),
        ensures
            i <= j <= n,
            trim_end_spec(t) == s@.subrange(i as int, j as int),
        decreases j,
    {
        if !char_is_whitespace(s.get_char(j - 1)) {
            break;
        }
        assert(s@.subrange(i as int, j as int).drop_last() =~= s@.subrange(i as int, j - 1));
        j = j - 1;
    }
    String::from_str(s.substring_char(i, j))
}

/// Returns a copy of `s` without the copies of `c` at its end.
pub fn trim_end_char(s: &str, c: char) -> (res: String)
    ensures
        res@ == trim_end_char_spec(s@, c),
{
    let n = s.unicode_len();
    let mut j: usize = n;
    assert(s@.subrange(0, n as int) =~= s@);
    while j > 0
        invariant
            n == s@.len(),
            j <= n,
            trim_end_char_spec(s@, c) == trim_end_char_spec(s@.subrange(0, j as int), c),
        ensures
            j <= n,
            trim_end_char_spec(s@, c) == s@.subrange(0, j as int),
        decreases j,
    {
        if s.get_char(j - 1) != c {
            break;
        }
        assert(s@.subrange(0, j as int).drop_last() =~= s@.subrange(0, j - 1));
        j = j - 1;
    }
    assert(s@.subrange(0, n as int) =~= s@);
    String::from_str(s.substring_char(0, j))
}

/// Whether `s` and `t` hold the same characters.
pub fn str_eq(s: &str, t: &str) -> (res: bool)
    ensures
        res == (s@ == t@),
{
    let n = s.unicode_len();
    if n != t.unicode_len() {
        return false;
    }
    let mut i: usize = 0;
    while i < n
        invariant
            n == s@.len(),
            n == t@.len(),
            i <= n,
            forall|k: int| 0 <= k < i ==> s@[k] == t@[k],
        decreases n - i,
    {
        if s.get_char(i) != t.get_char(i) {
            return false;
        }
        i = i + 1;
    }
    assert(s@ =~= t@);
    true
}

/// Whether `prefix` is a prefix of `s`.
pub fn starts_with(s: &str, prefix: &str) -> (res: bool)
    ensures
        res == prefix@.is_prefix_of(s@),
{
    let n = s.unicode_len();
    let m = prefix.unicode_len();
    if m > n {
        return false;
    }
    let mut i: usize = 0;
    while i < m
        invariant
            n == s@.len(),
            m == prefix@.len(),
            m <= n,
            i <= m,
            forall|k: int| 0 <= k < i ==> prefix@[k] == s@[k],
        decreases m - i,
    {
        if s.get_char(i) != prefix.get_char(i) {
            return false;
        }
        i = i + 1;
    }
    true
}

/// `s` without `prefix` where `s` starts with it (what `str::strip_prefix` returns).
pub fn strip_prefix(s: &str, prefix: &str) -> (res: Option<String>)
    ensures
        match res {
            Some(rest) => prefix@.is_prefix_of(s@) && rest@ == s@.skip(prefix@.len() as int),
            None => !prefix@.is_prefix_of(s@),
        },
{
    if starts_with(s, prefix) {
        let n = s.unicode_len();
        let m = prefix.unicode_len();
        Some(String::from_str(s.substring_char(m, n)))
    } else {
        None
    }
}

/// Whether `c` occurs in `s`.
pub fn contains_char(s: &str, c: char) -> (res: bool)
    ensures
        res == s@.contains(c),
{
    let n = s.unicode_len();
    let mut i: usize = 0;
    while i < n
        invariant
            n == s@.len(),
            i <= n,
            forall|k: int| 0 <= k < i ==> s@[k] != c,
        decreases n - i,
    {
        if s.get_char(i) == c {
            assert(s@[i as int] == c);
            return true;
        }
        i = i + 1;
    }
    false
}

/// Whether `needle` occurs in `s` as a contiguous run of characters.
pub open spec fn contains_seq(s: Seq<char>, needle: Seq<char>) -> bool {
    exists|i: int| 0 <= i && i + needle.len() <= s.len() && #[trigger] s.subrange(i, i + needle.len()) == needle
}

/// Whether `needle` occurs in `s` at character position `i`.
fn occurs_at(s: &str, needle: &str, i: usize) -> (res: bool)
    requires
        i + needle@.len() <= s@.len(),
    ensures
        res == (s@.subrange(i as int, i + needle@.len()) == needle@),
{
    let n = s.unicode_len();
    let m = needle.unicode_len();
    let mut k: usize = 0;
    while k < m
        invariant
            m == needle@.len(),
            n == s@.len(),
            i + m <= n,
            k <= m,
            forall|q: int| 0 <= q < k ==> s@[i + q] == needle@[q],
        decreases m - k,
    {
        if s.get_char(i + k) != needle.get_char(k) {
            assert(s@.subrange(i as int, i + m)[k as int] != needle@[k as int]);
            return false;
        }
        k = k + 1;
    }
    assert(s@.subrange(i as int, i + m) =~= needle@);
    true
}

/// Whether `needle` occurs in `s` (what `str::contains` with a `&str` pattern returns).
pub fn contains_str(s: &str, needle: &str) -> (res: bool)
    ensures
        res == contains_seq(s@, needle@),
{
    let n = s.unicode_len();
    let m = needle.unicode_len();
    if m > n {
        return false;
    }
    if m == 0 {
        assert(s@.subrange(0, 0 + needle@.len() as int) =~= needle@);
        return true;
    }
    let mut i: usize = 0;
    while i <= n - m
        invariant
            n == s@.len(),
            m == needle@.len(),
            0 < m <= n,
            i <= n - m + 1,
            forall|q: int| 0 <= q < i ==> #[trigger] s@.subrange(q, q + m) != needle@,
        decreases n - m + 1 - i,
    {
        if occurs_at(s, needle, i) {
            return true;
        }
        i = i + 1;
    }
    false
}

/// The code of `c` with ASCII upper-case letters mapped to lower case.
pub open spec fn ascii_lower_code(c: char) -> u32 {
    if 'A' <= c && c <= 'Z' {
        (c as u32 + 32) as u32
    } else {
        c as u32
    }
}

/// Whether `s` and `t` are equal up to ASCII case (what `str::eq_ignore_ascii_case` returns).
pub open spec fn eq_ignore_ascii_case_spec(s: Seq<char>, t: Seq<char>) -> bool {
    s.len() == t.len() && forall|k: int| 0 <= k < s.len() ==> ascii_lower_code(#[trigger] s[k]) == ascii_lower_code(t[k])
}

fn ascii_lower_code_of(c: char) -> (res: u32)
    ensures
        res == ascii_lower_code(c),
{
    if 'A' <= c && c <= 'Z' {
        c as u32 + 32
    } else {
        c as u32
    }
}

/// Whether `s` and `t` are equal up to ASCII case.
pub fn eq_ignore_ascii_case(s: &str, t: &str) -> (res: bool)
    ensures
        res == eq_ignore_ascii_case_spec(s@, t@),
{
    let n = s.unicode_len();
    if n != t.unicode_len() {
        return false;
    }
    let mut i: usize = 0;
    while i < n
        invariant
            n == s@.len(),
            n == t@.len(),
            i <= n,
            forall|k: int| 0 <= k < i ==> ascii_lower_code(#[trigger] s@[k]) == ascii_lower_code(t@[k]),
        decreases n - i,
    {
        if ascii_lower_code_of(s.get_char(i)) != ascii_lower_code_of(t.get_char(i)) {
            return false;
        }
        i = i + 1;
    }
    true
}

/// `a` followed by `b`.
pub fn concatenate(a: &str, b: &str) -> (res: String)
    ensures
        res@ == a@ + b@,
{
    let mut r = String::from_str(a);
    r.append(b);
    r
}

/// The order of `String` keys: lexicographic by character code.
///
/// UTF-8 encodes code points so that byte-wise and code-point-wise
/// lexicographic order agree, so this is the order of `String`'s `Ord`.
pub open spec fn str_less(a: Seq<char>, b: Seq<char>) -> bool
    decreases a.len(),
{
    if b.len() == 0 {
        false
    } else if a.len() == 0 {
        true
    } else if a[0] != b[0] {
        (a[0] as int) < (b[0] as int)
    } else {
        str_less(a.drop_first(), b.drop_first())
    }
}

/// No text is below itself.
pub proof fn lemma_str_less_irreflexive(a: Seq<char>)
    ensures
        !str_less(a, a),
    decreases a.len(),
{
    if a.len() > 0 {
        lemma_str_less_irreflexive(a.drop_first());
    }
}

/// The order of texts is transitive.
pub proof fn lemma_str_less_transitive(a: Seq<char>, b: Seq<char>, c: Seq<char>)
    requires
        str_less(a, b),
        str_less(b, c),
    ensures
        str_less(a, c),
    decreases a.len(),
{
    if a.len() > 0 && b.len() > 0 && c.len() > 0 && a[0] == b[0] && b[0] == c[0] {
        lemma_str_less_transitive(a.drop_first(), b.drop_first(), c.drop_first());
    }
}

/// Of two different texts, one is below the other.
pub proof fn lemma_str_less_total(a: Seq<char>, b: Seq<char>)
    requires
        a != b,
    ensures
        str_less(a, b) || str_less(b, a),
    decreases a.len(),
{
    if a.len() > 0 && b.len() > 0 && a[0] == b[0] {
        if a.drop_first() == b.drop_first() {
            assert(a =~= seq![a[0]] + a.drop_first());
            assert(b =~= seq![b[0]] + b.drop_first());
        } else {
            lemma_str_less_total(a.drop_first(), b.drop_first());
        }
    } else if a.len() == 0 && b.len() == 0 {
        assert(a =~= b);
    } else if a.len() > 0 && b.len() > 0 {
        assert((a[0] as int) != (b[0] as int));
    }
}

/// Whether `a` comes before `b` in the order of `String`.
pub fn str_lt(a: &str, b: &str) -> (res: bool)
    ensures
        res == str_less(a@, b@),
{
    let n = a.unicode_len();
    let m = b.unicode_len();
    let mut i: usize = 0;
    assert(a@.skip(0) =~= a@);
    assert(b@.skip(0) =~= b@);
    while i < n && i < m
        invariant
            n == a@.len(),
            m == b@.len(),
            i <= n,
            i <= m,
            str_less(a@, b@) == str_less(a@.skip(i as int), b@.skip(i as int)),
        decreases n - i,
    {
        let x = a.get_char(i);
        let y = b.get_char(i);
        if x != y {
            return (x as u32) < (y as u32);
        }
        assert(a@.skip(i as int).drop_first() =~= a@.skip(i + 1));
        assert(b@.skip(i as int).drop_first() =~= b@.skip(i + 1));
        i = i + 1;
    }
    i < m
}

proof fn lemma_trim_start_shape(s: Seq<char>)
    ensures
        trim_start_spec(s).len() <= s.len(),
        trim_start_spec(s) == s.subrange(s.len() - trim_start_spec(s).len(), s.len() as int),
        trim_start_spec(s).len() > 0 ==> !is_white_space(trim_start_spec(s)[0]),
    decreases s.len(),
{
    if s.len() > 0 && is_white_space(s[0]) {
        lemma_trim_start_shape(s.drop_first());
        let t = trim_start_spec(s.drop_first());
        assert(s.drop_first().subrange(s.drop_first().len() - t.len(), s.drop_first().len() as int) =~= s.subrange(
            s.len() - t.len(),
            s.len() as int,
        ));
    } else {
        assert(s.subrange(0, s.len() as int) =~= s);
    }
}

proof fn lemma_trim_end_shape(s: Seq<char>)
    ensures
        trim_end_spec(s).len() <= s.len(),
        trim_end_spec(s) == s.subrange(0, trim_end_spec(s).len() as int),
        trim_end_spec(s).len() > 0 ==> !is_white_space(trim_end_spec(s).last()),
    decreases s.len(),
{
    if s.len() > 0 && is_white_space(s.last()) {
        lemma_trim_end_shape(s.drop_last());
        let t = trim_end_spec(s.drop_last());
        assert(s.drop_last().subrange(0, t.len() as int) =~= s.subrange(0, t.len() as int));
    } else {
        assert(s.subrange(0, s.len() as int) =~= s);
    }
}

/// Text without white space at its ends is its own trim.
pub proof fn lemma_trim_fixed(s: Seq<char>)
    requires
        s.len() > 0 ==> !is_white_space(s[0]) && !is_white_space(s.last()),
    ensures
        trim_spec(s) == s,
{
}

/// Trimmed text has no white space at its ends.
pub proof fn lemma_trim_ends(s: Seq<char>)
    ensures
        trim_spec(s).len() > 0 ==> !is_white_space(trim_spec(s)[0]) && !is_white_space(trim_spec(s).last()),
{
    lemma_trim_start_shape(s);
    lemma_trim_end_shape(trim_start_spec(s));
    let t = trim_start_spec(s);
    let r = trim_end_spec(t);
    if r.len() > 0 {
        assert(r[0] == t[0]);
    }
}

/// Trimming twice trims once.
pub proof fn lemma_trim_idempotent(s: Seq<char>)
    ensures
        trim_spec(trim_spec(s)) == trim_spec(s),
{
    lemma_trim_ends(s);
    lemma_trim_fixed(trim_spec(s));
}

} // verus!
