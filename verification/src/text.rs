//! Character-level helpers shared by the parsers: whitespace, line and token
//! splitting, and building `String`s from character ranges.
use vstd::prelude::*;

verus! {

/// The Unicode `White_Space` property, which is what `char::is_whitespace`,
/// `str::trim` and `str::split_whitespace` go by.
pub open spec fn is_whitespace(c: char) -> bool {
    let u = c as u32;
    ||| 9 <= u <= 13
    ||| u == 32
    ||| u == 0x85
    ||| u == 0xa0
    ||| u == 0x1680
    ||| 0x2000 <= u <= 0x200a
    ||| u == 0x2028
    ||| u == 0x2029
    ||| u == 0x202f
    ||| u == 0x205f
    ||| u == 0x3000
}

/// Executable form of [`is_whitespace`].
pub fn is_whitespace_char(c: char) -> (b: bool)
    ensures
        b == is_whitespace(c),
{
    let u = c as u32;
    (9 <= u && u <= 13) || u == 32 || u == 0x85 || u == 0xa0 || u == 0x1680 || (0x2000 <= u
        && u <= 0x200a) || u == 0x2028 || u == 0x2029 || u == 0x202f || u == 0x205f || u == 0x3000
}

/// The views of a sequence of strings.
pub open spec fn views(v: Seq<String>) -> Seq<Seq<char>> {
    v.map_values(|s: String| s@)
}

/// Index of the first `c` in `s`, or `s.len()` when there is none.
pub open spec fn find_char(s: Seq<char>, c: char) -> int
    decreases s.len(),
{
    if s.len() == 0 {
        0
    } else if s[0] == c {
        0
    } else {
        1 + find_char(s.drop_first(), c)
    }
}

pub proof fn lemma_find_char_bounds(s: Seq<char>, c: char)
    ensures
        0 <= find_char(s, c) <= s.len(),
        find_char(s, c) < s.len() ==> s[find_char(s, c)] == c,
        forall|j: int| 0 <= j < find_char(s, c) ==> s[j] != c,
    decreases s.len(),
{
    if s.len() > 0 && s[0] != c {
        lemma_find_char_bounds(s.drop_first(), c);
        assert forall|j: int| 0 <= j < find_char(s, c) implies s[j] != c by {
            if j > 0 {
                assert(s[j] == s.drop_first()[j - 1]);
            }
        }
    }
}

/// Splits `s` into lines at each `'\n'`, continuing the line `cur` already
/// begun. A trailing newline leaves an empty last line.
pub open spec fn lines_from(s: Seq<char>, cur: Seq<char>) -> Seq<Seq<char>>
    decreases s.len(),
{
    if s.len() == 0 {
        seq![cur]
    } else if s[0] == '\n' {
        seq![cur] + lines_from(s.drop_first(), seq![])
    } else {
        lines_from(s.drop_first(), cur.push(s[0]))
    }
}

/// The lines of `s`, split at each `'\n'`.
pub open spec fn lines(s: Seq<char>) -> Seq<Seq<char>> {
    lines_from(s, seq![])
}

/// Splits `s` into maximal runs of non-whitespace characters, continuing the
/// run `cur` already begun.
pub open spec fn tokens_from(s: Seq<char>, cur: Seq<char>) -> Seq<Seq<char>>
    decreases s.len(),
{
    if s.len() == 0 {
        if cur.len() > 0 {
            seq![cur]
        } else {
            seq![]
        }
    } else if is_whitespace(s[0]) {
        (if cur.len() > 0 {
            seq![cur]
        } else {
            seq![]
        }) + tokens_from(s.drop_first(), seq![])
    } else {
        tokens_from(s.drop_first(), cur.push(s[0]))
    }
}

/// The whitespace-separated tokens of `s`, as `str::split_whitespace` yields them.
pub open spec fn tokens(s: Seq<char>) -> Seq<Seq<char>> {
    tokens_from(s, seq![])
}

/// Character ranges into a text, each within bounds.
pub open spec fn valid_ranges(r: Seq<(usize, usize)>, n: int) -> bool {
    forall|k: int| 0 <= k < r.len() ==> #[trigger] r[k].0 <= r[k].1 <= n
}

/// The text of an optional string.
pub open spec fn string_opt(o: Option<String>) -> Option<Seq<char>> {
    match o {
        Some(s) => Some(s@),
        None => None,
    }
}

/// The text of an optional string slice.
pub open spec fn str_opt(o: Option<&str>) -> Option<Seq<char>> {
    match o {
        Some(s) => Some(s@),
        None => None,
    }
}

/// The pieces of `v` that the ranges `r` cover.
pub open spec fn pieces(v: Seq<char>, r: Seq<(usize, usize)>) -> Seq<Seq<char>> {
    r.map_values(|p: (usize, usize)| v.subrange(p.0 as int, p.1 as int))
}

/// `String::push`: appends `c`.
#[verifier::external_body]
pub(crate) fn push_char(s: &mut String, c: char)
    ensures
        final(s)@ == old(s)@.push(c),
{
    s.push(c);
}

/// The characters of `s`.
pub fn chars_of(s: &str) -> (v: Vec<char>)
    ensures
        v@ == s@,
{
    let mut v: Vec<char> = Vec::new();
    for c in it: s.chars()
        invariant
            v@ == it.seq().take(it.index() as int),
            it.seq() == s@,
    {
        v.push(c);
    }
    v
}

/// The string made of `v[start..end]`.
pub fn string_from_range(v: &Vec<char>, start: usize, end: usize) -> (s: String)
    requires
        start <= end <= v.len(),
    ensures
        s@ == v@.subrange(start as int, end as int),
{
    let mut s = String::new();
    let mut i: usize = start;
    while i < end
        invariant
            start <= i <= end <= v.len(),
            s@ == v@.subrange(start as int, i as int),
        decreases end - i,
    {
        push_char(&mut s, v[i]);
        assert(v@.subrange(start as int, i as int).push(v@[i as int]) =~= v@.subrange(
            start as int,
            i + 1,
        ));
        i = i + 1;
    }
    s
}

/// The string made of all of `v`.
pub fn string_from_chars(v: &Vec<char>) -> (s: String)
    ensures
        s@ == v@,
{
    let s = string_from_range(v, 0, v.len());
    assert(v@.subrange(0, v@.len() as int) =~= v@);
    s
}

/// Whether `xs` holds a string equal to `x`.
pub fn contains_string(xs: &[String], x: &String) -> (b: bool)
    ensures
        b == views(xs@).contains(x@),
{
    let mut i: usize = 0;
    while i < xs.len()
        invariant
            i <= xs.len(),
            forall|j: int| 0 <= j < i ==> xs@[j]@ != x@,
        decreases xs.len() - i,
    {
        if xs[i].eq(x) {
            assert(views(xs@)[i as int] == x@);
            return true;
        }
        i = i + 1;
    }
    assert forall|j: int| 0 <= j < views(xs@).len() implies views(xs@)[j] != x@ by {
        assert(views(xs@)[j] == xs@[j]@);
    }
    false
}

/// Index of the first `c` in `v[start..end]`, or `end`.
pub fn find_in(v: &Vec<char>, start: usize, end: usize, c: char) -> (i: usize)
    requires
        start <= end <= v.len(),
    ensures
        i == start + find_char(v@.subrange(start as int, end as int), c),
        start <= i <= end,
{
    let mut i = start;
    while i < end
        invariant
            start <= i <= end <= v.len(),
            find_char(v@.subrange(start as int, end as int), c) == (i - start) + find_char(
                v@.subrange(i as int, end as int),
                c,
            ),
        decreases end - i,
    {
        if v[i] == c {
            return i;
        }
        assert(v@.subrange(i as int, end as int).drop_first() =~= v@.subrange(i + 1, end as int));
        i = i + 1;
    }
    i
}

/// The whitespace-separated tokens of `v[start..end]`, as ranges into `v`.
pub fn tokens_in(v: &Vec<char>, start: usize, end: usize) -> (r: Vec<(usize, usize)>)
    requires
        start <= end <= v.len(),
    ensures
        valid_ranges(r@, v@.len() as int),
        pieces(v@, r@) == tokens(v@.subrange(start as int, end as int)),
        forall|k: int| 0 <= k < r@.len() ==> start <= #[trigger] r@[k].0 < r@[k].1 <= end,
{
    let mut r: Vec<(usize, usize)> = Vec::new();
    let mut i = start;
    let mut cur = start;
    assert(v@.subrange(cur as int, i as int) =~= seq![]);
    assert(pieces(v@, r@) =~= seq![]);
    assert(tokens(v@.subrange(start as int, end as int)) =~= pieces(v@, r@) + tokens_from(
        v@.subrange(i as int, end as int),
        v@.subrange(cur as int, i as int),
    ));
    while i < end
        invariant
            start <= cur <= i <= end <= v.len(),
            valid_ranges(r@, v@.len() as int),
            forall|k: int| 0 <= k < r@.len() ==> start <= #[trigger] r@[k].0 < r@[k].1 <= cur,
            tokens(v@.subrange(start as int, end as int)) == pieces(v@, r@) + tokens_from(
                v@.subrange(i as int, end as int),
                v@.subrange(cur as int, i as int),
            ),
        decreases end - i,
    {
        let ghost s = v@.subrange(i as int, end as int);
        let ghost w = v@.subrange(cur as int, i as int);
        assert(s.drop_first() =~= v@.subrange(i + 1, end as int));
        assert(s[0] == v@[i as int]);
        if is_whitespace_char(v[i]) {
            let ghost old_r = r@;
            if cur < i {
                r.push((cur, i));
                assert(pieces(v@, r@) =~= pieces(v@, old_r) + seq![w]);
            } else {
                assert(w =~= seq![]);
            }
            i = i + 1;
            cur = i;
            assert(v@.subrange(cur as int, i as int) =~= seq![]);
            assert(tokens(v@.subrange(start as int, end as int)) =~= pieces(v@, r@) + tokens_from(
                v@.subrange(i as int, end as int),
                v@.subrange(cur as int, i as int),
            ));
        } else {
            assert(w.push(v@[i as int]) =~= v@.subrange(cur as int, i + 1));
            i = i + 1;
        }
    }
    let ghost w = v@.subrange(cur as int, i as int);
    assert(v@.subrange(i as int, end as int) =~= seq![]);
    let ghost old_r = r@;
    if cur < i {
        r.push((cur, i));
        assert(pieces(v@, r@) =~= pieces(v@, old_r) + seq![w]);
    } else {
        assert(pieces(v@, r@) =~= pieces(v@, old_r) + seq![]);
    }
    r
}

/// `s` without its leading whitespace.
pub open spec fn trim_start(s: Seq<char>) -> Seq<char>
    decreases s.len(),
{
    if s.len() > 0 && is_whitespace(s[0]) {
        trim_start(s.drop_first())
    } else {
        s
    }
}

/// `s` without its trailing whitespace.
pub open spec fn trim_end(s: Seq<char>) -> Seq<char>
    decreases s.len(),
{
    if s.len() > 0 && is_whitespace(s.last()) {
        trim_end(s.drop_last())
    } else {
        s
    }
}

/// `s` without leading and trailing whitespace, as `str::trim` gives it.
pub open spec fn trim(s: Seq<char>) -> Seq<char> {
    trim_end(trim_start(s))
}

/// `str::trim`, written out over characters.
pub fn trim_string(s: &str) -> (r: String)
    ensures
        r@ == trim(s@),
{
    let v = chars_of(s);
    let n = v.len();
    let mut a: usize = 0;
    assert(v@.subrange(0, n as int) =~= v@);
    while a < n && is_whitespace_char(v[a])
        invariant
            a <= n == v@.len(),
            trim_start(v@) == trim_start(v@.subrange(a as int, n as int)),
        decreases n - a,
    {
        assert(v@.subrange(a as int, n as int).drop_first() =~= v@.subrange(a + 1, n as int));
        a = a + 1;
    }
    let mut b: usize = n;
    while b > a && is_whitespace_char(v[b - 1])
        invariant
            a <= b <= n == v@.len(),
            trim_end(v@.subrange(a as int, n as int)) == trim_end(
                v@.subrange(a as int, b as int),
            ),
        decreases b - a,
    {
        assert(v@.subrange(a as int, b as int).drop_last() =~= v@.subrange(a as int, b - 1));
        b = b - 1;
    }
    string_from_range(&v, a, b)
}

/// What `str::to_lowercase` returns for a string: its Unicode lowercase mapping.
pub uninterp spec fn lowercase(s: Seq<char>) -> Seq<char>;

/// `str::to_lowercase`. The contract names its result `lowercase(s@)` and
/// says nothing of the Unicode case tables behind it.
#[verifier::external_body]
pub(crate) fn to_lowercase(s: &str) -> (r: String)
    ensures
        r@ == lowercase(s@),
{
    s.to_lowercase()
}

/// A copy of `ts`.
pub fn clone_strings(ts: &[String]) -> (r: Vec<String>)
    ensures
        views(r@) == views(ts@),
        r@ == ts@,
{
    let mut r: Vec<String> = Vec::new();
    let mut i: usize = 0;
    while i < ts.len()
        invariant
            i <= ts@.len(),
            r@ =~= ts@.take(i as int),
        decreases ts.len() - i,
    {
        r.push(ts[i].clone());
        i = i + 1;
    }
    assert(ts@.take(ts@.len() as int) =~= ts@);
    r
}

/// `p` begins `v[start..end]`.
pub fn range_has_prefix(v: &Vec<char>, start: usize, end: usize, p: &Vec<char>) -> (b: bool)
    requires
        start <= end <= v.len(),
    ensures
        b == p@.is_prefix_of(v@.subrange(start as int, end as int)),
{
    if p.len() > end - start {
        return false;
    }
    let mut i: usize = 0;
    while i < p.len()
        invariant
            i <= p@.len() <= end - start,
            start <= end <= v@.len(),
            forall|j: int| 0 <= j < i ==> p@[j] == v@[start + j],
        decreases p.len() - i,
    {
        if p[i] != v[start + i] {
            assert(v@.subrange(start as int, end as int).subrange(0, p@.len() as int)[i as int]
                == v@[start + i]);
            return false;
        }
        i = i + 1;
    }
    assert(p@ =~= v@.subrange(start as int, end as int).subrange(0, p@.len() as int));
    true
}

/// `p` ends `v[start..end]`.
pub fn range_has_suffix(v: &Vec<char>, start: usize, end: usize, p: &Vec<char>) -> (b: bool)
    requires
        start <= end <= v.len(),
    ensures
        b == p@.is_suffix_of(v@.subrange(start as int, end as int)),
{
    if p.len() > end - start {
        return false;
    }
    let base = end - p.len();
    let mut i: usize = 0;
    while i < p.len()
        invariant
            i <= p@.len() <= end - start,
            base == end - p@.len(),
            start <= end <= v@.len(),
            forall|j: int| 0 <= j < i ==> p@[j] == v@[base + j],
        decreases p.len() - i,
    {
        if p[i] != v[base + i] {
            let ghost w = v@.subrange(start as int, end as int);
            assert(w.subrange(w.len() - p@.len(), w.len() as int)[i as int] == v@[base + i]);
            return false;
        }
        i = i + 1;
    }
    let ghost w = v@.subrange(start as int, end as int);
    assert(p@ =~= w.subrange(w.len() - p@.len(), w.len() as int));
    true
}

/// Strict lexicographic order on strings, by code point (that of `Ord for str`).
pub open spec fn lex_lt(a: Seq<char>, b: Seq<char>) -> bool
    decreases a.len(),
{
    if a.len() == 0 {
        b.len() > 0
    } else if b.len() == 0 {
        false
    } else if a[0] != b[0] {
        (a[0] as int) < (b[0] as int)
    } else {
        lex_lt(a.drop_first(), b.drop_first())
    }
}

pub proof fn lemma_lex_trans(a: Seq<char>, b: Seq<char>, c: Seq<char>)
    requires
        lex_lt(a, b),
        lex_lt(b, c),
    ensures
        lex_lt(a, c),
    decreases a.len(),
{
    if a.len() > 0 && b.len() > 0 && c.len() > 0 && a[0] == b[0] && b[0] == c[0] {
        lemma_lex_trans(a.drop_first(), b.drop_first(), c.drop_first());
    }
}

pub proof fn lemma_lex_total(a: Seq<char>, b: Seq<char>)
    requires
        a != b,
    ensures
        lex_lt(a, b) || lex_lt(b, a),
    decreases a.len(),
{
    if a.len() == 0 || b.len() == 0 {
        if a.len() == 0 && b.len() == 0 {
            assert(a =~= b);
        }
    } else if a[0] == b[0] {
        if a.drop_first() =~= b.drop_first() {
            assert forall|i: int| 0 <= i < a.len() implies a[i] == b[i] by {
                if i > 0 {
                    assert(a[i] == a.drop_first()[i - 1]);
                    assert(b[i] == b.drop_first()[i - 1]);
                }
            }
            assert(a =~= b);
        } else {
            lemma_lex_total(a.drop_first(), b.drop_first());
        }
    } else {
        let x = a[0];
        let y = b[0];
        assert(x != y);
        assert((x as int) != (y as int));
    }
}

pub proof fn lemma_lex_irrefl(a: Seq<char>)
    ensures
        !lex_lt(a, a),
    decreases a.len(),
{
    if a.len() > 0 {
        lemma_lex_irrefl(a.drop_first());
    }
}

/// `a` sorts before `b`.
pub fn string_lt(a: &String, b: &String) -> (r: bool)
    ensures
        r == lex_lt(a@, b@),
{
    let x = chars_of(a.as_str());
    let y = chars_of(b.as_str());
    let mut i: usize = 0;
    assert(x@.skip(0) =~= x@);
    assert(y@.skip(0) =~= y@);
    while i < x.len() && i < y.len() && x[i] == y[i]
        invariant
            i <= x@.len(),
            i <= y@.len(),
            lex_lt(a@, b@) == lex_lt(x@.skip(i as int), y@.skip(i as int)),
            x@ == a@,
            y@ == b@,
        decreases x.len() - i,
    {
        assert(x@.skip(i as int).drop_first() =~= x@.skip(i + 1));
        assert(y@.skip(i as int).drop_first() =~= y@.skip(i + 1));
        i = i + 1;
    }
    if i == x.len() {
        i < y.len()
    } else if i == y.len() {
        false
    } else {
        assert(x@.skip(i as int)[0] == x@[i as int]);
        assert(y@.skip(i as int)[0] == y@[i as int]);
        x[i] < y[i]
    }
}


/// `xs` joined with `sep` between neighbours, as `[String]::join` gives it.
pub open spec fn join(xs: Seq<Seq<char>>, sep: Seq<char>) -> Seq<char>
    decreases xs.len(),
{
    if xs.len() == 0 {
        seq![]
    } else if xs.len() == 1 {
        xs[0]
    } else {
        join(xs.drop_last(), sep) + sep + xs.last()
    }
}

/// `xs` joined with `sep` between neighbours.
pub fn join_strings(xs: &[String], sep: &str) -> (r: String)
    ensures
        r@ == join(views(xs@), sep@),
{
    let ghost v = views(xs@);
    let mut r = String::new();
    let mut i: usize = 0;
    assert(v.take(0) =~= seq![]);
    while i < xs.len()
        invariant
            i <= xs@.len(),
            v == views(xs@),
            r@ == join(v.take(i as int), sep@),
        decreases xs.len() - i,
    {
        assert(v.take(i + 1).drop_last() =~= v.take(i as int));
        assert(v.take(i + 1).last() == xs@[i as int]@);
        if i == 0 {
            assert(v.take(1).len() == 1);
            assert(v.take(1)[0] == xs@[0]@);
            assert(r@ =~= seq![]);
            r.append(xs[i].as_str());
            assert(r@ =~= xs@[0]@);
        } else {
            r.append(sep);
            r.append(xs[i].as_str());
        }
        i = i + 1;
    }
    assert(v.take(xs@.len() as int) =~= v);
    r
}

/// The digit for `d`, for `d` below 10.
pub open spec fn digit_char(d: int) -> char {
    if d == 0 {
        '0'
    } else if d == 1 {
        '1'
    } else if d == 2 {
        '2'
    } else if d == 3 {
        '3'
    } else if d == 4 {
        '4'
    } else if d == 5 {
        '5'
    } else if d == 6 {
        '6'
    } else if d == 7 {
        '7'
    } else if d == 8 {
        '8'
    } else {
        '9'
    }
}

/// `n` in decimal, as `Display` writes an integer.
pub open spec fn decimal(n: nat) -> Seq<char>
    decreases n,
{
    if n < 10 {
        seq![digit_char(n as int)]
    } else {
        decimal(n / 10).push(digit_char((n % 10) as int))
    }
}

fn digit(d: u64) -> (c: char)
    requires
        d < 10,
    ensures
        c == digit_char(d as int),
{
    if d == 0 {
        '0'
    } else if d == 1 {
        '1'
    } else if d == 2 {
        '2'
    } else if d == 3 {
        '3'
    } else if d == 4 {
        '4'
    } else if d == 5 {
        '5'
    } else if d == 6 {
        '6'
    } else if d == 7 {
        '7'
    } else if d == 8 {
        '8'
    } else {
        '9'
    }
}

/// Appends `n` in decimal to `s`.
pub fn push_decimal(s: &mut String, n: u64)
    ensures
        final(s)@ == old(s)@ + decimal(n as nat),
    decreases n,
{
    if n >= 10 {
        push_decimal(s, n / 10);
    }
    let ghost before = s@;
    push_char(s, digit(n % 10));
    proof {
        if n >= 10 {
            assert(before == old(s)@ + decimal((n / 10) as nat));
            assert(s@ =~= old(s)@ + decimal(n as nat));
        } else {
            assert(s@ =~= old(s)@ + decimal(n as nat));
        }
    }
}

/// `n` in decimal.
pub fn decimal_string(n: u64) -> (s: String)
    ensures
        s@ == decimal(n as nat),
{
    let mut s = String::new();
    push_decimal(&mut s, n);
    assert(s@ =~= decimal(n as nat));
    s
}

} // verus!
