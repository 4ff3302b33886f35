//! Character-level text utilities: whitespace trimming, splitting on a
//! separator character, and joining lines with a trailing newline.

use vstd::prelude::*;
use vstd::string::StrSliceExecFns;
use vstd::string::StringExecFns;

verus! {

/// The characters that Rust's `char::is_whitespace` accepts (the Unicode
/// `White_Space` property).
pub open spec fn is_ws(c: char) -> bool {
    c == ' ' || c == '\t' || c == '\n' || c == '\r' || c == '\u{0b}' || c == '\u{0c}'
        || c == '\u{85}' || c == '\u{a0}' || c == '\u{1680}' || c == '\u{2000}' || c == '\u{2001}'
        || c == '\u{2002}' || c == '\u{2003}' || c == '\u{2004}' || c == '\u{2005}'
        || c == '\u{2006}' || c == '\u{2007}' || c == '\u{2008}' || c == '\u{2009}'
        || c == '\u{200a}' || c == '\u{2028}' || c == '\u{2029}' || c == '\u{202f}'
        || c == '\u{205f}' || c == '\u{3000}'
}

/// Whether `c` is a whitespace character.
pub fn is_ws_char(c: char) -> (r: bool)
    ensures
        r == is_ws(c),
{
    c == ' ' || c == '\t' || c == '\n' || c == '\r' || c == '\u{0b}' || c == '\u{0c}'
        || c == '\u{85}' || c == '\u{a0}' || c == '\u{1680}' || c == '\u{2000}' || c == '\u{2001}'
        || c == '\u{2002}' || c == '\u{2003}' || c == '\u{2004}' || c == '\u{2005}'
        || c == '\u{2006}' || c == '\u{2007}' || c == '\u{2008}' || c == '\u{2009}'
        || c == '\u{200a}' || c == '\u{2028}' || c == '\u{2029}' || c == '\u{202f}'
        || c == '\u{205f}' || c == '\u{3000}'
}

/// `s` without its leading whitespace.
pub open spec fn ltrim(s: Seq<char>) -> Seq<char>
    decreases s.len(),
{
    if s.len() > 0 && is_ws(s[0]) {
        ltrim(s.drop_first())
    } else {
        s
    }
}

/// `s` without its trailing whitespace.
pub open spec fn rtrim(s: Seq<char>) -> Seq<char>
    decreases s.len(),
{
    if s.len() > 0 && is_ws(s.last()) {
        rtrim(s.drop_last())
    } else {
        s
    }
}

/// `s` without leading and trailing whitespace.
pub open spec fn trimmed(s: Seq<char>) -> Seq<char> {
    rtrim(ltrim(s))
}

proof fn lemma_ltrim_skip(s: Seq<char>, k: int)
    requires
        0 <= k <= s.len(),
        forall|i: int| 0 <= i < k ==> is_ws(s[i]),
    ensures
        ltrim(s) == ltrim(s.skip(k)),
    decreases k,
{
    if k > 0 {
        assert(is_ws(s[0]));
        assert(s.drop_first() =~= s.skip(1));
        lemma_ltrim_skip(s.skip(1), k - 1);
        assert(s.skip(1).skip(k - 1) =~= s.skip(k));
    } else {
        assert(s.skip(0) =~= s);
    }
}

proof fn lemma_ltrim_id(s: Seq<char>)
    requires
        s.len() == 0 || !is_ws(s[0]),
    ensures
        ltrim(s) == s,
{
}

proof fn lemma_rtrim_take(s: Seq<char>, k: int)
    requires
        0 <= k <= s.len(),
        forall|i: int| k <= i < s.len() ==> is_ws(s[i]),
    ensures
        rtrim(s) == rtrim(s.take(k)),
    decreases s.len() - k,
{
    if k < s.len() {
        assert(is_ws(s.last()));
        assert(s.drop_last() =~= s.take(s.len() - 1));
        lemma_rtrim_take(s.take(s.len() - 1), k);
        assert(s.take(s.len() - 1).take(k) =~= s.take(k));
    } else {
        assert(s.take(s.len() as int) =~= s);
    }
}

proof fn lemma_rtrim_id(s: Seq<char>)
    requires
        s.len() == 0 || !is_ws(s.last()),
    ensures
        rtrim(s) == s,
{
}

/// `s` without its trailing whitespace.
pub fn rtrim_str(s: &str) -> (r: String)
    ensures
        r@ == rtrim(s@),
{
    let n = s.unicode_len();
    let mut end: usize = n;
    while end > 0 && is_ws_char(s.get_char(end - 1))
        invariant
            0 <= end <= n,
            n == s@.len(),
            forall|i: int| end <= i < n ==> is_ws(s@[i]),
        decreases end,
    {
        end = end - 1;
    }
    proof {
        lemma_rtrim_take(s@, end as int);
        if end > 0 {
            assert(s@.take(end as int).last() == s@[end - 1]);
        }
        lemma_rtrim_id(s@.take(end as int));
    }
    let r = s.substring_char(0, end);
    proof {
        assert(r@ =~= s@.take(end as int));
    }
    r.to_owned()
}

/// `s` without leading and trailing whitespace.
pub fn trim_str(s: &str) -> (r: String)
    ensures
        r@ == trimmed(s@),
{
    let n = s.unicode_len();
    let mut start: usize = 0;
    while start < n && is_ws_char(s.get_char(start))
        invariant
            0 <= start <= n,
            n == s@.len(),
            forall|i: int| 0 <= i < start ==> is_ws(s@[i]),
        decreases n - start,
    {
        start = start + 1;
    }
    proof {
        lemma_ltrim_skip(s@, start as int);
        if start < n {
            assert(s@.skip(start as int)[0] == s@[start as int]);
        }
        lemma_ltrim_id(s@.skip(start as int));
    }
    let tail = s.substring_char(start, n);
    proof {
        assert(tail@ =~= s@.skip(start as int));
    }
    rtrim_str(tail)
}

/// Index of the first occurrence of `c` in `s`, or -1 if `c` does not occur.
pub open spec fn find_char(s: Seq<char>, c: char) -> int
    decreases s.len(),
{
    if s.len() == 0 {
        -1
    } else if s[0] == c {
        0
    } else {
        let r = find_char(s.drop_first(), c);
        if r < 0 {
            -1
        } else {
            r + 1
        }
    }
}

pub proof fn lemma_find_char_bounds(s: Seq<char>, c: char)
    ensures
        find_char(s, c) < s.len(),
        find_char(s, c) >= 0 ==> s[find_char(s, c)] == c,
        find_char(s, c) < 0 ==> forall|i: int| 0 <= i < s.len() ==> s[i] != c,
    decreases s.len(),
{
    if s.len() > 0 && s[0] != c {
        lemma_find_char_bounds(s.drop_first(), c);
        assert(forall|i: int| 1 <= i < s.len() ==> s[i] == s.drop_first()[i - 1]);
    }
}

/// A scan that saw no `c` before position `k`, and `c` at `k` if `k` is in
/// range, has found exactly what `find_char` names.
pub proof fn lemma_find_char_scan(s: Seq<char>, c: char, k: int)
    requires
        0 <= k <= s.len(),
        forall|i: int| 0 <= i < k ==> s[i] != c,
        k < s.len() ==> s[k] == c,
    ensures
        find_char(s, c) == if k < s.len() {
            k
        } else {
            -1
        },
    decreases k,
{
    if s.len() == 0 {
    } else if k == 0 {
    } else {
        lemma_find_char_scan(s.drop_first(), c, k - 1);
    }
}

/// The segments of `s` between occurrences of `c`: splitting on every
/// occurrence, keeping empty segments, so there is one segment more than
/// there are occurrences of `c`.
pub open spec fn split_seq(s: Seq<char>, c: char) -> Seq<Seq<char>>
    decreases s.len(),
{
    let ci = find_char(s, c);
    if 0 <= ci < s.len() {
        seq![s.take(ci)] + split_seq(s.skip(ci + 1), c)
    } else {
        seq![s]
    }
}

/// Splits `s` on every occurrence of `c`, keeping empty segments.
pub fn split_on(s: &str, c: char) -> (r: Vec<String>)
    ensures
        r.deep_view() == split_seq(s@, c),
    decreases s@.len(),
{
    let n = s.unicode_len();
    let mut k: usize = 0;
    while k < n && s.get_char(k) != c
        invariant
            0 <= k <= n,
            n == s@.len(),
            forall|i: int| 0 <= i < k ==> s@[i] != c,
        decreases n - k,
    {
        k = k + 1;
    }
    proof {
        lemma_find_char_scan(s@, c, k as int);
    }
    if k < n {
        let head = s.substring_char(0, k);
        let rest = s.substring_char(k + 1, n);
        proof {
            assert(head@ =~= s@.take(k as int));
            assert(rest@ =~= s@.skip(k as int + 1));
        }
        let mut r = split_on(rest, c);
        r.insert(0, head.to_owned());
        proof {
            assert(r.deep_view() =~= seq![s@.take(k as int)] + split_seq(s@.skip(k as int + 1), c));
        }
        r
    } else {
        let mut r: Vec<String> = Vec::new();
        r.push(s.to_owned());
        proof {
            assert(r.deep_view() =~= seq![s@]);
        }
        r
    }
}

/// The lines `ls`, joined with one `'\n'` after each line.
pub open spec fn cat_lines(ls: Seq<Seq<char>>) -> Seq<char>
    decreases ls.len(),
{
    if ls.len() == 0 {
        Seq::empty()
    } else {
        ls[0] + seq!['\n'] + cat_lines(ls.drop_first())
    }
}

/// Appending one line extends the joined text by that line and a newline.
pub proof fn lemma_cat_lines_snoc(ls: Seq<Seq<char>>, l: Seq<char>)
    ensures
        cat_lines(ls.push(l)) == cat_lines(ls) + l + seq!['\n'],
    decreases ls.len(),
{
    if ls.len() == 0 {
        assert(ls.push(l)[0] == l);
        assert(ls.push(l).drop_first() =~= Seq::<Seq<char>>::empty());
        assert(cat_lines(Seq::<Seq<char>>::empty()) == Seq::<char>::empty());
        assert(cat_lines(ls.push(l)) == l + seq!['\n'] + Seq::<char>::empty());
        assert(cat_lines(ls.push(l)) =~= cat_lines(ls) + l + seq!['\n']);
    } else {
        assert(ls.push(l).drop_first() =~= ls.drop_first().push(l));
        assert(ls.push(l)[0] == ls[0]);
        lemma_cat_lines_snoc(ls.drop_first(), l);
        assert(cat_lines(ls.push(l)) == ls[0] + seq!['\n'] + (cat_lines(ls.drop_first()) + l
            + seq!['\n']));
        assert(cat_lines(ls.push(l)) =~= cat_lines(ls) + l + seq!['\n']);
    }
}

/// No segment of a split contains the separator.
pub proof fn lemma_split_no_sep(s: Seq<char>, c: char)
    ensures
        forall|i: int, j: int|
            0 <= i < split_seq(s, c).len() && 0 <= j < split_seq(s, c)[i].len() ==> split_seq(
                s,
                c,
            )[i][j] != c,
    decreases s.len(),
{
    lemma_find_char_bounds(s, c);
    let ci = find_char(s, c);
    if 0 <= ci < s.len() {
        assert(forall|j: int| 0 <= j < ci ==> s[j] != c) by {
            lemma_find_char_first(s, c);
        }
        lemma_split_no_sep(s.skip(ci + 1), c);
        assert(forall|i: int|
            1 <= i < split_seq(s, c).len() ==> split_seq(s, c)[i] == split_seq(
                s.skip(ci + 1),
                c,
            )[i - 1]);
    }
}

/// Nothing occurs before the position that `find_char` names.
pub proof fn lemma_find_char_first(s: Seq<char>, c: char)
    ensures
        forall|j: int| 0 <= j < find_char(s, c) && j < s.len() ==> s[j] != c,
    decreases s.len(),
{
    if s.len() > 0 && s[0] != c {
        lemma_find_char_first(s.drop_first(), c);
        assert(forall|j: int| 1 <= j < s.len() ==> s[j] == s.drop_first()[j - 1]);
    }
}

/// Dropping trailing whitespace cannot introduce a character.
pub proof fn lemma_rtrim_keeps_absence(s: Seq<char>, c: char)
    requires
        forall|i: int| 0 <= i < s.len() ==> s[i] != c,
    ensures
        forall|i: int| 0 <= i < rtrim(s).len() ==> rtrim(s)[i] != c,
    decreases s.len(),
{
    if s.len() > 0 && is_ws(s.last()) {
        assert(forall|i: int| 0 <= i < s.drop_last().len() ==> s.drop_last()[i] != c);
        lemma_rtrim_keeps_absence(s.drop_last(), c);
        assert(rtrim(s) == rtrim(s.drop_last()));
    }
}

/// Splitting the joined text on `'\n'` recovers the lines, followed by one
/// empty segment after the final newline — provided no line itself contains
/// a newline.
pub proof fn lemma_split_cat_lines(ls: Seq<Seq<char>>)
    requires
        forall|i: int, j: int|
            0 <= i < ls.len() && 0 <= j < ls[i].len() ==> ls[i][j] != '\n',
    ensures
        split_seq(cat_lines(ls), '\n') == ls + seq![Seq::<char>::empty()],
    decreases ls.len(),
{
    if ls.len() == 0 {
        assert(find_char(Seq::<char>::empty(), '\n') == -1);
        assert(split_seq(cat_lines(ls), '\n') =~~= ls + seq![Seq::<char>::empty()]);
    } else {
        let s = cat_lines(ls);
        let l0 = ls[0];
        assert(forall|j: int| 0 <= j < l0.len() ==> s[j] == l0[j] && s[j] != '\n');
        assert(s[l0.len() as int] == '\n');
        lemma_find_char_scan(s, '\n', l0.len() as int);
        assert(s.take(l0.len() as int) =~= l0);
        assert(s.skip(l0.len() as int + 1) =~= cat_lines(ls.drop_first()));
        lemma_split_cat_lines(ls.drop_first());
        assert(split_seq(s, '\n') =~~= ls + seq![Seq::<char>::empty()]);
    }
}

/// The decimal digit for a value below ten.
pub open spec fn digit_char(d: int) -> char {
    if d == 0 {
        '0'
    } else if d == 1 {
        '1'
    } else if d == 2 {
        '2'
    } else if d == 3 {
        '3'
    } else if d == 4 {
        '4'
    } else if d == 5 {
        '5'
    } else if d == 6 {
        '6'
    } else if d == 7 {
        '7'
    } else if d == 8 {
        '8'
    } else {
        '9'
    }
}

/// The decimal digits of `n`, most significant first, with no leading zero
/// except for `n == 0` itself.
pub open spec fn dec_digits(n: int) -> Seq<char>
    decreases n,
{
    if n < 10 {
        seq![digit_char(n)]
    } else {
        dec_digits(n / 10) + seq![digit_char(n % 10)]
    }
}

fn digit_str(d: u64) -> (r: &'static str)
    requires
        d < 10,
    ensures
        r@ == seq![digit_char(d as int)],
{
    proof {
        reveal_strlit("0");
        reveal_strlit("1");
        reveal_strlit("2");
        reveal_strlit("3");
        reveal_strlit("4");
        reveal_strlit("5");
        reveal_strlit("6");
        reveal_strlit("7");
        reveal_strlit("8");
        reveal_strlit("9");
    }
    let r = if d == 0 {
        "0"
    } else if d == 1 {
        "1"
    } else if d == 2 {
        "2"
    } else if d == 3 {
        "3"
    } else if d == 4 {
        "4"
    } else if d == 5 {
        "5"
    } else if d == 6 {
        "6"
    } else if d == 7 {
        "7"
    } else if d == 8 {
        "8"
    } else {
        "9"
    };
    proof {
        assert(r@ =~= seq![digit_char(d as int)]);
    }
    r
}

/// Renders `n` in decimal.
pub fn u64_to_string(n: u64) -> (r: String)
    ensures
        r@ == dec_digits(n as int),
    decreases n,
{
    if n < 10 {
        digit_str(n).to_owned()
    } else {
        let mut s = u64_to_string(n / 10);
        s.append(digit_str(n % 10));
        proof {
            assert(s@ =~= dec_digits(n as int));
        }
        s
    }
}

} // verus!
