//! Verified text utilities: whitespace trimming, token extraction, suffix
//! matching, path-segment extraction and decimal formatting.  These are the
//! primitives the orchestrators use to interpret kernel tables and to build
//! command lines and control-file paths.

use vstd::prelude::*;

verus! {

/// Characters treated as whitespace by this library's parsers.
pub open spec fn is_space(c: char) -> bool {
    c == ' ' || c == '\t' || c == '\r' || c == '\n'
}

/// Index of the first character satisfying `p`, or `s.len()` if none does.
pub open spec fn first_where(s: Seq<char>, p: spec_fn(char) -> bool) -> int
    decreases s.len(),
{
    if s.len() == 0 {
        0
    } else if p(s[0]) {
        0
    } else {
        1 + first_where(s.drop_first(), p)
    }
}

pub proof fn lemma_first_where_bounds(s: Seq<char>, p: spec_fn(char) -> bool)
    ensures
        0 <= first_where(s, p) <= s.len(),
        forall|j: int| 0 <= j < first_where(s, p) ==> !p(s[j]),
        first_where(s, p) < s.len() ==> p(s[first_where(s, p)]),
    decreases s.len(),
{
    if s.len() != 0 && !p(s[0]) {
        lemma_first_where_bounds(s.drop_first(), p);
        assert forall|j: int| 0 <= j < first_where(s, p) implies !p(s[j]) by {
            if j > 0 {
                assert(s[j] == s.drop_first()[j - 1]);
            }
        }
        if first_where(s, p) < s.len() {
            assert(s[first_where(s, p)] == s.drop_first()[first_where(s, p) - 1]);
        }
    }
}

pub proof fn lemma_first_where_at(s: Seq<char>, p: spec_fn(char) -> bool, i: int)
    requires
        0 <= i <= s.len(),
        forall|j: int| 0 <= j < i ==> !p(s[j]),
        i < s.len() ==> p(s[i]),
    ensures
        first_where(s, p) == i,
    decreases i,
{
    if i == 0 {
        if s.len() > 0 && !p(s[0]) {
            lemma_first_where_bounds(s.drop_first(), p);
        }
    } else {
        assert(!p(s[0]));
        assert forall|j: int| 0 <= j < i - 1 implies !p(s.drop_first()[j]) by {
            assert(s.drop_first()[j] == s[j + 1]);
        }
        assert(i - 1 < s.drop_first().len() ==> p(s.drop_first()[i - 1]));
        lemma_first_where_at(s.drop_first(), p, i - 1);
    }
}

/// Index of the first newline, or `s.len()` if the text is a single line.
pub open spec fn first_newline(s: Seq<char>) -> int {
    first_where(s, |c: char| c == '\n')
}

/// Index of the first whitespace character, or `s.len()`.
pub open spec fn first_space(s: Seq<char>) -> int {
    first_where(s, |c: char| is_space(c))
}

/// `s` without leading whitespace.
pub open spec fn trim_front_s(s: Seq<char>) -> Seq<char>
    decreases s.len(),
{
    if s.len() > 0 && is_space(s[0]) {
        trim_front_s(s.drop_first())
    } else {
        s
    }
}

/// `s` without trailing whitespace.
pub open spec fn trim_back_s(s: Seq<char>) -> Seq<char>
    decreases s.len(),
{
    if s.len() > 0 && is_space(s.last()) {
        trim_back_s(s.drop_last())
    } else {
        s
    }
}

/// `s` without surrounding whitespace.
pub open spec fn trimmed(s: Seq<char>) -> Seq<char> {
    trim_back_s(trim_front_s(s))
}

pub proof fn lemma_trim_front_as_skip(s: Seq<char>, i: int)
    requires
        0 <= i <= s.len(),
        forall|j: int| 0 <= j < i ==> is_space(s[j]),
        i < s.len() ==> !is_space(s[i]),
    ensures
        trim_front_s(s) == s.skip(i),
    decreases i,
{
    if i == 0 {
        assert(s.skip(0) =~= s);
    } else {
        assert(is_space(s[0]));
        assert forall|j: int| 0 <= j < i - 1 implies is_space(s.drop_first()[j]) by {
            assert(s.drop_first()[j] == s[j + 1]);
        }
        lemma_trim_front_as_skip(s.drop_first(), i - 1);
        assert(s.drop_first().skip(i - 1) =~= s.skip(i));
    }
}

pub proof fn lemma_trim_back_as_take(s: Seq<char>, i: int)
    requires
        0 <= i <= s.len(),
        forall|j: int| i <= j < s.len() ==> is_space(s[j]),
        i > 0 ==> !is_space(s[i - 1]),
    ensures
        trim_back_s(s) == s.take(i),
    decreases s.len() - i,
{
    if i == s.len() {
        if s.len() > 0 && is_space(s.last()) {
            assert forall|j: int| i - 1 <= j < s.drop_last().len() implies is_space(
                s.drop_last()[j],
            ) by {
                assert(s.drop_last()[j] == s[j]);
            }
            lemma_trim_back_as_take(s.drop_last(), i - 1);
            assert(s.drop_last().take(i - 1) =~= s.take(i - 1));
            assert(false);
        }
        assert(s.take(i) =~= s);
    } else {
        assert(is_space(s.last()));
        assert forall|j: int| i <= j < s.drop_last().len() implies is_space(s.drop_last()[j]) by {
            assert(s.drop_last()[j] == s[j]);
        }
        lemma_trim_back_as_take(s.drop_last(), i);
        assert(s.drop_last().take(i) =~= s.take(i));
    }
}

/// Executable whitespace test agreeing with `is_space`.
pub fn is_space_char(c: char) -> (b: bool)
    ensures
        b == is_space(c),
{
    c == ' ' || c == '\t' || c == '\r' || c == '\n'
}

/// Strip surrounding whitespace, as `trimmed` describes.
pub fn trim_ws<'a>(s: &'a str) -> (t: &'a str)
    ensures
        t@ == trimmed(s@),
{
    let n = s.unicode_len();
    let mut a: usize = 0;
    loop
        invariant
            0 <= a <= n,
            n == s@.len(),
            forall|j: int| 0 <= j < a ==> is_space(s@[j]),
        ensures
            0 <= a <= n,
            forall|j: int| 0 <= j < a ==> is_space(s@[j]),
            a < n ==> !is_space(s@[a as int]),
        decreases n - a,
    {
        if a >= n {
            break;
        }
        if !is_space_char(s.get_char(a)) {
            break;
        }
        a = a + 1;
    }
    if a == n {
        proof {
            lemma_trim_front_as_skip(s@, a as int);
            assert(s@.skip(n as int) =~= Seq::<char>::empty());
        }
        let t = s.substring_char(n, n);
        proof {
            assert(t@ =~= trimmed(s@));
        }
        return t;
    }
    let mut b: usize = n;
    loop
        invariant
            a <= b <= n,
            a < n,
            n == s@.len(),
            !is_space(s@[a as int]),
            forall|j: int| b <= j < n ==> is_space(s@[j]),
        ensures
            a <= b <= n,
            forall|j: int| b <= j < n ==> is_space(s@[j]),
            b > a ==> !is_space(s@[b - 1]),
        decreases b,
    {
        if b <= a {
            break;
        }
        if !is_space_char(s.get_char(b - 1)) {
            break;
        }
        b = b - 1;
    }
    proof {
        lemma_trim_front_as_skip(s@, a as int);
        let f = s@.skip(a as int);
        assert forall|j: int| b - a <= j < f.len() implies is_space(f[j]) by {
            assert(f[j] == s@[j + a]);
        }
        if b > a {
            assert(f[b - a - 1] == s@[b - 1]);
        }
        lemma_trim_back_as_take(f, b - a);
        assert(f.take(b - a) =~= s@.subrange(a as int, b as int));
    }
    s.substring_char(a, b)
}

/// Index of the first newline of `s`, or its length when it is a single
/// line, as `first_newline` describes.
pub fn find_newline(s: &str) -> (i: usize)
    ensures
        i == first_newline(s@),
        0 <= i <= s@.len(),
{
    let n = s.unicode_len();
    let mut i: usize = 0;
    loop
        invariant
            0 <= i <= n,
            n == s@.len(),
            forall|j: int| 0 <= j < i ==> s@[j] != '\n',
        ensures
            0 <= i <= n,
            forall|j: int| 0 <= j < i ==> s@[j] != '\n',
            i < n ==> s@[i as int] == '\n',
        decreases n - i,
    {
        if i >= n {
            break;
        }
        if s.get_char(i) == '\n' {
            break;
        }
        i = i + 1;
    }
    proof {
        lemma_first_where_at(s@, |c: char| c == '\n', i as int);
    }
    i
}

/// The first whitespace-delimited token of `line`, if any.
pub open spec fn first_token(line: Seq<char>) -> Option<Seq<char>> {
    let t = trim_front_s(line);
    if t.len() == 0 {
        None
    } else {
        Some(t.take(first_space(t)))
    }
}

/// Extract the first whitespace-delimited token, as `first_token` describes.
pub fn token_of_line<'a>(line: &'a str) -> (r: Option<&'a str>)
    ensures
        match r {
            Some(tok) => first_token(line@) == Some(tok@),
            None => first_token(line@) is None,
        },
{
    let n = line.unicode_len();
    let mut a: usize = 0;
    loop
        invariant
            0 <= a <= n,
            n == line@.len(),
            forall|j: int| 0 <= j < a ==> is_space(line@[j]),
        ensures
            0 <= a <= n,
            forall|j: int| 0 <= j < a ==> is_space(line@[j]),
            a < n ==> !is_space(line@[a as int]),
        decreases n - a,
    {
        if a >= n {
            break;
        }
        if !is_space_char(line.get_char(a)) {
            break;
        }
        a = a + 1;
    }
    proof {
        lemma_trim_front_as_skip(line@, a as int);
    }
    if a == n {
        proof {
            assert(line@.skip(n as int) =~= Seq::<char>::empty());
        }
        return None;
    }
    let mut b: usize = a;
    loop
        invariant
            a <= b <= n,
            n == line@.len(),
            forall|j: int| a <= j < b ==> !is_space(line@[j]),
        ensures
            a <= b <= n,
            forall|j: int| a <= j < b ==> !is_space(line@[j]),
            b < n ==> is_space(line@[b as int]),
        decreases n - b,
    {
        if b >= n {
            break;
        }
        if is_space_char(line.get_char(b)) {
            break;
        }
        b = b + 1;
    }
    proof {
        let t = line@.skip(a as int);
        assert forall|j: int| 0 <= j < b - a implies !is_space(t[j]) by {
            assert(t[j] == line@[j + a]);
        }
        if (b - a) < t.len() {
            assert(t[b - a] == line@[b as int]);
        }
        lemma_first_where_at(t, |c: char| is_space(c), b - a);
        assert(t.take(b - a) =~= line@.subrange(a as int, b as int));
    }
    Some(line.substring_char(a, b))
}

/// Whether `suffix` is a suffix of `s`.
pub open spec fn is_suffix_of(suffix: Seq<char>, s: Seq<char>) -> bool {
    suffix.len() <= s.len() && s.subrange(s.len() - suffix.len(), s.len() as int) == suffix
}

/// Suffix test agreeing with `is_suffix_of`.
pub fn str_ends_with(s: &str, suffix: &str) -> (b: bool)
    ensures
        b == is_suffix_of(suffix@, s@),
{
    let n = s.unicode_len();
    let m = suffix.unicode_len();
    if m > n {
        return false;
    }
    let off = n - m;
    let mut i: usize = 0;
    loop
        invariant
            0 <= i <= m,
            m <= n,
            off == n - m,
            n == s@.len(),
            m == suffix@.len(),
            forall|j: int| 0 <= j < i ==> s@[off + j] == suffix@[j],
        ensures
            forall|j: int| 0 <= j < m ==> s@[off + j] == suffix@[j],
        decreases m - i,
    {
        if i >= m {
            break;
        }
        if s.get_char(off + i) != suffix.get_char(i) {
            proof {
                let sub = s@.subrange(n - m, n as int);
                assert(sub[i as int] == s@[off + i]);
                assert(sub[i as int] != suffix@[i as int]);
            }
            return false;
        }
        i = i + 1;
    }
    proof {
        assert(s@.subrange(n - m, n as int) =~= suffix@);
    }
    true
}

/// The last `/`-separated segment of a path; empty when the path ends in `/`.
pub open spec fn short_name(s: Seq<char>) -> Seq<char>
    decreases s.len(),
{
    if s.len() == 0 {
        s
    } else if s.last() == '/' {
        Seq::empty()
    } else {
        short_name(s.drop_last()).push(s.last())
    }
}

proof fn lemma_short_name_at(s: Seq<char>, i: int)
    requires
        0 <= i <= s.len(),
        forall|j: int| i <= j < s.len() ==> s[j] != '/',
        i > 0 ==> s[i - 1] == '/',
    ensures
        short_name(s) == s.skip(i),
    decreases s.len() - i,
{
    if i == s.len() {
        if i > 0 {
            assert(s.last() == '/');
        }
        assert(s.skip(i) =~= Seq::<char>::empty());
        if s.len() == 0 {
            assert(short_name(s) =~= s.skip(i));
        }
    } else {
        assert(s.last() != '/');
        assert forall|j: int| i <= j < s.drop_last().len() implies s.drop_last()[j] != '/' by {
            assert(s.drop_last()[j] == s[j]);
        }
        lemma_short_name_at(s.drop_last(), i);
        assert(s.drop_last().skip(i).push(s.last()) =~= s.skip(i));
    }
}

/// Extract the device's short name (the last path segment), as `short_name`
/// describes.
pub fn path_short_name<'a>(path: &'a str) -> (name: &'a str)
    ensures
        name@ == short_name(path@),
{
    let n = path.unicode_len();
    let mut i: usize = n;
    loop
        invariant
            0 <= i <= n,
            n == path@.len(),
            forall|j: int| i <= j < n ==> path@[j] != '/',
        ensures
            0 <= i <= n,
            forall|j: int| i <= j < n ==> path@[j] != '/',
            i > 0 ==> path@[i - 1] == '/',
        decreases i,
    {
        if i == 0 {
            break;
        }
        if path.get_char(i - 1) == '/' {
            break;
        }
        i = i - 1;
    }
    proof {
        lemma_short_name_at(path@, i as int);
        assert(path@.skip(i as int) =~= path@.subrange(i as int, n as int));
    }
    path.substring_char(i, n)
}

/// The decimal digit character for `d`.
pub open spec fn dec_digit(d: nat) -> char {
    if d == 0 {
        '0'
    } else if d == 1 {
        '1'
    } else if d == 2 {
        '2'
    } else if d == 3 {
        '3'
    } else if d == 4 {
        '4'
    } else if d == 5 {
        '5'
    } else if d == 6 {
        '6'
    } else if d == 7 {
        '7'
    } else if d == 8 {
        '8'
    } else {
        '9'
    }
}

/// The usual decimal rendering of `n`, without a sign and without leading
/// zeros (except for `n == 0` itself).
pub open spec fn dec_str(n: nat) -> Seq<char>
    decreases n,
{
    if n < 10 {
        seq![dec_digit(n)]
    } else {
        dec_str(n / 10).push(dec_digit(n % 10))
    }
}

fn digit_str(d: usize) -> (r: &'static str)
    requires
        d < 10,
    ensures
        r@ == seq![dec_digit(d as nat)],
{
    proof {
        reveal_strlit("0");
        reveal_strlit("1");
        reveal_strlit("2");
        reveal_strlit("3");
        reveal_strlit("4");
        reveal_strlit("5");
        reveal_strlit("6");
        reveal_strlit("7");
        reveal_strlit("8");
        reveal_strlit("9");
    }
    let r: &'static str = if d == 0 {
        "0"
    } else if d == 1 {
        "1"
    } else if d == 2 {
        "2"
    } else if d == 3 {
        "3"
    } else if d == 4 {
        "4"
    } else if d == 5 {
        "5"
    } else if d == 6 {
        "6"
    } else if d == 7 {
        "7"
    } else if d == 8 {
        "8"
    } else {
        "9"
    };
    proof {
        assert(r@ =~= seq![dec_digit(d as nat)]);
    }
    r
}

/// Render `n` in decimal, as `dec_str` describes.
pub fn usize_to_string(n: usize) -> (s: String)
    ensures
        s@ == dec_str(n as nat),
{
    let mut s = String::from_str(digit_str(n % 10));
    let mut m: usize = n / 10;
    proof {
        if m == 0 {
            assert(n < 10 && n % 10 == n);
        }
    }
    loop
        invariant
            if m > 0 {
                dec_str(n as nat) == dec_str(m as nat) + s@
            } else {
                dec_str(n as nat) == s@
            },
        ensures
            dec_str(n as nat) == s@,
        decreases m,
    {
        if m == 0 {
            break;
        }
        let d = digit_str(m % 10);
        let m2: usize = m / 10;
        proof {
            assert(m2 < m) by (nonlinear_arith)
                requires
                    m > 0,
                    m2 == m / 10,
            ;
            if m2 == 0 {
                assert(m < 10 && m % 10 == m);
                assert(dec_str(m as nat) =~= d@ + s@.subrange(0, 0) + Seq::<char>::empty());
                assert(dec_str(n as nat) =~= d@ + s@);
            } else {
                assert(dec_str(m as nat) =~= dec_str(m2 as nat).push(dec_digit((m % 10) as nat)));
                assert(dec_str(m as nat) + s@ =~= dec_str(m2 as nat) + (d@ + s@));
            }
        }
        s = String::from_str(d).concat(s.as_str());
        m = m2;
    }
    s
}

} // verus!
