//! Character-level helpers for reading line-oriented mesh files: trimming,
//! splitting on spaces, locating `"= "` separators and reading unsigned
//! decimal numbers.

use vstd::prelude::*;

verus! {

/// Unicode `White_Space` characters, the set that `str::trim` removes.
pub open spec fn spec_is_white_space(c: char) -> bool {
    let u = c as u32;
    ||| 0x9 <= u <= 0xd
    ||| u == 0x20
    ||| u == 0x85
    ||| u == 0xa0
    ||| u == 0x1680
    ||| 0x2000 <= u <= 0x200a
    ||| u == 0x2028
    ||| u == 0x2029
    ||| u == 0x202f
    ||| u == 0x205f
    ||| u == 0x3000
}

/// First index at or after `i` that does not hold white space.
pub open spec fn skip_leading(s: Seq<char>, i: int) -> int
    decreases s.len() - i,
{
    if 0 <= i < s.len() && spec_is_white_space(s[i]) {
        skip_leading(s, i + 1)
    } else {
        i
    }
}

/// End (exclusive) of `s.subrange(0, j)` once trailing white space is dropped.
pub open spec fn skip_trailing(s: Seq<char>, j: int) -> int
    decreases j,
{
    if 0 < j <= s.len() && spec_is_white_space(s[j - 1]) {
        skip_trailing(s, j - 1)
    } else {
        j
    }
}

/// `s` without its leading and trailing white space.
pub open spec fn trim(s: Seq<char>) -> Seq<char> {
    let a = skip_leading(s, 0);
    if a >= s.len() {
        Seq::empty()
    } else {
        s.subrange(a, skip_trailing(s, s.len() as int))
    }
}

/// The pieces of `s` between single `' '` characters (two adjacent spaces
/// give an empty piece), read from left to right.
pub open spec fn split_spaces(s: Seq<char>) -> Seq<Seq<char>>
    decreases s.len(),
{
    if s.len() == 0 {
        seq![Seq::empty()]
    } else {
        let prev = split_spaces(s.drop_last());
        if s.last() == ' ' {
            prev.push(Seq::empty())
        } else {
            prev.update(prev.len() - 1, prev.last().push(s.last()))
        }
    }
}

/// `"= "` starts at index `i` of `t`.
pub open spec fn sep_at(t: Seq<char>, i: int) -> bool {
    0 <= i && i + 1 < t.len() && t[i] == '=' && t[i + 1] == ' '
}

/// The first index at or after `i` where `"= "` starts, or -1.
pub open spec fn find_sep(t: Seq<char>, i: int) -> int
    decreases t.len() - i,
{
    if i < 0 || i + 1 >= t.len() {
        -1
    } else if sep_at(t, i) {
        i
    } else {
        find_sep(t, i + 1)
    }
}

pub open spec fn spec_is_digit(c: char) -> bool {
    48 <= c as u32 <= 57
}

/// The value of a string of decimal digits.
pub open spec fn digits_value(s: Seq<char>) -> nat
    decreases s.len(),
{
    if s.len() == 0 {
        0
    } else {
        digits_value(s.drop_last()) * 10 + (s.last() as u32 - 48) as nat
    }
}

/// The digit part of an unsigned number: `s` without a leading `'+'`.
pub open spec fn unsigned_digits(s: Seq<char>) -> Seq<char> {
    if s.len() > 0 && s[0] == '+' {
        s.drop_first()
    } else {
        s
    }
}

pub open spec fn all_digits(d: Seq<char>) -> bool {
    forall|i: int| 0 <= i < d.len() ==> spec_is_digit(#[trigger] d[i])
}

/// What `str::parse` gives for an unsigned integer type whose largest value
/// is `max`: an optional `'+'`, then at least one decimal digit and nothing
/// else, with a value that fits.
pub open spec fn parse_unsigned(s: Seq<char>, max: int) -> Option<nat> {
    let d = unsigned_digits(s);
    if d.len() > 0 && all_digits(d) && digits_value(d) <= max {
        Some(digits_value(d))
    } else {
        None
    }
}

/// The character rows held by a vector of character vectors.
pub open spec fn char_rows(v: Seq<Vec<char>>) -> Seq<Seq<char>> {
    v.map_values(|r: Vec<char>| r@)
}

pub fn is_white_space(c: char) -> (b: bool)
    ensures
        b == spec_is_white_space(c),
{
    let u = c as u32;
    (0x9 <= u && u <= 0xd) || u == 0x20 || u == 0x85 || u == 0xa0 || u == 0x1680 || (0x2000 <= u
        && u <= 0x200a) || u == 0x2028 || u == 0x2029 || u == 0x202f || u == 0x205f || u == 0x3000
}

proof fn lemma_skip_trailing_bounds(s: Seq<char>, j: int, a: int)
    requires
        0 <= a < j <= s.len(),
        !spec_is_white_space(s[a]),
    ensures
        a < skip_trailing(s, j) <= j,
    decreases j,
{
    if spec_is_white_space(s[j - 1]) {
        lemma_skip_trailing_bounds(s, j - 1, a);
    }
}

/// Copy of `t.subrange(a, b)`.
pub fn copy_range(t: &Vec<char>, a: usize, b: usize) -> (r: Vec<char>)
    requires
        a <= b <= t.len(),
    ensures
        r@ == t@.subrange(a as int, b as int),
{
    let mut r: Vec<char> = Vec::new();
    let mut i: usize = a;
    while i < b
        invariant
            a <= i <= b <= t.len(),
            r@ == t@.subrange(a as int, i as int),
        decreases b - i,
    {
        r.push(t[i]);
        i = i + 1;
    }
    r
}

/// The line without its leading and trailing white space.
pub fn trimmed(line: &Vec<char>) -> (t: Vec<char>)
    ensures
        t@ == trim(line@),
{
    let n = line.len();
    let mut a: usize = 0;
    while a < n && is_white_space(line[a])
        invariant
            a <= n == line@.len(),
            skip_leading(line@, 0) == skip_leading(line@, a as int),
        decreases n - a,
    {
        a = a + 1;
    }
    if a >= n {
        return Vec::new();
    }
    let mut b: usize = n;
    while b > 0 && is_white_space(line[b - 1])
        invariant
            b <= n == line@.len(),
            skip_trailing(line@, n as int) == skip_trailing(line@, b as int),
        decreases b,
    {
        b = b - 1;
    }
    proof {
        lemma_skip_trailing_bounds(line@, n as int, a as int);
    }
    copy_range(line, a, b)
}

/// Whether `t` holds the character `c`.
pub fn contains_char(t: &Vec<char>, c: char) -> (b: bool)
    ensures
        b == t@.contains(c),
{
    let mut i: usize = 0;
    while i < t.len()
        invariant
            i <= t.len(),
            forall|k: int| 0 <= k < i ==> t@[k] != c,
        decreases t.len() - i,
    {
        if t[i] == c {
            assert(t@[i as int] == c);
            return true;
        }
        i = i + 1;
    }
    false
}

/// Where the first `"= "` at or after `from` starts.
pub fn find_separator(t: &Vec<char>, from: usize) -> (r: Option<usize>)
    ensures
        match r {
            Some(p) => find_sep(t@, from as int) == p as int && sep_at(t@, p as int),
            None => find_sep(t@, from as int) == -1,
        },
{
    let mut i: usize = from;
    while i < t.len() && i + 1 < t.len()
        invariant
            from <= i,
            find_sep(t@, from as int) == find_sep(t@, i as int),
        decreases t.len() - i,
    {
        if t[i] == '=' && t[i + 1] == ' ' {
            return Some(i);
        }
        i = i + 1;
    }
    None
}

proof fn lemma_split_spaces_nonempty(s: Seq<char>)
    ensures
        split_spaces(s).len() >= 1,
    decreases s.len(),
{
    if s.len() > 0 {
        lemma_split_spaces_nonempty(s.drop_last());
    }
}

/// The pieces of `t` between single spaces.
pub fn split_on_spaces(t: &Vec<char>) -> (pieces: Vec<Vec<char>>)
    ensures
        char_rows(pieces@) == split_spaces(t@),
        pieces.len() >= 1,
{
    let mut pieces: Vec<Vec<char>> = Vec::new();
    let mut cur: Vec<char> = Vec::new();
    let mut i: usize = 0;
    while i < t.len()
        invariant
            i <= t.len(),
            char_rows(pieces@).push(cur@) == split_spaces(t@.subrange(0, i as int)),
        decreases t.len() - i,
    {
        let c = t[i];
        proof {
            let s = t@.subrange(0, i as int + 1);
            assert(s.drop_last() =~= t@.subrange(0, i as int));
            assert(s.last() == c);
            lemma_split_spaces_nonempty(s.drop_last());
        }
        let ghost old_rows = char_rows(pieces@);
        let ghost old_cur = cur@;
        if c == ' ' {
            let done = cur;
            pieces.push(done);
            cur = Vec::new();
            assert(char_rows(pieces@) =~= old_rows.push(old_cur));
        } else {
            cur.push(c);
            assert(char_rows(pieces@).push(cur@) =~= old_rows.push(old_cur).update(
                old_rows.len() as int,
                old_cur.push(c),
            ));
        }
        i = i + 1;
    }
    assert(t@.subrange(0, t.len() as int) =~= t@);
    pieces.push(cur);
    assert(char_rows(pieces@) =~= split_spaces(t@));
    pieces
}

proof fn lemma_digits_value_prefix(s: Seq<char>, i: int)
    requires
        0 <= i <= s.len(),
    ensures
        digits_value(s.subrange(0, i)) <= digits_value(s),
    decreases s.len(),
{
    if i == s.len() {
        assert(s.subrange(0, i) =~= s);
    } else {
        assert(s.drop_last().subrange(0, i) =~= s.subrange(0, i));
        lemma_digits_value_prefix(s.drop_last(), i);
    }
}

/// Reads `tok` as an unsigned decimal number no greater than `max`, as
/// `str::parse` does for an unsigned type whose largest value is `max`.
pub fn parse_unsigned_token(tok: &Vec<char>, max: usize) -> (r: Option<usize>)
    ensures
        match r {
            Some(v) => parse_unsigned(tok@, max as int) == Some(v as nat),
            None => parse_unsigned(tok@, max as int) is None,
        },
{
    let n = tok.len();
    let start: usize = if n > 0 && tok[0] == '+' {
        1
    } else {
        0
    };
    let ghost d = unsigned_digits(tok@);
    assert(d =~= tok@.subrange(start as int, n as int));
    if start >= n {
        return None;
    }
    let mut v: usize = 0;
    let mut i: usize = start;
    while i < n
        invariant
            start <= i <= n == tok@.len(),
            d == tok@.subrange(start as int, n as int),
            d == unsigned_digits(tok@),
            v as nat == digits_value(tok@.subrange(start as int, i as int)),
            v <= max,
            forall|k: int| start <= k < i ==> spec_is_digit(#[trigger] tok@[k]),
        decreases n - i,
    {
        let u = tok[i] as u32;
        if u < 48 || u > 57 {
            assert(d[i - start] == tok@[i as int]);
            assert(!spec_is_digit(d[i - start]));
            return None;
        }
        let dig: usize = (u - 48) as usize;
        let ghost next = tok@.subrange(start as int, i as int + 1);
        assert(next.drop_last() =~= tok@.subrange(start as int, i as int));
        assert(next.last() == tok@[i as int]);
        assert(digits_value(next) == digits_value(tok@.subrange(start as int, i as int)) * 10
            + dig);
        assert(d.subrange(0, i - start + 1) =~= next);
        let big = v.checked_mul(10);
        match big {
            None => {
                proof {
                    lemma_digits_value_prefix(d, i - start + 1);
                    assert(v * 10 > usize::MAX);
                    assert(digits_value(d) > max);
                }
                return None;
            },
            Some(w) => {
                let sum = w.checked_add(dig);
                match sum {
                    None => {
                        proof {
                            lemma_digits_value_prefix(d, i - start + 1);
                        }
                        return None;
                    },
                    Some(x) => {
                        if x > max {
                            proof {
                                lemma_digits_value_prefix(d, i - start + 1);
                            }
                            return None;
                        }
                        v = x;
                    },
                }
            },
        }
        i = i + 1;
    }
    assert(forall|k: int| 0 <= k < d.len() ==> spec_is_digit(#[trigger] d[k])) by {
        assert(forall|k: int| 0 <= k < d.len() ==> d[k] == tok@[k + start]);
    }
    assert(tok@.subrange(start as int, n as int) == d);
    Some(v)
}

} // verus!
