use vstd::prelude::*;

verus! {

/// True when `c` occurs nowhere in `s`.
pub open spec fn no_char(s: Seq<char>, c: char) -> bool {
    forall|i: int| 0 <= i < s.len() ==> s[i] != c
}

/// Index of the first occurrence of `c` in `s`, or -1 when `c` is absent.
pub open spec fn first_index(s: Seq<char>, c: char) -> int
    decreases s.len(),
{
    if s.len() == 0 {
        -1
    } else if s[0] == c {
        0
    } else {
        let r = first_index(s.subrange(1, s.len() as int), c);
        if r < 0 {
            -1
        } else {
            r + 1
        }
    }
}

pub proof fn lemma_first_index_props(s: Seq<char>, c: char)
    ensures
        first_index(s, c) == -1 ==> no_char(s, c),
        first_index(s, c) != -1 ==> 0 <= first_index(s, c) < s.len() && s[first_index(s, c)] == c
            && no_char(s.subrange(0, first_index(s, c)), c),
    decreases s.len(),
{
    if s.len() == 0 {
    } else if s[0] == c {
    } else {
        let t = s.subrange(1, s.len() as int);
        lemma_first_index_props(t, c);
        let r = first_index(t, c);
        if r < 0 {
            assert forall|i: int| 0 <= i < s.len() implies s[i] != c by {
                if i > 0 {
                    assert(t[i - 1] == s[i]);
                }
            }
        } else {
            assert forall|i: int| 0 <= i < r + 1 implies s[i] != c by {
                if i > 0 {
                    assert(t.subrange(0, r)[i - 1] == s[i]);
                }
            }
        }
    }
}

/// Where `u` is free of `c` and `v` begins with `c`, the first `c` of
/// `u + v` stands exactly at `u.len()`.
pub proof fn lemma_first_index_concat(u: Seq<char>, v: Seq<char>, c: char)
    requires
        no_char(u, c),
        v.len() > 0,
        v[0] == c,
    ensures
        first_index(u + v, c) == u.len(),
    decreases u.len(),
{
    let s = u + v;
    if u.len() == 0 {
        assert(s =~= v);
    } else {
        assert(s[0] == u[0]);
        assert(s.subrange(1, s.len() as int) =~= u.subrange(1, u.len() as int) + v);
        lemma_first_index_concat(u.subrange(1, u.len() as int), v, c);
    }
}

/// A concatenation of two texts free of `c` is free of `c`.
pub proof fn lemma_no_char_concat(a: Seq<char>, b: Seq<char>, c: char)
    requires
        no_char(a, c),
        no_char(b, c),
    ensures
        no_char(a + b, c),
{
    assert forall|i: int| 0 <= i < (a + b).len() implies (a + b)[i] != c by {
        if i < a.len() {
            assert((a + b)[i] == a[i]);
        } else {
            assert((a + b)[i] == b[i - a.len()]);
        }
    }
}

/// Where `s` is free of `c` everywhere, so is its first index.
pub proof fn lemma_first_index_absent(s: Seq<char>, c: char)
    requires
        no_char(s, c),
    ensures
        first_index(s, c) == -1,
{
    lemma_first_index_props(s, c);
}

/// First occurrence of `c` in `s`, scanning left to right.
pub fn find_char(s: &str, c: char) -> (r: Option<usize>)
    ensures
        match r {
            Some(i) => first_index(s@, c) == i,
            None => first_index(s@, c) == -1,
        },
{
    let n = s.unicode_len();
    let mut i: usize = 0;
    while i < n
        invariant
            n == s@.len(),
            0 <= i <= n,
            no_char(s@.subrange(0, i as int), c),
        decreases n - i,
    {
        let ch = s.get_char(i);
        if ch == c {
            proof {
                lemma_first_index_concat(
                    s@.subrange(0, i as int),
                    s@.subrange(i as int, n as int),
                    c,
                );
                assert(s@.subrange(0, i as int) + s@.subrange(i as int, n as int) =~= s@);
            }
            return Some(i);
        }
        proof {
            assert(s@.subrange(0, i + 1 as int) =~= s@.subrange(0, i as int).push(s@[i as int]));
        }
        i = i + 1;
    }
    proof {
        assert(s@.subrange(0, n as int) =~= s@);
        lemma_first_index_absent(s@, c);
    }
    None
}

/// True when `p` is an initial segment of `s`.
pub open spec fn is_prefix(p: Seq<char>, s: Seq<char>) -> bool {
    p.len() <= s.len() && p == s.subrange(0, p.len() as int)
}

/// Whether `s` begins with `p`.
pub fn has_prefix(s: &str, p: &str) -> (r: bool)
    ensures
        r == is_prefix(p@, s@),
{
    let np = p.unicode_len();
    let ns = s.unicode_len();
    if np > ns {
        return false;
    }
    let mut i: usize = 0;
    while i < np
        invariant
            np == p@.len(),
            ns == s@.len(),
            np <= ns,
            0 <= i <= np,
            p@.subrange(0, i as int) == s@.subrange(0, i as int),
        decreases np - i,
    {
        if s.get_char(i) != p.get_char(i) {
            proof {
                if is_prefix(p@, s@) {
                    assert(p@[i as int] == s@.subrange(0, np as int)[i as int]);
                }
            }
            return false;
        }
        proof {
            assert(p@.subrange(0, i + 1 as int) =~= p@.subrange(0, i as int).push(p@[i as int]));
            assert(s@.subrange(0, i + 1 as int) =~= s@.subrange(0, i as int).push(s@[i as int]));
        }
        i = i + 1;
    }
    proof {
        assert(p@.subrange(0, np as int) =~= p@);
    }
    true
}

/// Whether two text slices hold the same characters.
pub fn str_eq(a: &str, b: &str) -> (r: bool)
    ensures
        r == (a@ == b@),
{
    let na = a.unicode_len();
    let nb = b.unicode_len();
    if na != nb {
        return false;
    }
    let r = has_prefix(a, b);
    proof {
        assert(a@.subrange(0, a@.len() as int) =~= a@);
    }
    r
}

/// True for the ten decimal digit characters.
pub open spec fn is_digit(c: char) -> bool {
    48 <= c as u32 && c as u32 <= 57
}

/// True when `s` is made of decimal digits only.
pub open spec fn digits_only(s: Seq<char>) -> bool {
    forall|i: int| 0 <= i < s.len() ==> is_digit(s[i])
}

/// Whether every character of `s` is a decimal digit.
pub fn all_digits(s: &str) -> (r: bool)
    ensures
        r == digits_only(s@),
{
    let n = s.unicode_len();
    let mut i: usize = 0;
    while i < n
        invariant
            n == s@.len(),
            0 <= i <= n,
            forall|j: int| 0 <= j < i ==> is_digit(s@[j]),
        decreases n - i,
    {
        let ch = s.get_char(i);
        let u = ch as u32;
        if u < 48 || u > 57 {
            return false;
        }
        i = i + 1;
    }
    true
}

/// Characters allowed in schema, table and column names.
pub open spec fn is_name_char(c: char) -> bool {
    (97 <= c as u32 && c as u32 <= 122)  // 'a'..'z'
    || (65 <= c as u32 && c as u32 <= 90)  // 'A'..'Z'
    || is_digit(c) || c == '_'
}

/// True for a non-empty run of name characters.
pub open spec fn name_ok(s: Seq<char>) -> bool {
    s.len() > 0 && forall|i: int| 0 <= i < s.len() ==> is_name_char(s[i])
}

/// A prefix agrees with the text it begins, character by character.
pub proof fn lemma_prefix_char(p: Seq<char>, s: Seq<char>, i: int)
    requires
        is_prefix(p, s),
        0 <= i < p.len(),
    ensures
        s[i] == p[i],
{
    assert(p[i] == s.subrange(0, p.len() as int)[i]);
}

/// A name contains none of the grammar's separator characters.
pub proof fn lemma_name_char_free(s: Seq<char>)
    requires
        name_ok(s),
    ensures
        no_char(s, ' '),
        no_char(s, '.'),
        no_char(s, '('),
        no_char(s, ')'),
        no_char(s, '\n'),
{
    assert forall|i: int|
        0 <= i < s.len() implies s[i] != ' ' && s[i] != '.' && s[i] != '(' && s[i] != ')' && s[i]
        != '\n' by {
        assert(is_name_char(s[i]));
        assert((' ' as u32) == 32 && ('.' as u32) == 46 && ('(' as u32) == 40 && (')' as u32) == 41
            && ('\n' as u32) == 10 && ('_' as u32) == 95);
    }
}

/// Whether `s` is a usable schema, table or column name.
pub fn is_name(s: &str) -> (r: bool)
    ensures
        r == name_ok(s@),
{
    let n = s.unicode_len();
    if n == 0 {
        return false;
    }
    let mut i: usize = 0;
    while i < n
        invariant
            n == s@.len(),
            0 <= i <= n,
            forall|j: int| 0 <= j < i ==> is_name_char(s@[j]),
        decreases n - i,
    {
        let ch = s.get_char(i);
        let u = ch as u32;
        if !((97 <= u && u <= 122) || (65 <= u && u <= 90) || (48 <= u && u <= 57) || ch == '_') {
            return false;
        }
        i = i + 1;
    }
    true
}

/// A freshly allocated copy of the characters of `s` between `from` and `to`.
pub fn substring_copy(s: &str, from: usize, to: usize) -> (r: String)
    requires
        from <= to <= s@.len(),
    ensures
        r@ == s@.subrange(from as int, to as int),
{
    let piece = s.substring_char(from, to);
    String::from_str(piece)
}

} // verus!
