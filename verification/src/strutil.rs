//! Character-sequence utilities for the SIP and SDP wire grammar: first
//! occurrences of a separator, CRLF scanning, decimal numerals, and small
//! builders over `Vec<char>`, each tied to a spec-level definition.

use vstd::prelude::*;

verus! {

/// First index of `c` in `s`, or `-1`.
pub open spec fn index_of_char(s: Seq<char>, c: char) -> int
    decreases s.len(),
{
    if s.len() == 0 {
        -1
    } else if s[0] == c {
        0
    } else {
        let r = index_of_char(s.skip(1), c);
        if r < 0 {
            -1
        } else {
            r + 1
        }
    }
}

pub proof fn lemma_index_of_char_is_first(s: Seq<char>, c: char, i: int)
    requires
        0 <= i < s.len(),
        s[i] == c,
        forall|j: int| 0 <= j < i ==> s[j] != c,
    ensures
        index_of_char(s, c) == i,
    decreases i,
{
    if i > 0 {
        assert(forall|j: int| 0 <= j < i - 1 ==> #[trigger] s.skip(1)[j] == s[j + 1]);
        lemma_index_of_char_is_first(s.skip(1), c, i - 1);
    }
}

pub proof fn lemma_index_of_char_none(s: Seq<char>, c: char)
    requires
        forall|j: int| 0 <= j < s.len() ==> s[j] != c,
    ensures
        index_of_char(s, c) == -1,
    decreases s.len(),
{
    if s.len() > 0 {
        assert(forall|j: int| 0 <= j < s.len() - 1 ==> #[trigger] s.skip(1)[j] == s[j + 1]);
        lemma_index_of_char_none(s.skip(1), c);
    }
}

/// In `a + [c] + b` with `c` absent from `a`, the first `c` stands at
/// `a.len()`.
pub proof fn lemma_index_of_char_concat(a: Seq<char>, c: char, b: Seq<char>)
    requires
        forall|j: int| 0 <= j < a.len() ==> a[j] != c,
    ensures
        index_of_char(a + seq![c] + b, c) == a.len(),
{
    let s = a + seq![c] + b;
    assert(s[a.len() as int] == c);
    assert(forall|j: int| 0 <= j < a.len() ==> #[trigger] s[j] == a[j]);
    lemma_index_of_char_is_first(s, c, a.len() as int);
}

/// Whether a CRLF pair stands at position `i`.
pub open spec fn crlf_at(s: Seq<char>, i: int) -> bool {
    0 <= i && i + 1 < s.len() && s[i] == '\r' && s[i + 1] == '\n'
}

/// First index of a CRLF pair in `s`, or `-1`.
pub open spec fn find_crlf(s: Seq<char>) -> int
    decreases s.len(),
{
    if s.len() < 2 {
        -1
    } else if s[0] == '\r' && s[1] == '\n' {
        0
    } else {
        let r = find_crlf(s.skip(1));
        if r < 0 {
            -1
        } else {
            r + 1
        }
    }
}

pub proof fn lemma_find_crlf_is_first(s: Seq<char>, i: int)
    requires
        crlf_at(s, i),
        forall|j: int| 0 <= j < i ==> !crlf_at(s, j),
    ensures
        find_crlf(s) == i,
    decreases i,
{
    if i > 0 {
        assert(!crlf_at(s, 0));
        assert(forall|j: int| 0 <= j < s.len() - 1 ==> #[trigger] s.skip(1)[j] == s[j + 1]);
        assert forall|j: int| 0 <= j < i - 1 implies !crlf_at(s.skip(1), j) by {
            assert(!crlf_at(s, j + 1));
        }
        lemma_find_crlf_is_first(s.skip(1), i - 1);
    }
}

pub proof fn lemma_find_crlf_none(s: Seq<char>)
    requires
        forall|j: int| 0 <= j < s.len() ==> !crlf_at(s, j),
    ensures
        find_crlf(s) == -1,
    decreases s.len(),
{
    if s.len() >= 2 {
        assert(!crlf_at(s, 0));
        assert(forall|j: int| 0 <= j < s.len() - 1 ==> #[trigger] s.skip(1)[j] == s[j + 1]);
        assert forall|j: int| 0 <= j < s.skip(1).len() implies !crlf_at(s.skip(1), j) by {
            assert(!crlf_at(s, j + 1));
        }
        lemma_find_crlf_none(s.skip(1));
    }
}

/// A line free of carriage returns followed by CRLF and anything: the CRLF
/// that ends the line is the first one.
pub proof fn lemma_find_crlf_concat(line: Seq<char>, rest: Seq<char>)
    requires
        forall|j: int| 0 <= j < line.len() ==> line[j] != '\r',
    ensures
        find_crlf(line + seq!['\r', '\n'] + rest) == line.len(),
{
    let s = line + seq!['\r', '\n'] + rest;
    assert(s[line.len() as int] == '\r');
    assert(s[line.len() as int + 1] == '\n');
    assert(crlf_at(s, line.len() as int));
    assert(forall|j: int| 0 <= j < line.len() ==> #[trigger] s[j] == line[j]);
    lemma_find_crlf_is_first(s, line.len() as int);
}

/// Find the first CRLF at or after `start`; `None` when the tail holds none.
pub fn find_crlf_from(v: &Vec<char>, start: usize) -> (r: Option<usize>)
    requires
        start <= v.len(),
    ensures
        match r {
            Some(i) => start <= i && i as int + 1 < v.len() && i as int == start + find_crlf(
                v@.skip(start as int),
            ) && v@[i as int] == '\r' && v@[i as int + 1] == '\n',
            None => find_crlf(v@.skip(start as int)) == -1,
        },
{
    let ghost s = v@.skip(start as int);
    let mut i: usize = start;
    while i < v.len() && i + 1 < v.len()
        invariant
            start <= i <= v.len(),
            s == v@.skip(start as int),
            forall|j: int| 0 <= j < i - start ==> !crlf_at(s, j),
        decreases v.len() - i,
    {
        if v[i] == '\r' && v[i + 1] == '\n' {
            proof {
                assert(s[i - start] == v@[i as int]);
                assert(s[i - start + 1] == v@[i as int + 1]);
                lemma_find_crlf_is_first(s, i - start);
            }
            return Some(i);
        }
        proof {
            assert(s[i - start] == v@[i as int]);
            assert(i - start + 1 < s.len() ==> s[i - start + 1] == v@[i as int + 1]);
        }
        i = i + 1;
    }
    proof {
        assert(forall|j: int| 0 <= j < s.len() ==> !crlf_at(s, j));
        lemma_find_crlf_none(s);
    }
    None
}

/// A nonnegative result of [`find_crlf`] points at an actual CRLF pair.
pub proof fn lemma_find_crlf_found(s: Seq<char>)
    ensures
        find_crlf(s) >= 0 ==> crlf_at(s, find_crlf(s)),
    decreases s.len(),
{
    if s.len() >= 2 && !(s[0] == '\r' && s[1] == '\n') {
        lemma_find_crlf_found(s.skip(1));
        if find_crlf(s.skip(1)) >= 0 {
            let r = find_crlf(s.skip(1));
            assert(s.skip(1)[r] == s[r + 1]);
            assert(s.skip(1)[r + 1] == s[r + 2]);
        }
    }
}

/// Find the first occurrence of `c` at or after `start`.
pub fn find_char_from(v: &Vec<char>, start: usize, c: char) -> (r: Option<usize>)
    requires
        start <= v.len(),
    ensures
        match r {
            Some(i) => start <= i < v.len() && i as int == start + index_of_char(
                v@.skip(start as int),
                c,
            ) && v@[i as int] == c && (forall|j: int|
                start <= j < i ==> v@[j] != c),
            None => index_of_char(v@.skip(start as int), c) == -1,
        },
{
    let ghost s = v@.skip(start as int);
    let mut i: usize = start;
    while i < v.len()
        invariant
            start <= i <= v.len(),
            s == v@.skip(start as int),
            forall|j: int| 0 <= j < i - start ==> s[j] != c,
        decreases v.len() - i,
    {
        if v[i] == c {
            proof {
                assert(s[i - start] == v@[i as int]);
                lemma_index_of_char_is_first(s, c, i - start);
                assert forall|j: int| start <= j < i implies v@[j] != c by {
                    assert(s[j - start] == v@[j]);
                }
            }
            return Some(i);
        }
        proof {
            assert(s[i - start] == v@[i as int]);
        }
        i = i + 1;
    }
    proof {
        lemma_index_of_char_none(s, c);
    }
    None
}

/// Whether `v` holds exactly the characters of `s`.
pub fn chars_eq_str(v: &Vec<char>, s: &str) -> (r: bool)
    ensures
        r == (v@ == s@),
{
    let n = s.unicode_len();
    if v.len() != n {
        proof {
            assert(v@ != s@);
        }
        return false;
    }
    let mut i: usize = 0;
    while i < n
        invariant
            n == s@.len(),
            v@.len() == n,
            i <= n,
            forall|j: int| 0 <= j < i ==> v@[j] == s@[j],
        decreases n - i,
    {
        if v[i] != s.get_char(i) {
            proof {
                assert(v@[i as int] != s@[i as int]);
            }
            return false;
        }
        i = i + 1;
    }
    proof {
        assert(v@ =~= s@);
    }
    true
}

/// Whether `v[a..]` starts with the characters of `s`.
pub fn seg_eq(v: &Vec<char>, a: usize, s: &str) -> (r: bool)
    requires
        a <= v.len(),
    ensures
        r == (a + s@.len() <= v.len() && v@.subrange(a as int, a + s@.len()) == s@),
{
    let n = s.unicode_len();
    if v.len() - a < n {
        return false;
    }
    let mut i: usize = 0;
    while i < n
        invariant
            n == s@.len(),
            a + n <= v.len(),
            i <= n,
            forall|j: int| 0 <= j < i ==> v@[a + j] == s@[j],
        decreases n - i,
    {
        if v[a + i] != s.get_char(i) {
            proof {
                assert(v@.subrange(a as int, a + s@.len())[i as int] == v@[a + i]);
            }
            return false;
        }
        i = i + 1;
    }
    proof {
        assert(v@.subrange(a as int, a + s@.len()) =~= s@);
    }
    true
}

/// The value of a decimal digit character.
pub fn dec_val_exec(c: char) -> (r: Option<u8>)
    ensures
        match r {
            Some(d) => d as int == dec_char_val(c) && d <= 9,
            None => dec_char_val(c) == -1,
        },
{
    if c == '0' {
        Some(0)
    } else if c == '1' {
        Some(1)
    } else if c == '2' {
        Some(2)
    } else if c == '3' {
        Some(3)
    } else if c == '4' {
        Some(4)
    } else if c == '5' {
        Some(5)
    } else if c == '6' {
        Some(6)
    } else if c == '7' {
        Some(7)
    } else if c == '8' {
        Some(8)
    } else if c == '9' {
        Some(9)
    } else {
        None
    }
}

/// Find the first occurrence of `c` in `v`.
pub fn find_char(v: &Vec<char>, c: char) -> (r: Option<usize>)
    ensures
        match r {
            Some(i) => i as int == index_of_char(v@, c) && i < v.len() && v@[i as int] == c
                && (forall|j: int| 0 <= j < i ==> v@[j] != c),
            None => index_of_char(v@, c) == -1,
        },
{
    let mut i: usize = 0;
    while i < v.len()
        invariant
            i <= v.len(),
            forall|j: int| 0 <= j < i ==> v@[j] != c,
        decreases v.len() - i,
    {
        if v[i] == c {
            proof {
                lemma_index_of_char_is_first(v@, c, i as int);
            }
            return Some(i);
        }
        i = i + 1;
    }
    proof {
        lemma_index_of_char_none(v@, c);
    }
    None
}

/// Whether `pat` stands at position `i` of `s`.
pub open spec fn subseq_at(s: Seq<char>, pat: Seq<char>, i: int) -> bool {
    0 <= i && i + pat.len() <= s.len() && s.subrange(i, i + pat.len()) == pat
}

/// First position of `pat` in `s`, or `-1`.
pub open spec fn find_subseq(s: Seq<char>, pat: Seq<char>) -> int
    decreases s.len(),
{
    if pat.len() == 0 {
        0
    } else if s.len() < pat.len() {
        -1
    } else if s.take(pat.len() as int) == pat {
        0
    } else {
        let r = find_subseq(s.skip(1), pat);
        if r < 0 {
            -1
        } else {
            r + 1
        }
    }
}

pub open spec fn contains_subseq(s: Seq<char>, pat: Seq<char>) -> bool {
    find_subseq(s, pat) >= 0
}

proof fn lemma_find_subseq_is_first(s: Seq<char>, pat: Seq<char>, i: int)
    requires
        subseq_at(s, pat, i),
        forall|j: int| 0 <= j < i ==> !subseq_at(s, pat, j),
    ensures
        find_subseq(s, pat) == i,
    decreases i,
{
    if i == 0 {
        assert(s.take(pat.len() as int) =~= s.subrange(0, pat.len() as int));
    } else {
        assert(!subseq_at(s, pat, 0));
        if pat.len() == 0 {
            assert(s.subrange(0, 0) =~= pat);
            assert(false);
        }
        if s.take(pat.len() as int) == pat {
            assert(s.subrange(0, pat.len() as int) =~= s.take(pat.len() as int));
            assert(false);
        }
        assert(s.skip(1).subrange(i - 1, i - 1 + pat.len()) =~= s.subrange(i, i + pat.len()));
        assert(subseq_at(s.skip(1), pat, i - 1));
        assert forall|j: int| 0 <= j < i - 1 implies !subseq_at(s.skip(1), pat, j) by {
            if subseq_at(s.skip(1), pat, j) {
                assert(s.subrange(j + 1, j + 1 + pat.len()) =~= s.skip(1).subrange(
                    j,
                    j + pat.len(),
                ));
                assert(subseq_at(s, pat, j + 1));
            }
        }
        lemma_find_subseq_is_first(s.skip(1), pat, i - 1);
    }
}

proof fn lemma_find_subseq_none(s: Seq<char>, pat: Seq<char>)
    requires
        forall|j: int| 0 <= j <= s.len() - pat.len() ==> !subseq_at(s, pat, j),
    ensures
        find_subseq(s, pat) == -1,
    decreases s.len(),
{
    if pat.len() == 0 {
        assert(s.subrange(0, 0) =~= pat);
        assert(subseq_at(s, pat, 0));
        assert(false);
    } else if s.len() >= pat.len() {
        if s.take(pat.len() as int) == pat {
            assert(s.subrange(0, pat.len() as int) =~= s.take(pat.len() as int));
            assert(subseq_at(s, pat, 0));
            assert(false);
        }
        assert forall|j: int|
            0 <= j <= s.skip(1).len() - pat.len() implies !subseq_at(s.skip(1), pat, j) by {
            if subseq_at(s.skip(1), pat, j) {
                assert(s.subrange(j + 1, j + 1 + pat.len()) =~= s.skip(1).subrange(
                    j,
                    j + pat.len(),
                ));
                assert(subseq_at(s, pat, j + 1));
            }
        }
        lemma_find_subseq_none(s.skip(1), pat);
    }
}

/// Find the first occurrence of the characters of `pat` in `v`.
pub fn find_str_sub(v: &Vec<char>, pat: &str) -> (r: Option<usize>)
    requires
        pat@.len() >= 1,
    ensures
        match r {
            Some(i) => i as int == find_subseq(v@, pat@) && i + pat@.len() <= v@.len(),
            None => find_subseq(v@, pat@) == -1,
        },
{
    let m = pat.unicode_len();
    if v.len() < m {
        proof {
            lemma_find_subseq_none(v@, pat@);
        }
        return None;
    }
    let mut i: usize = 0;
    while i <= v.len() - m
        invariant
            m == pat@.len(),
            1 <= m <= v.len(),
            i <= v.len() - m + 1,
            forall|j: int| 0 <= j < i ==> !subseq_at(v@, pat@, j),
        decreases v.len() - i,
    {
        let mut k: usize = 0;
        let mut ok: bool = true;
        while k < m
            invariant
                m == pat@.len(),
                i + m <= v.len(),
                k <= m,
                ok <==> (forall|q: int| 0 <= q < k ==> v@[i + q] == pat@[q]),
            decreases m - k,
        {
            if v[i + k] != pat.get_char(k) {
                ok = false;
                proof {
                    assert(v@[i as int + k as int] != pat@[k as int]);
                }
                k = m;
            } else {
                k = k + 1;
            }
        }
        if ok {
            proof {
                assert(v@.subrange(i as int, i + pat@.len()) =~= pat@);
                lemma_find_subseq_is_first(v@, pat@, i as int);
            }
            return Some(i);
        }
        proof {
            if subseq_at(v@, pat@, i as int) {
                let q = choose|q: int| 0 <= q < m && v@[i + q] != pat@[q];
                assert(v@.subrange(i as int, i + pat@.len())[q] == v@[i + q]);
            }
        }
        i = i + 1;
    }
    proof {
        lemma_find_subseq_none(v@, pat@);
    }
    None
}

/// Copy of `v[a..b]`.
pub fn subvec(v: &Vec<char>, a: usize, b: usize) -> (r: Vec<char>)
    requires
        a <= b <= v.len(),
    ensures
        r@ == v@.subrange(a as int, b as int),
{
    let mut r: Vec<char> = Vec::new();
    let mut i: usize = a;
    while i < b
        invariant
            a <= i <= b <= v.len(),
            r@ == v@.subrange(a as int, i as int),
        decreases b - i,
    {
        r.push(v[i]);
        proof {
            assert(r@ =~= v@.subrange(a as int, i + 1));
        }
        i = i + 1;
    }
    r
}

/// Append a copy of `src` to `dst`.
pub fn push_chars(dst: &mut Vec<char>, src: &Vec<char>)
    ensures
        final(dst)@ == old(dst)@ + src@,
{
    let mut i: usize = 0;
    while i < src.len()
        invariant
            i <= src.len(),
            dst@ == old(dst)@ + src@.take(i as int),
        decreases src.len() - i,
    {
        dst.push(src[i]);
        proof {
            assert(old(dst)@ + src@.take(i as int + 1) =~= (old(dst)@ + src@.take(i as int)).push(
                src@[i as int],
            ));
        }
        i = i + 1;
    }
    proof {
        assert(src@.take(src@.len() as int) =~= src@);
    }
}

/// Append the characters of a literal to `dst`.
pub fn push_str(dst: &mut Vec<char>, s: &str)
    ensures
        final(dst)@ == old(dst)@ + s@,
{
    let n = s.unicode_len();
    let mut i: usize = 0;
    while i < n
        invariant
            n == s@.len(),
            i <= n,
            dst@ == old(dst)@ + s@.take(i as int),
        decreases n - i,
    {
        dst.push(s.get_char(i));
        proof {
            assert(old(dst)@ + s@.take(i as int + 1) =~= (old(dst)@ + s@.take(i as int)).push(
                s@[i as int],
            ));
        }
        i = i + 1;
    }
    proof {
        assert(s@.take(s@.len() as int) =~= s@);
    }
}

/// The characters of a literal as a vector.
pub fn str_chars(s: &str) -> (r: Vec<char>)
    ensures
        r@ == s@,
{
    let mut r: Vec<char> = Vec::new();
    push_str(&mut r, s);
    r
}

/// The decimal numeral of `n`, most significant digit first.
pub open spec fn dec_digits(n: nat) -> Seq<char>
    decreases n,
{
    if n < 10 {
        seq![dec_digit_char(n)]
    } else {
        dec_digits(n / 10).push(dec_digit_char(n % 10))
    }
}

pub open spec fn dec_digit_char(d: nat) -> char {
    if d == 0 {
        '0'
    } else if d == 1 {
        '1'
    } else if d == 2 {
        '2'
    } else if d == 3 {
        '3'
    } else if d == 4 {
        '4'
    } else if d == 5 {
        '5'
    } else if d == 6 {
        '6'
    } else if d == 7 {
        '7'
    } else if d == 8 {
        '8'
    } else {
        '9'
    }
}

/// The value of a decimal digit character, or `-1`.
pub open spec fn dec_char_val(c: char) -> int {
    if c == '0' {
        0
    } else if c == '1' {
        1
    } else if c == '2' {
        2
    } else if c == '3' {
        3
    } else if c == '4' {
        4
    } else if c == '5' {
        5
    } else if c == '6' {
        6
    } else if c == '7' {
        7
    } else if c == '8' {
        8
    } else if c == '9' {
        9
    } else {
        -1
    }
}

pub open spec fn is_dec_digit(c: char) -> bool {
    dec_char_val(c) >= 0
}

/// The number a digit string denotes.
pub open spec fn dec_value(s: Seq<char>) -> int
    decreases s.len(),
{
    if s.len() == 0 {
        0
    } else {
        dec_value(s.drop_last()) * 10 + dec_char_val(s.last())
    }
}

pub open spec fn all_dec_digits(s: Seq<char>) -> bool {
    forall|j: int| 0 <= j < s.len() ==> is_dec_digit(s[j])
}

/// Numerals evaluate back to their number.
pub proof fn lemma_dec_digits_value(n: nat)
    ensures
        dec_value(dec_digits(n)) == n,
        all_dec_digits(dec_digits(n)),
        1 <= dec_digits(n).len(),
        dec_digits(n)[0] != '0' || n < 10,
    decreases n,
{
    if n < 10 {
        let s = dec_digits(n);
        assert(s =~= seq![dec_digit_char(n)]);
        assert(s.drop_last() =~= Seq::<char>::empty());
        assert(dec_value(s) == dec_value(s.drop_last()) * 10 + dec_char_val(s.last()));
        assert(dec_char_val(dec_digit_char(n)) == n);
    } else {
        lemma_dec_digits_value(n / 10);
        let s = dec_digits(n);
        assert(s.drop_last() =~= dec_digits(n / 10));
        assert(s.last() == dec_digit_char(n % 10));
        assert(dec_char_val(dec_digit_char(n % 10)) == n % 10);
        assert(dec_value(s) == dec_value(s.drop_last()) * 10 + dec_char_val(s.last()));
        assert(dec_value(s) == (n / 10) * 10 + n % 10);
        vstd::arithmetic::div_mod::lemma_fundamental_div_mod(n as int, 10);
        assert((n / 10) as int == n as int / 10);
        assert((n % 10) as int == n as int % 10);
        assert(dec_value(s) == n);
        assert(forall|j: int|
            0 <= j < s.len() - 1 ==> #[trigger] s[j] == dec_digits(n / 10)[j]);
        assert(s[0] == dec_digits(n / 10)[0]);
    }
}

/// Render `n` in decimal.
pub fn u64_to_chars(n: u64) -> (r: Vec<char>)
    ensures
        r@ == dec_digits(n as nat),
{
    let mut rev: Vec<char> = Vec::new();
    let mut m: u64 = n;
    if m == 0 {
        let mut r: Vec<char> = Vec::new();
        r.push('0');
        proof {
            assert(r@ =~= dec_digits(0));
        }
        return r;
    }
    while m > 0
        invariant
            m <= n,
            m > 0 || rev.len() > 0,
            dec_digits(n as nat) =~= dec_digits_partial(m as nat, rev@),
        decreases m,
    {
        let d: u64 = m % 10;
        rev.push(dec_digit_char_exec(d as u8));
        m = m / 10;
        proof {
            if m > 0 {
                assert(dec_digits(m as nat * 10 + d as nat) =~= dec_digits(m as nat).push(
                    dec_digit_char(d as nat),
                ));
            }
        }
    }
    let mut r: Vec<char> = Vec::new();
    let mut i: usize = rev.len();
    while i > 0
        invariant
            i <= rev.len(),
            r@ == rev@.skip(i as int).reverse(),
        decreases i,
    {
        i = i - 1;
        r.push(rev[i]);
        proof {
            assert(r@ =~= rev@.skip(i as int).reverse());
        }
    }
    proof {
        assert(rev@.skip(0) =~= rev@);
        assert(dec_digits(n as nat) =~= rev@.reverse());
    }
    r
}

/// The numeral of `m` followed by the (reversed) digits already peeled off:
/// the loop invariant shape of decimal rendering.
pub open spec fn dec_digits_partial(m: nat, rev: Seq<char>) -> Seq<char> {
    if m == 0 {
        rev.reverse()
    } else {
        dec_digits(m) + rev.reverse()
    }
}

pub fn dec_digit_char_exec(d: u8) -> (c: char)
    requires
        d <= 9,
    ensures
        c == dec_digit_char(d as nat),
{
    if d == 0 {
        '0'
    } else if d == 1 {
        '1'
    } else if d == 2 {
        '2'
    } else if d == 3 {
        '3'
    } else if d == 4 {
        '4'
    } else if d == 5 {
        '5'
    } else if d == 6 {
        '6'
    } else if d == 7 {
        '7'
    } else if d == 8 {
        '8'
    } else {
        '9'
    }
}

/// Parse a nonempty all-digit string; `None` on anything else or on
/// overflow past `u64`.
pub fn parse_u64(v: &Vec<char>) -> (r: Option<u64>)
    ensures
        match r {
            Some(n) => v@.len() > 0 && all_dec_digits(v@) && n as int == dec_value(v@) && dec_value(
                v@,
            ) <= u64::MAX,
            None => v@.len() == 0 || !all_dec_digits(v@) || dec_value(v@) > u64::MAX,
        },
{
    if v.len() == 0 {
        return None;
    }
    let mut acc: u64 = 0;
    let mut i: usize = 0;
    while i < v.len()
        invariant
            i <= v.len(),
            all_dec_digits(v@.take(i as int)),
            acc as int == dec_value(v@.take(i as int)),
        decreases v.len() - i,
    {
        let c = v[i];
        let d: u64 = if c == '0' {
            0
        } else if c == '1' {
            1
        } else if c == '2' {
            2
        } else if c == '3' {
            3
        } else if c == '4' {
            4
        } else if c == '5' {
            5
        } else if c == '6' {
            6
        } else if c == '7' {
            7
        } else if c == '8' {
            8
        } else if c == '9' {
            9
        } else {
            proof {
                assert(!is_dec_digit(v@[i as int]));
                assert(v@.take(v@.len() as int) =~= v@);
                lemma_dec_value_prefix_monotone(v@, i as int);
            }
            return None;
        };
        if acc > (u64::MAX - d) / 10 {
            proof {
                assert(v@.take(i as int + 1).drop_last() =~= v@.take(i as int));
                assert(dec_value(v@.take(i as int + 1)) == acc as int * 10 + d);
                assert(acc as int * 10 + d > u64::MAX) by (nonlinear_arith)
                    requires
                        acc as int > (u64::MAX as int - d) / 10,
                        0 <= d <= 9,
                ;
                assert(v@.take(v@.len() as int) =~= v@);
                lemma_dec_value_prefix_monotone(v@, i as int + 1);
            }
            return None;
        }
        proof {
            assert(acc as int * 10 + d <= u64::MAX) by (nonlinear_arith)
                requires
                    acc as int <= (u64::MAX as int - d) / 10,
                    0 <= d <= 9,
            ;
            assert(v@.take(i as int + 1).drop_last() =~= v@.take(i as int));
        }
        acc = acc * 10 + d;
        i = i + 1;
    }
    proof {
        assert(v@.take(v@.len() as int) =~= v@);
    }
    Some(acc)
}

/// If a proper prefix already fails (a non-digit, or a value past `u64`),
/// the whole string fails the same way.
pub proof fn lemma_dec_value_prefix_monotone(s: Seq<char>, i: int)
    requires
        0 <= i <= s.len(),
    ensures
        !all_dec_digits(s.take(i)) ==> !all_dec_digits(s),
        all_dec_digits(s) && dec_value(s.take(i)) > u64::MAX ==> dec_value(s) > u64::MAX,
    decreases s.len() - i,
{
    if !all_dec_digits(s.take(i)) {
        let j = choose|j: int| 0 <= j < i && !is_dec_digit(#[trigger] s.take(i)[j]);
        assert(s[j] == s.take(i)[j]);
    }
    if all_dec_digits(s) && i < s.len() {
        if dec_value(s.take(i)) > u64::MAX {
            assert(s.take(i + 1).drop_last() =~= s.take(i));
            assert(dec_value(s.take(i + 1)) == dec_value(s.take(i)) * 10 + dec_char_val(
                s[i],
            ));
            assert(dec_value(s.take(i)) * 10 >= dec_value(s.take(i))) by (nonlinear_arith)
                requires
                    dec_value(s.take(i)) >= 0,
            ;
            assert(dec_char_val(s[i]) >= 0);
            lemma_dec_value_nonneg(s.take(i));
            lemma_dec_value_prefix_monotone(s, i + 1);
        }
    }
    if i == s.len() {
        assert(s.take(i) =~= s);
    }
}

pub proof fn lemma_dec_value_nonneg(s: Seq<char>)
    requires
        all_dec_digits(s),
    ensures
        dec_value(s) >= 0,
    decreases s.len(),
{
    if s.len() > 0 {
        assert(forall|j: int| 0 <= j < s.len() - 1 ==> #[trigger] s.drop_last()[j] == s[j]);
        lemma_dec_value_nonneg(s.drop_last());
        assert(is_dec_digit(s.last()));
        assert(dec_value(s.drop_last()) * 10 >= 0) by (nonlinear_arith)
            requires
                dec_value(s.drop_last()) >= 0,
        ;
    }
}

} // verus!
