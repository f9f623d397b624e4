//! Verified string scans shared by the occurrence expander and the
//! placeholder engine: prefix and equality tests, trimming, whitespace
//! field scans, decimal parsing, substring search and replacement.

use vstd::prelude::*;

verus! {

/// The whitespace characters recognized between fields of a schedule
/// expression.
pub open spec fn char_is_space(c: char) -> bool {
    c == ' ' || c == '\t' || c == '\n' || c == '\r'
}

fn is_space_char(c: char) -> (r: bool)
    ensures
        r == char_is_space(c),
{
    c == ' ' || c == '\t' || c == '\n' || c == '\r'
}

/// Whether two string slices hold the same characters.
pub fn str_eq(a: &str, b: &str) -> (r: bool)
    ensures
        r == (a@ == b@),
{
    let na = a.unicode_len();
    let nb = b.unicode_len();
    if na != nb {
        proof {
            assert(a@ != b@) by {
                assert(a@.len() != b@.len());
            }
        }
        return false;
    }
    let mut i: usize = 0;
    while i < na
        invariant
            na == a@.len() && na == b@.len(),
            i <= na,
            forall|k: int| 0 <= k < i ==> a@[k] == b@[k],
        decreases na - i,
    {
        if a.get_char(i) != b.get_char(i) {
            return false;
        }
        i = i + 1;
    }
    proof {
        assert(a@ =~= b@);
    }
    true
}

/// Whether `s` begins with the characters of `p`.
pub fn has_prefix(s: &str, p: &str) -> (r: bool)
    ensures
        r == (s@.len() >= p@.len() && s@.take(p@.len() as int) == p@),
{
    let n = s.unicode_len();
    let m = p.unicode_len();
    if n < m {
        return false;
    }
    let mut i: usize = 0;
    while i < m
        invariant
            n == s@.len() && m == p@.len() && m <= n,
            i <= m,
            forall|k: int| 0 <= k < i ==> s@[k] == p@[k],
        decreases m - i,
    {
        if s.get_char(i) != p.get_char(i) {
            proof {
                assert(s@.take(m as int)[i as int] != p@[i as int]);
            }
            return false;
        }
        i = i + 1;
    }
    proof {
        assert(s@.take(m as int) =~= p@);
    }
    true
}

/// `s` with leading whitespace removed.
pub open spec fn spec_trim_front(s: Seq<char>) -> Seq<char>
    decreases s.len(),
{
    if s.len() > 0 && char_is_space(s[0]) {
        spec_trim_front(s.drop_first())
    } else {
        s
    }
}

/// `s` with trailing whitespace removed.
pub open spec fn spec_trim_back(s: Seq<char>) -> Seq<char>
    decreases s.len(),
{
    if s.len() > 0 && char_is_space(s.last()) {
        spec_trim_back(s.drop_last())
    } else {
        s
    }
}

/// `s` with leading and trailing whitespace removed.
pub open spec fn spec_trim(s: Seq<char>) -> Seq<char> {
    spec_trim_back(spec_trim_front(s))
}

proof fn lemma_trim_front_skip(s: Seq<char>, i: int)
    requires
        0 <= i <= s.len(),
        forall|k: int| 0 <= k < i ==> char_is_space(s[k]),
    ensures
        spec_trim_front(s) == spec_trim_front(s.skip(i)),
    decreases i,
{
    if i > 0 {
        assert(char_is_space(s[0]));
        assert(s.drop_first() =~= s.skip(1));
        lemma_trim_front_skip(s.skip(1), i - 1);
        assert(s.skip(1).skip(i - 1) =~= s.skip(i));
    } else {
        assert(s.skip(0) =~= s);
    }
}

proof fn lemma_trim_back_take(s: Seq<char>, i: int)
    requires
        0 <= i <= s.len(),
        forall|k: int| i <= k < s.len() ==> char_is_space(s[k]),
    ensures
        spec_trim_back(s) == spec_trim_back(s.take(i)),
    decreases s.len() - i,
{
    if i < s.len() {
        assert(char_is_space(s.last()));
        assert(s.drop_last() =~= s.take(s.len() - 1));
        lemma_trim_back_take(s.take(s.len() - 1), i);
        assert(s.take(s.len() - 1).take(i) =~= s.take(i));
    } else {
        assert(s.take(s.len() as int) =~= s);
    }
}

/// The trimmed slice of `s`.
pub fn trim(s: &str) -> (r: &str)
    ensures
        r@ == spec_trim(s@),
{
    let n = s.unicode_len();
    let mut a: usize = 0;
    while a < n && is_space_char(s.get_char(a))
        invariant
            n == s@.len(),
            a <= n,
            forall|k: int| 0 <= k < a ==> char_is_space(s@[k]),
        decreases n - a,
    {
        a = a + 1;
    }
    let mut b: usize = n;
    while b > a && is_space_char(s.get_char(b - 1))
        invariant
            n == s@.len(),
            a <= b <= n,
            forall|k: int| b <= k < n ==> char_is_space(s@[k]),
        decreases b,
    {
        b = b - 1;
    }
    proof {
        lemma_trim_front_skip(s@, a as int);
        if a < n && !char_is_space(s@[a as int]) {
            // the front scan stopped at a non-space character
        }
        let t = s@.skip(a as int);
        assert(spec_trim_front(t) == t) by {
            if t.len() > 0 && char_is_space(t[0]) {
                assert(s@[a as int] == t[0]);
                assert(a < n);
                assert(false);
            }
        }
        lemma_trim_back_take(t, b - a);
        assert(s@.subrange(a as int, b as int) =~= t.take(b - a));
        let u = t.take(b - a);
        assert(spec_trim_back(u) == u) by {
            if u.len() > 0 && char_is_space(u.last()) {
                assert(u.last() == s@[b - 1]);
                assert(b > a);
                assert(false);
            }
        }
    }
    s.substring_char(a, b)
}

/// The number of whitespace-separated fields of `s` from index `i` on,
/// given whether index `i` sits inside a field.
pub open spec fn count_fields_from(s: Seq<char>, i: int, in_field: bool) -> int
    decreases s.len() - i,
{
    if i < 0 || i >= s.len() {
        0
    } else if char_is_space(s[i]) {
        count_fields_from(s, i + 1, false)
    } else {
        (if in_field {
            0int
        } else {
            1int
        }) + count_fields_from(s, i + 1, true)
    }
}

/// The number of whitespace-separated fields of `s`.
pub open spec fn spec_count_fields(s: Seq<char>) -> int {
    count_fields_from(s, 0, false)
}

proof fn lemma_count_fields_nonneg(s: Seq<char>, i: int, in_field: bool)
    ensures
        count_fields_from(s, i, in_field) >= 0,
    decreases s.len() - i,
{
    if 0 <= i < s.len() {
        lemma_count_fields_nonneg(s, i + 1, !char_is_space(s[i]));
        if !char_is_space(s[i]) {
            lemma_count_fields_nonneg(s, i + 1, true);
        }
    }
}

/// Counts the whitespace-separated fields of `s`.
pub fn count_fields(s: &str) -> (r: usize)
    ensures
        r == spec_count_fields(s@),
{
    let n = s.unicode_len();
    let mut i: usize = 0;
    let mut in_field = false;
    let mut count: usize = 0;
    proof {
        lemma_count_fields_nonneg(s@, 0, false);
    }
    while i < n
        invariant
            n == s@.len(),
            i <= n,
            count <= i,
            spec_count_fields(s@) == count + count_fields_from(s@, i as int, in_field),
            count_fields_from(s@, i as int, in_field) >= 0,
        decreases n - i,
    {
        if is_space_char(s.get_char(i)) {
            in_field = false;
        } else {
            if !in_field {
                count = count + 1;
            }
            in_field = true;
        }
        proof {
            lemma_count_fields_nonneg(s@, i as int + 1, in_field);
        }
        i = i + 1;
    }
    count
}

/// The first index at or after `i` that does not hold whitespace.
pub open spec fn spec_skip_spaces(s: Seq<char>, i: int) -> int
    decreases s.len() - i,
{
    if 0 <= i < s.len() && char_is_space(s[i]) {
        spec_skip_spaces(s, i + 1)
    } else {
        i
    }
}

/// The first index at or after `i` that holds whitespace (or the length).
pub open spec fn spec_next_space(s: Seq<char>, i: int) -> int
    decreases s.len() - i,
{
    if 0 <= i < s.len() && !char_is_space(s[i]) {
        spec_next_space(s, i + 1)
    } else {
        i
    }
}

/// Advances past whitespace.
pub fn skip_spaces(s: &str, from: usize) -> (r: usize)
    requires
        from <= s@.len(),
    ensures
        r == spec_skip_spaces(s@, from as int),
        from <= r <= s@.len(),
{
    let n = s.unicode_len();
    let mut i: usize = from;
    while i < n && is_space_char(s.get_char(i))
        invariant
            n == s@.len(),
            from <= i <= n,
            spec_skip_spaces(s@, from as int) == spec_skip_spaces(s@, i as int),
        decreases n - i,
    {
        i = i + 1;
    }
    i
}

/// Advances to the next whitespace (or the end).
pub fn next_space(s: &str, from: usize) -> (r: usize)
    requires
        from <= s@.len(),
    ensures
        r == spec_next_space(s@, from as int),
        from <= r <= s@.len(),
{
    let n = s.unicode_len();
    let mut i: usize = from;
    while i < n && !is_space_char(s.get_char(i))
        invariant
            n == s@.len(),
            from <= i <= n,
            spec_next_space(s@, from as int) == spec_next_space(s@, i as int),
        decreases n - i,
    {
        i = i + 1;
    }
    i
}

/// Whether `c` is a decimal digit.
pub open spec fn char_is_digit(c: char) -> bool {
    48 <= (c as u32) <= 57
}

/// The numeric value of a digit (0 for any other character).
pub open spec fn char_digit(c: char) -> int {
    if char_is_digit(c) {
        (c as u32) - 48
    } else {
        0
    }
}

/// Whether every character of `s` is a decimal digit.
pub open spec fn all_digits(s: Seq<char>) -> bool {
    forall|k: int| 0 <= k < s.len() ==> char_is_digit(#[trigger] s[k])
}

/// The value of a string of decimal digits.
pub open spec fn digits_val(s: Seq<char>) -> int
    decreases s.len(),
{
    if s.len() == 0 {
        0
    } else {
        digits_val(s.drop_last()) * 10 + char_digit(s.last())
    }
}

proof fn lemma_digits_val_nonneg(s: Seq<char>)
    ensures
        digits_val(s) >= 0,
    decreases s.len(),
{
    if s.len() > 0 {
        lemma_digits_val_nonneg(s.drop_last());
    }
}

proof fn lemma_digits_val_prefix(s: Seq<char>, i: int)
    requires
        0 <= i <= s.len(),
    ensures
        digits_val(s) >= digits_val(s.take(i)),
    decreases s.len() - i,
{
    if i < s.len() {
        lemma_digits_val_prefix(s, i + 1);
        assert(s.take(i + 1).drop_last() =~= s.take(i));
        lemma_digits_val_nonneg(s.take(i));
        assert(digits_val(s.take(i + 1)) == digits_val(s.take(i)) * 10 + char_digit(s.take(i + 1).last()));
        assert(char_digit(s.take(i + 1).last()) >= 0);
    } else {
        assert(s.take(i) =~= s);
    }
}

/// What parsing `s` as an unsigned decimal number yields: the value of
/// the digits (after an optional leading `+`), or `None` when a
/// character is not a digit, there are no digits, or the value does not
/// fit.
pub open spec fn parse_body(s: Seq<char>) -> Seq<char> {
    if s.len() > 0 && s[0] == '+' {
        s.drop_first()
    } else {
        s
    }
}

pub open spec fn spec_parse_u32(s: Seq<char>) -> Option<u32> {
    if parse_body(s).len() == 0 || !all_digits(parse_body(s)) || digits_val(parse_body(s))
        > u32::MAX {
        None
    } else {
        Some(digits_val(parse_body(s)) as u32)
    }
}

/// Parses `s` as an unsigned decimal number.
pub fn parse_u32(s: &str) -> (r: Option<u32>)
    ensures
        r == spec_parse_u32(s@),
{
    let n = s.unicode_len();
    let start: usize = if n > 0 && s.get_char(0) == '+' {
        1
    } else {
        0
    };
    let ghost body = parse_body(s@);
    proof {
        assert(body =~= s@.skip(start as int));
    }
    if n == start {
        return None;
    }
    let mut i: usize = start;
    let mut acc: u64 = 0;
    while i < n
        invariant
            n == s@.len(),
            start <= i <= n,
            body == parse_body(s@),
            body == s@.skip(start as int),
            acc == digits_val(body.take(i - start)),
            acc <= u32::MAX,
            all_digits(body.take(i - start)),
        decreases n - i,
    {
        let c = s.get_char(i);
        let cv = c as u32;
        let ghost j: int = i - start;
        proof {
            assert(body[j] == s@[i as int]);
        }
        if cv < 48 || cv > 57 {
            proof {
                assert(!char_is_digit(body[j]));
                assert(!all_digits(body));
            }
            return None;
        }
        let d = (cv - 48) as u64;
        acc = acc * 10 + d;
        proof {
            assert(char_is_digit(body[j]));
            assert(char_digit(body[j]) == d);
            assert(body.take(j + 1).drop_last() =~= body.take(j as int));
            assert(body.take(j + 1).last() == body[j]);
            assert(acc == digits_val(body.take(j + 1)));
            assert forall|k: int| 0 <= k < j + 1 implies char_is_digit(#[trigger] body.take(j + 1)[k]) by {
                if k < j {
                    assert(body.take(j + 1)[k] == body.take(j as int)[k]);
                } else {
                    assert(body.take(j + 1)[k] == body[j]);
                }
            }
            assert(all_digits(body.take(j + 1)));
        }
        i = i + 1;
        if acc > u32::MAX as u64 {
            proof {
                lemma_digits_val_prefix(body, j + 1);
                assert(digits_val(body) >= digits_val(body.take(j + 1)));
                assert(digits_val(body) > u32::MAX);
            }
            return None;
        }
    }
    proof {
        assert(body.take(n - start) =~= body);
    }
    Some(acc as u32)
}

/// Whether `pat` occurs in `s` starting at index `k`.
pub open spec fn match_at(s: Seq<char>, pat: Seq<char>, k: int) -> bool {
    0 <= k && k + pat.len() <= s.len() && s.subrange(k, k + pat.len()) == pat
}

/// Whether `pat` occurs anywhere in `s`.
pub open spec fn has_substring(s: Seq<char>, pat: Seq<char>) -> bool {
    exists|k: int| match_at(s, pat, k)
}

/// Whether the characters of `pat` occur contiguously in `s`.
pub fn contains_str(s: &str, pat: &str) -> (r: bool)
    ensures
        r == has_substring(s@, pat@),
{
    let n = s.unicode_len();
    let m = pat.unicode_len();
    if m > n {
        proof {
            assert forall|k: int| !match_at(s@, pat@, k) by {}
        }
        return false;
    }
    if m == 0 {
        proof {
            assert(s@.subrange(0, 0) =~= pat@);
            assert(match_at(s@, pat@, 0));
        }
        return true;
    }
    let mut k: usize = 0;
    while k <= n - m
        invariant
            n == s@.len(),
            m == pat@.len(),
            1 <= m <= n,
            k <= n - m + 1,
            forall|q: int| 0 <= q < k ==> !match_at(s@, pat@, q),
        decreases n - m - k + 1,
    {
        let mut j: usize = 0;
        let mut ok = true;
        while j < m
            invariant
                n == s@.len(),
                m == pat@.len(),
                k + m <= n,
                j <= m,
                ok ==> forall|q: int| 0 <= q < j ==> s@[k + q] == pat@[q],
                !ok ==> !match_at(s@, pat@, k as int),
            decreases m - j,
        {
            if s.get_char(k + j) != pat.get_char(j) {
                proof {
                    if match_at(s@, pat@, k as int) {
                        assert(s@.subrange(k as int, k + m)[j as int] == pat@[j as int]);
                    }
                }
                ok = false;
                j = m;
            } else {
                j = j + 1;
            }
        }
        if ok {
            proof {
                assert(s@.subrange(k as int, k + m) =~= pat@);
                assert(match_at(s@, pat@, k as int));
            }
            return true;
        }
        k = k + 1;
    }
    proof {
        assert forall|q: int| !match_at(s@, pat@, q) by {
            if q > n - m {
            }
        }
    }
    false
}

/// The result of replacing every occurrence of `pat` in `s` by `rep`,
/// scanning left to right without overlap.  An empty pattern leaves `s`
/// unchanged.
pub open spec fn spec_replace_all(s: Seq<char>, pat: Seq<char>, rep: Seq<char>) -> Seq<char>
    decreases s.len(),
{
    if pat.len() == 0 || s.len() < pat.len() {
        s
    } else if s.take(pat.len() as int) == pat {
        rep + spec_replace_all(s.skip(pat.len() as int), pat, rep)
    } else {
        seq![s[0]] + spec_replace_all(s.skip(1), pat, rep)
    }
}

/// Replaces every occurrence of `pat` in `s` by `rep`, scanning left to
/// right without overlap.
pub fn replace_all(s: &str, pat: &str, rep: &str) -> (r: String)
    ensures
        r@ == spec_replace_all(s@, pat@, rep@),
{
    let n = s.unicode_len();
    let m = pat.unicode_len();
    let mut out = String::new();
    if m == 0 {
        let whole = s.substring_char(0, n);
        out.append(whole);
        proof {
            assert(out@ =~= s@);
        }
        return out;
    }
    let mut i: usize = 0;
    proof {
        assert(s@.skip(0) =~= s@);
        assert(out@ + spec_replace_all(s@, pat@, rep@) =~= spec_replace_all(s@, pat@, rep@));
    }
    while i < n
        invariant
            n == s@.len(),
            m == pat@.len(),
            m >= 1,
            i <= n,
            spec_replace_all(s@, pat@, rep@) == out@ + spec_replace_all(
                s@.skip(i as int),
                pat@,
                rep@,
            ),
        decreases n - i,
    {
        let mut matched = false;
        if m <= n && i <= n - m {
            let mut j: usize = 0;
            matched = true;
            while j < m
                invariant
                    n == s@.len(),
                    m == pat@.len(),
                    i + m <= n,
                    j <= m,
                    matched ==> forall|q: int| 0 <= q < j ==> s@[i + q] == pat@[q],
                    !matched ==> s@.skip(i as int).take(m as int) != pat@,
                decreases m - j,
            {
                if s.get_char(i + j) != pat.get_char(j) {
                    proof {
                        if s@.skip(i as int).take(m as int) == pat@ {
                            assert(s@.skip(i as int).take(m as int)[j as int] == pat@[j as int]);
                            assert(s@.skip(i as int).take(m as int)[j as int] == s@[i + j]);
                        }
                    }
                    matched = false;
                    j = m;
                } else {
                    j = j + 1;
                }
            }
            if matched {
                proof {
                    assert(s@.skip(i as int).take(m as int) =~= pat@);
                }
            }
        } else {
            proof {
                assert(s@.skip(i as int).len() < m);
            }
        }
        if matched {
            out.append(rep);
            proof {
                let tail = s@.skip(i as int);
                assert(spec_replace_all(tail, pat@, rep@) == rep@ + spec_replace_all(
                    tail.skip(m as int),
                    pat@,
                    rep@,
                ));
                assert(tail.skip(m as int) =~= s@.skip(i + m));
            }
            i = i + m;
        } else {
            let one = s.substring_char(i, i + 1);
            out.append(one);
            proof {
                let tail = s@.skip(i as int);
                if tail.len() >= m {
                    assert(spec_replace_all(tail, pat@, rep@) == seq![tail[0]]
                        + spec_replace_all(tail.skip(1), pat@, rep@));
                } else {
                    assert(m >= 1);
                    assert(tail.len() >= 1);
                    assert(tail.len() < m);
                    assert(spec_replace_all(tail, pat@, rep@) == tail);
                    assert(tail.skip(1).len() < m);
                    assert(spec_replace_all(tail.skip(1), pat@, rep@) == tail.skip(1));
                    assert(tail =~= seq![tail[0]] + tail.skip(1));
                }
                assert(tail[0] == s@[i as int]);
                assert(one@ =~= seq![s@[i as int]]);
                assert(tail.skip(1) =~= s@.skip(i + 1));
            }
            i = i + 1;
        }
    }
    proof {
        assert(s@.skip(n as int) =~= Seq::<char>::empty());
        assert(spec_replace_all(Seq::<char>::empty(), pat@, rep@) == Seq::<char>::empty());
        assert(out@ + Seq::<char>::empty() =~= out@);
    }
    out
}

/// Lexicographic order on character sequences by code point; a proper
/// prefix comes first.
pub open spec fn seq_char_lt(a: Seq<char>, b: Seq<char>) -> bool
    decreases a.len(),
{
    if b.len() == 0 {
        false
    } else if a.len() == 0 {
        true
    } else if (a[0] as u32) < (b[0] as u32) {
        true
    } else if (a[0] as u32) > (b[0] as u32) {
        false
    } else {
        seq_char_lt(a.drop_first(), b.drop_first())
    }
}

/// Compares two strings in the lexicographic order of their characters.
pub fn str_lt(a: &str, b: &str) -> (r: bool)
    ensures
        r == seq_char_lt(a@, b@),
{
    let na = a.unicode_len();
    let nb = b.unicode_len();
    let mut i: usize = 0;
    proof {
        assert(a@.skip(0) =~= a@);
        assert(b@.skip(0) =~= b@);
    }
    while i < na && i < nb
        invariant
            na == a@.len(),
            nb == b@.len(),
            i <= na && i <= nb,
            seq_char_lt(a@, b@) == seq_char_lt(a@.skip(i as int), b@.skip(i as int)),
        decreases na - i,
    {
        let ca = a.get_char(i) as u32;
        let cb = b.get_char(i) as u32;
        proof {
            let ta = a@.skip(i as int);
            let tb = b@.skip(i as int);
            assert(ta[0] == a@[i as int] && tb[0] == b@[i as int]);
            assert(ta.drop_first() =~= a@.skip(i + 1));
            assert(tb.drop_first() =~= b@.skip(i + 1));
        }
        if ca < cb {
            return true;
        }
        if ca > cb {
            return false;
        }
        i = i + 1;
    }
    proof {
        let ta = a@.skip(i as int);
        let tb = b@.skip(i as int);
        assert(ta.len() == 0 || tb.len() == 0);
    }
    na < nb
}

/// The lexicographic order is trichotomous: unequal sequences compare
/// strictly in exactly one direction.
pub proof fn lemma_seq_char_lt_trichotomy(a: Seq<char>, b: Seq<char>)
    ensures
        a == b || seq_char_lt(a, b) || seq_char_lt(b, a),
    decreases a.len(),
{
    if a.len() == 0 && b.len() == 0 {
        assert(a =~= b);
    } else if a.len() > 0 && b.len() > 0 {
        if (a[0] as u32) == (b[0] as u32) {
            lemma_char_eq_by_u32(a[0], b[0]);
            lemma_seq_char_lt_trichotomy(a.drop_first(), b.drop_first());
            if a.drop_first() == b.drop_first() {
                assert(a.drop_first().len() == b.drop_first().len());
                assert(a.len() == b.len());
                assert forall|k: int| 0 <= k < a.len() implies a[k] == b[k] by {
                    if k > 0 {
                        assert(a[k] == a.drop_first()[k - 1]);
                        assert(b[k] == b.drop_first()[k - 1]);
                    }
                }
                assert(a =~= b);
            }
        }
    }
}

/// Two characters with the same code point are the same character.
pub proof fn lemma_char_eq_by_u32(x: char, y: char)
    requires
        x as u32 == y as u32,
    ensures
        x == y,
{
    assert(x as int == y as int);
}

/// The lexicographic order is transitive.
pub proof fn lemma_seq_char_lt_transitive(x: Seq<char>, y: Seq<char>, z: Seq<char>)
    requires
        seq_char_lt(x, y),
        seq_char_lt(y, z),
    ensures
        seq_char_lt(x, z),
    decreases x.len(),
{
    if x.len() > 0 && y.len() > 0 && z.len() > 0 {
        if (x[0] as u32) == (y[0] as u32) && (y[0] as u32) == (z[0] as u32) {
            lemma_seq_char_lt_transitive(x.drop_first(), y.drop_first(), z.drop_first());
        }
    }
}


} // verus!
