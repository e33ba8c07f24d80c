//! Character-level helpers on strings, each with an exact contract over the
//! character sequence that a string views as.
use vstd::prelude::*;

verus! {

/// Unicode `White_Space` characters, the set that `char::is_whitespace` and
/// `str::trim` use.
pub open spec fn is_unicode_whitespace(c: char) -> bool {
    ||| ('\u{9}' <= c && c <= '\u{d}')
    ||| c == ' '
    ||| c == '\u{85}'
    ||| c == '\u{a0}'
    ||| c == '\u{1680}'
    ||| ('\u{2000}' <= c && c <= '\u{200a}')
    ||| c == '\u{2028}'
    ||| c == '\u{2029}'
    ||| c == '\u{202f}'
    ||| c == '\u{205f}'
    ||| c == '\u{3000}'
}

/// Whether a character is Unicode whitespace.
pub fn is_whitespace_char(c: char) -> (r: bool)
    ensures
        r == is_unicode_whitespace(c),
{
    ('\u{9}' <= c && c <= '\u{d}') || c == ' ' || c == '\u{85}' || c == '\u{a0}'
        || c == '\u{1680}' || ('\u{2000}' <= c && c <= '\u{200a}') || c == '\u{2028}'
        || c == '\u{2029}' || c == '\u{202f}' || c == '\u{205f}' || c == '\u{3000}'
}

/// Number of leading whitespace characters of `s`.
pub open spec fn leading_ws(s: Seq<char>) -> nat
    decreases s.len(),
{
    if s.len() > 0 && is_unicode_whitespace(s[0]) {
        1 + leading_ws(s.drop_first())
    } else {
        0
    }
}

/// Number of trailing whitespace characters of `s`.
pub open spec fn trailing_ws(s: Seq<char>) -> nat
    decreases s.len(),
{
    if s.len() > 0 && is_unicode_whitespace(s.last()) {
        1 + trailing_ws(s.drop_last())
    } else {
        0
    }
}

/// `s` without its leading whitespace (`str::trim_start`).
pub open spec fn trim_start_spec(s: Seq<char>) -> Seq<char> {
    s.subrange(leading_ws(s) as int, s.len() as int)
}

/// `s` without its trailing whitespace (`str::trim_end`).
pub open spec fn trim_end_spec(s: Seq<char>) -> Seq<char> {
    s.subrange(0, s.len() - trailing_ws(s))
}

/// `s` without leading whitespace (`str::trim_start`).
pub fn trim_start_string(s: &str) -> (out: String)
    ensures
        out@ == trim_start_spec(s@),
{
    let chars = chars_of(s);
    let i = skip_leading_ws(&chars, 0, chars.len());
    proof {
        assert(chars@.subrange(0, chars.len() as int) =~= s@);
    }
    string_from_chars(&chars, i, chars.len())
}

/// `s` without leading and trailing whitespace (`str::trim`).
pub open spec fn trim_spec(s: Seq<char>) -> Seq<char> {
    trim_end_spec(trim_start_spec(s))
}

/// Leading whitespace lies within the text.
pub proof fn lemma_leading_ws_bound(s: Seq<char>)
    ensures
        leading_ws(s) <= s.len(),
        forall|i: int| 0 <= i < leading_ws(s) ==> is_unicode_whitespace(#[trigger] s[i]),
        leading_ws(s) < s.len() ==> !is_unicode_whitespace(s[leading_ws(s) as int]),
    decreases s.len(),
{
    if s.len() > 0 && is_unicode_whitespace(s[0]) {
        lemma_leading_ws_bound(s.drop_first());
        assert forall|i: int| 0 <= i < leading_ws(s) implies is_unicode_whitespace(#[trigger] s[i]) by {
            if i > 0 {
                assert(s[i] == s.drop_first()[i - 1]);
            }
        }
        if leading_ws(s) < s.len() {
            assert(s[leading_ws(s) as int] == s.drop_first()[leading_ws(s.drop_first()) as int]);
        }
    }
}

/// Trailing whitespace lies within the text.
pub proof fn lemma_trailing_ws_bound(s: Seq<char>)
    ensures
        trailing_ws(s) <= s.len(),
        forall|i: int| s.len() - trailing_ws(s) <= i < s.len() ==> is_unicode_whitespace(#[trigger] s[i]),
        trailing_ws(s) < s.len() ==> !is_unicode_whitespace(s[s.len() - trailing_ws(s) - 1]),
    decreases s.len(),
{
    if s.len() > 0 && is_unicode_whitespace(s.last()) {
        lemma_trailing_ws_bound(s.drop_last());
        assert forall|i: int| s.len() - trailing_ws(s) <= i < s.len() implies is_unicode_whitespace(#[trigger] s[i]) by {
            if i < s.len() - 1 {
                assert(s[i] == s.drop_last()[i]);
            }
        }
        if trailing_ws(s) < s.len() {
            assert(s[s.len() - trailing_ws(s) - 1] == s.drop_last()[s.drop_last().len() - trailing_ws(s.drop_last()) - 1]);
        }
    }
}

/// Leading whitespace count of `s.subrange(i, len)`, computed from the back.
proof fn lemma_leading_ws_step(s: Seq<char>, i: int)
    requires
        0 <= i < s.len(),
        is_unicode_whitespace(s[i]),
    ensures
        leading_ws(s.subrange(i, s.len() as int)) == 1 + leading_ws(s.subrange(i + 1, s.len() as int)),
{
    assert(s.subrange(i, s.len() as int).drop_first() =~= s.subrange(i + 1, s.len() as int));
}

proof fn lemma_trailing_ws_step(s: Seq<char>, j: int)
    requires
        0 < j <= s.len(),
        is_unicode_whitespace(s[j - 1]),
    ensures
        trailing_ws(s.subrange(0, j)) == 1 + trailing_ws(s.subrange(0, j - 1)),
{
    assert(s.subrange(0, j).drop_last() =~= s.subrange(0, j - 1));
}

/// The characters of `s`, in order.
pub fn chars_of(s: &str) -> (out: Vec<char>)
    ensures
        out@ == s@,
{
    let mut out: Vec<char> = Vec::new();
    for c in it: s.chars()
        invariant
            out@ == it.seq().take(it.index() as int),
            it.seq() == s@,
    {
        out.push(c);
    }
    out
}

/// Appends one character to a string (`String::push`).
#[verifier::external_body]
pub(crate) fn push_char(s: &mut String, c: char)
    ensures
        final(s)@ == old(s)@.push(c),
{
    s.push(c);
}

/// A string holding the characters `chars[from..to]`.
pub fn string_from_chars(chars: &Vec<char>, from: usize, to: usize) -> (out: String)
    requires
        from <= to <= chars.len(),
    ensures
        out@ == chars@.subrange(from as int, to as int),
{
    let mut out = String::new();
    let mut i = from;
    while i < to
        invariant
            from <= i <= to <= chars.len(),
            out@ == chars@.subrange(from as int, i as int),
        decreases to - i,
    {
        push_char(&mut out, chars[i]);
        i = i + 1;
        assert(out@ =~= chars@.subrange(from as int, i as int));
    }
    out
}

/// A new string holding the characters of `s` (`str::to_string`).
pub fn to_owned_string(s: &str) -> (out: String)
    ensures
        out@ == s@,
{
    s.to_owned()
}

/// Whether two character sequences are equal, decided element by element.
pub fn chars_eq(x: &Vec<char>, y: &Vec<char>) -> (r: bool)
    ensures
        r == (x@ == y@),
{
    if x.len() != y.len() {
        return false;
    }
    let mut i: usize = 0;
    while i < x.len()
        invariant
            x.len() == y.len(),
            i <= x.len(),
            forall|j: int| 0 <= j < i ==> x@[j] == y@[j],
        decreases x.len() - i,
    {
        if x[i] != y[i] {
            return false;
        }
        i = i + 1;
    }
    assert(x@ =~= y@);
    true
}

/// Whether two strings hold the same characters.
pub fn str_eq(a: &str, b: &str) -> (r: bool)
    ensures
        r == (a@ == b@),
{
    let x = chars_of(a);
    let y = chars_of(b);
    chars_eq(&x, &y)
}

/// `pat` occurs in `s` at position `i`.
pub open spec fn occurs_at(s: Seq<char>, pat: Seq<char>, i: int) -> bool {
    0 <= i && i + pat.len() <= s.len() && s.subrange(i, i + pat.len()) == pat
}

/// `pat` occurs somewhere in `s` (`str::contains`).
pub open spec fn contains_spec(s: Seq<char>, pat: Seq<char>) -> bool {
    exists|i: int| occurs_at(s, pat, i)
}

/// `s` begins with `pat` (`str::starts_with`).
pub open spec fn starts_with_spec(s: Seq<char>, pat: Seq<char>) -> bool {
    occurs_at(s, pat, 0)
}

/// `s` ends with `pat` (`str::ends_with`).
pub open spec fn ends_with_spec(s: Seq<char>, pat: Seq<char>) -> bool {
    occurs_at(s, pat, s.len() - pat.len())
}

/// Whether `pat` occurs in `s` at position `i`.
pub fn chars_occur_at(s: &Vec<char>, pat: &Vec<char>, i: usize) -> (r: bool)
    ensures
        r == occurs_at(s@, pat@, i as int),
{
    if pat.len() > s.len() || i > s.len() - pat.len() {
        return false;
    }
    let mut k: usize = 0;
    while k < pat.len()
        invariant
            i + pat.len() <= s.len(),
            k <= pat.len(),
            forall|j: int| 0 <= j < k ==> s@[i + j] == pat@[j],
        decreases pat.len() - k,
    {
        if s[i + k] != pat[k] {
            assert(s@.subrange(i as int, i + pat.len())[k as int] != pat@[k as int]);
            return false;
        }
        k = k + 1;
    }
    assert(s@.subrange(i as int, i + pat.len()) =~= pat@);
    true
}

/// Whether `pat` occurs anywhere in `s`.
pub fn chars_contain(s: &Vec<char>, pat: &Vec<char>) -> (r: bool)
    ensures
        r == contains_spec(s@, pat@),
{
    if pat.len() > s.len() {
        return false;
    }
    let last = s.len() - pat.len();
    let mut i: usize = 0;
    while i < last
        invariant
            last == s.len() - pat.len(),
            i <= last,
            forall|j: int| 0 <= j < i ==> !occurs_at(s@, pat@, j),
        decreases last - i,
    {
        if chars_occur_at(s, pat, i) {
            return true;
        }
        i = i + 1;
    }
    if chars_occur_at(s, pat, last) {
        return true;
    }
    assert forall|j: int| !occurs_at(s@, pat@, j) by {
        if 0 <= j && j + pat@.len() <= s@.len() {
            assert(j <= last);
        }
    }
    false
}

/// Whether `pat` occurs anywhere in `s` (`str::contains`).
pub fn str_contains(s: &str, pat: &str) -> (r: bool)
    ensures
        r == contains_spec(s@, pat@),
{
    let a = chars_of(s);
    let b = chars_of(pat);
    chars_contain(&a, &b)
}

/// Whether `s` begins with `pat` (`str::starts_with`).
pub fn str_starts_with(s: &str, pat: &str) -> (r: bool)
    ensures
        r == starts_with_spec(s@, pat@),
{
    let a = chars_of(s);
    let b = chars_of(pat);
    chars_occur_at(&a, &b, 0)
}

/// Whether `s` ends with `pat` (`str::ends_with`).
pub fn str_ends_with(s: &str, pat: &str) -> (r: bool)
    ensures
        r == ends_with_spec(s@, pat@),
{
    let a = chars_of(s);
    let b = chars_of(pat);
    if b.len() > a.len() {
        return false;
    }
    chars_occur_at(&a, &b, a.len() - b.len())
}

/// Index of the first non-whitespace character of `chars[from..to]`, or `to`.
pub fn skip_leading_ws(chars: &Vec<char>, from: usize, to: usize) -> (i: usize)
    requires
        from <= to <= chars.len(),
    ensures
        from <= i <= to,
        i - from == leading_ws(chars@.subrange(from as int, to as int)),
{
    let mut i = from;
    while i < to && is_whitespace_char(chars[i])
        invariant
            from <= i <= to <= chars.len(),
            leading_ws(chars@.subrange(from as int, to as int)) == (i - from) + leading_ws(
                chars@.subrange(i as int, to as int),
            ),
        decreases to - i,
    {
        proof {
            let s = chars@.subrange(0, to as int);
            assert(chars@.subrange(i as int, to as int) =~= s.subrange(i as int, s.len() as int));
            assert(chars@.subrange(i + 1, to as int) =~= s.subrange(i + 1, s.len() as int));
            lemma_leading_ws_step(s, i as int);
        }
        i = i + 1;
    }
    proof {
        let t = chars@.subrange(i as int, to as int);
        if i < to {
            assert(t[0] == chars@[i as int]);
        }
    }
    i
}

/// Index just past the last non-whitespace character of `chars[from..to]`.
pub fn skip_trailing_ws(chars: &Vec<char>, from: usize, to: usize) -> (j: usize)
    requires
        from <= to <= chars.len(),
    ensures
        from <= j <= to,
        to - j == trailing_ws(chars@.subrange(from as int, to as int)),
{
    let mut j = to;
    while j > from && is_whitespace_char(chars[j - 1])
        invariant
            from <= j <= to <= chars.len(),
            trailing_ws(chars@.subrange(from as int, to as int)) == (to - j) + trailing_ws(
                chars@.subrange(from as int, j as int),
            ),
        decreases j - from,
    {
        proof {
            let s = chars@.subrange(from as int, chars.len() as int);
            assert(chars@.subrange(from as int, j as int) =~= s.subrange(0, j - from));
            assert(chars@.subrange(from as int, j - 1) =~= s.subrange(0, j - 1 - from));
            lemma_trailing_ws_step(s, j - from);
        }
        j = j - 1;
    }
    proof {
        let t = chars@.subrange(from as int, j as int);
        if j > from {
            assert(t.last() == chars@[j - 1]);
        }
    }
    j
}

/// `s` without leading and trailing whitespace (`str::trim`).
pub fn trim_string(s: &str) -> (out: String)
    ensures
        out@ == trim_spec(s@),
{
    let chars = chars_of(s);
    let i = skip_leading_ws(&chars, 0, chars.len());
    let j = skip_trailing_ws(&chars, i, chars.len());
    proof {
        assert(chars@.subrange(0, chars.len() as int) =~= s@);
        assert(trim_start_spec(s@) =~= chars@.subrange(i as int, chars.len() as int));
        assert(chars@.subrange(i as int, j as int) =~= trim_start_spec(s@).subrange(0, j - i));
    }
    string_from_chars(&chars, i, j)
}

/// Index of the first `c` in `s` at or after `from`, or `-1`.
pub open spec fn index_of_from(s: Seq<char>, c: char, from: int) -> int
    decreases s.len() - from,
{
    if from < 0 || from >= s.len() {
        -1
    } else if s[from] == c {
        from
    } else {
        index_of_from(s, c, from + 1)
    }
}

/// What `index_of_from` finds.
pub proof fn lemma_index_of_from(s: Seq<char>, c: char, from: int)
    requires
        0 <= from,
    ensures
        index_of_from(s, c, from) == -1 || (from <= index_of_from(s, c, from) < s.len()
            && s[index_of_from(s, c, from)] == c),
        index_of_from(s, c, from) == -1 ==> forall|k: int| from <= k < s.len() ==> s[k] != c,
        index_of_from(s, c, from) != -1 ==> forall|k: int| from <= k < index_of_from(s, c, from) ==> s[k] != c,
    decreases s.len() - from,
{
    if from < s.len() && s[from] != c {
        lemma_index_of_from(s, c, from + 1);
    }
}

/// Index of the first `c` in `chars` at or after `from`, or `None`.
pub fn find_char_from(chars: &Vec<char>, c: char, from: usize) -> (r: Option<usize>)
    ensures
        r matches Some(i) ==> i as int == index_of_from(chars@, c, from as int),
        r is None ==> index_of_from(chars@, c, from as int) == -1,
{
    let mut i = from;
    while i < chars.len()
        invariant
            from <= i,
            index_of_from(chars@, c, from as int) == index_of_from(chars@, c, i as int),
        decreases chars.len() - i,
    {
        if chars[i] == c {
            return Some(i);
        }
        i = i + 1;
    }
    None
}

/// The decimal digits of `n`.
pub open spec fn decimal_spec(n: nat) -> Seq<char>
    decreases n,
{
    if n < 10 {
        seq![digit_char(n)]
    } else {
        decimal_spec(n / 10).push(digit_char(n % 10))
    }
}

/// The decimal digit of `d` (below 10).
pub open spec fn digit_char(d: nat) -> char {
    if d == 0 { '0' } else if d == 1 { '1' } else if d == 2 { '2' } else if d == 3 { '3' }
    else if d == 4 { '4' } else if d == 5 { '5' } else if d == 6 { '6' } else if d == 7 { '7' }
    else if d == 8 { '8' } else { '9' }
}

fn digit_char_exec(d: u64) -> (c: char)
    requires
        d < 10,
    ensures
        c == digit_char(d as nat),
{
    if d == 0 { '0' } else if d == 1 { '1' } else if d == 2 { '2' } else if d == 3 { '3' }
    else if d == 4 { '4' } else if d == 5 { '5' } else if d == 6 { '6' } else if d == 7 { '7' }
    else if d == 8 { '8' } else { '9' }
}

/// `n` written in decimal (`u64::to_string`).
pub fn decimal_string(n: u64) -> (s: String)
    ensures
        s@ == decimal_spec(n as nat),
    decreases n,
{
    if n < 10 {
        let mut s = String::new();
        push_char(&mut s, digit_char_exec(n));
        assert(s@ =~= decimal_spec(n as nat));
        s
    } else {
        let mut s = decimal_string(n / 10);
        push_char(&mut s, digit_char_exec(n % 10));
        s
    }
}

/// The strings of `parts` joined by `sep` (`slice::join`).
pub open spec fn join_spec(parts: Seq<Seq<char>>, sep: Seq<char>) -> Seq<char>
    decreases parts.len(),
{
    if parts.len() == 0 {
        Seq::empty()
    } else if parts.len() == 1 {
        parts[0]
    } else {
        join_spec(parts.drop_last(), sep) + sep + parts.last()
    }
}

/// The strings of `parts` joined by `sep`.
pub fn join_strings(parts: &[String], sep: &str) -> (out: String)
    ensures
        out@ == join_spec(parts@.map_values(|p: String| p@), sep@),
{
    let ghost views = parts@.map_values(|p: String| p@);
    let mut out = String::new();
    let mut i: usize = 0;
    while i < parts.len()
        invariant
            i <= parts.len(),
            views == parts@.map_values(|p: String| p@),
            out@ == join_spec(views.take(i as int), sep@),
        decreases parts.len() - i,
    {
        if i > 0 {
            out.append(sep);
        }
        out.append(parts[i].as_str());
        proof {
            assert(views.take(i + 1).drop_last() =~= views.take(i as int));
            if i == 0 {
                assert(views.take(1) =~= seq![views[0]]);
                assert(out@ =~= views[0]);
            }
        }
        i = i + 1;
    }
    assert(views.take(parts.len() as int) =~= views);
    out
}

/// Lexicographic order of two texts: negative, zero or positive.
pub open spec fn lex_compare(a: Seq<char>, b: Seq<char>) -> int
    decreases a.len(),
{
    if a.len() == 0 {
        if b.len() == 0 {
            0
        } else {
            -1
        }
    } else if b.len() == 0 {
        1
    } else if (a[0] as int) < (b[0] as int) {
        -1
    } else if (a[0] as int) > (b[0] as int) {
        1
    } else {
        lex_compare(a.skip(1), b.skip(1))
    }
}

/// How two texts compare lexicographically (negative, zero, positive).
pub fn lex_compare_exec(a: &Vec<char>, b: &Vec<char>) -> (r: i8)
    ensures
        r as int == lex_compare(a@, b@),
        -1 <= r <= 1,
{
    let mut i: usize = 0;
    assert(a@.skip(0) =~= a@);
    assert(b@.skip(0) =~= b@);
    while i < a.len() && i < b.len()
        invariant
            i <= a.len(),
            i <= b.len(),
            lex_compare(a@, b@) == lex_compare(a@.skip(i as int), b@.skip(i as int)),
        decreases a.len() - i,
    {
        let x = a[i];
        let y = b[i];
        proof {
            assert(a@.skip(i as int)[0] == x);
            assert(b@.skip(i as int)[0] == y);
            assert(a@.skip(i as int).skip(1) =~= a@.skip(i + 1));
            assert(b@.skip(i as int).skip(1) =~= b@.skip(i + 1));
        }
        if x < y {
            return -1;
        }
        if x > y {
            return 1;
        }
        i = i + 1;
    }
    if i < a.len() {
        1
    } else if i < b.len() {
        -1
    } else {
        0
    }
}

/// Lexicographic comparison is -1, 0 or 1.
pub proof fn lemma_lex_compare_bounds(a: Seq<char>, b: Seq<char>)
    ensures
        -1 <= lex_compare(a, b) <= 1,
    decreases a.len(),
{
    if a.len() > 0 && b.len() > 0 && a[0] == b[0] {
        lemma_lex_compare_bounds(a.skip(1), b.skip(1));
    }
}

/// Swapping the texts negates the comparison.
pub proof fn lemma_lex_compare_antisymmetric(a: Seq<char>, b: Seq<char>)
    ensures
        lex_compare(a, b) == -lex_compare(b, a),
    decreases a.len(),
{
    if a.len() > 0 && b.len() > 0 && a[0] == b[0] {
        lemma_lex_compare_antisymmetric(a.skip(1), b.skip(1));
    }
}

/// A text compares equal to itself.
pub proof fn lemma_lex_compare_reflexive(a: Seq<char>)
    ensures
        lex_compare(a, a) == 0,
    decreases a.len(),
{
    if a.len() > 0 {
        lemma_lex_compare_reflexive(a.skip(1));
    }
}


/// Texts compare equal exactly when they are equal.
pub proof fn lemma_lex_compare_zero(a: Seq<char>, b: Seq<char>)
    ensures
        (lex_compare(a, b) == 0) == (a == b),
    decreases a.len(),
{
    if a.len() > 0 && b.len() > 0 && a[0] == b[0] {
        lemma_lex_compare_zero(a.skip(1), b.skip(1));
        assert(lex_compare(a, b) == lex_compare(a.skip(1), b.skip(1)));
        if a.skip(1) == b.skip(1) {
            assert(a =~= seq![a[0]] + a.skip(1));
            assert(b =~= seq![b[0]] + b.skip(1));
        }
        if a == b {
            assert(a.skip(1) =~= b.skip(1));
        }
    } else if a.len() > 0 && b.len() > 0 {
        assert(a[0] != b[0]);
        assert(a != b);
        assert(lex_compare(a, b) != 0);
    } else if a.len() == 0 && b.len() == 0 {
        assert(a =~= b);
    } else {
        assert(a.len() != b.len());
    }
}

/// Lexicographic order is transitive.
pub proof fn lemma_lex_compare_transitive(a: Seq<char>, b: Seq<char>, c: Seq<char>)
    requires
        lex_compare(a, b) <= 0,
        lex_compare(b, c) <= 0,
    ensures
        lex_compare(a, c) <= 0,
        lex_compare(a, b) < 0 || lex_compare(b, c) < 0 ==> lex_compare(a, c) < 0,
    decreases a.len(),
{
    lemma_lex_compare_bounds(a, b);
    lemma_lex_compare_bounds(b, c);
    lemma_lex_compare_bounds(a, c);
    if a.len() > 0 && b.len() > 0 && c.len() > 0 {
        if a[0] == b[0] && b[0] == c[0] {
            lemma_lex_compare_transitive(a.skip(1), b.skip(1), c.skip(1));
        }
    }
}

} // verus!
