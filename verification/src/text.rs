//! Character-level string helpers: preview truncation, substring search,
//! the dash-encoded project-path decoding, and decimal rendering.

use vstd::prelude::*;

verus! {

/// `s` cut down to at most `cap` characters.
pub open spec fn clipped(s: Seq<char>, cap: nat) -> Seq<char> {
    if s.len() <= cap {
        s
    } else {
        s.take(cap as int)
    }
}

/// Truncation never exceeds its cap: every preview cut to `cap` characters
/// holds at most `cap` characters, whatever the input's length, and a text
/// within the cap passes through whole.
pub proof fn lemma_clipped_within_cap(s: Seq<char>, cap: nat)
    ensures
        clipped(s, cap).len() <= cap,
        clipped(s, cap).len() <= s.len(),
        s.len() <= cap ==> clipped(s, cap) == s,
{
}

/// First `cap` characters of `s`, or all of `s` when it is shorter.
pub fn truncate_chars(s: &str, cap: usize) -> (r: String)
    ensures
        r@ == clipped(s@, cap as nat),
{
    let n: usize = s.unicode_len();
    if n <= cap {
        s.to_owned()
    } else {
        let t: &str = s.substring_char(0, cap);
        proof {
            assert(t@ =~= clipped(s@, cap as nat));
        }
        t.to_owned()
    }
}

/// Character-for-character equality of two string slices.
pub fn str_eq(a: &str, b: &str) -> (r: bool)
    ensures
        r == (a@ == b@),
{
    let na: usize = a.unicode_len();
    let nb: usize = b.unicode_len();
    if na != nb {
        return false;
    }
    let mut i: usize = 0;
    while i < na
        invariant
            na == a@.len(),
            na == b@.len(),
            i <= na,
            forall|j: int| 0 <= j < i ==> a@[j] == b@[j],
        decreases na - i,
    {
        if a.get_char(i) != b.get_char(i) {
            return false;
        }
        i += 1;
    }
    proof {
        assert(a@ =~= b@);
    }
    true
}

/// `p` occurs in `s` starting at index `i`.
pub open spec fn has_prefix_at(s: Seq<char>, p: Seq<char>, i: int) -> bool {
    0 <= i && i + p.len() <= s.len() && s.subrange(i, i + p.len() as int) == p
}

/// `p` occurs somewhere in `s`.
pub open spec fn contains_seq(s: Seq<char>, p: Seq<char>) -> bool {
    exists|i: int| has_prefix_at(s, p, i)
}

/// `s` ends with `p`.
pub open spec fn has_suffix(s: Seq<char>, p: Seq<char>) -> bool {
    p.len() <= s.len() && s.subrange(s.len() - p.len(), s.len() as int) == p
}

fn match_at(s: &str, i: usize, p: &str) -> (r: bool)
    requires
        i + p@.len() <= s@.len(),
    ensures
        r == has_prefix_at(s@, p@, i as int),
{
    let n: usize = s.unicode_len();
    let m: usize = p.unicode_len();
    let mut j: usize = 0;
    while j < m
        invariant
            n == s@.len(),
            m == p@.len(),
            i + m <= n,
            j <= m,
            forall|k: int| 0 <= k < j ==> s@[i + k] == p@[k],
        decreases m - j,
    {
        if s.get_char(i + j) != p.get_char(j) {
            proof {
                assert(s@.subrange(i as int, i + p@.len() as int)[j as int] == s@[i + j]);
            }
            return false;
        }
        j += 1;
    }
    proof {
        assert(s@.subrange(i as int, i + p@.len() as int) =~= p@);
    }
    true
}

/// Substring search.
pub fn contains_str(s: &str, p: &str) -> (r: bool)
    ensures
        r == contains_seq(s@, p@),
{
    let n: usize = s.unicode_len();
    let m: usize = p.unicode_len();
    if m > n {
        proof {
            assert(forall|i: int| !has_prefix_at(s@, p@, i));
        }
        return false;
    }
    if m == 0 {
        proof {
            assert(s@.subrange(0, 0) =~= p@);
            assert(has_prefix_at(s@, p@, 0));
        }
        return true;
    }
    let mut i: usize = 0;
    while i <= n - m
        invariant
            n == s@.len(),
            m == p@.len(),
            0 < m <= n,
            i <= n - m + 1,
            forall|k: int| 0 <= k < i ==> !has_prefix_at(s@, p@, k),
        decreases n - i,
    {
        if match_at(s, i, p) {
            return true;
        }
        i += 1;
    }
    proof {
        assert(forall|k: int| has_prefix_at(s@, p@, k) ==> 0 <= k <= n - m);
    }
    false
}

/// Suffix test.
pub fn ends_with_str(s: &str, p: &str) -> (r: bool)
    ensures
        r == has_suffix(s@, p@),
{
    let n: usize = s.unicode_len();
    let m: usize = p.unicode_len();
    if m > n {
        return false;
    }
    match_at(s, n - m, p)
}

/// First-character test.
pub fn starts_with_char(s: &str, c: char) -> (r: bool)
    ensures
        r == (s@.len() > 0 && s@[0] == c),
{
    if s.unicode_len() == 0 {
        return false;
    }
    s.get_char(0) == c
}

/// Every `'-'` replaced by `'/'`, other characters kept.
pub open spec fn dashes_decoded(s: Seq<char>) -> Seq<char> {
    Seq::new(s.len(), |i: int| if s[i] == '-' { '/' } else { s[i] })
}

/// Decode a dash-separated transcript directory name into a filesystem path.
pub fn dashes_to_slashes(s: &str) -> (r: String)
    ensures
        r@ == dashes_decoded(s@),
{
    let n: usize = s.unicode_len();
    let mut r: String = String::new();
    let mut i: usize = 0;
    while i < n
        invariant
            n == s@.len(),
            i <= n,
            r@ == dashes_decoded(s@).take(i as int),
        decreases n - i,
    {
        let c: char = s.get_char(i);
        if c == '-' {
            proof {
                reveal_strlit("/");
            }
            r.append("/");
        } else {
            let piece: &str = s.substring_char(i, i + 1);
            r.append(piece);
        }
        proof {
            assert(r@ =~= dashes_decoded(s@).take(i + 1));
        }
        i += 1;
    }
    proof {
        assert(dashes_decoded(s@).take(n as int) =~= dashes_decoded(s@));
    }
    r
}

/// ASCII whitespace that can stand inside a line.
pub open spec fn is_ws(c: char) -> bool {
    c == ' ' || c == '\t' || c == '\r' || c == '\u{b}' || c == '\u{c}'
}

/// Nothing but whitespace.
pub open spec fn blank_seq(s: Seq<char>) -> bool {
    forall|i: int| 0 <= i < s.len() ==> is_ws(#[trigger] s[i])
}

/// `[a, b)` spans exactly one line of `s`: newline-delimited on both sides,
/// no newline inside.
pub open spec fn line_at(s: Seq<char>, a: int, b: int) -> bool {
    &&& 0 <= a <= b <= s.len()
    &&& a == 0 || s[a - 1] == '\n'
    &&& b == s.len() || s[b] == '\n'
    &&& forall|k: int| a <= k < b ==> s[k] != '\n'
}

/// One trailing carriage return removed.
pub open spec fn strip_cr(s: Seq<char>) -> Seq<char> {
    if s.len() > 0 && s.last() == '\r' {
        s.drop_last()
    } else {
        s
    }
}

/// `[a, b)` is the last line of `s` that is not blank.
pub open spec fn last_nonblank_at(s: Seq<char>, a: int, b: int) -> bool {
    &&& line_at(s, a, b)
    &&& !blank_seq(s.subrange(a, b))
    &&& forall|a2: int, b2: int|
        line_at(s, a2, b2) && !blank_seq(s.subrange(a2, b2)) ==> b2 <= b
}

fn ws_char(c: char) -> (r: bool)
    ensures
        r == is_ws(c),
{
    c == ' ' || c == '\t' || c == '\r' || c == '\u{b}' || c == '\u{c}'
}

fn find_nonws(s: &str, a: usize, b: usize) -> (r: Option<usize>)
    requires
        a <= b <= s@.len(),
    ensures
        match r {
            Some(k) => a <= k < b && !is_ws(s@[k as int]),
            None => blank_seq(s@.subrange(a as int, b as int)),
        },
{
    let n: usize = s.unicode_len();
    let mut k: usize = a;
    while k < b
        invariant
            n == s@.len(),
            a <= k <= b <= n,
            forall|j: int| a <= j < k ==> is_ws(#[trigger] s@[j]),
        decreases b - k,
    {
        if !ws_char(s.get_char(k)) {
            return Some(k);
        }
        k += 1;
    }
    proof {
        assert forall|i: int| 0 <= i < b - a implies is_ws(
            #[trigger] s@.subrange(a as int, b as int)[i],
        ) by {
            assert(s@.subrange(a as int, b as int)[i] == s@[a + i]);
        }
    }
    None
}

/// The last line that holds more than whitespace, its trailing carriage
/// return removed; `None` when every line is blank.
pub fn last_nonblank_line(s: &str) -> (r: Option<String>)
    ensures
        match r {
            Some(l) => exists|a: int, b: int|
                last_nonblank_at(s@, a, b) && l@ == strip_cr(s@.subrange(a, b)),
            None => forall|a: int, b: int|
                line_at(s@, a, b) ==> blank_seq(s@.subrange(a, b)),
        },
{
    let n: usize = s.unicode_len();
    let mut b: usize = n;
    loop
        invariant
            n == s@.len(),
            b <= n,
            b == n || s@[b as int] == '\n',
            forall|a2: int, b2: int|
                line_at(s@, a2, b2) && a2 >= b + 1 ==> blank_seq(s@.subrange(a2, b2)),
        decreases b,
    {
        let mut a: usize = b;
        loop
            invariant
                n == s@.len(),
                a <= b <= n,
                forall|k: int| a <= k < b ==> s@[k] != '\n',
            ensures
                a <= b <= n,
                a == 0 || s@[a - 1] == '\n',
                forall|k: int| a <= k < b ==> s@[k] != '\n',
            decreases a,
        {
            if a == 0 {
                break ;
            }
            if s.get_char(a - 1) == '\n' {
                break ;
            }
            a -= 1;
        }
        proof {
            assert(line_at(s@, a as int, b as int));
        }
        match find_nonws(s, a, b) {
            Some(w) => {
                let e: usize = if b > a && s.get_char(b - 1) == '\r' {
                    b - 1
                } else {
                    b
                };
                let piece: &str = s.substring_char(a, e);
                proof {
                    let sv = s@;
                    let ai = a as int;
                    let bi = b as int;
                    assert(!blank_seq(sv.subrange(ai, bi))) by {
                        assert(sv.subrange(ai, bi)[w - ai] == sv[w as int]);
                    }
                    assert forall|a2: int, b2: int|
                        line_at(sv, a2, b2) && !blank_seq(sv.subrange(a2, b2)) implies b2
                        <= bi by {
                        if b2 > bi {
                            if a2 <= bi {
                                assert(sv[bi] == '\n');
                                assert(false);
                            } else {
                                assert(a2 >= bi + 1);
                            }
                        }
                    }
                    assert(last_nonblank_at(sv, ai, bi));
                    assert(piece@ =~= strip_cr(sv.subrange(ai, bi)));
                }
                return Some(piece.to_owned());
            },
            None => {
                if a == 0 {
                    proof {
                        let sv = s@;
                        let bi = b as int;
                        assert forall|a2: int, b2: int| line_at(sv, a2, b2) implies blank_seq(
                            sv.subrange(a2, b2),
                        ) by {
                            if a2 >= bi + 1 {
                            } else if a2 == 0 {
                                assert(b2 == bi) by {
                                    if b2 < bi {
                                        assert(sv[b2] == '\n');
                                    } else if b2 > bi {
                                        assert(sv[bi] == '\n');
                                    }
                                }
                            } else {
                                assert(sv[a2 - 1] == '\n');
                                assert(false);
                            }
                        }
                    }
                    return None;
                }
                proof {
                    let sv = s@;
                    let ai = a as int;
                    let bi = b as int;
                    assert forall|a2: int, b2: int|
                        line_at(sv, a2, b2) && a2 >= (a - 1) + 1 implies blank_seq(
                        sv.subrange(a2, b2),
                    ) by {
                        if a2 == ai {
                            assert(b2 == bi) by {
                                if b2 < bi {
                                    assert(sv[b2] == '\n');
                                } else if b2 > bi {
                                    assert(sv[bi] == '\n');
                                }
                            }
                        } else if a2 <= bi {
                            assert(sv[a2 - 1] == '\n');
                            assert(false);
                        } else {
                            assert(a2 >= bi + 1);
                        }
                    }
                }
                b = a - 1;
            },
        }
    }
}

/// The character for one decimal digit.
pub open spec fn digit_char(d: nat) -> char {
    if d == 0 {
        '0'
    } else if d == 1 {
        '1'
    } else if d == 2 {
        '2'
    } else if d == 3 {
        '3'
    } else if d == 4 {
        '4'
    } else if d == 5 {
        '5'
    } else if d == 6 {
        '6'
    } else if d == 7 {
        '7'
    } else if d == 8 {
        '8'
    } else {
        '9'
    }
}

/// Decimal rendering of a natural number, no leading zeros.
pub open spec fn dec_str(n: nat) -> Seq<char>
    decreases n,
{
    if n < 10 {
        seq![digit_char(n)]
    } else {
        dec_str(n / 10).push(digit_char(n % 10))
    }
}

/// Decimal rendering of an integer: a minus sign for negatives.
pub open spec fn dec_str_int(n: int) -> Seq<char> {
    if n >= 0 {
        dec_str(n as nat)
    } else {
        seq!['-'] + dec_str((-n) as nat)
    }
}

/// The one-character string for one decimal digit.
pub fn digit_str(d: u64) -> (r: &'static str)
    requires
        d < 10,
    ensures
        r@ =~= seq![digit_char(d as nat)],
{
    proof {
        reveal_strlit("0");
        reveal_strlit("1");
        reveal_strlit("2");
        reveal_strlit("3");
        reveal_strlit("4");
        reveal_strlit("5");
        reveal_strlit("6");
        reveal_strlit("7");
        reveal_strlit("8");
        reveal_strlit("9");
    }
    if d == 0 {
        "0"
    } else if d == 1 {
        "1"
    } else if d == 2 {
        "2"
    } else if d == 3 {
        "3"
    } else if d == 4 {
        "4"
    } else if d == 5 {
        "5"
    } else if d == 6 {
        "6"
    } else if d == 7 {
        "7"
    } else if d == 8 {
        "8"
    } else {
        "9"
    }
}

/// Render `n` in decimal.
pub fn u64_to_dec(n: u64) -> (r: String)
    ensures
        r@ == dec_str(n as nat),
    decreases n,
{
    if n < 10 {
        digit_str(n).to_owned()
    } else {
        let mut s: String = u64_to_dec(n / 10);
        s.append(digit_str(n % 10));
        proof {
            assert(s@ =~= dec_str(n as nat));
        }
        s
    }
}

/// Render `n` in decimal, with a sign for negatives.
pub fn i64_to_dec(n: i64) -> (r: String)
    ensures
        r@ == dec_str_int(n as int),
{
    if n >= 0 {
        u64_to_dec(n as u64)
    } else {
        let mag: u64 = ((-(n + 1)) as u64) + 1;
        proof {
            assert(mag == -(n as int));
            reveal_strlit("-");
        }
        let mut s: String = String::from_str("-");
        let digits: String = u64_to_dec(mag);
        s.append(digits.as_str());
        proof {
            assert(s@ =~= dec_str_int(n as int));
        }
        s
    }
}

/// Lexicographic order on character sequences, by code point.
pub open spec fn lex_le(a: Seq<char>, b: Seq<char>) -> bool
    decreases a.len(),
{
    if a.len() == 0 {
        true
    } else if b.len() == 0 {
        false
    } else if a[0] == b[0] {
        lex_le(a.drop_first(), b.drop_first())
    } else {
        (a[0] as int) < (b[0] as int)
    }
}

proof fn lemma_lex_skip(a: Seq<char>, b: Seq<char>, i: int)
    requires
        0 <= i <= a.len(),
        i <= b.len(),
        forall|j: int| 0 <= j < i ==> a[j] == b[j],
    ensures
        lex_le(a, b) == lex_le(a.skip(i), b.skip(i)),
    decreases i,
{
    if i > 0 {
        lemma_lex_skip(a.drop_first(), b.drop_first(), i - 1);
        assert(a.drop_first().skip(i - 1) =~= a.skip(i));
        assert(b.drop_first().skip(i - 1) =~= b.skip(i));
    } else {
        assert(a.skip(0) =~= a);
        assert(b.skip(0) =~= b);
    }
}

/// The order is total.
pub proof fn lemma_lex_total(a: Seq<char>, b: Seq<char>)
    ensures
        lex_le(a, b) || lex_le(b, a),
    decreases a.len(),
{
    if a.len() > 0 && b.len() > 0 {
        if a[0] == b[0] {
            lemma_lex_total(a.drop_first(), b.drop_first());
        }
    }
}

/// The order is antisymmetric.
pub proof fn lemma_lex_antisym(a: Seq<char>, b: Seq<char>)
    requires
        lex_le(a, b),
        lex_le(b, a),
    ensures
        a == b,
    decreases a.len(),
{
    if a.len() == 0 {
        if b.len() > 0 {
            assert(!lex_le(b, a));
        }
        assert(a =~= b);
    } else {
        assert(b.len() > 0);
        assert(a[0] == b[0]);
        lemma_lex_antisym(a.drop_first(), b.drop_first());
        assert forall|k: int| 0 <= k < a.len() implies a[k] == b[k] by {
            if k > 0 {
                assert(a.drop_first()[k - 1] == b.drop_first()[k - 1]);
            }
        }
        assert(a =~= b);
    }
}

/// The order is transitive.
pub proof fn lemma_lex_trans(a: Seq<char>, b: Seq<char>, c: Seq<char>)
    requires
        lex_le(a, b),
        lex_le(b, c),
    ensures
        lex_le(a, c),
    decreases a.len(),
{
    if a.len() > 0 && b.len() > 0 && c.len() > 0 {
        if a[0] == b[0] && b[0] == c[0] {
            lemma_lex_trans(a.drop_first(), b.drop_first(), c.drop_first());
        }
    }
}

/// Compare two strings in lexicographic code-point order.
pub fn str_lex_le(a: &str, b: &str) -> (r: bool)
    ensures
        r == lex_le(a@, b@),
{
    let na: usize = a.unicode_len();
    let nb: usize = b.unicode_len();
    let mut i: usize = 0;
    loop
        invariant
            na == a@.len(),
            nb == b@.len(),
            i <= na,
            i <= nb,
            forall|j: int| 0 <= j < i ==> a@[j] == b@[j],
        decreases na - i,
    {
        proof {
            lemma_lex_skip(a@, b@, i as int);
        }
        if i == na {
            return true;
        }
        if i == nb {
            return false;
        }
        let ca: char = a.get_char(i);
        let cb: char = b.get_char(i);
        if ca != cb {
            proof {
                assert(a@.skip(i as int)[0] == a@[i as int]);
                assert(b@.skip(i as int)[0] == b@[i as int]);
                assert(((ca as u32) < (cb as u32)) == ((ca as int) < (cb as int)));
            }
            return (ca as u32) < (cb as u32);
        }
        i += 1;
    }
}

/// The views of a sequence of strings.
pub open spec fn string_views(v: Seq<String>) -> Seq<Seq<char>> {
    v.map_values(|s: String| s@)
}

/// Strictly ascending in lexicographic order: sorted, no duplicates.
pub open spec fn strictly_sorted(s: Seq<Seq<char>>) -> bool {
    forall|i: int, j: int|
        0 <= i < j < s.len() ==> lex_le(#[trigger] s[i], #[trigger] s[j]) && s[i] != s[j]
}

/// Sort strings and drop duplicates: the result is strictly ascending and
/// holds exactly the input's strings.
pub fn sort_dedup_strings(items: &Vec<String>) -> (r: Vec<String>)
    ensures
        strictly_sorted(string_views(r@)),
        forall|d: Seq<char>|
            #[trigger] string_views(r@).contains(d) == string_views(items@).contains(d),
{
    let ghost inv = string_views(items@);
    let mut r: Vec<String> = Vec::new();
    let mut i: usize = 0;
    while i < items.len()
        invariant
            inv == string_views(items@),
            i <= items@.len(),
            strictly_sorted(string_views(r@)),
            forall|d: Seq<char>|
                #[trigger] string_views(r@).contains(d) == inv.take(i as int).contains(d),
        decreases items@.len() - i,
    {
        let ghost rv_before = string_views(r@);
        let elem: &String = &items[i];
        let mut p: usize = 0;
        let mut duplicate: bool = false;
        while p < r.len()
            invariant_except_break
                !duplicate,
            invariant
                p <= r@.len(),
                forall|k: int|
                    0 <= k < p ==> lex_le(#[trigger] string_views(r@)[k], elem@)
                        && string_views(r@)[k] != elem@,
            ensures
                p <= r@.len(),
                duplicate ==> p < r@.len() && string_views(r@)[p as int] == elem@,
                !duplicate ==> (forall|k: int|
                    0 <= k < p ==> lex_le(#[trigger] string_views(r@)[k], elem@)
                        && string_views(r@)[k] != elem@) && (p == r@.len()
                    || !lex_le(string_views(r@)[p as int], elem@)),
            decreases r@.len() - p,
        {
            if str_eq(r[p].as_str(), elem.as_str()) {
                duplicate = true;
                break ;
            }
            if !str_lex_le(r[p].as_str(), elem.as_str()) {
                break ;
            }
            p += 1;
        }
        if !duplicate {
            r.insert(p, elem.clone());
            proof {
                let rv = string_views(r@);
                assert(rv =~= rv_before.insert(p as int, elem@));
                assert forall|x: int, y: int|
                    0 <= x < y < rv.len() implies lex_le(#[trigger] rv[x], #[trigger] rv[y])
                    && rv[x] != rv[y] by {
                    let pi = p as int;
                    if x < pi && y == pi {
                        assert(rv[x] == rv_before[x]);
                        assert(rv[y] == elem@);
                    } else if x == pi && y > pi {
                        assert(rv[x] == elem@);
                        assert(rv[y] == rv_before[y - 1]);
                        assert(!lex_le(rv_before[pi], elem@));
                        lemma_lex_total(rv_before[pi], elem@);
                        assert(lex_le(elem@, rv_before[pi]));
                        if y - 1 > pi {
                            assert(lex_le(rv_before[pi], rv_before[y - 1]));
                            lemma_lex_trans(elem@, rv_before[pi], rv_before[y - 1]);
                            if elem@ == rv_before[y - 1] {
                                lemma_lex_antisym(rv_before[pi], rv_before[y - 1]);
                            }
                        } else {
                            if elem@ == rv_before[pi] {
                                lemma_lex_antisym(rv_before[pi], elem@);
                            }
                        }
                    } else if x < pi && y < pi {
                        assert(rv[x] == rv_before[x] && rv[y] == rv_before[y]);
                    } else if x < pi && y > pi {
                        assert(rv[x] == rv_before[x] && rv[y] == rv_before[y - 1]);
                        if x == y - 1 {
                            assert(lex_le(rv_before[x], elem@));
                            assert(!lex_le(rv_before[pi], elem@));
                            lemma_lex_total(rv_before[pi], elem@);
                            lemma_lex_trans(elem@, rv_before[pi], rv_before[x]);
                            lemma_lex_antisym(elem@, rv_before[x]);
                            assert(false);
                        } else {
                            assert(lex_le(rv_before[x], rv_before[y - 1]));
                        }
                    } else {
                        assert(rv[x] == rv_before[x - 1] && rv[y] == rv_before[y - 1]);
                    }
                }
                assert forall|d: Seq<char>|
                    #[trigger] string_views(r@).contains(d) == inv.take(i + 1).contains(d) by {
                    assert(inv.take(i + 1).drop_last() =~= inv.take(i as int));
                    assert(inv.take(i + 1).last() == inv[i as int]);
                    assert(inv[i as int] == elem@);
                    if rv.contains(d) {
                        let w = choose|w: int| 0 <= w < rv.len() && #[trigger] rv[w] == d;
                        if w == p as int {
                            assert(inv.take(i + 1)[i as int] == d);
                        } else if w < p as int {
                            assert(rv_before[w] == d);
                            assert(rv_before.contains(d));
                            assert(inv.take(i as int).contains(d));
                            let v = choose|v: int|
                                0 <= v < inv.take(i as int).len() && #[trigger] inv.take(
                                    i as int,
                                )[v] == d;
                            assert(inv.take(i + 1)[v] == d);
                        } else {
                            assert(rv_before[w - 1] == d);
                            assert(rv_before.contains(d));
                            assert(inv.take(i as int).contains(d));
                            let v = choose|v: int|
                                0 <= v < inv.take(i as int).len() && #[trigger] inv.take(
                                    i as int,
                                )[v] == d;
                            assert(inv.take(i + 1)[v] == d);
                        }
                    }
                    if inv.take(i + 1).contains(d) {
                        let w = choose|w: int|
                            0 <= w < inv.take(i + 1).len() && #[trigger] inv.take(i + 1)[w] == d;
                        if w == i as int {
                            assert(rv[p as int] == d);
                        } else {
                            assert(inv.take(i as int)[w] == d);
                            assert(inv.take(i as int).contains(d));
                            assert(rv_before.contains(d));
                            let v = choose|v: int|
                                0 <= v < rv_before.len() && #[trigger] rv_before[v] == d;
                            if v < p as int {
                                assert(rv[v] == d);
                            } else {
                                assert(rv[v + 1] == d);
                            }
                        }
                    }
                }
            }
        } else {
            proof {
                let rv = string_views(r@);
                assert forall|d: Seq<char>|
                    #[trigger] rv.contains(d) == inv.take(i + 1).contains(d) by {
                    assert(inv.take(i + 1).drop_last() =~= inv.take(i as int));
                    assert(inv.take(i + 1).last() == inv[i as int]);
                    assert(inv[i as int] == elem@);
                    if inv.take(i + 1).contains(d) {
                        let w = choose|w: int|
                            0 <= w < inv.take(i + 1).len() && #[trigger] inv.take(i + 1)[w] == d;
                        if w == i as int {
                            assert(rv[p as int] == d);
                        } else {
                            assert(inv.take(i as int)[w] == d);
                            assert(inv.take(i as int).contains(d));
                        }
                    }
                    if rv.contains(d) {
                        assert(inv.take(i as int).contains(d));
                        let v = choose|v: int|
                            0 <= v < inv.take(i as int).len() && inv.take(i as int)[v] == d;
                        assert(inv.take(i + 1)[v] == d);
                    }
                }
            }
        }
        i += 1;
    }
    proof {
        assert(inv.take(items@.len() as int) =~= inv);
    }
    r
}

} // verus!
