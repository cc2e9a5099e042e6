//! Character-level text helpers: trimming, searching, integer parsing and
//! formatting, all over `Vec<char>` with their meaning stated on `Seq<char>`.

use vstd::prelude::*;

verus! {

/// A class of characters that the trimming helpers strip.
#[derive(Clone, Copy)]
pub enum CharClass {
    /// Unicode `White_Space`, as `char::is_whitespace` defines it.
    Whitespace,
    /// One given character.
    Exactly(char),
}

/// Unicode `White_Space` (the characters `char::is_whitespace` accepts).
pub open spec fn is_ws(c: char) -> bool {
    let u = c as u32;
    ||| 0x9 <= u <= 0xd
    ||| u == 0x20
    ||| u == 0x85
    ||| u == 0xa0
    ||| u == 0x1680
    ||| 0x2000 <= u <= 0x200a
    ||| u == 0x2028
    ||| u == 0x2029
    ||| u == 0x202f
    ||| u == 0x205f
    ||| u == 0x3000
}

pub open spec fn in_class(cls: CharClass, c: char) -> bool {
    match cls {
        CharClass::Whitespace => is_ws(c),
        CharClass::Exactly(x) => c == x,
    }
}

/// Number of leading characters of `s` in `cls`.
pub open spec fn lead_len(s: Seq<char>, cls: CharClass) -> nat
    decreases s.len(),
{
    if s.len() > 0 && in_class(cls, s[0]) {
        1 + lead_len(s.drop_first(), cls)
    } else {
        0
    }
}

/// Number of trailing characters of `s` in `cls`.
pub open spec fn trail_len(s: Seq<char>, cls: CharClass) -> nat
    decreases s.len(),
{
    if s.len() > 0 && in_class(cls, s.last()) {
        1 + trail_len(s.drop_last(), cls)
    } else {
        0
    }
}

/// `s` without its leading characters in `cls` (`trim_start_matches`).
pub open spec fn trim_start_of(s: Seq<char>, cls: CharClass) -> Seq<char> {
    s.skip(lead_len(s, cls) as int)
}

/// `s` without its trailing characters in `cls` (`trim_end_matches`).
pub open spec fn trim_end_of(s: Seq<char>, cls: CharClass) -> Seq<char> {
    s.take(s.len() - trail_len(s, cls))
}

/// `s` without leading and trailing characters in `cls` (`trim_matches`).
pub open spec fn trim_of(s: Seq<char>, cls: CharClass) -> Seq<char> {
    trim_end_of(trim_start_of(s, cls), cls)
}

/// `s` without leading and trailing whitespace (`str::trim`).
pub open spec fn trim_ws(s: Seq<char>) -> Seq<char> {
    trim_of(s, CharClass::Whitespace)
}

pub proof fn lemma_trail_len_bound(s: Seq<char>, cls: CharClass)
    ensures
        trail_len(s, cls) <= s.len(),
        forall|i: int|
            s.len() - trail_len(s, cls) <= i < s.len() ==> in_class(cls, #[trigger] s[i]),
        trail_len(s, cls) < s.len() ==> !in_class(cls, s[s.len() - trail_len(s, cls) - 1]),
    decreases s.len(),
{
    if s.len() > 0 && in_class(cls, s.last()) {
        lemma_trail_len_bound(s.drop_last(), cls);
        assert forall|i: int|
            s.len() - trail_len(s, cls) <= i < s.len() implies in_class(cls, #[trigger] s[i]) by {
            if i < s.len() - 1 {
                assert(s[i] == s.drop_last()[i]);
            }
        }
    }
}

pub fn is_whitespace(c: char) -> (b: bool)
    ensures
        b == is_ws(c),
{
    let u = c as u32;
    (0x9 <= u && u <= 0xd) || u == 0x20 || u == 0x85 || u == 0xa0 || u == 0x1680 || (0x2000 <= u
        && u <= 0x200a) || u == 0x2028 || u == 0x2029 || u == 0x202f || u == 0x205f || u == 0x3000
}

pub fn class_has(cls: CharClass, c: char) -> (b: bool)
    ensures
        b == in_class(cls, c),
{
    match cls {
        CharClass::Whitespace => is_whitespace(c),
        CharClass::Exactly(x) => c == x,
    }
}

/// End of the run of characters in `cls` that starts at `lo` within `v[lo..hi]`.
fn leading_end(v: &Vec<char>, lo: usize, hi: usize, cls: CharClass) -> (k: usize)
    requires
        lo <= hi <= v.len(),
    ensures
        k == lo + lead_len(v@.subrange(lo as int, hi as int), cls),
        k <= hi,
{
    let mut k = lo;
    while k < hi && class_has(cls, v[k])
        invariant
            lo <= k <= hi <= v.len(),
            lead_len(v@.subrange(lo as int, hi as int), cls) == (k - lo) + lead_len(
                v@.subrange(k as int, hi as int),
                cls,
            ),
        decreases hi - k,
    {
        assert(v@.subrange(k as int, hi as int).drop_first() =~= v@.subrange(k + 1, hi as int));
        k += 1;
    }
    k
}

/// Start of the run of characters in `cls` that ends at `hi` within `v[lo..hi]`.
fn trailing_start(v: &Vec<char>, lo: usize, hi: usize, cls: CharClass) -> (k: usize)
    requires
        lo <= hi <= v.len(),
    ensures
        k == hi - trail_len(v@.subrange(lo as int, hi as int), cls),
        lo <= k,
{
    let mut k = hi;
    while k > lo && class_has(cls, v[k - 1])
        invariant
            lo <= k <= hi <= v.len(),
            trail_len(v@.subrange(lo as int, hi as int), cls) == (hi - k) + trail_len(
                v@.subrange(lo as int, k as int),
                cls,
            ),
        decreases k - lo,
    {
        assert(v@.subrange(lo as int, k as int).drop_last() =~= v@.subrange(lo as int, k - 1));
        k -= 1;
    }
    k
}

/// A copy of `v[lo..hi]`.
pub fn copy_range(v: &Vec<char>, lo: usize, hi: usize) -> (r: Vec<char>)
    requires
        lo <= hi <= v.len(),
    ensures
        r@ == v@.subrange(lo as int, hi as int),
{
    let mut r: Vec<char> = Vec::new();
    let mut i = lo;
    while i < hi
        invariant
            lo <= i <= hi <= v.len(),
            r@ == v@.subrange(lo as int, i as int),
        decreases hi - i,
    {
        r.push(v[i]);
        i += 1;
    }
    r
}

/// `v` without leading and trailing characters in `cls`.
pub fn trim_chars(v: &Vec<char>, cls: CharClass) -> (r: Vec<char>)
    ensures
        r@ == trim_of(v@, cls),
{
    let n = v.len();
    let a = leading_end(v, 0, n, cls);
    let b = trailing_start(v, a, n, cls);
    proof {
        assert(v@.subrange(0, n as int) =~= v@);
        let s1 = trim_start_of(v@, cls);
        assert(s1 =~= v@.subrange(a as int, n as int));
        lemma_trail_len_bound(s1, cls);
        assert(trim_end_of(s1, cls) =~= v@.subrange(a as int, b as int));
    }
    copy_range(v, a, b)
}

/// `v` without leading characters in `cls`.
pub fn trim_start_chars(v: &Vec<char>, cls: CharClass) -> (r: Vec<char>)
    ensures
        r@ == trim_start_of(v@, cls),
{
    let n = v.len();
    let a = leading_end(v, 0, n, cls);
    proof {
        assert(v@.subrange(0, n as int) =~= v@);
    }
    copy_range(v, a, n)
}

/// `v` without trailing characters in `cls`.
pub fn trim_end_chars(v: &Vec<char>, cls: CharClass) -> (r: Vec<char>)
    ensures
        r@ == trim_end_of(v@, cls),
{
    let n = v.len();
    let b = trailing_start(v, 0, n, cls);
    proof {
        assert(v@.subrange(0, n as int) =~= v@);
    }
    copy_range(v, 0, b)
}

/// First index at or after `i` where `pat` occurs in `s`.
pub open spec fn find_from(s: Seq<char>, pat: Seq<char>, i: int) -> Option<int>
    decreases s.len() + 1 - i,
{
    if i < 0 || i + pat.len() > s.len() {
        None
    } else if s.subrange(i, i + pat.len()) == pat {
        Some(i)
    } else {
        find_from(s, pat, i + 1)
    }
}

/// First index where `pat` occurs in `s` (`str::find`).
pub open spec fn find_first(s: Seq<char>, pat: Seq<char>) -> Option<int> {
    find_from(s, pat, 0)
}

pub proof fn lemma_find_from_bounds(s: Seq<char>, pat: Seq<char>, i: int)
    ensures
        find_from(s, pat, i) matches Some(k) ==> i <= k && k + pat.len() <= s.len()
            && s.subrange(k, k + pat.len()) == pat,
    decreases s.len() + 1 - i,
{
    if !(i < 0 || i + pat.len() > s.len()) && s.subrange(i, i + pat.len()) != pat {
        lemma_find_from_bounds(s, pat, i + 1);
    }
}

fn matches_at(v: &Vec<char>, pat: &Vec<char>, i: usize) -> (b: bool)
    requires
        i + pat.len() <= v.len(),
    ensures
        b == (v@.subrange(i as int, i + pat.len()) == pat@),
{
    let m = pat.len();
    let mut j: usize = 0;
    while j < m
        invariant
            j <= m == pat.len(),
            i + m <= v.len(),
            forall|k: int| 0 <= k < j ==> v@[i + k] == pat@[k],
        decreases m - j,
    {
        if v[i + j] != pat[j] {
            assert(v@.subrange(i as int, i + m)[j as int] != pat@[j as int]);
            return false;
        }
        j += 1;
    }
    assert(v@.subrange(i as int, i + m) =~= pat@);
    true
}

/// First index where `pat` occurs in `v`.
pub fn find_chars(v: &Vec<char>, pat: &Vec<char>) -> (r: Option<usize>)
    ensures
        match r {
            Some(i) => find_first(v@, pat@) == Some(i as int),
            None => find_first(v@, pat@) is None,
        },
{
    let n = v.len();
    let m = pat.len();
    if m > n {
        return None;
    }
    let mut i: usize = 0;
    while i <= n - m
        invariant
            n == v.len(),
            m == pat.len(),
            m <= n,
            0 <= i <= n - m + 1,
            find_from(v@, pat@, 0) == find_from(v@, pat@, i as int),
        decreases n - m + 1 - i,
    {
        if matches_at(v, pat, i) {
            return Some(i);
        }
        if i == n - m {
            assert(find_from(v@, pat@, i + 1) is None);
            return None;
        }
        i += 1;
    }
    None
}

/// Whether `a` and `b` hold the same characters.
pub fn chars_eq(a: &Vec<char>, b: &Vec<char>) -> (r: bool)
    ensures
        r == (a@ == b@),
{
    if a.len() != b.len() {
        return false;
    }
    let n = a.len();
    let mut i: usize = 0;
    while i < n
        invariant
            n == a.len() == b.len(),
            i <= n,
            forall|k: int| 0 <= k < i ==> a@[k] == b@[k],
        decreases n - i,
    {
        if a[i] != b[i] {
            return false;
        }
        i += 1;
    }
    assert(a@ =~= b@);
    true
}

/// The characters of `s`.
pub fn str_chars(s: &str) -> (v: Vec<char>)
    ensures
        v@ == s@,
{
    let mut v: Vec<char> = Vec::new();
    for c in it: s.chars()
        invariant
            v@ == it.seq().take(it.index()),
    {
        v.push(c);
    }
    v
}

/// Appends `c` to `s` (`String::push`).
#[verifier::external_body]
pub(crate) fn push_char(s: &mut String, c: char)
    ensures
        final(s)@ == old(s)@.push(c),
{
    s.push(c);
}

/// A `String` holding the characters of `v`.
pub fn string_from_chars(v: &Vec<char>) -> (s: String)
    ensures
        s@ == v@,
{
    let mut s = String::new();
    let n = v.len();
    let mut i: usize = 0;
    while i < n
        invariant
            n == v.len(),
            i <= n,
            s@ == v@.take(i as int),
        decreases n - i,
    {
        push_char(&mut s, v[i]);
        assert(v@.take(i + 1) =~= v@.take(i as int).push(v@[i as int]));
        i += 1;
    }
    assert(v@.take(n as int) =~= v@);
    s
}

pub open spec fn is_digit(c: char) -> bool {
    '0' <= c <= '9'
}

pub open spec fn digit_value(c: char) -> int {
    (c as u32) - ('0' as u32)
}

/// The number that the decimal digits `s` spell.
pub open spec fn digits_value(s: Seq<char>) -> int
    decreases s.len(),
{
    if s.len() == 0 {
        0
    } else {
        digits_value(s.drop_last()) * 10 + digit_value(s.last())
    }
}

pub open spec fn all_digits(s: Seq<char>) -> bool {
    forall|i: int| 0 <= i < s.len() ==> is_digit(#[trigger] s[i])
}

/// What `str::parse::<i64>` gives: an optional sign, then one or more
/// ASCII digits, whose value must fit in an `i64`.
pub open spec fn spec_parse_i64(s: Seq<char>) -> Option<i64> {
    let neg = s.len() > 0 && s[0] == '-';
    let body = if s.len() > 0 && (s[0] == '-' || s[0] == '+') {
        s.drop_first()
    } else {
        s
    };
    let v = if neg {
        -digits_value(body)
    } else {
        digits_value(body)
    };
    if body.len() == 0 || !all_digits(body) || v < i64::MIN || v > i64::MAX {
        None
    } else {
        Some(v as i64)
    }
}

pub proof fn lemma_digits_value_monotone(s: Seq<char>, k: int)
    requires
        all_digits(s),
        0 <= k <= s.len(),
    ensures
        0 <= digits_value(s.take(k)) <= digits_value(s),
    decreases s.len(),
{
    if s.len() > 0 {
        if k == s.len() {
            assert(s.take(k) =~= s);
            lemma_digits_value_monotone(s.drop_last(), k - 1);
            assert(s.drop_last().take(k - 1) =~= s.drop_last());
        } else {
            lemma_digits_value_monotone(s.drop_last(), k);
            assert(s.drop_last().take(k) =~= s.take(k));
            assert(s.drop_last().take(s.len() - 1) =~= s.drop_last());
            lemma_digits_value_monotone(s.drop_last(), s.len() - 1);
        }
    }
}

/// `str::parse::<i64>` on the characters `v`.
pub fn parse_i64_chars(v: &Vec<char>) -> (r: Option<i64>)
    ensures
        r == spec_parse_i64(v@),
{
    let n = v.len();
    let neg = n > 0 && v[0] == '-';
    let start: usize = if n > 0 && (v[0] == '-' || v[0] == '+') {
        1
    } else {
        0
    };
    let ghost body = if n > 0 && (v@[0] == '-' || v@[0] == '+') {
        v@.drop_first()
    } else {
        v@
    };
    assert(body =~= v@.subrange(start as int, n as int));
    if start == n {
        return None;
    }
    let mut acc: i64 = 0;
    let mut i = start;
    while i < n
        invariant
            start <= i <= n == v.len(),
            start < n,
            body == v@.subrange(start as int, n as int),
            body == (if v@.len() > 0 && (v@[0] == '-' || v@[0] == '+') {
                v@.drop_first()
            } else {
                v@
            }),
            neg == (v@.len() > 0 && v@[0] == '-'),
            all_digits(body.take(i - start)),
            neg ==> acc == -digits_value(body.take(i - start)),
            !neg ==> acc == digits_value(body.take(i - start)),
        decreases n - i,
    {
        let c = v[i];
        let ghost pre = body.take(i - start);
        let ghost post = body.take(i - start + 1);
        assert(post.drop_last() =~= pre);
        assert(post.last() == c);
        if !('0' <= c && c <= '9') {
            assert(body[i - start] == c);
            assert(!is_digit(body[i - start]));
            assert(!all_digits(body));
            assert(spec_parse_i64(v@) is None);
            return None;
        }
        let d = ((c as u32) - ('0' as u32)) as i64;
        assert(forall|k: int| 0 <= k < post.len() - 1 ==> post[k] == pre[k]);
        assert(all_digits(post));
        assert(digits_value(post) == digits_value(pre) * 10 + d);
        let next = match acc.checked_mul(10) {
            Some(t) => if neg {
                t.checked_sub(d)
            } else {
                t.checked_add(d)
            },
            None => None,
        };
        match next {
            Some(x) => {
                acc = x;
            },
            None => {
                proof {
                    if all_digits(body) {
                        lemma_digits_value_monotone(body, i - start + 1);
                        lemma_digits_value_monotone(post, i - start);
                        assert(post.take(i - start) =~= pre);
                        assert(digits_value(pre) * 10 + d <= digits_value(body));
                        if neg {
                            assert(acc * 10 < i64::MIN || acc * 10 - d < i64::MIN);
                        } else {
                            assert(acc * 10 > i64::MAX || acc * 10 + d > i64::MAX);
                        }
                    }
                }
                return None;
            },
        }
        i += 1;
    }
    assert(body.take(n - start) =~= body);
    Some(acc)
}

/// Decimal digits of the natural number `n`.
pub open spec fn nat_decimal(n: nat) -> Seq<char>
    decreases n,
{
    if n < 10 {
        seq![digit_char(n)]
    } else {
        nat_decimal(n / 10).push(digit_char(n % 10))
    }
}

pub open spec fn digit_char(d: nat) -> char {
    (('0' as u32) + d) as char
}

/// Every character of a natural number's decimal text is a digit.
pub proof fn lemma_nat_decimal_digits(n: nat)
    ensures
        forall|i: int| 0 <= i < nat_decimal(n).len() ==> is_digit(#[trigger] nat_decimal(n)[i]),
    decreases n,
{
    let d = n % 10;
    assert(is_digit(digit_char(d))) by {
        if d == 0 {} else if d == 1 {} else if d == 2 {} else if d == 3 {} else if d == 4 {}
        else if d == 5 {} else if d == 6 {} else if d == 7 {} else if d == 8 {} else {
            assert(d == 9);
        }
    }
    if n >= 10 {
        lemma_nat_decimal_digits(n / 10);
        let p = nat_decimal(n / 10);
        assert forall|i: int| 0 <= i < nat_decimal(n).len() implies is_digit(
            #[trigger] nat_decimal(n)[i],
        ) by {
            if i < p.len() {
                assert(nat_decimal(n)[i] == p[i]);
            }
        }
    }
}

/// How `i64` prints in decimal (`Display`).
pub open spec fn int_decimal(n: int) -> Seq<char> {
    if n < 0 {
        seq!['-'] + nat_decimal((-n) as nat)
    } else {
        nat_decimal(n as nat)
    }
}

fn u64_digits(n: u64) -> (r: Vec<char>)
    ensures
        r@ == nat_decimal(n as nat),
    decreases n,
{
    let d = (n % 10) as u32;
    let c = char_from_digit(d);
    if n < 10 {
        let mut r: Vec<char> = Vec::new();
        r.push(c);
        r
    } else {
        let mut r = u64_digits(n / 10);
        r.push(c);
        r
    }
}

fn char_from_digit(d: u32) -> (c: char)
    requires
        d < 10,
    ensures
        c == digit_char(d as nat),
{
    if d == 0 {
        '0'
    } else if d == 1 {
        '1'
    } else if d == 2 {
        '2'
    } else if d == 3 {
        '3'
    } else if d == 4 {
        '4'
    } else if d == 5 {
        '5'
    } else if d == 6 {
        '6'
    } else if d == 7 {
        '7'
    } else if d == 8 {
        '8'
    } else {
        '9'
    }
}

/// The decimal text of `n`, as `format!("{}", n)` writes it.
pub fn i64_decimal(n: i64) -> (r: Vec<char>)
    ensures
        r@ == int_decimal(n as int),
{
    if n < 0 {
        let m: u64 = if n == i64::MIN {
            9223372036854775808u64
        } else {
            (-n) as u64
        };
        let digits = u64_digits(m);
        let mut r: Vec<char> = Vec::new();
        r.push('-');
        let mut i: usize = 0;
        while i < digits.len()
            invariant
                i <= digits.len(),
                r@ == seq!['-'] + digits@.take(i as int),
            decreases digits.len() - i,
        {
            r.push(digits[i]);
            assert(digits@.take(i + 1) =~= digits@.take(i as int).push(digits@[i as int]));
            i += 1;
        }
        assert(digits@.take(digits.len() as int) =~= digits@);
        r
    } else {
        u64_digits(n as u64)
    }
}

/// `a` followed by `b`.
pub fn concat_chars(a: &Vec<char>, b: &Vec<char>) -> (r: Vec<char>)
    ensures
        r@ == a@ + b@,
{
    let mut r = copy_range(a, 0, a.len());
    assert(a@.subrange(0, a.len() as int) =~= a@);
    let mut i: usize = 0;
    while i < b.len()
        invariant
            i <= b.len(),
            r@ == a@ + b@.take(i as int),
        decreases b.len() - i,
    {
        r.push(b[i]);
        assert(b@.take(i + 1) =~= b@.take(i as int).push(b@[i as int]));
        i += 1;
    }
    assert(b@.take(b.len() as int) =~= b@);
    r
}

/// `ws` joined with `sep` between neighbours.
pub open spec fn join_with(ws: Seq<Seq<char>>, sep: char) -> Seq<char>
    decreases ws.len(),
{
    if ws.len() == 0 {
        seq![]
    } else if ws.len() == 1 {
        ws[0]
    } else {
        join_with(ws.drop_last(), sep).push(sep) + ws.last()
    }
}

/// Growing the last piece grows the joined text.
pub proof fn lemma_join_extend_last(ws: Seq<Seq<char>>, c: char, sep: char)
    requires
        ws.len() > 0,
    ensures
        join_with(ws.update(ws.len() - 1, ws.last().push(c)), sep) == join_with(ws, sep).push(c),
{
    let ws2 = ws.update(ws.len() - 1, ws.last().push(c));
    if ws.len() > 1 {
        assert(ws2.drop_last() =~= ws.drop_last());
        assert(join_with(ws2, sep) =~= join_with(ws, sep).push(c));
    }
}

/// A new one-character piece joins on after a separator.
pub proof fn lemma_join_push(ws: Seq<Seq<char>>, c: char, sep: char)
    ensures
        join_with(ws.push(seq![c]), sep) == (if ws.len() == 0 {
            seq![c]
        } else {
            join_with(ws, sep).push(sep).push(c)
        }),
{
    let ws2 = ws.push(seq![c]);
    assert(ws2.drop_last() =~= ws);
    if ws.len() == 0 {
        assert(join_with(ws2, sep) =~= seq![c]);
    } else {
        assert(join_with(ws2, sep) =~= join_with(ws, sep).push(sep).push(c));
    }
}

proof fn lemma_digit_char_value(d: nat)
    requires
        d < 10,
    ensures
        is_digit(digit_char(d)),
        digit_value(digit_char(d)) == d,
{
    if d == 0 {} else if d == 1 {} else if d == 2 {} else if d == 3 {} else if d == 4 {}
    else if d == 5 {} else if d == 6 {} else if d == 7 {} else if d == 8 {} else {
        assert(d == 9);
    }
}

proof fn lemma_nat_decimal_value(n: nat)
    ensures
        nat_decimal(n).len() > 0,
        all_digits(nat_decimal(n)),
        digits_value(nat_decimal(n)) == n,
    decreases n,
{
    lemma_nat_decimal_digits(n);
    lemma_digit_char_value(n % 10);
    if n >= 10 {
        lemma_nat_decimal_value(n / 10);
        let s = nat_decimal(n);
        assert(s.drop_last() =~= nat_decimal(n / 10));
        assert(s.last() == digit_char(n % 10));
        assert(n == (n / 10) * 10 + n % 10) by (nonlinear_arith);
        assert(digits_value(s) == digits_value(nat_decimal(n / 10)) * 10 + digit_value(
            digit_char(n % 10),
        ));
        assert(digits_value(s) == n);
    } else {
        assert(n % 10 == n) by (nonlinear_arith)
            requires
                n < 10,
        ;
        assert(nat_decimal(n).drop_last() =~= Seq::<char>::empty());
        assert(digits_value(nat_decimal(n)) == digits_value(Seq::<char>::empty()) * 10
            + digit_value(nat_decimal(n).last()));
        assert(digits_value(nat_decimal(n)) == n);
    }
}

/// Trimming characters of a class from text that neither begins nor ends
/// with one leaves it unchanged.
pub proof fn lemma_trim_untouched(s: Seq<char>, cls: CharClass)
    requires
        s.len() > 0,
        !in_class(cls, s[0]),
        !in_class(cls, s.last()),
    ensures
        trim_of(s, cls) == s,
        trim_start_of(s, cls) == s,
        trim_end_of(s, cls) == s,
{
    assert(lead_len(s, cls) == 0);
    assert(trail_len(s, cls) == 0);
    assert(trim_start_of(s, cls) =~= s);
    assert(trim_end_of(s, cls) =~= s);
}

/// Reading an `i64` back from its decimal text gives the number: printing
/// and parsing agree on every `i64`.
pub proof fn law_decimal_round_trip(v: i64)
    ensures
        spec_parse_i64(int_decimal(v as int)) == Some(v),
        int_decimal(v as int).len() > 0,
        !is_ws(int_decimal(v as int)[0]),
        !is_ws(int_decimal(v as int).last()),
        forall|i: int|
            0 <= i < int_decimal(v as int).len() ==> #[trigger] int_decimal(v as int)[i] == '-'
                || is_digit(int_decimal(v as int)[i]),
{
    let s = int_decimal(v as int);
    if v < 0 {
        let m = (-(v as int)) as nat;
        lemma_nat_decimal_value(m);
        let d = nat_decimal(m);
        assert(s.drop_first() =~= d);
        assert(s[0] == '-');
        assert forall|i: int| 0 <= i < s.len() implies #[trigger] s[i] == '-' || is_digit(s[i]) by {
            if i > 0 {
                assert(s[i] == d[i - 1]);
            }
        }
        assert(s.last() == d.last());
        assert(is_digit(d[d.len() - 1]));
    } else {
        lemma_nat_decimal_value(v as nat);
        let d = nat_decimal(v as nat);
        assert(is_digit(d[0]));
        assert(is_digit(d[d.len() - 1]));
    }
}

} // verus!
