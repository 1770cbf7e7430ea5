//! Character-level helpers for reading the command stream: whitespace,
//! searching, and the two number grammars (unsigned integers and signed
//! decimals).
use vstd::prelude::*;

verus! {

/// Number of micro-units in one unit of a decimal (three fraction digits).
pub const MICROS_PER_UNIT: u64 = 1000;

/// The largest magnitude a parsed decimal may have, in micro-units.
pub const DECIMAL_LIMIT: u64 = 9_223_372_036_854_775_807;

/// The Unicode `White_Space` characters.
pub open spec fn is_whitespace(c: char) -> bool {
    ('\u{9}' <= c && c <= '\u{d}') || c == ' ' || c == '\u{85}' || c == '\u{a0}' || c
        == '\u{1680}' || ('\u{2000}' <= c && c <= '\u{200a}') || c == '\u{2028}' || c
        == '\u{2029}' || c == '\u{202f}' || c == '\u{205f}' || c == '\u{3000}'
}

pub fn char_is_whitespace(c: char) -> (r: bool)
    ensures
        r == is_whitespace(c),
{
    ('\u{9}' <= c && c <= '\u{d}') || c == ' ' || c == '\u{85}' || c == '\u{a0}' || c
        == '\u{1680}' || ('\u{2000}' <= c && c <= '\u{200a}') || c == '\u{2028}' || c
        == '\u{2029}' || c == '\u{202f}' || c == '\u{205f}' || c == '\u{3000}'
}

/// `s` without its leading whitespace.
pub open spec fn trim_start(s: Seq<char>) -> Seq<char>
    decreases s.len(),
{
    if s.len() > 0 && is_whitespace(s[0]) {
        trim_start(s.drop_first())
    } else {
        s
    }
}

/// `s` without its trailing whitespace.
pub open spec fn trim_end(s: Seq<char>) -> Seq<char>
    decreases s.len(),
{
    if s.len() > 0 && is_whitespace(s.last()) {
        trim_end(s.drop_last())
    } else {
        s
    }
}

/// `s` without whitespace at either end.
pub open spec fn trim(s: Seq<char>) -> Seq<char> {
    trim_end(trim_start(s))
}

/// The position of the first `c` in `s`, if there is one.
#[verifier::opaque]
pub open spec fn find_char(s: Seq<char>, c: char) -> Option<int> {
    if exists|i: int| 0 <= i < s.len() && s[i] == c {
        Some(choose|i: int| 0 <= i < s.len() && s[i] == c && forall|j: int| 0 <= j < i ==> s[j] != c)
    } else {
        None
    }
}

pub open spec fn is_digit(c: char) -> bool {
    '0' <= c && c <= '9'
}

pub open spec fn digit_value(c: char) -> int {
    c as int - '0' as int
}

pub open spec fn all_digits(s: Seq<char>) -> bool {
    forall|i: int| 0 <= i < s.len() ==> is_digit(#[trigger] s[i])
}

/// The number that the decimal digits `s` spell, most significant first.
pub open spec fn digits_value(s: Seq<char>) -> int
    decreases s.len(),
{
    if s.len() == 0 {
        0
    } else {
        digits_value(s.drop_last()) * 10 + digit_value(s.last())
    }
}

/// An unsigned integer: an optional `+` and at least one digit.
#[verifier::opaque]
pub open spec fn unsigned_value(s: Seq<char>) -> Option<int> {
    let body = if s.len() > 0 && s[0] == '+' {
        s.drop_first()
    } else {
        s
    };
    if body.len() > 0 && all_digits(body) {
        Some(digits_value(body))
    } else {
        None
    }
}

/// The first three fraction digits `f` in thousandths; later digits are cut off.
#[verifier::opaque]
pub open spec fn fraction_millis(f: Seq<char>) -> int {
    if f.len() >= 3 {
        digits_value(f.take(3))
    } else if f.len() == 2 {
        digits_value(f) * 10
    } else if f.len() == 1 {
        digits_value(f) * 100
    } else {
        0
    }
}

/// An unsigned decimal `ddd`, `ddd.`, `.ddd` or `ddd.ddd` (at least one digit),
/// in thousandths.
#[verifier::opaque]
pub open spec fn unsigned_decimal_value(s: Seq<char>) -> Option<int> {
    let whole = match find_char(s, '.') {
        Some(d) => s.take(d),
        None => s,
    };
    let fraction = match find_char(s, '.') {
        Some(d) => s.skip(d + 1),
        None => Seq::empty(),
    };
    if whole.len() + fraction.len() > 0 && all_digits(whole) && all_digits(fraction) {
        Some(digits_value(whole) * 1000 + fraction_millis(fraction))
    } else {
        None
    }
}

/// A decimal with an optional sign, in thousandths (truncated toward zero).
#[verifier::opaque]
pub open spec fn decimal_value(s: Seq<char>) -> Option<int> {
    if s.len() > 0 && s[0] == '-' {
        match unsigned_decimal_value(s.drop_first()) {
            Some(m) => Some(-m),
            None => None,
        }
    } else if s.len() > 0 && s[0] == '+' {
        unsigned_decimal_value(s.drop_first())
    } else {
        unsigned_decimal_value(s)
    }
}

/// Copies the characters of `s` into a vector.
pub fn chars_of(s: &str) -> (r: Vec<char>)
    ensures
        r@ == s@,
{
    let mut r: Vec<char> = Vec::new();
    for c in it: s.chars()
        invariant
            r@ == it.seq().take(it.index() as int),
    {
        r.push(c);
    }
    r
}

/// The characters `s[from..to]` without whitespace at either end.
pub fn trimmed(s: &Vec<char>, from: usize, to: usize) -> (r: Vec<char>)
    requires
        from <= to <= s.len(),
    ensures
        r@ == trim(s@.subrange(from as int, to as int)),
{
    let ghost whole = s@.subrange(from as int, to as int);
    let mut i: usize = from;
    while i < to && char_is_whitespace(s[i])
        invariant
            from <= i <= to <= s.len(),
            whole == s@.subrange(from as int, to as int),
            trim_start(whole) == trim_start(s@.subrange(i as int, to as int)),
        decreases to - i,
    {
        assert(s@.subrange(i as int, to as int).drop_first() =~= s@.subrange(i + 1, to as int));
        i = i + 1;
    }
    let mut j: usize = to;
    while j > i && char_is_whitespace(s[j - 1])
        invariant
            from <= i <= j <= to <= s.len(),
            trim(whole) == trim_end(s@.subrange(i as int, j as int)),
        decreases j - i,
    {
        assert(s@.subrange(i as int, j as int).drop_last() =~= s@.subrange(i as int, j - 1));
        j = j - 1;
    }
    copy_range(s, i, j)
}

/// The characters `s[from..to]` as a new vector.
pub fn copy_range(s: &Vec<char>, from: usize, to: usize) -> (r: Vec<char>)
    requires
        from <= to <= s.len(),
    ensures
        r@ == s@.subrange(from as int, to as int),
{
    let mut r: Vec<char> = Vec::new();
    let mut k: usize = from;
    while k < to
        invariant
            from <= k <= to <= s.len(),
            r@ == s@.subrange(from as int, k as int),
        decreases to - k,
    {
        r.push(s[k]);
        k = k + 1;
    }
    r
}

/// The position of the first `c` in `s[from..to]`, counted from the start of
/// `s`, as `str::find` gives it on that part.
pub fn find_in(s: &Vec<char>, from: usize, to: usize, c: char) -> (r: Option<usize>)
    requires
        from <= to <= s.len(),
    ensures
        r matches Some(i) ==> from <= i < to && find_char(s@.subrange(from as int, to as int), c)
            == Some(i - from),
        r is None ==> find_char(s@.subrange(from as int, to as int), c) is None,
{
    let ghost t = s@.subrange(from as int, to as int);
    let mut i: usize = from;
    while i < to
        invariant
            from <= i <= to <= s.len(),
            t == s@.subrange(from as int, to as int),
            forall|j: int| 0 <= j < i - from ==> t[j] != c,
        decreases to - i,
    {
        if s[i] == c {
            reveal(find_char);
            let ghost m = i - from;
            assert(0 <= m < t.len() && t[m] == c && forall|j: int| 0 <= j < m ==> t[j] != c);
            let ghost k = choose|k: int|
                0 <= k < t.len() && t[k] == c && forall|j: int| 0 <= j < k ==> t[j] != c;
            assert(k == m) by {
                if k < m {
                    assert(t[k] != c);
                } else if k > m {
                    assert(t[m] != c);
                }
            }
            return Some(i);
        }
        i = i + 1;
    }
    reveal(find_char);
    None
}

proof fn lemma_digits_value_nonneg(s: Seq<char>)
    requires
        all_digits(s),
    ensures
        digits_value(s) >= 0,
    decreases s.len(),
{
    if s.len() > 0 {
        assert(all_digits(s.drop_last())) by {
            assert forall|i: int| 0 <= i < s.drop_last().len() implies is_digit(
                #[trigger] s.drop_last()[i],
            ) by {
                assert(s.drop_last()[i] == s[i]);
            }
        }
        lemma_digits_value_nonneg(s.drop_last());
        assert(is_digit(s[s.len() - 1]));
    }
}

/// A longer run of digits never spells a smaller number.
proof fn lemma_digits_value_prefix(s: Seq<char>, k: int)
    requires
        all_digits(s),
        0 <= k <= s.len(),
    ensures
        digits_value(s.take(k)) <= digits_value(s),
    decreases s.len(),
{
    if k == s.len() {
        assert(s.take(k) =~= s);
    } else {
        let p = s.drop_last();
        assert(all_digits(p)) by {
            assert forall|i: int| 0 <= i < p.len() implies is_digit(#[trigger] p[i]) by {
                assert(p[i] == s[i]);
            }
        }
        lemma_digits_value_prefix(p, k);
        assert(p.take(k) =~= s.take(k));
        lemma_digits_value_nonneg(p);
        assert(is_digit(s[s.len() - 1]));
    }
}

/// Whether every character of `s[from..to]` is a decimal digit.
pub fn digits_only(s: &Vec<char>, from: usize, to: usize) -> (r: bool)
    requires
        from <= to <= s.len(),
    ensures
        r == all_digits(s@.subrange(from as int, to as int)),
{
    let ghost t = s@.subrange(from as int, to as int);
    let mut k: usize = from;
    while k < to
        invariant
            from <= k <= to <= s.len(),
            t == s@.subrange(from as int, to as int),
            forall|j: int| 0 <= j < k - from ==> is_digit(#[trigger] t[j]),
        decreases to - k,
    {
        if !('0' <= s[k] && s[k] <= '9') {
            assert(!is_digit(t[k - from]));
            return false;
        }
        k = k + 1;
    }
    true
}

/// The number spelt by the digits `s[from..to]`, where it is at most `max`.
pub fn parse_digits(s: &Vec<char>, from: usize, to: usize, max: u64) -> (r: Option<u64>)
    requires
        from <= to <= s.len(),
    ensures
        ({
            let t = s@.subrange(from as int, to as int);
            match r {
                Some(v) => all_digits(t) && v == digits_value(t) && v <= max,
                None => !all_digits(t) || digits_value(t) > max,
            }
        }),
{
    let ghost t = s@.subrange(from as int, to as int);
    let mut acc: u64 = 0;
    let mut k: usize = from;
    while k < to
        invariant
            from <= k <= to <= s.len(),
            t == s@.subrange(from as int, to as int),
            all_digits(t.take(k - from)),
            acc == digits_value(t.take(k - from)),
            acc <= max,
        decreases to - k,
    {
        let c = s[k];
        if !('0' <= c && c <= '9') {
            assert(!is_digit(t[k - from]));
            return None;
        }
        let d: u64 = (c as u32 - '0' as u32) as u64;
        let ghost p = t.take(k - from + 1);
        assert(p.drop_last() =~= t.take(k - from));
        assert(p.last() == c);
        assert(all_digits(p)) by {
            assert forall|i: int| 0 <= i < p.len() implies is_digit(#[trigger] p[i]) by {
                if i < p.len() - 1 {
                    assert(p[i] == t.take(k - from)[i]);
                }
            }
        }
        if d > max || acc > (max - d) / 10 {
            assert(acc * 10 + d > max) by (nonlinear_arith)
                requires
                    d > max || acc > (max - d) / 10,
                    acc >= 0,
            ;
            proof {
                if all_digits(t) {
                    lemma_digits_value_prefix(t, k - from + 1);
                }
            }
            return None;
        }
        assert(acc * 10 + d <= max) by (nonlinear_arith)
            requires
                acc <= (max - d) / 10,
                d <= max,
        ;
        acc = acc * 10 + d;
        k = k + 1;
    }
    assert(t.take(k - from) =~= t);
    Some(acc)
}

proof fn lemma_digits_value_small(s: Seq<char>)
    requires
        all_digits(s),
        s.len() <= 3,
    ensures
        0 <= digits_value(s) < 1000,
        s.len() <= 2 ==> digits_value(s) < 100,
        s.len() <= 1 ==> digits_value(s) < 10,
    decreases s.len(),
{
    if s.len() > 0 {
        let p = s.drop_last();
        assert(all_digits(p)) by {
            assert forall|i: int| 0 <= i < p.len() implies is_digit(#[trigger] p[i]) by {
                assert(p[i] == s[i]);
            }
        }
        lemma_digits_value_small(p);
        assert(is_digit(s[s.len() - 1]));
    }
}

/// An unsigned integer `s[from..to]` (see `unsigned_value`), where it is at most `max`.
pub fn parse_unsigned(s: &Vec<char>, from: usize, to: usize, max: u64) -> (r: Option<u64>)
    requires
        from <= to <= s.len(),
    ensures
        ({
            let t = s@.subrange(from as int, to as int);
            match r {
                Some(v) => unsigned_value(t) == Some(v as int) && v <= max,
                None => unsigned_value(t) matches Some(v) ==> v > max,
            }
        }),
{
    reveal(unsigned_value);
    let ghost t = s@.subrange(from as int, to as int);
    let start: usize = if from < to && s[from] == '+' {
        from + 1
    } else {
        from
    };
    assert(start > from ==> t.drop_first() =~= s@.subrange(start as int, to as int));
    assert(start == from ==> t =~= s@.subrange(start as int, to as int));
    if start == to {
        return None;
    }
    parse_digits(s, start, to, max)
}

proof fn lemma_fraction_millis_bounds(f: Seq<char>)
    requires
        all_digits(f),
    ensures
        0 <= fraction_millis(f) < 1000,
{
    reveal(fraction_millis);
    if f.len() >= 3 {
        assert(all_digits(f.take(3))) by {
            assert forall|i: int| 0 <= i < 3 implies is_digit(#[trigger] f.take(3)[i]) by {
                assert(f.take(3)[i] == f[i]);
            }
        }
        lemma_digits_value_small(f.take(3));
    } else {
        lemma_digits_value_small(f);
    }
}

/// The fraction digits `s[from..to]` in thousandths (see `fraction_millis`).
fn fraction_digits_millis(s: &Vec<char>, from: usize, to: usize) -> (r: u64)
    requires
        from <= to <= s.len(),
        all_digits(s@.subrange(from as int, to as int)),
    ensures
        r == fraction_millis(s@.subrange(from as int, to as int)),
        r < 1000,
{
    reveal(fraction_millis);
    let ghost f = s@.subrange(from as int, to as int);
    let taken: usize = if to - from >= 3 {
        3
    } else {
        to - from
    };
    let ghost head = s@.subrange(from as int, from + taken);
    assert(all_digits(head)) by {
        assert forall|i: int| 0 <= i < head.len() implies is_digit(#[trigger] head[i]) by {
            assert(head[i] == f[i]);
        }
    }
    proof {
        lemma_digits_value_small(head);
        if taken == 3 {
            assert(f.take(3) =~= head);
        } else {
            assert(f =~= head);
        }
    }
    let mut m: u64 = 0;
    let mut k: usize = from;
    while k < from + taken
        invariant
            from <= k <= from + taken <= to <= s.len(),
            taken <= 3,
            head == s@.subrange(from as int, from + taken),
            all_digits(head),
            m == digits_value(head.take(k - from)),
            m < 1000,
        decreases from + taken - k,
    {
        let ghost p = head.take(k - from + 1);
        assert(p.drop_last() =~= head.take(k - from));
        assert(all_digits(p)) by {
            assert forall|i: int| 0 <= i < p.len() implies is_digit(#[trigger] p[i]) by {
                assert(p[i] == head[i]);
            }
        }
        assert(is_digit(head[k - from]));
        proof {
            lemma_digits_value_small(p);
        }
        m = m * 10 + (s[k] as u32 - '0' as u32) as u64;
        k = k + 1;
    }
    assert(head.take(taken as int) =~= head);
    if taken == 3 {
        m
    } else if taken == 2 {
        m * 10
    } else if taken == 1 {
        m * 100
    } else {
        0
    }
}

/// An unsigned decimal `s[from..to]` (see `unsigned_decimal_value`), in
/// thousandths, where it is at most `DECIMAL_LIMIT`.
#[verifier::rlimit(40)]
fn parse_unsigned_decimal(s: &Vec<char>, from: usize, to: usize) -> (r: Option<u64>)
    requires
        from <= to <= s.len(),
    ensures
        ({
            let t = s@.subrange(from as int, to as int);
            match r {
                Some(v) => unsigned_decimal_value(t) == Some(v as int) && v <= DECIMAL_LIMIT,
                None => unsigned_decimal_value(t) matches Some(v) ==> v > DECIMAL_LIMIT,
            }
        }),
{
    reveal(unsigned_decimal_value);
    let ghost t = s@.subrange(from as int, to as int);
    let dot = find_in(s, from, to, '.');
    let (whole_end, fraction_start): (usize, usize) = match dot {
        Some(d) => (d, d + 1),
        None => (to, to),
    };
    let ghost whole = s@.subrange(from as int, whole_end as int);
    let ghost fraction = s@.subrange(fraction_start as int, to as int);
    proof {
        match dot {
            Some(d) => {
                assert(t.take(d - from) =~= whole);
                assert(t.skip(d - from + 1) =~= fraction);
            },
            None => {
                assert(t =~= whole);
                assert(fraction =~= Seq::<char>::empty());
            },
        }
    }
    if whole_end == from && fraction_start == to {
        return None;
    }
    if !digits_only(s, fraction_start, to) {
        return None;
    }
    proof {
        lemma_fraction_millis_bounds(fraction);
    }
    let w = match parse_digits(s, from, whole_end, DECIMAL_LIMIT / MICROS_PER_UNIT) {
        Some(w) => w,
        None => {
            proof {
                if all_digits(whole) {
                    let w = digits_value(whole);
                    assert(w * 1000 > DECIMAL_LIMIT) by (nonlinear_arith)
                        requires
                            w > DECIMAL_LIMIT / 1000,
                    ;
                }
            }
            return None;
        },
    };
    let millis = fraction_digits_millis(s, fraction_start, to);
    let value: u64 = w * MICROS_PER_UNIT + millis;
    if value > DECIMAL_LIMIT {
        return None;
    }
    Some(value)
}

/// A signed decimal `s[from..to]` (see `decimal_value`), in thousandths,
/// where its magnitude is at most `DECIMAL_LIMIT`.
pub fn parse_decimal(s: &Vec<char>, from: usize, to: usize) -> (r: Option<i64>)
    requires
        from <= to <= s.len(),
    ensures
        ({
            let t = s@.subrange(from as int, to as int);
            match r {
                Some(v) => decimal_value(t) == Some(v as int) && -DECIMAL_LIMIT <= v
                    <= DECIMAL_LIMIT,
                None => decimal_value(t) matches Some(v) ==> v > DECIMAL_LIMIT || v
                    < -DECIMAL_LIMIT,
            }
        }),
{
    reveal(decimal_value);
    let ghost t = s@.subrange(from as int, to as int);
    if from < to && (s[from] == '-' || s[from] == '+') {
        assert(t.drop_first() =~= s@.subrange(from + 1, to as int));
        let negative = s[from] == '-';
        match parse_unsigned_decimal(s, from + 1, to) {
            Some(m) => {
                if negative {
                    Some(-(m as i64))
                } else {
                    Some(m as i64)
                }
            },
            None => None,
        }
    } else {
        match parse_unsigned_decimal(s, from, to) {
            Some(m) => Some(m as i64),
            None => None,
        }
    }
}

/// A character that can stand in a decimal: a digit, a sign or a point.
pub open spec fn is_decimal_char(c: char) -> bool {
    is_digit(c) || c == '.' || c == '+' || c == '-'
}

/// What `find_char` gives: the first position of `c`, or `None` where `s`
/// holds no `c`.
pub proof fn lemma_find_char(s: Seq<char>, c: char)
    ensures
        find_char(s, c) matches Some(i) ==> 0 <= i < s.len() && s[i] == c && forall|j: int|
            0 <= j < i ==> s[j] != c,
        find_char(s, c) is None ==> forall|j: int| 0 <= j < s.len() ==> s[j] != c,
{
    reveal(find_char);
    if exists|i: int| 0 <= i < s.len() && s[i] == c {
        let w = choose|i: int| 0 <= i < s.len() && s[i] == c;
        let m = lemma_first_position(s, c, w);
        assert(0 <= m < s.len() && s[m] == c && forall|j: int| 0 <= j < m ==> s[j] != c);
    }
}

proof fn lemma_first_position(s: Seq<char>, c: char, w: int) -> (m: int)
    requires
        0 <= w < s.len(),
        s[w] == c,
    ensures
        0 <= m <= w,
        s[m] == c,
        forall|j: int| 0 <= j < m ==> s[j] != c,
    decreases w,
{
    if exists|j: int| 0 <= j < w && s[j] == c {
        let v = choose|j: int| 0 <= j < w && s[j] == c;
        lemma_first_position(s, c, v)
    } else {
        w
    }
}

proof fn lemma_unsigned_decimal_chars(s: Seq<char>)
    requires
        unsigned_decimal_value(s) is Some,
    ensures
        forall|i: int| 0 <= i < s.len() ==> is_decimal_char(#[trigger] s[i]),
{
    reveal(unsigned_decimal_value);
    lemma_find_char(s, '.');
    assert forall|i: int| 0 <= i < s.len() implies is_decimal_char(#[trigger] s[i]) by {
        match find_char(s, '.') {
            Some(d) => {
                if i < d {
                    assert(s.take(d)[i] == s[i]);
                } else if i > d {
                    assert(s.skip(d + 1)[i - d - 1] == s[i]);
                }
            },
            None => {},
        }
    }
}

/// A decimal is made of digits, signs and points alone.
pub proof fn lemma_decimal_chars(s: Seq<char>)
    requires
        decimal_value(s) is Some,
    ensures
        forall|i: int| 0 <= i < s.len() ==> is_decimal_char(#[trigger] s[i]),
{
    reveal(decimal_value);
    if s.len() > 0 && (s[0] == '-' || s[0] == '+') {
        let body = s.drop_first();
        lemma_unsigned_decimal_chars(body);
        assert forall|i: int| 0 <= i < s.len() implies is_decimal_char(#[trigger] s[i]) by {
            if i > 0 {
                assert(body[i - 1] == s[i]);
            }
        }
    } else {
        lemma_unsigned_decimal_chars(s);
    }
}

/// The digit character for `d` in `0 ..= 9`.
pub open spec fn digit_char(d: int) -> char {
    if d <= 0 {
        '0'
    } else if d == 1 {
        '1'
    } else if d == 2 {
        '2'
    } else if d == 3 {
        '3'
    } else if d == 4 {
        '4'
    } else if d == 5 {
        '5'
    } else if d == 6 {
        '6'
    } else if d == 7 {
        '7'
    } else if d == 8 {
        '8'
    } else {
        '9'
    }
}

/// `n` written in decimal digits, without leading zeros.
pub open spec fn digits_of(n: nat) -> Seq<char>
    decreases n,
{
    if n < 10 {
        seq![digit_char(n as int)]
    } else {
        digits_of(n / 10).push(digit_char((n % 10) as int))
    }
}

/// `m` in `0 ..= 999` as exactly three digits.
pub open spec fn three_digits(m: int) -> Seq<char> {
    seq![digit_char(m / 100), digit_char((m / 10) % 10), digit_char(m % 10)]
}

/// `v` thousandths written as a decimal with three fraction digits, such as
/// `-12.345`.
pub open spec fn decimal_text(v: int) -> Seq<char> {
    let a = if v < 0 {
        -v
    } else {
        v
    };
    let sign = if v < 0 {
        seq!['-']
    } else {
        Seq::<char>::empty()
    };
    sign + digits_of((a / 1000) as nat) + seq!['.'] + three_digits(a % 1000)
}

proof fn lemma_digit_char(d: int)
    requires
        0 <= d <= 9,
    ensures
        is_digit(digit_char(d)),
        digit_value(digit_char(d)) == d,
{
}

pub proof fn lemma_digits_of(n: nat)
    ensures
        digits_of(n).len() >= 1,
        all_digits(digits_of(n)),
        digits_value(digits_of(n)) == n,
    decreases n,
{
    if n < 10 {
        lemma_digit_char(n as int);
        assert(seq![digit_char(n as int)].drop_last() =~= Seq::<char>::empty());
        assert(digits_value(Seq::<char>::empty()) == 0);
    } else {
        lemma_digit_char((n % 10) as int);
        lemma_digits_of(n / 10);
        let p = digits_of(n / 10);
        let s = p.push(digit_char((n % 10) as int));
        assert(s.drop_last() =~= p);
        assert forall|i: int| 0 <= i < s.len() implies is_digit(#[trigger] s[i]) by {
            if i < p.len() {
                assert(s[i] == p[i]);
            }
        }
    }
}

proof fn lemma_three_digits(m: int)
    requires
        0 <= m < 1000,
    ensures
        three_digits(m).len() == 3,
        all_digits(three_digits(m)),
        digits_value(three_digits(m)) == m,
{
    let s = three_digits(m);
    lemma_digit_char(m / 100);
    lemma_digit_char((m / 10) % 10);
    lemma_digit_char(m % 10);
    assert(digits_value(Seq::<char>::empty()) == 0);
    assert(s.drop_last().drop_last().drop_last() =~= Seq::<char>::empty());
    assert(s.drop_last().drop_last() =~= seq![digit_char(m / 100)]);
    assert(s.drop_last() =~= seq![digit_char(m / 100), digit_char((m / 10) % 10)]);
    assert(s.drop_last().drop_last().drop_last() =~= Seq::<char>::empty());
    assert(digits_value(s.drop_last().drop_last()) == m / 100);
    assert(digits_value(s.drop_last()) == (m / 100) * 10 + (m / 10) % 10);
    assert(((m / 100) * 10 + (m / 10) % 10) * 10 + m % 10 == m) by (nonlinear_arith)
        requires
            0 <= m < 1000,
    ;
}

/// Reading back a decimal written by `decimal_text` gives its value.
pub proof fn lemma_decimal_round_trip(v: int)
    ensures
        decimal_value(decimal_text(v)) == Some(v),
{
    reveal(decimal_value);
    reveal(unsigned_decimal_value);
    reveal(fraction_millis);
    let a = if v < 0 {
        -v
    } else {
        v
    };
    let d = digits_of((a / 1000) as nat);
    let f = three_digits(a % 1000);
    lemma_digits_of((a / 1000) as nat);
    lemma_three_digits(a % 1000);
    let body = d + seq!['.'] + f;
    let t = decimal_text(v);
    if v < 0 {
        assert(t.drop_first() =~= body);
    } else {
        assert(t =~= body);
        assert(t[0] == d[0]);
    }
    assert(body[d.len() as int] == '.');
    assert forall|j: int| 0 <= j < d.len() implies body[j] != '.' by {
        assert(body[j] == d[j]);
    }
    lemma_find_char(body, '.');
    let k = find_char(body, '.');
    assert(k == Some(d.len() as int)) by {
        match k {
            Some(i) => {
                if i < d.len() {
                    assert(body[i] == d[i]);
                } else if i > d.len() {
                    assert(body[d.len() as int] != '.');
                }
            },
            None => {
                assert(body[d.len() as int] != '.');
            },
        }
    }
    assert(body.take(d.len() as int) =~= d);
    assert(body.skip(d.len() as int + 1) =~= f);
    assert(f.take(3) =~= f);
    assert(a == (a / 1000) * 1000 + a % 1000);
}

} // verus!
