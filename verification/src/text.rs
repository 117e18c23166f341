//! Character-level reading of the time and date expressions: decimal
//! numbers as Rust's integer parser reads them, ASCII case folding, suffix
//! tests, pair removal and splitting at a separator.
use vstd::prelude::*;

verus! {

pub open spec fn is_digit(c: char) -> bool {
    '0' <= c && c <= '9'
}

pub open spec fn digit_value(c: char) -> int {
    (c as int) - ('0' as int)
}

pub open spec fn all_digits(s: Seq<char>) -> bool {
    forall|i: int| 0 <= i < s.len() ==> is_digit(#[trigger] s[i])
}

/// Base-ten value of a string of digits.
pub open spec fn digits_value(s: Seq<char>) -> int
    decreases s.len(),
{
    if s.len() == 0 {
        0
    } else {
        10 * digits_value(s.drop_last()) + digit_value(s.last())
    }
}

/// The value of a magnitude: one digit or more, and nothing else.
pub open spec fn decimal_magnitude(s: Seq<char>) -> Option<int> {
    if s.len() > 0 && all_digits(s) {
        Some(digits_value(s))
    } else {
        None
    }
}

/// The number that Rust's `str::parse` reads for an unsigned type:
/// an optional `+`, then a magnitude.
pub open spec fn unsigned_text_value(s: Seq<char>) -> Option<int> {
    if s.len() > 0 && s[0] == '+' {
        decimal_magnitude(s.skip(1))
    } else {
        decimal_magnitude(s)
    }
}

/// The number that Rust's `str::parse` reads for a signed type:
/// an optional `+` or `-`, then a magnitude.
pub open spec fn signed_text_value(s: Seq<char>) -> Option<int> {
    if s.len() > 0 && s[0] == '-' {
        match decimal_magnitude(s.skip(1)) {
            Some(v) => Some(-v),
            None => None,
        }
    } else {
        unsigned_text_value(s)
    }
}

/// `s.parse::<u32>()`, as an option.
pub open spec fn u32_from_text(s: Seq<char>) -> Option<u32> {
    match unsigned_text_value(s) {
        Some(v) => if v <= u32::MAX {
            Some(v as u32)
        } else {
            None
        },
        None => None,
    }
}

/// `s.parse::<i32>()`, as an option.
pub open spec fn i32_from_text(s: Seq<char>) -> Option<i32> {
    match signed_text_value(s) {
        Some(v) => if i32::MIN <= v <= i32::MAX {
            Some(v as i32)
        } else {
            None
        },
        None => None,
    }
}

/// `s.parse::<i64>()`, as an option.
pub open spec fn i64_from_text(s: Seq<char>) -> Option<i64> {
    match signed_text_value(s) {
        Some(v) => if i64::MIN <= v <= i64::MAX {
            Some(v as i64)
        } else {
            None
        },
        None => None,
    }
}

pub proof fn lemma_digits_value_nonneg(s: Seq<char>)
    requires
        all_digits(s),
    ensures
        digits_value(s) >= 0,
    decreases s.len(),
{
    if s.len() > 0 {
        assert(is_digit(s[s.len() - 1]));
        lemma_digits_value_nonneg(s.drop_last());
    }
}

/// A prefix of a string of digits is worth no more than the whole.
pub proof fn lemma_digits_value_prefix(s: Seq<char>, k: int)
    requires
        all_digits(s),
        0 <= k <= s.len(),
    ensures
        0 <= digits_value(s.take(k)) <= digits_value(s),
    decreases s.len(),
{
    if k == s.len() {
        assert(s.take(k) =~= s);
        lemma_digits_value_nonneg(s);
    } else {
        let p = s.drop_last();
        assert(all_digits(p)) by {
            assert forall|i: int| 0 <= i < p.len() implies is_digit(#[trigger] p[i]) by {
                assert(p[i] == s[i]);
            }
        }
        lemma_digits_value_prefix(p, k);
        assert(p.take(k) =~= s.take(k));
        lemma_digits_value_nonneg(p);
        assert(is_digit(s[s.len() - 1]));
    }
}

/// Reads the magnitude `s[start..end]`, accepting it only when its value is
/// at most `limit`.
pub fn magnitude_at_most(s: &Vec<char>, start: usize, end: usize, limit: u64) -> (r: Option<u64>)
    requires
        start <= end <= s.len(),
    ensures
        r is Some <==> (decimal_magnitude(s@.subrange(start as int, end as int)) matches Some(
            m,
        ) && m <= limit),
        r matches Some(v) ==> decimal_magnitude(s@.subrange(start as int, end as int)) == Some(
            v as int,
        ),
{
    let ghost full = s@.subrange(start as int, end as int);
    if start == end {
        return None;
    }
    let mut acc: u64 = 0;
    let mut i: usize = start;
    while i < end
        invariant
            start <= i <= end <= s.len(),
            full == s@.subrange(start as int, end as int),
            all_digits(s@.subrange(start as int, i as int)),
            acc as int == digits_value(s@.subrange(start as int, i as int)),
            acc <= limit,
        decreases end - i,
    {
        let c = s[i];
        let ghost cur = s@.subrange(start as int, i as int);
        let ghost next = s@.subrange(start as int, i as int + 1);
        assert(next.drop_last() =~= cur);
        assert(next.last() == c);
        if !('0' <= c && c <= '9') {
            assert(full[i - start] == c);
            return None;
        }
        let d: u64 = (c as u32 - '0' as u32) as u64;
        assert(all_digits(next)) by {
            assert forall|j: int| 0 <= j < next.len() implies is_digit(#[trigger] next[j]) by {
                if j < cur.len() {
                    assert(next[j] == cur[j]);
                }
            }
        }
        if d > limit || acc > (limit - d) / 10 {
            proof {
                assert(10 * acc + d > limit) by (nonlinear_arith)
                    requires
                        d > limit || acc > (limit - d) / 10,
                        d <= 9,
                ;
                if all_digits(full) {
                    assert(full.take(i - start + 1) =~= next);
                    lemma_digits_value_prefix(full, i - start + 1);
                }
            }
            return None;
        }
        assert(acc * 10 + d <= limit) by (nonlinear_arith)
            requires
                d <= limit,
                acc <= (limit - d) / 10,
        ;
        acc = acc * 10 + d;
        i = i + 1;
    }
    assert(s@.subrange(start as int, i as int) =~= full);
    Some(acc)
}

/// `s[start..end].parse::<u32>()`.
pub fn parse_u32_at(s: &Vec<char>, start: usize, end: usize) -> (r: Option<u32>)
    requires
        start <= end <= s.len(),
    ensures
        r == u32_from_text(s@.subrange(start as int, end as int)),
{
    let ghost t = s@.subrange(start as int, end as int);
    if start < end && s[start] == '+' {
        assert(t.skip(1) =~= s@.subrange(start as int + 1, end as int));
        match magnitude_at_most(s, start + 1, end, 0xffff_ffff) {
            Some(v) => Some(v as u32),
            None => None,
        }
    } else {
        match magnitude_at_most(s, start, end, 0xffff_ffff) {
            Some(v) => Some(v as u32),
            None => None,
        }
    }
}

/// `s[start..end].parse::<i32>()`.
pub fn parse_i32_at(s: &Vec<char>, start: usize, end: usize) -> (r: Option<i32>)
    requires
        start <= end <= s.len(),
    ensures
        r == i32_from_text(s@.subrange(start as int, end as int)),
{
    let ghost t = s@.subrange(start as int, end as int);
    if start < end && s[start] == '-' {
        assert(t.skip(1) =~= s@.subrange(start as int + 1, end as int));
        match magnitude_at_most(s, start + 1, end, 0x8000_0000) {
            Some(v) => {
                if v == 0x8000_0000 {
                    Some(i32::MIN)
                } else {
                    Some(-(v as i32))
                }
            },
            None => None,
        }
    } else if start < end && s[start] == '+' {
        assert(t.skip(1) =~= s@.subrange(start as int + 1, end as int));
        match magnitude_at_most(s, start + 1, end, 0x7fff_ffff) {
            Some(v) => Some(v as i32),
            None => None,
        }
    } else {
        match magnitude_at_most(s, start, end, 0x7fff_ffff) {
            Some(v) => Some(v as i32),
            None => None,
        }
    }
}

/// `s[start..end].parse::<i64>()`.
pub fn parse_i64_at(s: &Vec<char>, start: usize, end: usize) -> (r: Option<i64>)
    requires
        start <= end <= s.len(),
    ensures
        r == i64_from_text(s@.subrange(start as int, end as int)),
{
    let ghost t = s@.subrange(start as int, end as int);
    if start < end && s[start] == '-' {
        assert(t.skip(1) =~= s@.subrange(start as int + 1, end as int));
        match magnitude_at_most(s, start + 1, end, 0x8000_0000_0000_0000) {
            Some(v) => {
                if v == 0x8000_0000_0000_0000 {
                    Some(i64::MIN)
                } else {
                    Some(-(v as i64))
                }
            },
            None => None,
        }
    } else if start < end && s[start] == '+' {
        assert(t.skip(1) =~= s@.subrange(start as int + 1, end as int));
        match magnitude_at_most(s, start + 1, end, 0x7fff_ffff_ffff_ffff) {
            Some(v) => Some(v as i64),
            None => None,
        }
    } else {
        match magnitude_at_most(s, start, end, 0x7fff_ffff_ffff_ffff) {
            Some(v) => Some(v as i64),
            None => None,
        }
    }
}


/// ASCII case folding of one character; any other character is kept.
/// Where a time expression is read, this folding and `str::to_lowercase`
/// give the same outcome: no character outside ASCII folds into a digit, a
/// sign, a colon or a letter of `am`/`pm`, so a piece that holds one is
/// refused either way.
pub open spec fn ascii_lower(c: char) -> char {
    if 'A' <= c && c <= 'Z' {
        ((c as u8) + 32) as char
    } else {
        c
    }
}

pub open spec fn lower_chars(s: Seq<char>) -> Seq<char> {
    s.map_values(|c: char| ascii_lower(c))
}

/// Whether `s` ends with the two characters `a`, `b`.
pub open spec fn ends_with_pair(s: Seq<char>, a: char, b: char) -> bool {
    s.len() >= 2 && s[s.len() - 2] == a && s[s.len() - 1] == b
}

/// `s` with every occurrence of the pair `a b` taken out, matching from the
/// left as `str::replace(pattern, "")` does.
pub open spec fn without_pairs(s: Seq<char>, a: char, b: char) -> Seq<char>
    decreases s.len(),
{
    if s.len() < 2 {
        s
    } else if s[0] == a && s[1] == b {
        without_pairs(s.skip(2), a, b)
    } else {
        seq![s[0]] + without_pairs(s.skip(1), a, b)
    }
}

/// The pieces of `s` between occurrences of `sep`, as `str::split` yields
/// them: one piece more than there are separators.
pub open spec fn split_at_char(s: Seq<char>, sep: char) -> Seq<Seq<char>>
    decreases s.len(),
{
    if s.len() == 0 {
        seq![Seq::empty()]
    } else {
        let r = split_at_char(s.drop_last(), sep);
        if s.last() == sep {
            r.push(Seq::empty())
        } else {
            r.update(r.len() - 1, r.last().push(s.last()))
        }
    }
}

pub proof fn lemma_split_nonempty(s: Seq<char>, sep: char)
    ensures
        split_at_char(s, sep).len() >= 1,
    decreases s.len(),
{
    if s.len() > 0 {
        lemma_split_nonempty(s.drop_last(), sep);
    }
}


/// A separator in `s` makes at least two pieces.
pub proof fn lemma_split_len_with_separator(s: Seq<char>, sep: char)
    requires
        s.contains(sep),
    ensures
        split_at_char(s, sep).len() >= 2,
    decreases s.len(),
{
    lemma_split_nonempty(s.drop_last(), sep);
    if s.last() != sep {
        let i = choose|i: int| 0 <= i < s.len() && s[i] == sep;
        assert(s.drop_last()[i] == sep);
        lemma_split_len_with_separator(s.drop_last(), sep);
    }
}


/// A string of digits reads as its base-ten value, signed or unsigned.
pub proof fn lemma_digits_text(s: Seq<char>)
    requires
        s.len() > 0,
        all_digits(s),
    ensures
        unsigned_text_value(s) == Some(digits_value(s)),
        signed_text_value(s) == Some(digits_value(s)),
{
    assert(is_digit(s[0]));
}

/// A character that is neither a digit nor a sign makes a string unreadable
/// as a number.
pub proof fn lemma_stray_char_text(s: Seq<char>, c: char)
    requires
        s.contains(c),
        !is_digit(c),
        c != '+',
        c != '-',
    ensures
        unsigned_text_value(s) is None,
        signed_text_value(s) is None,
{
    let i = choose|i: int| 0 <= i < s.len() && s[i] == c;
    if i > 0 {
        assert(s.skip(1)[i - 1] == c);
    }
}

/// Case folding leaves alone a string without ASCII capitals.
pub proof fn lemma_lower_fixed(s: Seq<char>)
    requires
        forall|i: int| 0 <= i < s.len() ==> !('A' <= #[trigger] s[i] && s[i] <= 'Z'),
    ensures
        lower_chars(s) == s,
{
    assert(lower_chars(s) =~= s);
}

/// Folding twice folds once.
pub proof fn lemma_lower_idempotent(s: Seq<char>)
    ensures
        lower_chars(lower_chars(s)) == lower_chars(s),
{
    let t = lower_chars(s);
    assert forall|i: int| 0 <= i < t.len() implies !('A' <= #[trigger] t[i] && t[i] <= 'Z') by {
        let c = s[i];
        if 'A' <= c && c <= 'Z' {
            let b = c as u8;
            assert('a' <= ((b + 32) as u8) as char);
        }
    }
    lemma_lower_fixed(t);
}

/// Without a separator there is one piece, the whole string.
pub proof fn lemma_split_no_separator(s: Seq<char>, sep: char)
    requires
        !s.contains(sep),
    ensures
        split_at_char(s, sep) == seq![s],
    decreases s.len(),
{
    if s.len() == 0 {
        assert(s =~= Seq::<char>::empty());
        assert(split_at_char(s, sep) =~= seq![s]);
    } else {
        assert(!s.drop_last().contains(sep)) by {
            if s.drop_last().contains(sep) {
                let i = choose|i: int| 0 <= i < s.drop_last().len() && s.drop_last()[i] == sep;
                assert(s[i] == sep);
            }
        }
        lemma_split_no_separator(s.drop_last(), sep);
        assert(s[s.len() - 1] != sep);
        assert(s.drop_last().push(s.last()) =~= s);
        let r = split_at_char(s.drop_last(), sep);
        assert(r.len() == 1 && r[0] == s.drop_last());
        assert(split_at_char(s, sep) == r.update(0, r[0].push(s.last())));
        assert(split_at_char(s, sep) =~= seq![s]);
    }
}

/// Splitting at a separator in the middle splits each side apart.
pub proof fn lemma_split_concat(x: Seq<char>, y: Seq<char>, sep: char)
    ensures
        split_at_char(x + seq![sep] + y, sep) == split_at_char(x, sep) + split_at_char(y, sep),
    decreases y.len(),
{
    let z = x + seq![sep] + y;
    lemma_split_nonempty(x, sep);
    if y.len() == 0 {
        assert(z.drop_last() =~= x);
        assert(split_at_char(z, sep) =~= split_at_char(x, sep) + split_at_char(y, sep));
    } else {
        assert(z.drop_last() =~= x + seq![sep] + y.drop_last());
        lemma_split_concat(x, y.drop_last(), sep);
        lemma_split_nonempty(y.drop_last(), sep);
        let r = split_at_char(z.drop_last(), sep);
        let ry = split_at_char(y.drop_last(), sep);
        assert(z.last() == y.last());
        if y.last() == sep {
            assert(split_at_char(z, sep) =~= split_at_char(x, sep) + split_at_char(y, sep));
        } else {
            assert(r.last() == ry.last());
            assert(split_at_char(z, sep) =~= split_at_char(x, sep) + split_at_char(y, sep));
        }
    }
}

/// A character other than the separator lands in some piece.
pub proof fn lemma_split_keeps(s: Seq<char>, sep: char, c: char)
    requires
        s.contains(c),
        c != sep,
    ensures
        exists|k: int|
            0 <= k < split_at_char(s, sep).len() && (#[trigger] split_at_char(s, sep)[k]).contains(
                c,
            ),
    decreases s.len(),
{
    let r = split_at_char(s.drop_last(), sep);
    lemma_split_nonempty(s.drop_last(), sep);
    if s.last() == c {
        let last = r.last().push(c);
        assert(split_at_char(s, sep)[r.len() - 1] == last);
        assert(last[last.len() - 1] == c);
    } else {
        let i = choose|i: int| 0 <= i < s.len() && s[i] == c;
        assert(s.drop_last()[i] == c);
        lemma_split_keeps(s.drop_last(), sep, c);
        let k = choose|k: int| 0 <= k < r.len() && (#[trigger] r[k]).contains(c);
        if s.last() == sep {
            assert(split_at_char(s, sep)[k] == r[k]);
        } else if k < r.len() - 1 {
            assert(split_at_char(s, sep)[k] == r[k]);
        } else {
            let j = choose|j: int| 0 <= j < r[k].len() && r[k][j] == c;
            assert(split_at_char(s, sep)[k][j] == c);
        }
    }
}

/// Taking out pairs that start with `a` leaves a prefix without `a` alone.
pub proof fn lemma_without_pairs_prefix(x: Seq<char>, y: Seq<char>, a: char, b: char)
    requires
        !x.contains(a),
    ensures
        without_pairs(x + y, a, b) == x + without_pairs(y, a, b),
    decreases x.len(),
{
    if x.len() == 0 {
        assert(x + y =~= y);
        assert(x + without_pairs(y, a, b) =~= without_pairs(y, a, b));
    } else {
        let s = x + y;
        assert(s[0] == x[0]);
        assert(x[0] != a);
        if s.len() < 2 {
            assert(y.len() == 0);
            assert(without_pairs(y, a, b) =~= y);
        } else {
            assert(s.skip(1) =~= x.skip(1) + y);
            assert(!x.skip(1).contains(a)) by {
                if x.skip(1).contains(a) {
                    let i = choose|i: int| 0 <= i < x.skip(1).len() && x.skip(1)[i] == a;
                    assert(x[i + 1] == a);
                }
            }
            lemma_without_pairs_prefix(x.skip(1), y, a, b);
            assert(seq![x[0]] + (x.skip(1) + without_pairs(y, a, b)) =~= x + without_pairs(
                y,
                a,
                b,
            ));
        }
    }
}

/// Taking out pairs `a b` keeps every other character.
pub proof fn lemma_without_pairs_keeps(s: Seq<char>, a: char, b: char, c: char)
    requires
        s.contains(c),
        c != a,
        c != b,
    ensures
        without_pairs(s, a, b).contains(c),
    decreases s.len(),
{
    let i = choose|i: int| 0 <= i < s.len() && s[i] == c;
    if s.len() >= 2 {
        if s[0] == a && s[1] == b {
            assert(i >= 2);
            assert(s.skip(2)[i - 2] == c);
            lemma_without_pairs_keeps(s.skip(2), a, b, c);
        } else if i == 0 {
            assert((seq![s[0]] + without_pairs(s.skip(1), a, b))[0] == c);
        } else {
            assert(s.skip(1)[i - 1] == c);
            lemma_without_pairs_keeps(s.skip(1), a, b, c);
            let w = without_pairs(s.skip(1), a, b);
            let j = choose|j: int| 0 <= j < w.len() && w[j] == c;
            assert((seq![s[0]] + w)[j + 1] == c);
        }
    }
}

/// Whether `c` occurs in `s`.
pub fn contains_char(s: &Vec<char>, c: char) -> (r: bool)
    ensures
        r == s@.contains(c),
{
    for i in 0..s.len()
        invariant
            forall|j: int| 0 <= j < i ==> s@[j] != c,
    {
        if s[i] == c {
            return true;
        }
    }
    false
}

/// ASCII case folding of every character.
pub fn lower_ascii(s: &Vec<char>) -> (r: Vec<char>)
    ensures
        r@ == lower_chars(s@),
{
    let mut r: Vec<char> = Vec::new();
    for i in 0..s.len()
        invariant
            r@ == lower_chars(s@.take(i as int)),
    {
        let c = s[i];
        let l = if 'A' <= c && c <= 'Z' {
            ((c as u8) + 32) as char
        } else {
            c
        };
        r.push(l);
        assert(lower_chars(s@.take(i as int + 1)) =~= lower_chars(s@.take(i as int)).push(l));
    }
    assert(s@.take(s.len() as int) =~= s@);
    r
}

pub fn ends_with(s: &Vec<char>, a: char, b: char) -> (r: bool)
    ensures
        r == ends_with_pair(s@, a, b),
{
    let n = s.len();
    n >= 2 && s[n - 2] == a && s[n - 1] == b
}

/// `s` with every pair `a b` taken out.
pub fn remove_pairs(s: &Vec<char>, a: char, b: char) -> (r: Vec<char>)
    ensures
        r@ == without_pairs(s@, a, b),
{
    let n = s.len();
    let mut r: Vec<char> = Vec::new();
    let mut i: usize = 0;
    assert(s@.skip(0) =~= s@);
    while i < n
        invariant
            n == s.len(),
            i <= n,
            r@ + without_pairs(s@.skip(i as int), a, b) == without_pairs(s@, a, b),
        decreases n - i,
    {
        let ghost rest = s@.skip(i as int);
        if i + 1 < n && s[i] == a && s[i + 1] == b {
            assert(rest.skip(2) =~= s@.skip(i as int + 2));
            i = i + 2;
        } else {
            let c = s[i];
            if i + 1 < n {
                assert(rest.skip(1) =~= s@.skip(i as int + 1));
                assert(r@.push(c) + without_pairs(rest.skip(1), a, b) =~= r@ + (seq![c]
                    + without_pairs(rest.skip(1), a, b)));
            } else {
                assert(rest =~= seq![c]);
                assert(s@.skip(i as int + 1) =~= Seq::<char>::empty());
                assert(r@.push(c) =~= r@ + rest);
            }
            r.push(c);
            i = i + 1;
        }
    }
    assert(s@.skip(n as int) =~= Seq::<char>::empty());
    assert(r@ + Seq::<char>::empty() =~= r@);
    r
}

/// The pieces of `s` between occurrences of `sep`.
pub fn split_chars(s: &Vec<char>, sep: char) -> (r: Vec<Vec<char>>)
    ensures
        r@.len() == split_at_char(s@, sep).len(),
        forall|k: int| 0 <= k < r@.len() ==> (#[trigger] r@[k])@ == split_at_char(s@, sep)[k],
{
    let mut pieces: Vec<Vec<char>> = Vec::new();
    let mut cur: Vec<char> = Vec::new();
    assert(s@.take(0) =~= Seq::<char>::empty());
    for i in 0..s.len()
        invariant
            pieces@.len() + 1 == split_at_char(s@.take(i as int), sep).len(),
            forall|k: int|
                0 <= k < pieces@.len() ==> (#[trigger] pieces@[k])@ == split_at_char(
                    s@.take(i as int),
                    sep,
                )[k],
            cur@ == split_at_char(s@.take(i as int), sep).last(),
    {
        let c = s[i];
        let ghost before = split_at_char(s@.take(i as int), sep);
        assert(s@.take(i as int + 1).drop_last() =~= s@.take(i as int));
        if c == sep {
            pieces.push(cur);
            cur = Vec::new();
        } else {
            cur.push(c);
        }
    }
    assert(s@.take(s.len() as int) =~= s@);
    pieces.push(cur);
    pieces
}

/// The characters of a string slice, in order.
pub fn chars_of(s: &str) -> (v: Vec<char>)
    ensures
        v@ == s@,
{
    let mut v: Vec<char> = Vec::new();
    for c in it: s.chars()
        invariant
            v@ == it.seq().take(it.index() as int),
    {
        v.push(c);
    }
    v
}

} // verus!
