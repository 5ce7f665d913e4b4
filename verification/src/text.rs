//! Character-level text helpers shared by the log format, the browser and the
//! tag editor: whitespace, trimming, splitting, decimal rendering and parsing.

use vstd::prelude::*;

verus! {

broadcast use vstd::seq_lib::group_seq_properties;

/// Unicode `White_Space`, the set `char::is_whitespace` tests.
pub open spec fn is_ws(c: char) -> bool {
    let u = c as u32;
    ||| (0x09 <= u && u <= 0x0D)
    ||| u == 0x20
    ||| u == 0x85
    ||| u == 0xA0
    ||| u == 0x1680
    ||| (0x2000 <= u && u <= 0x200A)
    ||| u == 0x2028
    ||| u == 0x2029
    ||| u == 0x202F
    ||| u == 0x205F
    ||| u == 0x3000
}

pub fn is_whitespace(c: char) -> (r: bool)
    ensures
        r == is_ws(c),
{
    let u = c as u32;
    (0x09 <= u && u <= 0x0D) || u == 0x20 || u == 0x85 || u == 0xA0 || u == 0x1680 || (0x2000
        <= u && u <= 0x200A) || u == 0x2028 || u == 0x2029 || u == 0x202F || u == 0x205F || u
        == 0x3000
}

/// `s` with its leading whitespace removed.
pub open spec fn trim_start(s: Seq<char>) -> Seq<char>
    decreases s.len(),
{
    if s.len() > 0 && is_ws(s[0]) {
        trim_start(s.drop_first())
    } else {
        s
    }
}

/// `s` with its trailing whitespace removed.
pub open spec fn trim_end(s: Seq<char>) -> Seq<char>
    decreases s.len(),
{
    if s.len() > 0 && is_ws(s.last()) {
        trim_end(s.drop_last())
    } else {
        s
    }
}

/// `s` with leading and trailing whitespace removed.
pub open spec fn trim(s: Seq<char>) -> Seq<char> {
    trim_end(trim_start(s))
}

/// The position of the first `c` in `s`.
pub open spec fn find_char(s: Seq<char>, c: char) -> Option<int>
    decreases s.len(),
{
    if s.len() == 0 {
        None
    } else if s[0] == c {
        Some(0)
    } else {
        match find_char(s.drop_first(), c) {
            Some(i) => Some(i + 1),
            None => None,
        }
    }
}

/// `s` split around its first `c`, the separator excluded.
pub open spec fn split_once(s: Seq<char>, c: char) -> Option<(Seq<char>, Seq<char>)> {
    match find_char(s, c) {
        Some(i) => Some((s.take(i), s.skip(i + 1))),
        None => None,
    }
}

pub proof fn lemma_find_char_props(s: Seq<char>, c: char)
    ensures
        find_char(s, c) matches Some(i) ==> 0 <= i < s.len() && s[i] == c && forall|j: int|
            0 <= j < i ==> s[j] != c,
        find_char(s, c) is None ==> forall|j: int| 0 <= j < s.len() ==> s[j] != c,
    decreases s.len(),
{
    if s.len() > 0 && s[0] != c {
        lemma_find_char_props(s.drop_first(), c);
        if let Some(i) = find_char(s.drop_first(), c) {
            assert forall|j: int| 0 <= j < i + 1 implies s[j] != c by {
                if j > 0 {
                    assert(s[j] == s.drop_first()[j - 1]);
                }
            }
        } else {
            assert forall|j: int| 0 <= j < s.len() implies s[j] != c by {
                if j > 0 {
                    assert(s[j] == s.drop_first()[j - 1]);
                }
            }
        }
    }
}

/// The index of the first `c` at or after `from`, or `v.len()`.
pub fn find_char_from(v: &[char], from: usize, c: char) -> (r: usize)
    requires
        from <= v@.len(),
    ensures
        from <= r <= v@.len(),
        find_char(v@.skip(from as int), c) == if r < v@.len() {
            Some(r - from)
        } else {
            None::<int>
        },
{
    let mut i = from;
    while i < v.len()
        invariant
            from <= i <= v@.len(),
            forall|j: int| from <= j < i ==> v@[j] != c,
        decreases v.len() - i,
    {
        if v[i] == c {
            proof {
                lemma_find_char_props(v@.skip(from as int), c);
                let t = v@.skip(from as int);
                if let Some(k) = find_char(t, c) {
                    assert(t[(i - from) as int] == c);
                    if k < i - from {
                        assert(v@[from + k] == c);
                    }
                    if k > i - from {
                        assert(t[(i - from) as int] != c);
                    }
                }
            }
            return i;
        }
        i = i + 1;
    }
    proof {
        lemma_find_char_props(v@.skip(from as int), c);
        let t = v@.skip(from as int);
        if let Some(k) = find_char(t, c) {
            assert(t[k] == v@[from + k]);
        }
    }
    i
}

pub proof fn lemma_trim_start_is_suffix(s: Seq<char>)
    ensures
        trim_start(s).len() <= s.len(),
        trim_start(s) == s.skip(s.len() - trim_start(s).len()),
        forall|j: int| 0 <= j < s.len() - trim_start(s).len() ==> is_ws(#[trigger] s[j]),
        trim_start(s).len() > 0 ==> !is_ws(trim_start(s)[0]),
    decreases s.len(),
{
    if s.len() > 0 && is_ws(s[0]) {
        lemma_trim_start_is_suffix(s.drop_first());
        let t = trim_start(s.drop_first());
        assert(s.drop_first().skip(s.drop_first().len() - t.len()) =~= s.skip(s.len() - t.len()));
        assert forall|j: int| 0 <= j < s.len() - t.len() implies is_ws(#[trigger] s[j]) by {
            if j > 0 {
                assert(s[j] == s.drop_first()[j - 1]);
            }
        }
    } else {
        assert(s.skip(0) =~= s);
    }
}

/// The index of the first non-whitespace character at or after `from`.
pub fn skip_whitespace(v: &[char], from: usize) -> (r: usize)
    requires
        from <= v@.len(),
    ensures
        from <= r <= v@.len(),
        trim_start(v@.skip(from as int)) == v@.skip(r as int),
{
    let mut i = from;
    while i < v.len() && is_whitespace(v[i])
        invariant
            from <= i <= v@.len(),
            trim_start(v@.skip(from as int)) == trim_start(v@.skip(i as int)),
        decreases v.len() - i,
    {
        assert(v@.skip(i as int).drop_first() =~= v@.skip(i + 1));
        i = i + 1;
    }
    if i < v.len() {
        assert(v@.skip(i as int)[0] == v@[i as int]);
    } else {
        assert(v@.skip(i as int).len() == 0);
    }
    i
}

/// The end of `v[..to]` once trailing whitespace is removed.
pub fn trim_end_index(v: &[char], to: usize) -> (r: usize)
    requires
        to <= v@.len(),
    ensures
        r <= to,
        trim_end(v@.take(to as int)) == v@.take(r as int),
{
    let mut i = to;
    while i > 0 && is_whitespace(v[i - 1])
        invariant
            i <= to <= v@.len(),
            trim_end(v@.take(to as int)) == trim_end(v@.take(i as int)),
        decreases i,
    {
        assert(v@.take(i as int).drop_last() =~= v@.take(i - 1));
        i = i - 1;
    }
    if i > 0 {
        assert(v@.take(i as int).last() == v@[i - 1]);
    }
    i
}

/// `s` with leading and trailing whitespace removed (`str::trim`).
pub fn trimmed(s: &str) -> (r: Vec<char>)
    ensures
        r@ == trim(s@),
{
    let v = chars_of(s);
    let start = skip_whitespace(&v, 0);
    assert(v@.skip(0) =~= v@);
    let mut w: Vec<char> = Vec::new();
    let mut i = start;
    while i < v.len()
        invariant
            start <= i <= v@.len(),
            w@ == v@.subrange(start as int, i as int),
        decreases v.len() - i,
    {
        w.push(v[i]);
        assert(w@ =~= v@.subrange(start as int, i + 1));
        i = i + 1;
    }
    assert(w@ =~= v@.skip(start as int));
    let e = trim_end_index(&w, w.len());
    assert(w@.take(w@.len() as int) =~= w@);
    let mut out: Vec<char> = Vec::new();
    let mut k: usize = 0;
    while k < e
        invariant
            k <= e <= w@.len(),
            out@ == w@.take(k as int),
        decreases e - k,
    {
        out.push(w[k]);
        assert(out@ =~= w@.take(k + 1));
        k = k + 1;
    }
    out
}

/// The characters of `s`.
pub fn chars_of(s: &str) -> (r: Vec<char>)
    ensures
        r@ == s@,
{
    let n = s.unicode_len();
    let mut v: Vec<char> = Vec::new();
    let mut i: usize = 0;
    while i < n
        invariant
            n == s@.len(),
            i <= n,
            v@ == s@.take(i as int),
        decreases n - i,
    {
        v.push(s.get_char(i));
        assert(v@ =~= s@.take(i + 1));
        i = i + 1;
    }
    assert(s@.take(n as int) =~= s@);
    v
}

/// Appends `c` to `s` with `String::push`; the contract states that exactly
/// that character is added at the end.
#[verifier::external_body]
pub(crate) fn push_char(s: &mut String, c: char)
    ensures
        final(s)@ == old(s)@.push(c),
{
    s.push(c);
}

/// A `String` holding the characters of `v[from..to]`.
pub fn string_of_range(v: &[char], from: usize, to: usize) -> (r: String)
    requires
        from <= to <= v@.len(),
    ensures
        r@ == v@.subrange(from as int, to as int),
{
    let mut s = String::new();
    let mut i = from;
    while i < to
        invariant
            from <= i <= to <= v@.len(),
            s@ == v@.subrange(from as int, i as int),
        decreases to - i,
    {
        push_char(&mut s, v[i]);
        assert(s@ =~= v@.subrange(from as int, i + 1));
        i = i + 1;
    }
    s
}

/// A `String` holding the characters of `v`.
pub fn string_of(v: &[char]) -> (r: String)
    ensures
        r@ == v@,
{
    let s = string_of_range(v, 0, v.len());
    assert(v@.subrange(0, v@.len() as int) =~= v@);
    s
}

/// Appends the characters of `v` to `out`.
pub fn push_chars(out: &mut Vec<char>, v: &[char])
    ensures
        final(out)@ == old(out)@ + v@,
{
    let mut i: usize = 0;
    while i < v.len()
        invariant
            i <= v@.len(),
            out@ == old(out)@ + v@.take(i as int),
        decreases v.len() - i,
    {
        out.push(v[i]);
        assert(out@ =~= old(out)@ + v@.take(i + 1));
        i = i + 1;
    }
    assert(v@.take(v@.len() as int) =~= v@);
}

/// Whether two character sequences are equal.
pub fn chars_eq(a: &[char], b: &[char]) -> (r: bool)
    ensures
        r == (a@ == b@),
{
    if a.len() != b.len() {
        return false;
    }
    let mut i: usize = 0;
    while i < a.len()
        invariant
            a@.len() == b@.len(),
            i <= a@.len(),
            forall|j: int| 0 <= j < i ==> a@[j] == b@[j],
        decreases a.len() - i,
    {
        if a[i] != b[i] {
            return false;
        }
        i = i + 1;
    }
    assert(a@ =~= b@);
    true
}

// ---------------------------------------------------------------------------
// Decimal numbers
// ---------------------------------------------------------------------------

pub open spec fn digit_char(d: int) -> char {
    if d == 0 {
        '0'
    } else if d == 1 {
        '1'
    } else if d == 2 {
        '2'
    } else if d == 3 {
        '3'
    } else if d == 4 {
        '4'
    } else if d == 5 {
        '5'
    } else if d == 6 {
        '6'
    } else if d == 7 {
        '7'
    } else if d == 8 {
        '8'
    } else {
        '9'
    }
}

/// The value of an ASCII digit, or -1.
pub open spec fn digit_value(c: char) -> int {
    if '0' <= c && c <= '9' {
        c as int - '0' as int
    } else {
        -1
    }
}

/// The decimal digits of `n`, most significant first, without padding.
pub open spec fn decimal(n: nat) -> Seq<char>
    decreases n,
{
    if n < 10 {
        seq![digit_char(n as int)]
    } else {
        decimal(n / 10).push(digit_char((n % 10) as int))
    }
}

/// `s` padded on the left with `c` to at least `width` characters.
pub open spec fn pad_left(s: Seq<char>, width: int, c: char) -> Seq<char> {
    if s.len() < width {
        Seq::new((width - s.len()) as nat, |_i: int| c) + s
    } else {
        s
    }
}

/// `s` padded on the right with spaces to at least `width` characters.
pub open spec fn pad_right(s: Seq<char>, width: int) -> Seq<char> {
    if s.len() < width {
        s + Seq::new((width - s.len()) as nat, |_i: int| ' ')
    } else {
        s
    }
}

/// A signed integer rendered with zero padding to `width` characters,
/// the sign counted in the width (`{:0width$}`).
pub open spec fn zero_padded(n: int, width: int) -> Seq<char> {
    if n < 0 {
        seq!['-'] + pad_left(decimal((-n) as nat), width - 1, '0')
    } else {
        pad_left(decimal(n as nat), width, '0')
    }
}

fn digit_char_exec(d: u64) -> (c: char)
    requires
        d < 10,
    ensures
        c == digit_char(d as int),
{
    if d == 0 {
        '0'
    } else if d == 1 {
        '1'
    } else if d == 2 {
        '2'
    } else if d == 3 {
        '3'
    } else if d == 4 {
        '4'
    } else if d == 5 {
        '5'
    } else if d == 6 {
        '6'
    } else if d == 7 {
        '7'
    } else if d == 8 {
        '8'
    } else {
        '9'
    }
}

/// Appends the decimal digits of `n` to `out`.
pub fn push_decimal(out: &mut Vec<char>, n: u64)
    ensures
        final(out)@ == old(out)@ + decimal(n as nat),
    decreases n,
{
    if n < 10 {
        out.push(digit_char_exec(n));
        assert(out@ =~= old(out)@ + decimal(n as nat));
    } else {
        push_decimal(out, n / 10);
        out.push(digit_char_exec(n % 10));
        assert(out@ =~= old(out)@ + decimal(n as nat));
    }
}

/// Appends `n` zero padded to `width` characters, the sign counted.
pub fn push_zero_padded(out: &mut Vec<char>, n: i64, width: usize)
    requires
        width <= 64,
    ensures
        final(out)@ == old(out)@ + zero_padded(n as int, width as int),
{
    let mut digits: Vec<char> = Vec::new();
    let mag: u64 = if n < 0 {
        (-(n + 1)) as u64 + 1
    } else {
        n as u64
    };
    push_decimal(&mut digits, mag);
    let ghost d = decimal(mag as nat);
    assert(digits@ =~= d);
    let room: usize = if n < 0 {
        if width > 0 {
            width - 1
        } else {
            0
        }
    } else {
        width
    };
    if n < 0 {
        out.push('-');
    }
    let mut k: usize = digits.len();
    let ghost before = out@;
    while k < room
        invariant
            digits@.len() <= k,
            k <= room || room < digits@.len(),
            room <= digits@.len() ==> k == digits@.len(),
            out@ == before + Seq::new((k - digits@.len()) as nat, |_i: int| '0'),
        decreases room - k,
    {
        out.push('0');
        assert(out@ =~= before + Seq::new((k + 1 - digits@.len()) as nat, |_i: int| '0'));
        k = k + 1;
    }
    push_chars(out, &digits);
    proof {
        let w = if n < 0 {
            width - 1
        } else {
            width as int
        };
        if digits@.len() < w {
            assert(k == room);
        } else {
            assert(k == digits@.len());
            assert(Seq::new(0nat, |_i: int| '0') + d =~= d);
        }
        if n < 0 {
            assert(old(out)@ + zero_padded(n as int, width as int) =~= out@);
        } else {
            assert(old(out)@ + zero_padded(n as int, width as int) =~= out@);
        }
    }
}

/// Appends `v` padded on the right with spaces to `width` characters.
pub fn push_padded_right(out: &mut Vec<char>, v: &[char], width: usize)
    ensures
        final(out)@ == old(out)@ + pad_right(v@, width as int),
{
    push_chars(out, v);
    let ghost mid = out@;
    let mut k = v.len();
    while k < width
        invariant
            v@.len() <= k,
            k <= width || width < v@.len(),
            width <= v@.len() ==> k == v@.len(),
            out@ == mid + Seq::new((k - v@.len()) as nat, |_i: int| ' '),
        decreases width - k,
    {
        out.push(' ');
        assert(out@ =~= mid + Seq::new((k + 1 - v@.len()) as nat, |_i: int| ' '));
        k = k + 1;
    }
    proof {
        if v@.len() >= width {
            assert(out@ =~= old(out)@ + pad_right(v@, width as int));
        } else {
            assert(out@ =~= old(out)@ + pad_right(v@, width as int));
        }
    }
}

/// Digits `s`, read as a decimal number.
pub open spec fn digits_value(s: Seq<char>) -> int
    decreases s.len(),
{
    if s.len() == 0 {
        0
    } else {
        digits_value(s.drop_last()) * 10 + digit_value(s.last())
    }
}

pub open spec fn all_digits(s: Seq<char>) -> bool {
    forall|i: int| 0 <= i < s.len() ==> '0' <= #[trigger] s[i] && s[i] <= '9'
}

/// What `str::parse::<i64>` gives for a short string: an optional sign and
/// one or more ASCII digits (short enough that the value cannot overflow).
pub open spec fn parse_int(s: Seq<char>) -> Option<int> {
    if s.len() == 0 {
        None
    } else if s[0] == '+' || s[0] == '-' {
        let r = s.drop_first();
        if r.len() == 0 || !all_digits(r) {
            None
        } else if s[0] == '-' {
            Some(-digits_value(r))
        } else {
            Some(digits_value(r))
        }
    } else if all_digits(s) {
        Some(digits_value(s))
    } else {
        None
    }
}

pub proof fn lemma_digits_value_bound(s: Seq<char>)
    requires
        all_digits(s),
    ensures
        0 <= digits_value(s) < pow10(s.len()),
    decreases s.len(),
{
    if s.len() > 0 {
        assert(all_digits(s.drop_last()));
        lemma_digits_value_bound(s.drop_last());
        assert('0' <= s[s.len() - 1] <= '9');
    }
}

pub open spec fn pow10(n: nat) -> int
    decreases n,
{
    if n == 0 {
        1
    } else {
        10 * pow10((n - 1) as nat)
    }
}

/// Parses `v[from..to]` as `str::parse::<i64>` would, for at most 18 characters.
pub fn parse_i64_range(v: &[char], from: usize, to: usize) -> (r: Option<i64>)
    requires
        from <= to <= v@.len(),
        to - from <= 18,
    ensures
        r == match parse_int(v@.subrange(from as int, to as int)) {
            Some(x) => Some(x as i64),
            None => None::<i64>,
        },
        r matches Some(x) ==> parse_int(v@.subrange(from as int, to as int)) == Some(x as int),
{
    let ghost s = v@.subrange(from as int, to as int);
    if from == to {
        return None;
    }
    let mut i = from;
    let mut neg = false;
    if v[from] == '+' || v[from] == '-' {
        neg = v[from] == '-';
        i = from + 1;
        if i == to {
            return None;
        }
    }
    let ghost start = i;
    let ghost digits = v@.subrange(start as int, to as int);
    assert(digits =~= if start == from {
        s
    } else {
        s.drop_first()
    });
    let mut val: i64 = 0;
    while i < to
        invariant
            from <= start <= i <= to <= v@.len(),
            to - start <= 18,
            s == v@.subrange(from as int, to as int),
            start == from ==> !(v@[from as int] == '+' || v@[from as int] == '-'),
            start == from || (start == from + 1 && (v@[from as int] == '+' || v@[from as int]
                == '-')),
            neg == (start == from + 1 && v@[from as int] == '-'),
            digits == if start == from {
                s
            } else {
                s.drop_first()
            },
            digits == v@.subrange(start as int, to as int),
            all_digits(v@.subrange(start as int, i as int)),
            val as int == digits_value(v@.subrange(start as int, i as int)),
            0 <= val < pow10((i - start) as nat),
        decreases to - i,
    {
        let c = v[i];
        if !('0' <= c && c <= '9') {
            assert(digits[i - start] == c);
            assert(!all_digits(digits));
            assert(parse_int(s) is None);
            return None;
        }
        let d: i64 = (c as u32 - '0' as u32) as i64;
        assert(v@.subrange(start as int, i + 1).drop_last() =~= v@.subrange(start as int, i as int));
        proof {
            lemma_pow10_bound((i - start) as nat);
        }
        val = val * 10 + d;
        i = i + 1;
    }
    assert(v@.subrange(start as int, to as int) =~= digits);
    if neg {
        Some(-val)
    } else {
        Some(val)
    }
}

pub proof fn lemma_pow10_mono(n: nat, m: nat)
    requires
        n <= m,
    ensures
        1 <= pow10(n) <= pow10(m),
    decreases m,
{
    if n < m {
        lemma_pow10_mono(n, (m - 1) as nat);
    } else if n > 0 {
        lemma_pow10_mono((n - 1) as nat, (n - 1) as nat);
    }
}

pub proof fn lemma_pow10_bound(n: nat)
    requires
        n <= 17,
    ensures
        1 <= pow10(n) <= 100_000_000_000_000_000,
{
    lemma_pow10_mono(n, 17);
    reveal_with_fuel(pow10, 18);
    assert(pow10(17) == 100_000_000_000_000_000);
}

pub proof fn lemma_digit_char_value(k: int)
    requires
        0 <= k < 10,
    ensures
        digit_value(digit_char(k)) == k,
        '0' <= digit_char(k) <= '9',
{
}

/// The decimal rendering of `n` is all digits, reads back as `n`, and has at
/// most `k` characters when `n` is below `10^k`.
pub proof fn lemma_decimal(n: nat, k: nat)
    ensures
        all_digits(decimal(n)),
        digits_value(decimal(n)) == n,
        decimal(n).len() >= 1,
        1 <= k && n < pow10(k) ==> decimal(n).len() <= k,
    decreases n,
{
    lemma_digit_char_value((n % 10) as int);
    if n >= 10 {
        let k1: nat = if k >= 1 { (k - 1) as nat } else { 0 };
        lemma_decimal(n / 10, k1);
        assert(decimal(n).drop_last() =~= decimal(n / 10));
        assert(decimal(n).last() == digit_char((n % 10) as int));
        vstd::arithmetic::div_mod::lemma_fundamental_div_mod(n as int, 10);
        assert(digits_value(decimal(n)) == digits_value(decimal(n / 10)) * 10 + digit_value(
            digit_char((n % 10) as int),
        ));
        assert(digit_value(digit_char((n % 10) as int)) == n % 10);
        assert((n / 10) * 10 + n % 10 == n);
        if 1 <= k && n < pow10(k) {
            if k == 1 {
                assert(pow10(1) == 10) by {
                    reveal_with_fuel(pow10, 2);
                }
            } else {
                assert(n / 10 < pow10(k1));
            }
        }
    } else {
        assert(decimal(n).drop_last() =~= Seq::<char>::empty());
        lemma_digit_char_value(n as int);
        assert(decimal(n).last() == digit_char(n as int));
        assert(digits_value(Seq::<char>::empty()) == 0);
        assert(digits_value(decimal(n)) == digits_value(decimal(n).drop_last()) * 10 + digit_value(
            decimal(n).last(),
        ));
        if k >= 1 {
            lemma_pow10_mono(1, k);
            assert(pow10(1) == 10) by {
                reveal_with_fuel(pow10, 2);
            }
        }
    }
}

/// Leading zeros change neither the digits' validity nor their value.
pub proof fn lemma_leading_zeros(d: Seq<char>, k: nat)
    requires
        all_digits(d),
    ensures
        all_digits(Seq::new(k, |_i: int| '0') + d),
        digits_value(Seq::new(k, |_i: int| '0') + d) == digits_value(d),
    decreases d.len(), k,
{
    let z = Seq::new(k, |_i: int| '0');
    if d.len() == 0 {
        assert(z + d =~= z);
        if k > 0 {
            let z1 = Seq::new((k - 1) as nat, |_i: int| '0');
            lemma_leading_zeros(d, (k - 1) as nat);
            assert(z.drop_last() =~= z1 + d);
        }
    } else {
        lemma_leading_zeros(d.drop_last(), k);
        assert((z + d).drop_last() =~= z + d.drop_last());
    }
}

/// A zero-padded non-negative number below `10^width` is exactly `width`
/// characters, all ASCII digits, and parses back to itself.
pub proof fn lemma_zero_padded_parse(n: int, width: nat)
    requires
        1 <= width,
        0 <= n < pow10(width),
    ensures
        zero_padded(n, width as int).len() == width,
        all_digits(zero_padded(n, width as int)),
        parse_int(zero_padded(n, width as int)) == Some(n),
{
    lemma_decimal(n as nat, width);
    let d = decimal(n as nat);
    let z = Seq::new((width - d.len()) as nat, |_i: int| '0');
    lemma_leading_zeros(d, (width - d.len()) as nat);
    let p = zero_padded(n, width as int);
    if d.len() < width {
        assert(p =~= z + d);
    } else {
        assert(z =~= Seq::<char>::empty());
        assert(z + d =~= d);
    }
    assert(p =~= z + d);
    assert('0' <= p[0] <= '9');
}

/// Leading whitespace is what `trim_start` removes.
pub proof fn lemma_trim_start_ws_prefix(w: Seq<char>, b: Seq<char>)
    requires
        forall|i: int| 0 <= i < w.len() ==> is_ws(#[trigger] w[i]),
    ensures
        trim_start(w + b) == trim_start(b),
    decreases w.len(),
{
    if w.len() > 0 {
        assert((w + b).drop_first() =~= w.drop_first() + b);
        assert(is_ws(w[0]));
        lemma_trim_start_ws_prefix(w.drop_first(), b);
    } else {
        assert(w + b =~= b);
    }
}

pub proof fn lemma_trim_start_no_ws(s: Seq<char>)
    requires
        s.len() > 0 ==> !is_ws(s[0]),
    ensures
        trim_start(s) == s,
{
}

/// The first `c` in `s` is at `i` when `s[i]` is `c` and no earlier character is.
pub proof fn lemma_find_char_at(s: Seq<char>, c: char, i: int)
    requires
        0 <= i < s.len(),
        s[i] == c,
        forall|j: int| 0 <= j < i ==> s[j] != c,
    ensures
        find_char(s, c) == Some(i),
    decreases i,
{
    if i > 0 {
        assert forall|j: int| 0 <= j < i - 1 implies s.drop_first()[j] != c by {
            assert(s.drop_first()[j] == s[j + 1]);
        }
        lemma_find_char_at(s.drop_first(), c, i - 1);
    }
}

} // verus!
