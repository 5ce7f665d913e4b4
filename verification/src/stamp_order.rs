//! Report stamps sort as they read: a later time never gets a stamp that
//! sorts before an earlier one.

use crate::error_reports::{civil_from_days_spec, lemma_era_day_bounds, utc_stamp_spec};
use crate::ranking::text_lt;
use crate::text::{all_digits, digit_value, digits_value, pow10, zero_padded, lemma_zero_padded_parse};
use vstd::prelude::*;

verus! {

proof fn lemma_year_start_below(doe: u32)
    requires
        doe <= 146096,
    ensures
        ({
            let yoe = (doe - doe / 1460 + doe / 36524 - doe / 146096) / 365;
            365 * yoe + yoe / 4 - yoe / 100 <= doe
        }),
{
    assert({
        let yoe = (doe - doe / 1460 + doe / 36524 - doe / 146096) / 365;
        365 * yoe + yoe / 4 - yoe / 100 <= doe
    }) by (bit_vector)
        requires
            doe <= 146096,
    ;
}

proof fn lemma_year_end_above(doe: u32)
    requires
        doe < 146096,
    ensures
        ({
            let yoe = (doe - doe / 1460 + doe / 36524 - doe / 146096) / 365;
            doe < 365 * (yoe + 1) + (yoe + 1) / 4 - (yoe + 1) / 100
        }),
{
    assert({
        let yoe = (doe - doe / 1460 + doe / 36524 - doe / 146096) / 365;
        doe < 365 * (yoe + 1) + (yoe + 1) / 4 - (yoe + 1) / 100
    }) by (bit_vector)
        requires
            doe < 146096,
    ;
}

proof fn lemma_month_order(doy1: u32, doy2: u32)
    requires
        doy1 < doy2 <= 365,
    ensures
        ({
            let mp1 = (5 * doy1 + 2) / 153;
            let mp2 = (5 * doy2 + 2) / 153;
            let d1 = doy1 - (153 * mp1 + 2) / 5;
            let d2 = doy2 - (153 * mp2 + 2) / 5;
            mp1 < mp2 || (mp1 == mp2 && d1 < d2)
        }),
{
    assert({
        let mp1 = (5 * doy1 + 2) / 153;
        let mp2 = (5 * doy2 + 2) / 153;
        let d1 = doy1 - (153 * mp1 + 2) / 5;
        let d2 = doy2 - (153 * mp2 + 2) / 5;
        mp1 < mp2 || (mp1 == mp2 && d1 < d2)
    }) by (bit_vector)
        requires
            doy1 < doy2 <= 365,
    ;
}

/// The value of a digit string read from its first digit.
proof fn lemma_value_front(s: Seq<char>)
    requires
        s.len() >= 1,
        all_digits(s),
    ensures
        digits_value(s) == digit_value(s[0]) * pow10((s.len() - 1) as nat) + digits_value(s.drop_first()),
    decreases s.len(),
{
    if s.len() == 1 {
        assert(s.drop_first() =~= Seq::<char>::empty());
        assert(s.drop_last() =~= Seq::<char>::empty());
        assert(pow10(0) == 1);
    } else {
        let a = s.drop_last();
        assert(all_digits(a));
        lemma_value_front(a);
        assert(a.drop_first() =~= s.drop_first().drop_last());
        assert(s.drop_first().last() == s.last());
        let d0 = digit_value(s[0]);
        let p = pow10((s.len() - 2) as nat);
        assert(pow10((s.len() - 1) as nat) == 10 * p);
        let m = digits_value(a.drop_first());
        assert((d0 * p + m) * 10 == d0 * (10 * p) + m * 10) by (nonlinear_arith);
    }
}

/// A digit string of length `n` is worth less than `10^n`.
proof fn lemma_value_bound(s: Seq<char>)
    requires
        all_digits(s),
    ensures
        0 <= digits_value(s) < pow10(s.len()),
    decreases s.len(),
{
    if s.len() > 0 {
        let a = s.drop_last();
        assert(all_digits(a));
        lemma_value_bound(a);
        assert(pow10(s.len()) == 10 * pow10(a.len()));
        let v = digits_value(a);
        let d = digit_value(s.last());
        assert(0 <= d <= 9);
        assert(v * 10 + d < 10 * pow10(a.len())) by (nonlinear_arith)
            requires
                0 <= v < pow10(a.len()),
                0 <= d <= 9,
        ;
        assert(v * 10 + d >= 0) by (nonlinear_arith)
            requires
                0 <= v,
                0 <= d,
        ;
    }
}

/// Digit strings of one length sort as their values do.
proof fn lemma_digits_sort_by_value(s: Seq<char>, t: Seq<char>)
    requires
        s.len() == t.len(),
        all_digits(s),
        all_digits(t),
        digits_value(s) < digits_value(t),
    ensures
        text_lt(s, t),
    decreases s.len(),
{
    if s.len() == 0 {
    } else {
        lemma_value_front(s);
        lemma_value_front(t);
        let n1 = (s.len() - 1) as nat;
        let p = pow10(n1);
        let a = s.drop_first();
        let b = t.drop_first();
        assert(all_digits(a) && all_digits(b));
        lemma_value_bound(a);
        lemma_value_bound(b);
        let ds = digit_value(s[0]);
        let dt = digit_value(t[0]);
        if s[0] != t[0] {
            if ds > dt {
                assert(ds * p + digits_value(a) >= dt * p + p) by (nonlinear_arith)
                    requires
                        ds >= dt + 1,
                        p >= 1,
                        digits_value(a) >= 0,
                ;
                assert(false);
            }
            assert(ds < dt);
        } else {
            assert(digits_value(a) < digits_value(b));
            lemma_digits_sort_by_value(a, b);
        }
    }
}

proof fn lemma_pow10_positive(n: nat)
    ensures
        pow10(n) >= 1,
    decreases n,
{
    if n > 0 {
        lemma_pow10_positive((n - 1) as nat);
    }
}

/// Zero-padded numbers of one width sort as the numbers do.
proof fn lemma_padded_sort(x: int, y: int, w: nat)
    requires
        1 <= w,
        0 <= x < y < pow10(w),
    ensures
        zero_padded(x, w as int).len() == w,
        zero_padded(y, w as int).len() == w,
        text_lt(zero_padded(x, w as int), zero_padded(y, w as int)),
{
    lemma_zero_padded_parse(x, w);
    lemma_zero_padded_parse(y, w);
    lemma_padded_value(x, w);
    lemma_padded_value(y, w);
    lemma_digits_sort_by_value(zero_padded(x, w as int), zero_padded(y, w as int));
}

proof fn lemma_padded_value(x: int, w: nat)
    requires
        1 <= w,
        0 <= x < pow10(w),
    ensures
        digits_value(zero_padded(x, w as int)) == x,
{
    lemma_zero_padded_parse(x, w);
    let p = zero_padded(x, w as int);
    assert(crate::text::parse_int(p) == Some(x));
}

/// With equal-length heads, sequences sort by their heads, and by their
/// tails when the heads agree.
proof fn lemma_text_lt_concat(a: Seq<char>, b: Seq<char>, c: Seq<char>, d: Seq<char>)
    requires
        a.len() == c.len(),
    ensures
        text_lt(a, c) ==> text_lt(a + b, c + d),
        a == c ==> (text_lt(a + b, c + d) == text_lt(b, d)),
    decreases a.len(),
{
    if a.len() == 0 {
        assert(a + b =~= b);
        assert(c + d =~= d);
    } else {
        lemma_text_lt_concat(a.drop_first(), b, c.drop_first(), d);
        assert((a + b).drop_first() =~= a.drop_first() + b);
        assert((c + d).drop_first() =~= c.drop_first() + d);
        assert((a + b)[0] == a[0]);
        assert((c + d)[0] == c[0]);
        if a == c {
            assert(a.drop_first() == c.drop_first());
        }
    }
}

/// Date `a` comes before date `b` (year, month, day).
pub open spec fn date_before(a: (int, int, int), b: (int, int, int)) -> bool {
    a.0 < b.0 || (a.0 == b.0 && (a.1 < b.1 || (a.1 == b.1 && a.2 < b.2)))
}

pub open spec fn yoe_of(doe: int) -> int {
    (doe - doe / 1460 + doe / 36524 - doe / 146096) / 365
}

pub open spec fn year_start(y: int) -> int {
    365 * y + y / 4 - y / 100
}

/// The date of day `doe` of an era, the year counted from the era's start.
pub open spec fn era_date(doe: int) -> (int, int, int) {
    let yoe = yoe_of(doe);
    let doy = doe - year_start(yoe);
    let mp = (5 * doy + 2) / 153;
    let day = doy - (153 * mp + 2) / 5 + 1;
    let month = if mp < 10 {
        mp + 3
    } else {
        mp - 9
    };
    (yoe + if month <= 2 {
        1int
    } else {
        0int
    }, month, day)
}

proof fn lemma_year_start_mono(a: int, b: int)
    requires
        0 <= a <= b,
    ensures
        year_start(a) <= year_start(b),
{
    assert(year_start(a) <= year_start(b)) by (nonlinear_arith)
        requires
            0 <= a <= b,
    ;
}

proof fn lemma_yoe_bounds(doe: int)
    requires
        0 <= doe <= 146096,
    ensures
        0 <= yoe_of(doe) <= 399,
        year_start(yoe_of(doe)) <= doe,
        doe < 146096 ==> doe < year_start(yoe_of(doe) + 1),
        0 <= doe - year_start(yoe_of(doe)) <= 365,
{
    let d = doe as u32;
    lemma_year_start_below(d);
    lemma_era_day_bounds(d);
    if doe < 146096 {
        lemma_year_end_above(d);
    }
}

/// Within an era, a later day has a later date.
proof fn lemma_era_order(doe1: int, doe2: int)
    requires
        0 <= doe1 < doe2 <= 146096,
    ensures
        date_before(era_date(doe1), era_date(doe2)),
{
    lemma_yoe_bounds(doe1);
    lemma_yoe_bounds(doe2);
    let y1 = yoe_of(doe1);
    let y2 = yoe_of(doe2);
    lemma_era_day_bounds(doe1 as u32);
    lemma_era_day_bounds(doe2 as u32);
    if y1 > y2 {
        lemma_year_start_mono(y2 + 1, y1);
        if doe2 < 146096 {
            assert(false);
        }
    }
    let doy1 = doe1 - year_start(y1);
    let doy2 = doe2 - year_start(y2);
    if y1 == y2 {
        lemma_month_order(doy1 as u32, doy2 as u32);
    }
}

/// A later day has a later date.
pub proof fn lemma_civil_order(d1: int, d2: int)
    requires
        d1 < d2,
    ensures
        date_before(civil_from_days_spec(d1), civil_from_days_spec(d2)),
{
    let z1 = d1 + 719468;
    let z2 = d2 + 719468;
    let e1 = z1 / 146097;
    let e2 = z2 / 146097;
    let doe1 = z1 - e1 * 146097;
    let doe2 = z2 - e2 * 146097;
    assert(0 <= doe1 < 146097 && 0 <= doe2 < 146097);
    assert(e1 <= e2) by (nonlinear_arith)
        requires
            z1 < z2,
            e1 == z1 / 146097,
            e2 == z2 / 146097,
    ;
    assert(civil_from_days_spec(d1) == (era_date(doe1).0 + e1 * 400, era_date(doe1).1, era_date(doe1).2));
    assert(civil_from_days_spec(d2) == (era_date(doe2).0 + e2 * 400, era_date(doe2).1, era_date(doe2).2));
    lemma_yoe_bounds(doe1);
    lemma_yoe_bounds(doe2);
    lemma_era_day_bounds(doe1 as u32);
    lemma_era_day_bounds(doe2 as u32);
    if e1 == e2 {
        lemma_era_order(doe1, doe2);
    } else {
        assert(e1 * 400 + 400 <= e2 * 400);
    }
}

/// A stamp laid out field by field.
pub open spec fn stamp_of(y: int, mo: int, d: int, h: int, mi: int, se: int) -> Seq<char> {
    zero_padded(y, 4) + (seq!['-'] + (zero_padded(mo, 2) + (seq!['-'] + (zero_padded(d, 2) + (
    seq!['_'] + (zero_padded(h, 2) + (zero_padded(mi, 2) + zero_padded(se, 2))))))))
}

/// Sequences with a common head of equal length sort by what follows it.
proof fn lemma_same_head(h: Seq<char>, b: Seq<char>, d: Seq<char>)
    ensures
        text_lt(h + b, h + d) == text_lt(b, d),
{
    lemma_text_lt_concat(h, b, h, d);
}

/// Two padded fields of one width: the smaller sorts first whatever
/// follows.
proof fn lemma_field_lt(x: int, y: int, w: nat, b: Seq<char>, d: Seq<char>)
    requires
        1 <= w,
        0 <= x < y < pow10(w),
    ensures
        text_lt(zero_padded(x, w as int) + b, zero_padded(y, w as int) + d),
{
    lemma_padded_sort(x, y, w);
    lemma_text_lt_concat(zero_padded(x, w as int), b, zero_padded(y, w as int), d);
}

proof fn lemma_pow10_small()
    ensures
        pow10(2) == 100,
        pow10(4) == 10000,
{
    reveal_with_fuel(pow10, 5);
}

/// Stamps of field-wise ordered times sort in that order.
proof fn lemma_stamp_fields(a: (int, int, int, int, int, int), b: (int, int, int, int, int, int))
    requires
        0 <= a.0 <= 9999 && 0 <= b.0 <= 9999,
        0 <= a.1 <= 99 && 0 <= b.1 <= 99,
        0 <= a.2 <= 99 && 0 <= b.2 <= 99,
        0 <= a.3 <= 99 && 0 <= b.3 <= 99,
        0 <= a.4 <= 99 && 0 <= b.4 <= 99,
        0 <= a.5 <= 99 && 0 <= b.5 <= 99,
        a.0 < b.0 || (a.0 == b.0 && (a.1 < b.1 || (a.1 == b.1 && (a.2 < b.2 || (a.2 == b.2 && (a.3
            < b.3 || (a.3 == b.3 && (a.4 < b.4 || (a.4 == b.4 && a.5 < b.5))))))))),
    ensures
        text_lt(stamp_of(a.0, a.1, a.2, a.3, a.4, a.5), stamp_of(b.0, b.1, b.2, b.3, b.4, b.5)),
{
    lemma_pow10_small();
    let sa = stamp_of(a.0, a.1, a.2, a.3, a.4, a.5);
    let sb = stamp_of(b.0, b.1, b.2, b.3, b.4, b.5);
    let ta5 = zero_padded(a.5, 2);
    let tb5 = zero_padded(b.5, 2);
    let ta4 = zero_padded(a.4, 2) + ta5;
    let tb4 = zero_padded(b.4, 2) + tb5;
    let ta3 = seq!['_'] + (zero_padded(a.3, 2) + ta4);
    let tb3 = seq!['_'] + (zero_padded(b.3, 2) + tb4);
    let ta2 = seq!['-'] + (zero_padded(a.2, 2) + ta3);
    let tb2 = seq!['-'] + (zero_padded(b.2, 2) + tb3);
    let ta1 = seq!['-'] + (zero_padded(a.1, 2) + ta2);
    let tb1 = seq!['-'] + (zero_padded(b.1, 2) + tb2);
    assert(sa == zero_padded(a.0, 4) + ta1);
    assert(sb == zero_padded(b.0, 4) + tb1);
    if a.0 < b.0 {
        lemma_field_lt(a.0, b.0, 4, ta1, tb1);
        return;
    }
    lemma_same_head(zero_padded(a.0, 4), ta1, tb1);
    lemma_same_head(seq!['-'], zero_padded(a.1, 2) + ta2, zero_padded(b.1, 2) + tb2);
    if a.1 < b.1 {
        lemma_field_lt(a.1, b.1, 2, ta2, tb2);
        return;
    }
    lemma_same_head(zero_padded(a.1, 2), ta2, tb2);
    lemma_same_head(seq!['-'], zero_padded(a.2, 2) + ta3, zero_padded(b.2, 2) + tb3);
    if a.2 < b.2 {
        lemma_field_lt(a.2, b.2, 2, ta3, tb3);
        return;
    }
    lemma_same_head(zero_padded(a.2, 2), ta3, tb3);
    lemma_same_head(seq!['_'], zero_padded(a.3, 2) + ta4, zero_padded(b.3, 2) + tb4);
    if a.3 < b.3 {
        lemma_field_lt(a.3, b.3, 2, ta4, tb4);
        return;
    }
    lemma_same_head(zero_padded(a.3, 2), ta4, tb4);
    if a.4 < b.4 {
        lemma_field_lt(a.4, b.4, 2, ta5, tb5);
        return;
    }
    lemma_same_head(zero_padded(a.4, 2), ta5, tb5);
    lemma_padded_sort(a.5, b.5, 2);
}

/// A later moment of one day has a later time of day (hours, minutes,
/// seconds).
proof fn lemma_time_order(ta: int, tb: int)
    requires
        0 <= ta < tb < 86400,
    ensures
        ta / 3600 < tb / 3600 || (ta / 3600 == tb / 3600 && ((ta % 3600) / 60 < (tb % 3600) / 60 || (
        (ta % 3600) / 60 == (tb % 3600) / 60 && ta % 60 < tb % 60))),
        0 <= ta / 3600 <= 23 && 0 <= tb / 3600 <= 23,
        0 <= (ta % 3600) / 60 <= 59 && 0 <= (tb % 3600) / 60 <= 59,
{
    assert(ta / 3600 <= tb / 3600) by (nonlinear_arith)
        requires
            ta < tb,
            0 <= ta,
    ;
    if ta / 3600 == tb / 3600 {
        assert(ta % 3600 < tb % 3600) by (nonlinear_arith)
            requires
                ta < tb,
                ta / 3600 == tb / 3600,
                0 <= ta,
        ;
        let ra = ta % 3600;
        let rb = tb % 3600;
        assert(ra / 60 <= rb / 60) by (nonlinear_arith)
            requires
                ra < rb,
                0 <= ra,
        ;
        if ra / 60 == rb / 60 {
            assert(ra % 60 < rb % 60) by (nonlinear_arith)
                requires
                    ra < rb,
                    ra / 60 == rb / 60,
                    0 <= ra,
            ;
            assert(ta % 60 == ra % 60) by (nonlinear_arith)
                requires
                    ra == ta % 3600,
                    0 <= ta,
            ;
            assert(tb % 60 == rb % 60) by (nonlinear_arith)
                requires
                    rb == tb % 3600,
                    0 <= tb,
            ;
        }
    }
}

proof fn lemma_epoch_date()
    ensures
        civil_from_days_spec(0) == (1970int, 1int, 1int),
{
}

/// The date of a day from the epoch on: its year from 1970, its month and
/// day in range.
proof fn lemma_date_ranges(d: int)
    requires
        0 <= d,
    ensures
        civil_from_days_spec(d).0 >= 1970,
        1 <= civil_from_days_spec(d).1 <= 12,
        1 <= civil_from_days_spec(d).2 <= 31,
{
    lemma_epoch_date();
    if d > 0 {
        lemma_civil_order(0, d);
    }
    let z = d + 719468;
    lemma_era_day_bounds((z - (z / 146097) * 146097) as u32);
}

proof fn lemma_assoc(x: Seq<char>, y: Seq<char>, z: Seq<char>)
    ensures
        (x + y) + z == x + (y + z),
{
    assert((x + y) + z =~= x + (y + z));
}

/// Nine pieces joined left to right are the same pieces joined right to
/// left.
proof fn lemma_nine(
    p0: Seq<char>,
    p1: Seq<char>,
    p2: Seq<char>,
    p3: Seq<char>,
    p4: Seq<char>,
    p5: Seq<char>,
    p6: Seq<char>,
    p7: Seq<char>,
    p8: Seq<char>,
)
    ensures
        p0 + p1 + p2 + p3 + p4 + p5 + p6 + p7 + p8 == p0 + (p1 + (p2 + (p3 + (p4 + (p5 + (p6 + (p7
            + p8))))))),
{
    lemma_assoc(p6, p7, p8);
    lemma_assoc(p5, p6, p7 + p8);
    lemma_assoc(p4, p5, p6 + (p7 + p8));
    lemma_assoc(p3, p4, p5 + (p6 + (p7 + p8)));
    lemma_assoc(p2, p3, p4 + (p5 + (p6 + (p7 + p8))));
    lemma_assoc(p1, p2, p3 + (p4 + (p5 + (p6 + (p7 + p8)))));
    lemma_assoc(p0, p1, p2 + (p3 + (p4 + (p5 + (p6 + (p7 + p8))))));
    lemma_assoc(p0 + p1, p2, p3);
    lemma_assoc(p0 + p1 + p2, p3, p4);
    lemma_assoc(p0 + p1 + p2 + p3, p4, p5);
    lemma_assoc(p0 + p1 + p2 + p3 + p4, p5, p6);
    lemma_assoc(p0 + p1 + p2 + p3 + p4 + p5, p6, p7);
    lemma_assoc(p0 + p1 + p2 + p3 + p4 + p5 + p6, p7, p8);
    lemma_assoc(p0 + p1, p2, p3 + (p4 + (p5 + (p6 + (p7 + p8)))));
    lemma_assoc(p0 + p1 + p2, p3, p4 + (p5 + (p6 + (p7 + p8))));
    lemma_assoc(p0 + p1 + p2 + p3, p4, p5 + (p6 + (p7 + p8)));
    lemma_assoc(p0 + p1 + p2 + p3 + p4, p5, p6 + (p7 + p8));
    lemma_assoc(p0 + p1 + p2 + p3 + p4 + p5, p6, p7 + p8);
}

/// The stamp of `secs` is the stamp of its date and time of day.
proof fn lemma_stamp_layout(secs: int)
    requires
        0 <= secs,
    ensures
        ({
            let c = civil_from_days_spec(secs / 86400);
            let t = secs % 86400;
            utc_stamp_spec(secs) == stamp_of(c.0, c.1, c.2, t / 3600, (t % 3600) / 60, t % 60)
        }),
{
    let c = civil_from_days_spec(secs / 86400);
    let t = secs % 86400;
    lemma_nine(
        zero_padded(c.0, 4),
        seq!['-'],
        zero_padded(c.1, 2),
        seq!['-'],
        zero_padded(c.2, 2),
        seq!['_'],
        zero_padded(t / 3600, 2),
        zero_padded((t % 3600) / 60, 2),
        zero_padded(t % 60, 2),
    );
}

proof fn lemma_day_split(a: int, b: int)
    requires
        0 <= a < b,
    ensures
        a / 86400 <= b / 86400,
        a / 86400 == b / 86400 ==> a % 86400 < b % 86400,
        0 <= a % 86400 < 86400,
        0 <= b % 86400 < 86400,
{
    assert(a / 86400 <= b / 86400) by (nonlinear_arith)
        requires
            a < b,
            0 <= a,
    ;
    assert(a / 86400 == b / 86400 ==> a % 86400 < b % 86400) by (nonlinear_arith)
        requires
            a < b,
            0 <= a,
    ;
}

proof fn lemma_clock_ranges(t: int)
    requires
        0 <= t < 86400,
    ensures
        0 <= t / 3600 <= 23,
        0 <= (t % 3600) / 60 <= 59,
        0 <= t % 60 <= 59,
{
}

/// Report stamps sort as the moments they stamp: from the epoch to the end
/// of the year 9999, a later second gets a stamp that sorts after an
/// earlier one, so listing reports alphabetically lists them in time order.
pub proof fn lemma_stamps_sort_chronologically(a: int, b: int)
    requires
        0 <= a < b,
        civil_from_days_spec(b / 86400).0 <= 9999,
    ensures
        text_lt(utc_stamp_spec(a), utc_stamp_spec(b)),
{
    let da = a / 86400;
    let db = b / 86400;
    let ta = a % 86400;
    let tb = b % 86400;
    lemma_day_split(a, b);
    let ca = civil_from_days_spec(da);
    let cb = civil_from_days_spec(db);
    lemma_date_ranges(da);
    lemma_date_ranges(db);
    if da < db {
        lemma_civil_order(da, db);
    } else {
        lemma_time_order(ta, tb);
    }
    lemma_clock_ranges(ta);
    lemma_clock_ranges(tb);
    let fa = (ca.0, ca.1, ca.2, ta / 3600, (ta % 3600) / 60, ta % 60);
    let fb = (cb.0, cb.1, cb.2, tb / 3600, (tb % 3600) / 60, tb % 60);
    lemma_stamp_fields(fa, fb);
    lemma_stamp_layout(a);
    lemma_stamp_layout(b);
}

} // verus!
