use vstd::prelude::*;
use crate::point::WeatherDataPoint;

verus! {

pub open spec fn digit_char(d: int) -> char {
    if d == 0 {
        '0'
    } else if d == 1 {
        '1'
    } else if d == 2 {
        '2'
    } else if d == 3 {
        '3'
    } else if d == 4 {
        '4'
    } else if d == 5 {
        '5'
    } else if d == 6 {
        '6'
    } else if d == 7 {
        '7'
    } else if d == 8 {
        '8'
    } else {
        '9'
    }
}

/// Decimal digits of a natural number, most significant first.
pub open spec fn digits_of(n: nat) -> Seq<char>
    decreases n,
{
    if n < 10 {
        seq![digit_char(n as int)]
    } else {
        digits_of(n / 10).push(digit_char((n % 10) as int))
    }
}

/// Decimal text of an integer, with a leading `-` when negative.
pub open spec fn decimal(n: int) -> Seq<char> {
    if n < 0 {
        seq!['-'] + digits_of((-n) as nat)
    } else {
        digits_of(n as nat)
    }
}

/// Text of a fixed-point number in hundredths, with two decimals
/// (`2150` is `21.50`, `-3` is `-0.03`).
pub open spec fn fixed2(n: int) -> Seq<char> {
    let m = if n < 0 {
        -n
    } else {
        n
    };
    let sign = if n < 0 {
        seq!['-']
    } else {
        Seq::<char>::empty()
    };
    sign + digits_of((m / 100) as nat) + seq!['.', digit_char((m % 100) / 10), digit_char(m % 10)]
}

/// The header line of the CSV export.
pub open spec fn csv_header() -> Seq<char> {
    "timestamp,location,temperature,humidity,pressure,wind_speed,wind_direction,precipitation\n"@
}

/// One CSV line: the fields in fixed order, separated by commas.
#[verifier::opaque]
pub open spec fn csv_row(p: WeatherDataPoint) -> Seq<char> {
    decimal(p.timestamp as int) + seq![','] + p.location@ + seq![','] + fixed2(p.temperature as int) + seq![',']
        + fixed2(p.humidity as int) + seq![','] + fixed2(p.pressure as int) + seq![','] + fixed2(
        p.wind_speed as int,
    ) + seq![','] + fixed2(p.wind_direction as int) + seq![','] + fixed2(p.precipitation as int) + seq!['\n']
}

/// The lines of the points of `s`, in order.
pub open spec fn csv_rows(s: Seq<WeatherDataPoint>) -> Seq<char>
    decreases s.len(),
{
    if s.len() == 0 {
        Seq::empty()
    } else {
        csv_rows(s.drop_last()) + csv_row(s.last())
    }
}

/// The whole CSV export of a sequence of points.
pub open spec fn csv_text(s: Seq<WeatherDataPoint>) -> Seq<char> {
    csv_header() + csv_rows(s)
}

/// Relies on `String::push`: appends one character.
#[verifier::external_body]
fn push_char(s: &mut String, c: char)
    ensures
        final(s)@ == old(s)@.push(c),
{
    s.push(c);
}

fn digit(d: u64) -> (c: char)
    requires
        d < 10,
    ensures
        c == digit_char(d as int),
{
    if d == 0 {
        '0'
    } else if d == 1 {
        '1'
    } else if d == 2 {
        '2'
    } else if d == 3 {
        '3'
    } else if d == 4 {
        '4'
    } else if d == 5 {
        '5'
    } else if d == 6 {
        '6'
    } else if d == 7 {
        '7'
    } else if d == 8 {
        '8'
    } else {
        '9'
    }
}

fn push_digits(out: &mut String, m: u64)
    ensures
        final(out)@ == old(out)@ + digits_of(m as nat),
    decreases m,
{
    if m >= 10 {
        push_digits(out, m / 10);
    }
    push_char(out, digit(m % 10));
    proof {
        if m < 10 {
            assert(m % 10 == m);
        }
        assert(final(out)@ =~= old(out)@ + digits_of(m as nat));
    }
}

/// Appends the decimal text of `n`.
pub fn push_decimal(out: &mut String, n: i64)
    ensures
        final(out)@ == old(out)@ + decimal(n as int),
{
    if n < 0 {
        push_char(out, '-');
        let m = (-(n as i128)) as u64;
        push_digits(out, m);
        proof {
            assert(final(out)@ =~= old(out)@ + decimal(n as int));
        }
    } else {
        push_digits(out, n as u64);
    }
}

/// Appends a fixed-point number in hundredths with two decimals.
pub fn push_fixed2(out: &mut String, v: i32)
    ensures
        final(out)@ == old(out)@ + fixed2(v as int),
{
    let m: u64 = if v < 0 {
        (-(v as i64)) as u64
    } else {
        v as u64
    };
    if v < 0 {
        push_char(out, '-');
    }
    let ghost mid = out@;
    push_digits(out, m / 100);
    push_char(out, '.');
    push_char(out, digit((m % 100) / 10));
    push_char(out, digit(m % 10));
    proof {
        assert(final(out)@ =~= old(out)@ + fixed2(v as int));
    }
}

#[verifier::rlimit(50)]
fn push_row(out: &mut String, p: &WeatherDataPoint)
    ensures
        final(out)@ == old(out)@ + csv_row(*p),
{
    push_decimal(out, p.timestamp);
    push_char(out, ',');
    out.append(p.location.as_str());
    push_char(out, ',');
    push_fixed2(out, p.temperature);
    push_char(out, ',');
    push_fixed2(out, p.humidity);
    push_char(out, ',');
    push_fixed2(out, p.pressure);
    push_char(out, ',');
    push_fixed2(out, p.wind_speed);
    push_char(out, ',');
    push_fixed2(out, p.wind_direction);
    push_char(out, ',');
    push_fixed2(out, p.precipitation);
    push_char(out, '\n');
    proof {
        reveal(csv_row);
        assert(final(out)@ =~= old(out)@ + csv_row(*p));
    }
}

/// The points as CSV: a header line, then one line per point in order.
pub fn export_to_csv(points: &Vec<WeatherDataPoint>) -> (r: String)
    ensures
        r@ == csv_text(points@),
{
    let mut out = String::new();
    out.append("timestamp,location,temperature,humidity,pressure,wind_speed,wind_direction,precipitation\n");
    let n = points.len();
    let mut i: usize = 0;
    while i < n
        invariant
            n == points@.len(),
            0 <= i <= n,
            out@ == csv_header() + csv_rows(points@.take(i as int)),
        decreases n - i,
    {
        proof {
            assert(points@.take(i + 1).drop_last() =~= points@.take(i as int));
        }
        push_row(&mut out, &points[i]);
        proof {
            assert(out@ =~= csv_header() + csv_rows(points@.take(i + 1)));
        }
        i = i + 1;
    }
    proof {
        assert(points@.take(n as int) =~= points@);
    }
    out
}

/// Value of a decimal digit character.
pub open spec fn digit_value(c: char) -> int {
    if c == '1' {
        1
    } else if c == '2' {
        2
    } else if c == '3' {
        3
    } else if c == '4' {
        4
    } else if c == '5' {
        5
    } else if c == '6' {
        6
    } else if c == '7' {
        7
    } else if c == '8' {
        8
    } else if c == '9' {
        9
    } else {
        0
    }
}

/// Value of a string of decimal digits.
pub open spec fn digits_value(d: Seq<char>) -> int
    decreases d.len(),
{
    if d.len() == 0 {
        0
    } else {
        digits_value(d.drop_last()) * 10 + digit_value(d.last())
    }
}

/// Value of decimal text with an optional leading `-`.
pub open spec fn decimal_value(t: Seq<char>) -> int {
    if t.len() > 0 && t[0] == '-' {
        -digits_value(t.skip(1))
    } else {
        digits_value(t)
    }
}

/// Position of the first `c` in `t`; the length of `t` when there is none.
pub open spec fn first_index(t: Seq<char>, c: char) -> nat
    decreases t.len(),
{
    if t.len() == 0 {
        0
    } else if t[0] == c {
        0
    } else {
        1 + first_index(t.skip(1), c)
    }
}

/// The text after the first `c` of `t`.
pub open spec fn after(t: Seq<char>, c: char) -> Seq<char> {
    if first_index(t, c) < t.len() {
        t.skip(first_index(t, c) as int + 1)
    } else {
        Seq::empty()
    }
}

/// Value in hundredths of text with an optional `-`, whole digits, a `.`
/// and two decimals.
pub open spec fn fixed2_value(t: Seq<char>) -> int {
    let neg = t.len() > 0 && t[0] == '-';
    let body = if neg {
        t.skip(1)
    } else {
        t
    };
    let i = first_index(body, '.') as int;
    let m = digits_value(body.take(i)) * 100 + digits_value(after(body, '.'));
    if neg {
        -m
    } else {
        m
    }
}

/// Timestamp and temperature (in hundredths) read back from one CSV line.
pub open spec fn parse_row(line: Seq<char>) -> (int, int) {
    let rest = after(after(line, ','), ',');
    (decimal_value(line.take(first_index(line, ',') as int)), fixed2_value(rest.take(first_index(rest, ',') as int)))
}

/// Timestamp and temperature of every line of `t`.
pub open spec fn parse_rows(t: Seq<char>) -> Seq<(int, int)>
    decreases t.len(),
{
    if t.len() == 0 {
        Seq::empty()
    } else if first_index(t, '\n') >= t.len() {
        seq![parse_row(t)]
    } else {
        seq![parse_row(t.take(first_index(t, '\n') as int))] + parse_rows(t.skip(first_index(t, '\n') as int + 1))
    }
}

/// Timestamp and temperature of every line after the header.
pub open spec fn parse_csv(t: Seq<char>) -> Seq<(int, int)> {
    parse_rows(t.skip(csv_header().len() as int))
}

/// Timestamp and temperature of each point.
pub open spec fn time_temperature_pairs(s: Seq<WeatherDataPoint>) -> Seq<(int, int)> {
    s.map_values(|p: WeatherDataPoint| (p.timestamp as int, p.temperature as int))
}

/// No location holds the field or line separator.
pub open spec fn csv_safe(s: Seq<WeatherDataPoint>) -> bool {
    forall|i: int| 0 <= i < s.len() ==> !(#[trigger] s[i].location@).contains(',') && !s[i].location@.contains('\n')
}

proof fn lemma_digits(n: nat)
    ensures
        digits_value(digits_of(n)) == n,
        digits_of(n).len() > 0,
        forall|k: int| 0 <= k < digits_of(n).len() ==> {
            let c = #[trigger] digits_of(n)[k];
            c != ',' && c != '\n' && c != '-' && c != '.'
        },
    decreases n,
{
    let c = digit_char((n % 10) as int);
    assert(digit_value(c) == n % 10);
    let d = digits_of(n);
    assert(digits_value(d) == digits_value(d.drop_last()) * 10 + digit_value(d.last()));
    if n >= 10 {
        lemma_digits(n / 10);
        assert(d.drop_last() == digits_of(n / 10));
        assert(d.last() == c);
        assert((n / 10) * 10 + n % 10 == n) by (nonlinear_arith);
        assert forall|k: int| 0 <= k < d.len() implies {
            let c = #[trigger] d[k];
            c != ',' && c != '\n' && c != '-' && c != '.'
        } by {
            if k < d.len() - 1 {
                assert(d[k] == digits_of(n / 10)[k]);
            }
        }
    } else {
        assert(digits_of(n).drop_last() =~= Seq::<char>::empty());
        assert(digits_value(Seq::<char>::empty()) == 0);
        assert(n % 10 == n);
    }
}

proof fn lemma_decimal(n: int)
    ensures
        decimal_value(decimal(n)) == n,
        !decimal(n).contains(','),
        !decimal(n).contains('\n'),
{
    if n < 0 {
        let m = (-n) as nat;
        lemma_digits(m);
        let t = decimal(n);
        assert(t.skip(1) =~= digits_of(m));
        assert forall|k: int| 0 <= k < t.len() implies t[k] != ',' && t[k] != '\n' by {
            if k > 0 {
                assert(t[k] == digits_of(m)[k - 1]);
            }
        }
    } else {
        lemma_digits(n as nat);
        assert(digits_of(n as nat)[0] != '-');
    }
}

proof fn lemma_fixed2(n: int)
    requires
        -0x8000_0000 <= n < 0x8000_0000,
    ensures
        fixed2_value(fixed2(n)) == n,
        !fixed2(n).contains(','),
        !fixed2(n).contains('\n'),
{
    let m = if n < 0 {
        -n
    } else {
        n
    };
    let w = (m / 100) as nat;
    lemma_digits(w);
    let d1 = (m % 100) / 10;
    let d0 = m % 10;
    let frac = seq![digit_char(d1), digit_char(d0)];
    let body = digits_of(w) + seq!['.'] + frac;
    assert(digits_of(w) + seq!['.', digit_char(d1), digit_char(d0)] =~= body);
    assert(!digits_of(w).contains('.')) by {
        if digits_of(w).contains('.') {
            let k = choose|k: int| 0 <= k < digits_of(w).len() && digits_of(w)[k] == '.';
            assert(digits_of(w)[k] != '.');
        }
    }
    lemma_first_index(digits_of(w), '.', frac);
    assert(0 <= d1 < 10 && 0 <= d0 < 10);
    assert(digit_value(digit_char(d1)) == d1);
    assert(digit_value(digit_char(d0)) == d0);
    assert(frac.drop_last() =~= seq![digit_char(d1)]);
    assert(seq![digit_char(d1)].drop_last() =~= Seq::<char>::empty());
    assert(digits_value(Seq::<char>::empty()) == 0);
    let one = seq![digit_char(d1)];
    assert(digits_value(one) == digits_value(one.drop_last()) * 10 + digit_value(one.last()));
    assert(digits_value(one) == d1);
    assert(frac.last() == digit_char(d0));
    assert(digits_value(frac) == digits_value(frac.drop_last()) * 10 + digit_value(frac.last()));
    assert(digits_value(frac) == d1 * 10 + d0);
    assert(w * 100 + d1 * 10 + d0 == m) by (nonlinear_arith)
        requires
            m >= 0,
            w == m / 100,
            d1 == (m % 100) / 10,
            d0 == m % 10,
    ;
    let t = fixed2(n);
    if n < 0 {
        assert(t =~= seq!['-'] + body);
        assert(t.skip(1) =~= body);
    } else {
        assert(t =~= body);
        assert(digits_of(w)[0] != '-');
        assert(t[0] == digits_of(w)[0]);
    }
    assert forall|k: int| 0 <= k < t.len() implies t[k] != ',' && t[k] != '\n' by {
        let off = if n < 0 {
            1int
        } else {
            0int
        };
        if k >= off && k - off < digits_of(w).len() {
            assert(t[k] == digits_of(w)[k - off]);
        }
    }
}

proof fn lemma_first_index(x: Seq<char>, c: char, y: Seq<char>)
    requires
        !x.contains(c),
    ensures
        first_index(x + seq![c] + y, c) == x.len(),
        after(x + seq![c] + y, c) == y,
        (x + seq![c] + y).take(x.len() as int) == x,
    decreases x.len(),
{
    let t = x + seq![c] + y;
    if x.len() > 0 {
        assert(t[0] == x[0]);
        assert(!x.drop_first().contains(c)) by {
            if x.drop_first().contains(c) {
                let k = choose|k: int| 0 <= k < x.drop_first().len() && x.drop_first()[k] == c;
                assert(x[k + 1] == c);
            }
        }
        lemma_first_index(x.drop_first(), c, y);
        assert(t.skip(1) =~= x.drop_first() + seq![c] + y);
    } else {
        assert(t[0] == c);
    }
    assert(t.skip(x.len() as int + 1) =~= y);
    assert(t.take(x.len() as int) =~= x);
}

proof fn lemma_no_sep(a: Seq<char>, b: Seq<char>, c: char)
    requires
        !a.contains(c),
        !b.contains(c),
    ensures
        !(a + b).contains(c),
{
    if (a + b).contains(c) {
        let k = choose|k: int| 0 <= k < (a + b).len() && (a + b)[k] == c;
        if k < a.len() {
            assert(a[k] == c);
        } else {
            assert(b[k - a.len()] == c);
        }
    }
}

/// Everything of a row after the temperature field, without the line end.
pub open spec fn row_tail(p: WeatherDataPoint) -> Seq<char> {
    fixed2(p.humidity as int) + seq![','] + fixed2(p.pressure as int) + seq![','] + fixed2(p.wind_speed as int)
        + seq![','] + fixed2(p.wind_direction as int) + seq![','] + fixed2(p.precipitation as int)
}

/// A row without its line end, grouped from the right.
pub open spec fn row_line(p: WeatherDataPoint) -> Seq<char> {
    decimal(p.timestamp as int) + seq![','] + (p.location@ + seq![','] + (fixed2(p.temperature as int) + seq![',']
        + row_tail(p)))
}

proof fn lemma_row_shape(p: WeatherDataPoint)
    ensures
        csv_row(p) == row_line(p) + seq!['\n'],
{
    reveal(csv_row);
    assert(csv_row(p) =~= row_line(p) + seq!['\n']);
}

#[verifier::rlimit(50)]
proof fn lemma_tail_clean(p: WeatherDataPoint)
    ensures
        !row_tail(p).contains('\n'),
{
    lemma_fixed2(p.humidity as int);
    lemma_fixed2(p.pressure as int);
    lemma_fixed2(p.wind_speed as int);
    lemma_fixed2(p.wind_direction as int);
    lemma_fixed2(p.precipitation as int);
    let comma = seq![','];
    assert(!comma.contains('\n'));
    let a1 = fixed2(p.humidity as int) + comma;
    lemma_no_sep(fixed2(p.humidity as int), comma, '\n');
    let a2 = a1 + fixed2(p.pressure as int);
    lemma_no_sep(a1, fixed2(p.pressure as int), '\n');
    let a3 = a2 + comma;
    lemma_no_sep(a2, comma, '\n');
    let a4 = a3 + fixed2(p.wind_speed as int);
    lemma_no_sep(a3, fixed2(p.wind_speed as int), '\n');
    let a5 = a4 + comma;
    lemma_no_sep(a4, comma, '\n');
    let a6 = a5 + fixed2(p.wind_direction as int);
    lemma_no_sep(a5, fixed2(p.wind_direction as int), '\n');
    let a7 = a6 + comma;
    lemma_no_sep(a6, comma, '\n');
    lemma_no_sep(a7, fixed2(p.precipitation as int), '\n');
    assert(row_tail(p) == a7 + fixed2(p.precipitation as int));
}

#[verifier::rlimit(50)]
proof fn lemma_line_clean(p: WeatherDataPoint)
    requires
        !p.location@.contains('\n'),
    ensures
        !row_line(p).contains('\n'),
{
    lemma_tail_clean(p);
    lemma_decimal(p.timestamp as int);
    lemma_fixed2(p.temperature as int);
    let comma = seq![','];
    assert(!comma.contains('\n'));
    let tp = fixed2(p.temperature as int);
    lemma_no_sep(tp, comma, '\n');
    lemma_no_sep(tp + comma, row_tail(p), '\n');
    let r2 = tp + comma + row_tail(p);
    lemma_no_sep(p.location@, comma, '\n');
    lemma_no_sep(p.location@ + comma, r2, '\n');
    let r1 = p.location@ + comma + r2;
    lemma_no_sep(decimal(p.timestamp as int), comma, '\n');
    lemma_no_sep(decimal(p.timestamp as int) + comma, r1, '\n');
}

proof fn lemma_row(p: WeatherDataPoint, more: Seq<char>)
    requires
        !p.location@.contains(','),
        !p.location@.contains('\n'),
    ensures
        first_index(csv_row(p) + more, '\n') == csv_row(p).len() - 1,
        after(csv_row(p) + more, '\n') == more,
        parse_row((csv_row(p) + more).take(csv_row(p).len() - 1)) == (p.timestamp as int, p.temperature as int),
{
    let line = row_line(p);
    lemma_row_shape(p);
    lemma_line_clean(p);
    lemma_decimal(p.timestamp as int);
    lemma_fixed2(p.temperature as int);
    assert(csv_row(p) + more =~= line + seq!['\n'] + more);
    lemma_first_index(line, '\n', more);
    let tp = fixed2(p.temperature as int);
    let r2 = tp + seq![','] + row_tail(p);
    let r1 = p.location@ + seq![','] + r2;
    lemma_first_index(decimal(p.timestamp as int), ',', r1);
    lemma_first_index(p.location@, ',', r2);
    lemma_first_index(tp, ',', row_tail(p));
}

proof fn lemma_rows_front(s: Seq<WeatherDataPoint>)
    requires
        s.len() >= 1,
    ensures
        csv_rows(s) == csv_row(s[0]) + csv_rows(s.drop_first()),
    decreases s.len(),
{
    if s.len() == 1 {
        assert(s.drop_last().len() == 0);
        assert(s.drop_first().len() == 0);
        assert(csv_rows(s.drop_last()) == Seq::<char>::empty());
        assert(csv_rows(s.drop_first()) == Seq::<char>::empty());
        assert(s.last() == s[0]);
        assert(csv_rows(s) == csv_rows(s.drop_last()) + csv_row(s.last()));
        assert(csv_rows(s) =~= csv_row(s[0]) + csv_rows(s.drop_first()));
    } else {
        lemma_rows_front(s.drop_last());
        assert(s.drop_last().drop_first() =~= s.drop_first().drop_last());
        assert(s.drop_first().last() == s.last());
        assert(s.drop_last()[0] == s[0]);
        assert(csv_rows(s.drop_first()) == csv_rows(s.drop_first().drop_last()) + csv_row(s.drop_first().last()));
        assert(csv_rows(s) == csv_rows(s.drop_last()) + csv_row(s.last()));
        assert(csv_rows(s) =~= csv_row(s[0]) + csv_rows(s.drop_first()));
    }
}

#[verifier::rlimit(50)]
proof fn lemma_parse_rows(s: Seq<WeatherDataPoint>)
    requires
        csv_safe(s),
    ensures
        parse_rows(csv_rows(s)) == time_temperature_pairs(s),
    decreases s.len(),
{
    if s.len() == 0 {
        assert(csv_rows(s).len() == 0);
        assert(time_temperature_pairs(s) =~= Seq::<(int, int)>::empty());
    } else {
        lemma_rows_front(s);
        let rest = s.drop_first();
        assert(csv_safe(rest)) by {
            assert forall|i: int| 0 <= i < rest.len() implies !(#[trigger] rest[i].location@).contains(',')
                && !rest[i].location@.contains('\n') by {
                assert(rest[i] == s[i + 1]);
            }
        }
        lemma_parse_rows(rest);
        assert(!s[0].location@.contains(',') && !s[0].location@.contains('\n'));
        lemma_row(s[0], csv_rows(rest));
        let t = csv_rows(s);
        let row = csv_row(s[0]);
        assert(t.len() > 0);
        assert(first_index(t, '\n') < t.len());
        assert(t.skip(first_index(t, '\n') as int + 1) == csv_rows(rest));
        assert(time_temperature_pairs(s) =~= seq![(s[0].timestamp as int, s[0].temperature as int)]
            + time_temperature_pairs(rest));
    }
}

/// Reading the timestamp and temperature of each line after the header of
/// the CSV export gives back those of the points, in order, as long as no
/// location holds a comma or a line break.
pub proof fn lemma_csv_round_trip(s: Seq<WeatherDataPoint>)
    requires
        csv_safe(s),
    ensures
        parse_csv(csv_text(s)) == time_temperature_pairs(s),
{
    assert(csv_text(s).skip(csv_header().len() as int) =~= csv_rows(s));
    lemma_parse_rows(s);
}

} // verus!
