//! Calendar dates, as the posts carry them, and their text forms.

use vstd::prelude::*;

verus! {

/// The earliest year a date may have.
pub const MIN_YEAR: i32 = -262143;

/// The latest year a date may have.
pub const MAX_YEAR: i32 = 262142;

/// Leap years of the proleptic Gregorian calendar.
pub open spec fn is_leap_year(y: int) -> bool {
    (y % 4 == 0 && y % 100 != 0) || y % 400 == 0
}

/// The number of days of month `m` (1 to 12) in year `y`.
pub open spec fn days_in_month(y: int, m: int) -> int {
    if m == 2 {
        if is_leap_year(y) {
            29
        } else {
            28
        }
    } else if m == 4 || m == 6 || m == 9 || m == 11 {
        30
    } else {
        31
    }
}

/// Whether year, month and day name a day of the calendar that a date can
/// hold.
pub open spec fn valid_ymd(y: int, m: int, d: int) -> bool {
    &&& MIN_YEAR <= y <= MAX_YEAR
    &&& 1 <= m <= 12
    &&& 1 <= d <= days_in_month(y, m)
}

/// `a` comes strictly before `b` in time.
pub open spec fn ymd_before(a: (int, int, int), b: (int, int, int)) -> bool {
    ||| a.0 < b.0
    ||| (a.0 == b.0 && a.1 < b.1)
    ||| (a.0 == b.0 && a.1 == b.1 && a.2 < b.2)
}

/// A day of the proleptic Gregorian calendar.
#[derive(Clone, Copy, Debug, PartialEq, Eq, Structural)]
pub struct Date {
    year: i32,
    month: u32,
    day: u32,
}

impl View for Date {
    type V = (int, int, int);

    /// Year, month (1 to 12) and day of month.
    closed spec fn view(&self) -> (int, int, int) {
        (self.year as int, self.month as int, self.day as int)
    }
}

impl Date {
    /// Every date is a day of the calendar.
    #[verifier::type_invariant]
    pub open spec fn holds_a_day(self) -> bool {
        valid_ymd(self@.0, self@.1, self@.2)
    }

    /// The date with the given year, month and day, if there is such a day.
    pub fn from_ymd(year: i32, month: u32, day: u32) -> (r: Option<Date>)
        ensures
            r is Some <==> valid_ymd(year as int, month as int, day as int),
            r matches Some(d) ==> d@ == (year as int, month as int, day as int),
    {
        if year < MIN_YEAR || year > MAX_YEAR || month < 1 || month > 12 || day < 1 {
            return None;
        }
        let shifted: i64 = year as i64 + 400000;
        let leap: bool = (shifted % 4 == 0 && shifted % 100 != 0) || shifted % 400 == 0;
        proof {
            assert(leap == is_leap_year(year as int)) by {
                let y = year as int;
                assert(shifted == y + 400000);
                assert((y + 400000) % 4 == y % 4) by (nonlinear_arith);
                assert((y + 400000) % 100 == y % 100) by (nonlinear_arith);
                assert((y + 400000) % 400 == y % 400) by (nonlinear_arith);
            }
        }
        let last: u32 = if month == 2 {
            if leap {
                29
            } else {
                28
            }
        } else if month == 4 || month == 6 || month == 9 || month == 11 {
            30
        } else {
            31
        };
        if day > last {
            return None;
        }
        Some(Date { year, month, day })
    }

    /// The year.
    pub fn year(&self) -> (r: i32)
        ensures
            r as int == self@.0,
    {
        self.year
    }

    /// The month, 1 to 12.
    pub fn month(&self) -> (r: u32)
        ensures
            r as int == self@.1,
    {
        self.month
    }

    /// The day of the month, from 1.
    pub fn day(&self) -> (r: u32)
        ensures
            r as int == self@.2,
    {
        self.day
    }

    /// Whether `self` comes strictly before `other`.
    pub fn is_before(&self, other: &Date) -> (r: bool)
        ensures
            r == ymd_before(self@, other@),
    {
        self.year < other.year || (self.year == other.year && self.month < other.month) || (
        self.year == other.year && self.month == other.month && self.day < other.day)
    }
}

/// The ASCII digit for `n` (0 to 9).
pub open spec fn digit_char(n: int) -> char {
    (n + 48) as char
}

/// `n` (0 to 99) written with two digits.
pub open spec fn two_digits(n: int) -> Seq<char> {
    seq![digit_char(n / 10), digit_char(n % 10)]
}

/// `n` (0 to 9999) written with four digits.
pub open spec fn four_digits(n: int) -> Seq<char> {
    seq![digit_char(n / 1000), digit_char((n / 100) % 10), digit_char((n / 10) % 10), digit_char(n % 10)]
}

/// `n` written in decimal, without leading zeros.
pub open spec fn decimal(n: nat) -> Seq<char>
    decreases n,
{
    if n < 10 {
        seq![digit_char(n as int)]
    } else {
        decimal(n / 10) + seq![digit_char((n % 10) as int)]
    }
}

/// A year as chrono's `%Y` writes it: four digits from 0 to 9999; outside
/// that range a sign, then the digits of its magnitude, at least four.
pub open spec fn year_text(y: int) -> Seq<char> {
    if 0 <= y <= 9999 {
        four_digits(y)
    } else {
        let a: int = if y < 0 {
            -y
        } else {
            y
        };
        seq![if y < 0 {
            '-'
        } else {
            '+'
        }] + if a <= 9999 {
            four_digits(a)
        } else {
            decimal(a as nat)
        }
    }
}

/// The English three-letter name of month `m`.
pub open spec fn short_month_name(m: int) -> Seq<char> {
    if m == 1 {
        seq!['J', 'a', 'n']
    } else if m == 2 {
        seq!['F', 'e', 'b']
    } else if m == 3 {
        seq!['M', 'a', 'r']
    } else if m == 4 {
        seq!['A', 'p', 'r']
    } else if m == 5 {
        seq!['M', 'a', 'y']
    } else if m == 6 {
        seq!['J', 'u', 'n']
    } else if m == 7 {
        seq!['J', 'u', 'l']
    } else if m == 8 {
        seq!['A', 'u', 'g']
    } else if m == 9 {
        seq!['S', 'e', 'p']
    } else if m == 10 {
        seq!['O', 'c', 't']
    } else if m == 11 {
        seq!['N', 'o', 'v']
    } else {
        seq!['D', 'e', 'c']
    }
}

/// The English name of month `m`.
pub open spec fn long_month_name(m: int) -> Seq<char> {
    if m == 1 {
        seq!['J', 'a', 'n', 'u', 'a', 'r', 'y']
    } else if m == 2 {
        seq!['F', 'e', 'b', 'r', 'u', 'a', 'r', 'y']
    } else if m == 3 {
        seq!['M', 'a', 'r', 'c', 'h']
    } else if m == 4 {
        seq!['A', 'p', 'r', 'i', 'l']
    } else if m == 5 {
        seq!['M', 'a', 'y']
    } else if m == 6 {
        seq!['J', 'u', 'n', 'e']
    } else if m == 7 {
        seq!['J', 'u', 'l', 'y']
    } else if m == 8 {
        seq!['A', 'u', 'g', 'u', 's', 't']
    } else if m == 9 {
        seq!['S', 'e', 'p', 't', 'e', 'm', 'b', 'e', 'r']
    } else if m == 10 {
        seq!['O', 'c', 't', 'o', 'b', 'e', 'r']
    } else if m == 11 {
        seq!['N', 'o', 'v', 'e', 'm', 'b', 'e', 'r']
    } else {
        seq!['D', 'e', 'c', 'e', 'm', 'b', 'e', 'r']
    }
}

/// The English three-letter name of a weekday, counted from Sunday (0).
pub open spec fn short_weekday_name(w: int) -> Seq<char> {
    if w == 0 {
        seq!['S', 'u', 'n']
    } else if w == 1 {
        seq!['M', 'o', 'n']
    } else if w == 2 {
        seq!['T', 'u', 'e']
    } else if w == 3 {
        seq!['W', 'e', 'd']
    } else if w == 4 {
        seq!['T', 'h', 'u']
    } else if w == 5 {
        seq!['F', 'r', 'i']
    } else {
        seq!['S', 'a', 't']
    }
}

/// Days from 1 January of year 1 to 1 January of year `y`.
pub open spec fn days_before_year(y: int) -> int {
    let p = y - 1;
    365 * p + p / 4 - p / 100 + p / 400
}

/// Days from 1 January to the first day of month `m` in year `y`.
pub open spec fn days_before_month(y: int, m: int) -> int
    decreases m,
{
    if m <= 1 {
        0
    } else {
        days_before_month(y, m - 1) + days_in_month(y, m - 1)
    }
}

/// The weekday of a date, counted from Sunday (0); 1 January of year 1 was
/// a Monday.
pub open spec fn weekday_from_sunday(y: int, m: int, d: int) -> int {
    (days_before_year(y) + days_before_month(y, m) + (d - 1) + 1) % 7
}

/// Whether `c` names one of the date fields that the site's formats use:
/// year, month, day, month name, full month name, weekday name.
pub open spec fn date_field(c: char) -> bool {
    c == 'Y' || c == 'm' || c == 'd' || c == 'b' || c == 'B' || c == 'a'
}

/// The text of the field that `%c` stands for.
pub open spec fn field_text(y: int, m: int, d: int, c: char) -> Seq<char> {
    if c == 'Y' {
        year_text(y)
    } else if c == 'm' {
        two_digits(m)
    } else if c == 'd' {
        two_digits(d)
    } else if c == 'b' {
        short_month_name(m)
    } else if c == 'B' {
        long_month_name(m)
    } else {
        short_weekday_name(weekday_from_sunday(y, m, d))
    }
}

/// A pattern in which every `%` introduces one of the date fields.
pub open spec fn date_pattern(p: Seq<char>) -> bool
    decreases p.len(),
{
    if p.len() == 0 {
        true
    } else if p[0] == '%' {
        p.len() >= 2 && date_field(p[1]) && date_pattern(p.skip(2))
    } else {
        date_pattern(p.skip(1))
    }
}

/// The text of a date under a pattern: each `%c` becomes its field and every
/// other character stays as it is.
pub open spec fn date_text(y: int, m: int, d: int, p: Seq<char>) -> Seq<char>
    decreases p.len(),
{
    if p.len() == 0 {
        Seq::empty()
    } else if p[0] == '%' && p.len() >= 2 {
        field_text(y, m, d, p[1]) + date_text(y, m, d, p.skip(2))
    } else {
        seq![p[0]] + date_text(y, m, d, p.skip(1))
    }
}

/// Formats a date with chrono (`NaiveDate::format`, then `to_string`).
///
/// Trusted: the text is the pattern with each `%Y` (four digits, or outside
/// years 0 to 9999 a sign and at least four digits), `%m`, `%d`
/// (zero-padded), `%b`, `%B`, `%a` (English names, proleptic Gregorian
/// weekdays) replaced, as chrono writes these specifiers. Patterns with any
/// other specifier are not admitted, because chrono's `Display` fails on some
/// and `to_string` then panics.
#[verifier::external_body]
fn chrono_format(date: &Date, pattern: &str) -> (out: String)
    requires
        valid_ymd(date@.0, date@.1, date@.2),
        date_pattern(pattern@),
    ensures
        out@ == date_text(date@.0, date@.1, date@.2, pattern@),
{
    chrono::NaiveDate::from_ymd_opt(date.year, date.month, date.day).unwrap().format(
        pattern,
    ).to_string()
}

/// `YYYY-MM-DD`.
pub open spec fn iso_text(y: int, m: int, d: int) -> Seq<char> {
    year_text(y) + seq!['-'] + two_digits(m) + seq!['-'] + two_digits(d)
}

/// `Mon DD, YYYY`, e.g. `Oct 20, 2025`.
pub open spec fn short_text(y: int, m: int, d: int) -> Seq<char> {
    short_month_name(m) + seq![' '] + two_digits(d) + seq![',', ' '] + year_text(y)
}

/// `Month DD, YYYY`, e.g. `October 20, 2025`.
pub open spec fn long_text(y: int, m: int, d: int) -> Seq<char> {
    long_month_name(m) + seq![' '] + two_digits(d) + seq![',', ' '] + year_text(y)
}

/// `Day, DD Mon YYYY 00:00:00 GMT`, the feed's date form.
pub open spec fn rfc2822_text(y: int, m: int, d: int) -> Seq<char> {
    short_weekday_name(weekday_from_sunday(y, m, d)) + seq![',', ' '] + two_digits(d) + seq![' ']
        + short_month_name(m) + seq![' '] + year_text(y) + seq![
        ' ',
        '0',
        '0',
        ':',
        '0',
        '0',
        ':',
        '0',
        '0',
        ' ',
        'G',
        'M',
        'T',
    ]
}

/// A pattern chunk without `%` is a valid pattern and stands for itself.
proof fn lemma_literal_chunk(y: int, m: int, d: int, l: Seq<char>)
    requires
        forall|i: int| 0 <= i < l.len() ==> l[i] != '%',
    ensures
        date_pattern(l),
        date_text(y, m, d, l) == l,
    decreases l.len(),
{
    if l.len() > 0 {
        lemma_literal_chunk(y, m, d, l.skip(1));
        assert(seq![l[0]] + l.skip(1) =~= l);
    }
}

/// A single `%c` chunk for a date field.
proof fn lemma_field_chunk(y: int, m: int, d: int, c: char)
    requires
        date_field(c),
    ensures
        date_pattern(seq!['%', c]),
        date_text(y, m, d, seq!['%', c]) == field_text(y, m, d, c),
{
    let p = seq!['%', c];
    assert(p.skip(2) =~= Seq::<char>::empty());
    assert(date_pattern(p.skip(2)));
    assert(date_text(y, m, d, p.skip(2)) == Seq::<char>::empty());
    assert(field_text(y, m, d, c) + Seq::<char>::empty() =~= field_text(y, m, d, c));
}

/// Patterns compose: the text of `a + b` is the text of `a` then that of `b`.
proof fn lemma_pattern_concat(y: int, m: int, d: int, a: Seq<char>, b: Seq<char>)
    requires
        date_pattern(a),
    ensures
        date_pattern(a + b) == date_pattern(b),
        date_text(y, m, d, a + b) == date_text(y, m, d, a) + date_text(y, m, d, b),
    decreases a.len(),
{
    if a.len() == 0 {
        assert(a + b =~= b);
    } else if a[0] == '%' {
        lemma_pattern_concat(y, m, d, a.skip(2), b);
        assert((a + b).skip(2) =~= a.skip(2) + b);
        assert(field_text(y, m, d, a[1]) + (date_text(y, m, d, a.skip(2)) + date_text(y, m, d, b))
            =~= (field_text(y, m, d, a[1]) + date_text(y, m, d, a.skip(2))) + date_text(y, m, d, b));
    } else {
        lemma_pattern_concat(y, m, d, a.skip(1), b);
        assert((a + b).skip(1) =~= a.skip(1) + b);
        assert(seq![a[0]] + (date_text(y, m, d, a.skip(1)) + date_text(y, m, d, b)) =~= (seq![a[0]]
            + date_text(y, m, d, a.skip(1))) + date_text(y, m, d, b));
    }
}

/// A pattern piece: `%` and a date field, or text without `%`.
pub open spec fn pattern_piece(c: Seq<char>) -> bool {
    ||| (c.len() == 2 && c[0] == '%' && date_field(c[1]))
    ||| (forall|i: int| 0 <= i < c.len() ==> c[i] != '%')
}

/// The text a pattern piece stands for: its field's text, or itself.
pub open spec fn piece_text(y: int, m: int, d: int, c: Seq<char>) -> Seq<char> {
    if c.len() == 2 && c[0] == '%' && date_field(c[1]) {
        field_text(y, m, d, c[1])
    } else {
        c
    }
}

/// A pattern made of pieces is a pattern, and its text is the pieces' texts
/// in order.
proof fn lemma_pieces(y: int, m: int, d: int, ps: Seq<Seq<char>>)
    requires
        forall|k: int| 0 <= k < ps.len() ==> pattern_piece(#[trigger] ps[k]),
    ensures
        date_pattern(ps.flatten()),
        date_text(y, m, d, ps.flatten()) == ps.map_values(|c: Seq<char>| piece_text(y, m, d, c)).flatten(),
    decreases ps.len(),
{
    if ps.len() > 0 {
        let c = ps[0];
        let tail = ps.drop_first();
        assert forall|k: int| 0 <= k < tail.len() implies pattern_piece(#[trigger] tail[k]) by {
            assert(tail[k] == ps[k + 1]);
        }
        lemma_pieces(y, m, d, tail);
        assert(pattern_piece(ps[0]));
        if c.len() == 2 && c[0] == '%' && date_field(c[1]) {
            assert(c =~= seq!['%', c[1]]);
            lemma_field_chunk(y, m, d, c[1]);
        } else {
            lemma_literal_chunk(y, m, d, c);
        }
        lemma_pattern_concat(y, m, d, c, tail.flatten());
        let f = |c: Seq<char>| piece_text(y, m, d, c);
        assert(ps.map_values(f).drop_first() =~= tail.map_values(f));
    }
}

/// The date as `YYYY-MM-DD` (chrono's `%Y-%m-%d`).
pub fn iso_date(date: &Date) -> (out: String)
    ensures
        out@ == iso_text(date@.0, date@.1, date@.2),
{
    let ghost (y, m, d) = date@;
    proof {
        use_type_invariant(date);
        reveal_strlit("%Y-%m-%d");
        let ps = seq![seq!['%', 'Y'], seq!['-'], seq!['%', 'm'], seq!['-'], seq!['%', 'd']];
        lemma_pieces(y, m, d, ps);
        reveal_with_fuel(Seq::flatten, 6);
        assert(ps.flatten() =~= "%Y-%m-%d"@);
        assert(ps.map_values(|c: Seq<char>| piece_text(y, m, d, c)).flatten() =~= iso_text(y, m, d));
    }
    chrono_format(date, "%Y-%m-%d")
}

/// The date as e.g. `Oct 20, 2025` (chrono's `%b %d, %Y`).
pub fn short_date(date: &Date) -> (out: String)
    ensures
        out@ == short_text(date@.0, date@.1, date@.2),
{
    let ghost (y, m, d) = date@;
    proof {
        use_type_invariant(date);
        reveal_strlit("%b %d, %Y");
        let ps = seq![seq!['%', 'b'], seq![' '], seq!['%', 'd'], seq![',', ' '], seq!['%', 'Y']];
        lemma_pieces(y, m, d, ps);
        reveal_with_fuel(Seq::flatten, 6);
        assert(ps.flatten() =~= "%b %d, %Y"@);
        assert(ps.map_values(|c: Seq<char>| piece_text(y, m, d, c)).flatten() =~= short_text(y, m, d));
    }
    chrono_format(date, "%b %d, %Y")
}

/// The date as e.g. `October 20, 2025` (chrono's `%B %d, %Y`).
pub fn long_date(date: &Date) -> (out: String)
    ensures
        out@ == long_text(date@.0, date@.1, date@.2),
{
    let ghost (y, m, d) = date@;
    proof {
        use_type_invariant(date);
        reveal_strlit("%B %d, %Y");
        let ps = seq![seq!['%', 'B'], seq![' '], seq!['%', 'd'], seq![',', ' '], seq!['%', 'Y']];
        lemma_pieces(y, m, d, ps);
        reveal_with_fuel(Seq::flatten, 6);
        assert(ps.flatten() =~= "%B %d, %Y"@);
        assert(ps.map_values(|c: Seq<char>| piece_text(y, m, d, c)).flatten() =~= long_text(y, m, d));
    }
    chrono_format(date, "%B %d, %Y")
}

/// The date as the feed writes it, e.g. `Mon, 20 Oct 2025 00:00:00 GMT`
/// (chrono's `%a, %d %b %Y 00:00:00 GMT`).
pub fn rfc2822_date(date: &Date) -> (out: String)
    ensures
        out@ == rfc2822_text(date@.0, date@.1, date@.2),
{
    let ghost (y, m, d) = date@;
    proof {
        use_type_invariant(date);
        reveal_strlit("%a, %d %b %Y 00:00:00 GMT");
        let ps = seq![
            seq!['%', 'a'],
            seq![',', ' '],
            seq!['%', 'd'],
            seq![' '],
            seq!['%', 'b'],
            seq![' '],
            seq!['%', 'Y'],
            seq![' ', '0', '0', ':', '0', '0', ':', '0', '0', ' ', 'G', 'M', 'T'],
        ];
        lemma_pieces(y, m, d, ps);
        reveal_with_fuel(Seq::flatten, 9);
        assert(ps.flatten() =~= "%a, %d %b %Y 00:00:00 GMT"@);
        assert(ps.map_values(|c: Seq<char>| piece_text(y, m, d, c)).flatten() =~= rfc2822_text(y, m, d));
    }
    chrono_format(date, "%a, %d %b %Y 00:00:00 GMT")
}

} // verus!
