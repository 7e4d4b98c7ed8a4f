//! The sortable `YYYY-MM-DD_HH-MM-SS--` prefix put in front of a file name.
use crate::datetime::{is_leap_year, CivilDateTime};
use crate::offset::{digit_value, pair_value};
use crate::filename::is_digit;
use crate::engine::starts_with;
use vstd::prelude::*;
use vstd::string::*;

verus! {

pub open spec fn digit_char(v: int) -> char {
    ((v + 48) as u8) as char
}

pub open spec fn digits2(v: int) -> Seq<char> {
    seq![digit_char(v / 10), digit_char(v % 10)]
}

pub open spec fn digits4(v: int) -> Seq<char> {
    seq![digit_char(v / 1000), digit_char((v / 100) % 10), digit_char((v / 10) % 10), digit_char(v % 10)]
}

pub open spec fn year_text(y: int) -> Seq<char> {
    if y < 0 {
        seq!['-'] + digits4(-y)
    } else {
        digits4(y)
    }
}

/// The prefix that encodes a civil reading.
pub open spec fn prefix_text(dt: CivilDateTime) -> Seq<char> {
    year_text(dt.year as int) + seq!['-'] + digits2(dt.month as int) + seq!['-'] + digits2(
        dt.day as int,
    ) + seq!['_'] + digits2(dt.hour as int) + seq!['-'] + digits2(dt.minute as int) + seq!['-']
        + digits2(dt.second as int) + seq!['-', '-']
}

fn digit_to_char(v: u8) -> (c: char)
    requires
        v <= 9,
    ensures
        c == digit_char(v as int),
{
    (v + 48) as char
}

/// Relies on String::push: the character is added at the end.
#[verifier::external_body]
fn push_char(s: &mut String, c: char)
    ensures
        final(s)@ == old(s)@.push(c),
{
    s.push(c);
}

fn push_two(s: &mut String, v: i8)
    requires
        0 <= v <= 99,
    ensures
        final(s)@ == old(s)@ + digits2(v as int),
{
    push_char(s, digit_to_char((v / 10) as u8));
    push_char(s, digit_to_char((v % 10) as u8));
    assert(s@ =~= old(s)@ + digits2(v as int));
}

fn push_four(s: &mut String, v: i16)
    requires
        0 <= v <= 9999,
    ensures
        final(s)@ == old(s)@ + digits4(v as int),
{
    push_char(s, digit_to_char((v / 1000) as u8));
    push_char(s, digit_to_char(((v / 100) % 10) as u8));
    push_char(s, digit_to_char(((v / 10) % 10) as u8));
    push_char(s, digit_to_char((v % 10) as u8));
    assert(s@ =~= old(s)@ + digits4(v as int));
}

/// The prefix `YYYY-MM-DD_HH-MM-SS--` for a civil reading.
pub fn format_prefix(dt: &CivilDateTime) -> (r: String)
    requires
        dt.wf(),
    ensures
        r@ == prefix_text(*dt),
{
    let mut s = String::new();
    if dt.year < 0 {
        push_char(&mut s, '-');
        push_four(&mut s, -dt.year);
    } else {
        push_four(&mut s, dt.year);
    }
    assert(s@ =~= year_text(dt.year as int));
    push_char(&mut s, '-');
    push_two(&mut s, dt.month);
    push_char(&mut s, '-');
    push_two(&mut s, dt.day);
    push_char(&mut s, '_');
    push_two(&mut s, dt.hour);
    push_char(&mut s, '-');
    push_two(&mut s, dt.minute);
    push_char(&mut s, '-');
    push_two(&mut s, dt.second);
    push_char(&mut s, '-');
    push_char(&mut s, '-');
    assert(s@ =~= prefix_text(*dt));
    s
}

proof fn lemma_digit(v: int)
    requires
        0 <= v <= 9,
    ensures
        is_digit(digit_char(v)),
        digit_value(digit_char(v)) == v,
{
}

proof fn lemma_two(v: int)
    requires
        0 <= v <= 99,
    ensures
        is_digit(digits2(v)[0]),
        is_digit(digits2(v)[1]),
        pair_value(digits2(v)[0], digits2(v)[1]) == v,
{
    lemma_digit(v / 10);
    lemma_digit(v % 10);
}

pub open spec fn four_value(s: Seq<char>) -> int {
    pair_value(s[0], s[1]) * 100 + pair_value(s[2], s[3])
}

proof fn lemma_four(v: int)
    requires
        0 <= v <= 9999,
    ensures
        forall|k: int| 0 <= k < 4 ==> is_digit(#[trigger] digits4(v)[k]),
        four_value(digits4(v)) == v,
{
    lemma_digit(v / 1000);
    lemma_digit((v / 100) % 10);
    lemma_digit((v / 10) % 10);
    lemma_digit(v % 10);
}

/// The seventeen characters that follow the year in a prefix.
pub open spec fn tail_text(dt: CivilDateTime) -> Seq<char> {
    let mo = digits2(dt.month as int);
    let d = digits2(dt.day as int);
    let h = digits2(dt.hour as int);
    let mi = digits2(dt.minute as int);
    let se = digits2(dt.second as int);
    seq!['-', mo[0], mo[1], '-', d[0], d[1], '_', h[0], h[1], '-', mi[0], mi[1], '-', se[0], se[1], '-', '-']
}

/// The characters of a prefix that must be digits and separators, from `b` on.
pub open spec fn prefix_shape(s: Seq<char>, b: int) -> bool {
    &&& s.len() >= b + 21
    &&& is_digit(s[b]) && is_digit(s[b + 1]) && is_digit(s[b + 2]) && is_digit(s[b + 3])
    &&& s[b + 4] == '-' && is_digit(s[b + 5]) && is_digit(s[b + 6])
    &&& s[b + 7] == '-' && is_digit(s[b + 8]) && is_digit(s[b + 9])
    &&& s[b + 10] == '_' && is_digit(s[b + 11]) && is_digit(s[b + 12])
    &&& s[b + 13] == '-' && is_digit(s[b + 14]) && is_digit(s[b + 15])
    &&& s[b + 16] == '-' && is_digit(s[b + 17]) && is_digit(s[b + 18])
    &&& s[b + 19] == '-' && s[b + 20] == '-'
}

/// The fields that a text beginning with a prefix writes, before any check of the calendar;
/// `None` when the text does not have a prefix's shape.
pub open spec fn prefix_fields(s: Seq<char>) -> Option<CivilDateTime> {
    let neg = s.len() > 0 && s[0] == '-';
    let b: int = if neg { 1 } else { 0 };
    let y = four_value(s.subrange(b, b + 4));
    if !prefix_shape(s, b) || (neg && y == 0) {
        None
    } else {
        Some(
            CivilDateTime {
                year: (if neg { -y } else { y }) as i16,
                month: pair_value(s[b + 5], s[b + 6]) as i8,
                day: pair_value(s[b + 8], s[b + 9]) as i8,
                hour: pair_value(s[b + 11], s[b + 12]) as i8,
                minute: pair_value(s[b + 14], s[b + 15]) as i8,
                second: pair_value(s[b + 17], s[b + 18]) as i8,
            },
        )
    }
}

/// A text starts with the prefix of a valid reading.
pub open spec fn reads_prefix(s: Seq<char>, dt: CivilDateTime) -> bool {
    dt.wf() && starts_with(s, prefix_text(dt))
}

proof fn lemma_prefix_split(dt: CivilDateTime)
    ensures
        prefix_text(dt) =~= year_text(dt.year as int) + tail_text(dt),
{
}

/// A text that starts with the prefix of a valid reading has that reading's fields.
proof fn lemma_fields_of_prefix(s: Seq<char>, dt: CivilDateTime)
    requires
        reads_prefix(s, dt),
    ensures
        prefix_fields(s) == Some(dt),
{
    lemma_prefix_split(dt);
    let y = dt.year as int;
    let yt = year_text(y);
    let p = prefix_text(dt);
    let b: int = if y < 0 { 1 } else { 0 };
    let a = if y < 0 { -y } else { y };
    lemma_four(a);
    lemma_two(dt.month as int);
    lemma_two(dt.day as int);
    lemma_two(dt.hour as int);
    lemma_two(dt.minute as int);
    lemma_two(dt.second as int);
    assert(yt.len() == b + 4);
    assert forall|k: int| 0 <= k < p.len() implies s[k] == #[trigger] p[k] by {
        assert(s.subrange(0, p.len() as int)[k] == s[k]);
    }
    assert forall|k: int| 0 <= k < 17 implies s[b + 4 + k] == #[trigger] tail_text(dt)[k] by {
        assert(p[b + 4 + k] == tail_text(dt)[k]);
    }
    assert forall|k: int| 0 <= k < 4 implies s[b + k] == #[trigger] digits4(a)[k] by {
        assert(p[b + k] == yt[b + k]);
    }
    if y >= 0 {
        assert(is_digit(s[0]));
        assert(s[0] != '-');
    } else {
        assert(p[0] == yt[0]);
        assert(s[0] == '-');
    }
    assert(s.subrange(b, b + 4) =~= digits4(a));
}

proof fn lemma_redigit(c: char)
    requires
        is_digit(c),
    ensures
        digit_char(digit_value(c)) == c,
{
}

proof fn lemma_redigit2(c0: char, c1: char)
    requires
        is_digit(c0),
        is_digit(c1),
    ensures
        digits2(pair_value(c0, c1)) == seq![c0, c1],
{
    lemma_redigit(c0);
    lemma_redigit(c1);
    assert(digits2(pair_value(c0, c1)) =~= seq![c0, c1]);
}

proof fn lemma_split4(a: int, b: int)
    requires
        0 <= a <= 99,
        0 <= b <= 99,
    ensures
        (a * 100 + b) / 1000 == a / 10,
        ((a * 100 + b) / 100) % 10 == a % 10,
        ((a * 100 + b) / 10) % 10 == b / 10,
        (a * 100 + b) % 10 == b % 10,
{
}

proof fn lemma_redigit4(w: Seq<char>)
    requires
        w.len() == 4,
        forall|k: int| 0 <= k < 4 ==> is_digit(#[trigger] w[k]),
    ensures
        digits4(four_value(w)) == w,
{
    assert(is_digit(w[0]) && is_digit(w[1]) && is_digit(w[2]) && is_digit(w[3]));
    lemma_redigit(w[0]);
    lemma_redigit(w[1]);
    lemma_redigit(w[2]);
    lemma_redigit(w[3]);
    let a = pair_value(w[0], w[1]);
    let b = pair_value(w[2], w[3]);
    assert(a / 10 == digit_value(w[0]) && a % 10 == digit_value(w[1]));
    assert(b / 10 == digit_value(w[2]) && b % 10 == digit_value(w[3]));
    lemma_split4(a, b);
    assert(digits4(four_value(w)) =~= w);
}

/// The reading whose prefix a text with the right fields starts with.
proof fn lemma_prefix_of_fields(s: Seq<char>, dt: CivilDateTime)
    requires
        prefix_fields(s) == Some(dt),
        dt.wf(),
    ensures
        reads_prefix(s, dt),
{
    lemma_prefix_split(dt);
    let neg = s.len() > 0 && s[0] == '-';
    let b: int = if neg { 1 } else { 0 };
    assert(prefix_shape(s, b));
    let w = s.subrange(b, b + 4);
    lemma_redigit4(w);
    lemma_redigit2(s[b + 5], s[b + 6]);
    lemma_redigit2(s[b + 8], s[b + 9]);
    lemma_redigit2(s[b + 11], s[b + 12]);
    lemma_redigit2(s[b + 14], s[b + 15]);
    lemma_redigit2(s[b + 17], s[b + 18]);
    assert(tail_text(dt) =~= s.subrange(b + 4, b + 21));
    assert(year_text(dt.year as int) =~= s.subrange(0, b + 4));
    assert(s.subrange(0, b + 21) =~= s.subrange(0, b + 4) + s.subrange(b + 4, b + 21));
}

/// The prefix of a valid reading reads back as that reading.
pub proof fn lemma_prefix_reads_back(dt: CivilDateTime)
    requires
        dt.wf(),
    ensures
        reads_prefix(prefix_text(dt), dt),
{
    assert(prefix_text(dt).subrange(0, prefix_text(dt).len() as int) =~= prefix_text(dt));
}

/// Two valid readings whose prefixes begin one text are the same reading: a prefix, read
/// back, gives the very date and time it was made from.
pub proof fn lemma_prefix_round_trip(s: Seq<char>, d: CivilDateTime, e: CivilDateTime)
    requires
        reads_prefix(s, d),
        reads_prefix(s, e),
    ensures
        d == e,
{
    lemma_fields_of_prefix(s, d);
    lemma_fields_of_prefix(s, e);
}

fn digit_at(s: &str, i: usize) -> (r: Option<i32>)
    requires
        i < s@.len(),
    ensures
        r is Some <==> is_digit(s@[i as int]),
        r matches Some(v) ==> v == digit_value(s@[i as int]) && 0 <= v <= 9,
{
    let c = s.get_char(i);
    if '0' <= c && c <= '9' {
        Some((c as u32 - '0' as u32) as i32)
    } else {
        None
    }
}

fn pair_at(s: &str, i: usize) -> (r: Option<i32>)
    requires
        i + 1 < s@.len(),
        i < usize::MAX,
    ensures
        r is Some <==> is_digit(s@[i as int]) && is_digit(s@[i + 1]),
        r matches Some(v) ==> v == pair_value(s@[i as int], s@[i + 1]) && 0 <= v <= 99,
{
    match (digit_at(s, i), digit_at(s, i + 1)) {
        (Some(a), Some(b)) => Some(a * 10 + b),
        _ => None,
    }
}

/// Whether a civil reading is a real calendar date and time of day.
pub fn is_valid_civil(dt: &CivilDateTime) -> (r: bool)
    ensures
        r == dt.wf(),
{
    if dt.year < -9999 || dt.year > 9999 || dt.month < 1 || dt.month > 12 || dt.day < 1 {
        return false;
    }
    let y = dt.year as i32 + 10000;
    let leap = (y % 4 == 0 && y % 100 != 0) || y % 400 == 0;
    assert(leap == is_leap_year(dt.year as int));
    let dim: i8 = if dt.month == 2 {
        if leap { 29 } else { 28 }
    } else if dt.month == 4 || dt.month == 6 || dt.month == 9 || dt.month == 11 {
        30
    } else {
        31
    };
    dt.day <= dim && 0 <= dt.hour && dt.hour <= 23 && 0 <= dt.minute && dt.minute <= 59 && 0
        <= dt.second && dt.second <= 59
}

/// Reads the reading that the prefix at the start of a text encodes, or `None` when the text
/// does not start with the prefix of a valid reading.
pub fn parse_prefix(s: &str) -> (r: Option<CivilDateTime>)
    ensures
        r matches Some(d) ==> reads_prefix(s@, d),
        forall|d: CivilDateTime| reads_prefix(s@, d) ==> r == Some(d),
{
    let r = read_fields(s);
    match r {
        Some(d) => {
            if is_valid_civil(&d) {
                proof { lemma_prefix_of_fields(s@, d); }
                assert forall|e: CivilDateTime| reads_prefix(s@, e) implies r == Some(e) by {
                    lemma_fields_of_prefix(s@, e);
                }
                r
            } else {
                assert forall|e: CivilDateTime| !reads_prefix(s@, e) by {
                    if reads_prefix(s@, e) {
                        lemma_fields_of_prefix(s@, e);
                    }
                }
                None
            }
        },
        None => {
            assert forall|e: CivilDateTime| !reads_prefix(s@, e) by {
                if reads_prefix(s@, e) {
                    lemma_fields_of_prefix(s@, e);
                }
            }
            None
        },
    }
}

fn read_fields(s: &str) -> (r: Option<CivilDateTime>)
    ensures
        r == prefix_fields(s@),
{
    let n = s.unicode_len();
    let neg = n > 0 && s.get_char(0) == '-';
    let b: usize = if neg { 1 } else { 0 };
    if n < 21 || n - 21 < b {
        return None;
    }
    let y0 = pair_at(s, b);
    let y1 = pair_at(s, b + 2);
    let mo = pair_at(s, b + 5);
    let d = pair_at(s, b + 8);
    let h = pair_at(s, b + 11);
    let mi = pair_at(s, b + 14);
    let se = pair_at(s, b + 17);
    let seps = s.get_char(b + 4) == '-' && s.get_char(b + 7) == '-' && s.get_char(b + 10) == '_'
        && s.get_char(b + 13) == '-' && s.get_char(b + 16) == '-' && s.get_char(b + 19) == '-'
        && s.get_char(b + 20) == '-';
    let ghost w = s@.subrange(b as int, b + 4);
    assert(w[0] == s@[b as int] && w[1] == s@[b + 1] && w[2] == s@[b + 2] && w[3] == s@[b + 3]);
    match (y0, y1, mo, d, h, mi, se) {
        (Some(y0), Some(y1), Some(mo), Some(d), Some(h), Some(mi), Some(se)) => {
            if !seps {
                return None;
            }
            let y = y0 * 100 + y1;
            if neg && y == 0 {
                return None;
            }
            Some(
                CivilDateTime {
                    year: (if neg { -y } else { y }) as i16,
                    month: mo as i8,
                    day: d as i8,
                    hour: h as i8,
                    minute: mi as i8,
                    second: se as i8,
                },
            )
        },
        _ => None,
    }
}

/// Where the file's own name starts in a path: just past its last `/`, or at 0.
pub open spec fn name_start(p: Seq<char>) -> int
    decreases p.len(),
{
    if p.len() == 0 {
        0
    } else if p.last() == '/' {
        p.len() as int
    } else {
        name_start(p.drop_last())
    }
}

/// The path of a file renamed in its own directory with a prefix before its name.
pub open spec fn renamed_text(path: Seq<char>, prefix: Seq<char>) -> Seq<char> {
    path.take(name_start(path)) + prefix + path.skip(name_start(path))
}

fn push_range(s: &mut String, src: &str, from: usize, to: usize)
    requires
        from <= to <= src@.len(),
    ensures
        final(s)@ == old(s)@ + src@.subrange(from as int, to as int),
{
    let mut i = from;
    while i < to
        invariant
            from <= i <= to,
            to <= src@.len(),
            s@ == old(s)@ + src@.subrange(from as int, i as int),
        decreases to - i,
    {
        push_char(s, src.get_char(i));
        assert(src@.subrange(from as int, i + 1) =~= src@.subrange(from as int, i as int).push(
            src@[i as int],
        ));
        i = i + 1;
    }
}

/// The path of a file renamed in its own directory: the prefix goes before the part after the
/// last `/`.
pub fn renamed_path(path: &str, prefix: &str) -> (r: String)
    ensures
        r@ == renamed_text(path@, prefix@),
{
    let n = path.unicode_len();
    let mut j = n;
    assert(path@.take(n as int) =~= path@);
    while j > 0 && path.get_char(j - 1) != '/'
        invariant
            j <= n,
            n == path@.len(),
            name_start(path@) == name_start(path@.take(j as int)),
        decreases j,
    {
        assert(path@.take(j as int).drop_last() =~= path@.take(j - 1));
        j = j - 1;
    }
    assert(name_start(path@) == j);
    let mut r = String::new();
    push_range(&mut r, path, 0, j);
    r.append(prefix);
    push_range(&mut r, path, j, n);
    assert(path@.subrange(0, j as int) =~= path@.take(j as int));
    assert(path@.subrange(j as int, n as int) =~= path@.skip(j as int));
    assert(r@ =~= renamed_text(path@, prefix@));
    r
}

} // verus!
