//! Reads a capture time out of a file's name with an ordered list of patterns.
use crate::datetime::{CivilDateTime, ZonedTime, MAX_INSTANT, MIN_INSTANT};
use crate::error::EngineError;
use crate::zone::{civil_reading, parse_civil, zoned_at};
use vstd::prelude::*;
use vstd::string::*;

verus! {

#[verifier::external_type_specification]
#[verifier::external_body]
pub struct ExRegex(regex::Regex);

/// What the named groups of a pattern capture in a text: `None` when the pattern does not
/// match it, else, for each group name asked for and in that order, the text that group
/// matched, or `None` for a group that took no part in the match or that the pattern lacks.
pub uninterp spec fn captures_of(re: regex::Regex, hay: Seq<char>, names: Seq<Seq<char>>) -> Option<
    Seq<Option<Seq<char>>>,
>;

pub open spec fn opt_views(v: Seq<Option<String>>) -> Seq<Option<Seq<char>>> {
    v.map_values(
        |o: Option<String>|
            match o {
                Some(t) => Some(t@),
                None => None,
            },
    )
}

pub open spec fn name_views(v: Seq<&str>) -> Seq<Seq<char>> {
    v.map_values(|n: &str| n@)
}

/// Relies on regex::Regex::captures and Captures::name: on a match, the text of each named
/// group asked for, in the order asked, `None` for one that took no part; `None` on no match.
#[verifier::external_body]
pub(crate) fn named_captures(re: &regex::Regex, hay: &str, names: &Vec<&str>) -> (r: Option<
    Vec<Option<String>>,
>)
    ensures
        r is Some <==> captures_of(*re, hay@, name_views(names@)) is Some,
        r matches Some(v) ==> v@.len() == names@.len() && opt_views(v@) == captures_of(
            *re,
            hay@,
            name_views(names@),
        )->0,
{
    re.captures(hay).map(
        |c| names.iter().map(|n| c.name(n).map(|m| m.as_str().to_string())).collect(),
    )
}

/// Whether `needle` occurs in `hay` at position `i`.
pub open spec fn occurs_at(hay: Seq<char>, needle: Seq<char>, i: int) -> bool {
    0 <= i && i + needle.len() <= hay.len() && hay.subrange(i, i + needle.len()) == needle
}

pub open spec fn occurs(hay: Seq<char>, needle: Seq<char>) -> bool {
    exists|i: int| occurs_at(hay, needle, i)
}

/// Whether `needle` occurs in `hay`.
pub fn str_contains(hay: &str, needle: &str) -> (r: bool)
    ensures
        r == occurs(hay@, needle@),
{
    let n = hay.unicode_len();
    let m = needle.unicode_len();
    if m > n {
        assert forall|i: int| !occurs_at(hay@, needle@, i) by {}
        return false;
    }
    let mut i: usize = 0;
    while i <= n - m
        invariant
            n == hay@.len(),
            m == needle@.len(),
            m <= n,
            i <= n - m + 1,
            forall|k: int| 0 <= k < i ==> !occurs_at(hay@, needle@, k),
        decreases n - m + 1 - i,
    {
        let mut j: usize = 0;
        let mut same = true;
        while j < m
            invariant
                n == hay@.len(),
                m == needle@.len(),
                i + m <= n,
                j <= m,
                same == (forall|k: int| 0 <= k < j ==> hay@[i + k] == needle@[k]),
            decreases m - j,
        {
            if hay.get_char(i + j) != needle.get_char(j) {
                same = false;
            }
            j = j + 1;
        }
        if same {
            assert(hay@.subrange(i as int, i + m) =~= needle@);
            assert(occurs_at(hay@, needle@, i as int));
            return true;
        }
        assert(!occurs_at(hay@, needle@, i as int)) by {
            if hay@.subrange(i as int, i + m) == needle@ {
                assert forall|k: int| 0 <= k < m implies hay@[i + k] == needle@[k] by {
                    assert(hay@.subrange(i as int, i + m)[k] == hay@[i + k]);
                }
            }
        }
        i = i + 1;
    }
    assert forall|k: int| !occurs_at(hay@, needle@, k) by {
        if 0 <= k < i {
        }
    }
    false
}

pub open spec fn is_digit(c: char) -> bool {
    '0' <= c <= '9'
}

/// The number that a string of decimal digits writes.
pub open spec fn decimal_value(s: Seq<char>) -> int
    decreases s.len(),
{
    if s.len() == 0 {
        0
    } else {
        decimal_value(s.drop_last()) * 10 + (s.last() as int - '0' as int)
    }
}

proof fn lemma_decimal_nonneg(s: Seq<char>)
    requires
        forall|k: int| 0 <= k < s.len() ==> is_digit(#[trigger] s[k]),
    ensures
        decimal_value(s) >= 0,
    decreases s.len(),
{
    if s.len() > 0 {
        lemma_decimal_nonneg(s.drop_last());
    }
}

/// How many characters of sign a number's text starts with.
pub open spec fn sign_len(t: Seq<char>) -> int {
    if t.len() > 0 && (t[0] == '+' || t[0] == '-') { 1 } else { 0 }
}

/// A non-empty run of decimal digits.
pub open spec fn all_digits(b: Seq<char>) -> bool {
    b.len() > 0 && forall|k: int| 0 <= k < b.len() ==> is_digit(#[trigger] b[k])
}

/// The count of seconds that a text writes: decimal digits with an optional leading `+` or
/// `-`, held only within the range of instants.
pub open spec fn seconds_value(t: Seq<char>) -> Option<int> {
    let body = t.skip(sign_len(t));
    let v = if sign_len(t) == 1 && t[0] == '-' { -decimal_value(body) } else { decimal_value(body) };
    if all_digits(body) && MIN_INSTANT <= v <= MAX_INSTANT {
        Some(v)
    } else {
        None
    }
}

/// Reads the digits of `s` from `start` on as a number no greater than `limit`.
fn parse_digits(s: &str, start: usize, limit: i64) -> (r: Option<i64>)
    requires
        0 <= limit <= MAX_INSTANT * 2,
    ensures
        ({
            let body = s@.skip(start as int);
            r == (if start <= s@.len() && all_digits(body) && decimal_value(body) <= limit {
                Some(decimal_value(body) as i64)
            } else {
                None
            })
        }),
        r matches Some(v) ==> v >= 0,
{
    let n = s.unicode_len();
    if start >= n {
        return None;
    }
    let ghost body = s@.skip(start as int);
    let mut acc: i64 = 0;
    let mut i: usize = start;
    assert(body.take(0) =~= Seq::<char>::empty());
    while i < n
        invariant
            n == s@.len(),
            start <= i <= n,
            body == s@.skip(start as int),
            0 <= limit <= MAX_INSTANT * 2,
            forall|k: int| 0 <= k < i - start ==> is_digit(#[trigger] body[k]),
            acc == decimal_value(body.take(i - start)),
            0 <= acc <= limit,
        decreases n - i,
    {
        let c = s.get_char(i);
        assert(body[i - start] == c);
        assert(body.take(i - start + 1).drop_last() =~= body.take(i - start));
        if !('0' <= c && c <= '9') {
            return None;
        }
        let next: i64 = acc * 10 + (c as u32 - '0' as u32) as i64;
        if next > limit {
            proof {
                if forall|k: int| 0 <= k < body.len() ==> is_digit(#[trigger] body[k]) {
                    lemma_decimal_grows(body, i - start + 1);
                }
            }
            return None;
        }
        acc = next;
        i = i + 1;
    }
    assert(body.take(i - start) =~= body);
    assert(all_digits(body));
    Some(acc)
}

/// Reads a count of seconds written in decimal digits with an optional leading sign; `None`
/// for any other text or for a count outside the range of instants.
pub fn parse_seconds(s: &str) -> (r: Option<i64>)
    ensures
        match seconds_value(s@) {
            Some(v) => r == Some(v as i64),
            None => r is None,
        },
{
    let n = s.unicode_len();
    if n == 0 {
        return None;
    }
    let c = s.get_char(0);
    proof {
        let body = s@.skip(sign_len(s@));
        if all_digits(body) {
            lemma_decimal_nonneg(body);
        }
    }
    if c == '-' {
        match parse_digits(s, 1, -MIN_INSTANT) {
            Some(v) => Some(-v),
            None => None,
        }
    } else if c == '+' {
        parse_digits(s, 1, MAX_INSTANT)
    } else {
        assert(s@.skip(0) =~= s@);
        parse_digits(s, 0, MAX_INSTANT)
    }
}

/// A number written with more digits is no smaller than with its first digits alone.
proof fn lemma_decimal_grows(s: Seq<char>, i: int)
    requires
        0 <= i <= s.len(),
        forall|k: int| 0 <= k < s.len() ==> is_digit(#[trigger] s[k]),
    ensures
        decimal_value(s) >= decimal_value(s.take(i)),
    decreases s.len() - i,
{
    if i < s.len() {
        assert(s.take(i + 1).drop_last() =~= s.take(i));
        lemma_decimal_nonneg(s.take(i));
        lemma_decimal_grows(s, i + 1);
    } else {
        assert(s.take(i) =~= s);
    }
}

/// The names of the capture groups a pattern may have, in the order they are asked for:
/// the six calendar fields, then seconds since the epoch.
pub open spec fn group_names() -> Seq<Seq<char>> {
    seq!["year"@, "month"@, "day"@, "hour"@, "minute"@, "second"@, "sse"@]
}

/// The text `Y-M-DTH:M:S` that the six calendar captures make.
pub open spec fn joined_text(c: Seq<Option<Seq<char>>>) -> Seq<char> {
    c[0]->0 + "-"@ + c[1]->0 + "-"@ + c[2]->0 + "T"@ + c[3]->0 + ":"@ + c[4]->0 + ":"@ + c[5]->0
}

/// The civil reading of some zoned reading of the given instant.
pub open spec fn reading_of_instant(r: CivilDateTime, instant: int) -> bool {
    exists|z: ZonedTime| #[trigger] z.wf() && z.datetime == r && z.instant() == instant
}

/// Whether a file of this name is known to carry its time in UTC.
pub open spec fn utc_named(name: Seq<char>) -> bool {
    occurs(name, "PXL_"@)
}

/// What a reading taken from captures must be: see `reading_from_captures`.
pub open spec fn captures_give(
    c: Seq<Option<Seq<char>>>,
    utc: bool,
    r: Result<CivilDateTime, EngineError>,
) -> bool {
    &&& r matches Ok(d) ==> d.wf()
    &&& c[0] is Some ==> {
        if !(c[1] is Some && c[2] is Some && c[3] is Some && c[4] is Some && c[5] is Some) {
            r == Err::<CivilDateTime, EngineError>(EngineError::MissingCaptureGroup)
        } else {
            match civil_reading(joined_text(c)) {
                None => r == Err::<CivilDateTime, EngineError>(EngineError::BadNameCapture),
                Some(d) => if !utc {
                    r == Ok::<CivilDateTime, EngineError>(d)
                } else if d.seconds() < MIN_INSTANT || d.seconds() > MAX_INSTANT {
                    r == Err::<CivilDateTime, EngineError>(EngineError::OutOfRange)
                } else {
                    (r matches Ok(x) && reading_of_instant(x, d.seconds()))
                },
            }
        }
    }
    &&& c[0] is None ==> match c[6] {
        None => r == Err::<CivilDateTime, EngineError>(EngineError::MissingCaptureGroup),
        Some(t) => match seconds_value(t) {
            None => r == Err::<CivilDateTime, EngineError>(EngineError::BadNameCapture),
            Some(v) => (r matches Ok(x) && reading_of_instant(x, v)),
        },
    }
}

/// Turns the captures of the pattern that matched a file name into a reading. Captures come
/// as year, month, day, hour, minute, second, and seconds since the epoch. A calendar reading
/// is taken as local time, or, for a name known to carry UTC (`utc`), as UTC moved to the
/// fallback zone; seconds since the epoch are read in the fallback zone.
pub fn reading_from_captures(
    caps: &Vec<Option<String>>,
    utc: bool,
    fallback: &jiff::tz::TimeZone,
) -> (r: Result<CivilDateTime, EngineError>)
    requires
        caps@.len() == 7,
    ensures
        captures_give(opt_views(caps@), utc, r),
{
    let ghost c = opt_views(caps@);
    assert(c[0] == (match caps@[0] { Some(t) => Some(t@), None => None::<Seq<char>> }));
    assert(c[1] == (match caps@[1] { Some(t) => Some(t@), None => None::<Seq<char>> }));
    assert(c[2] == (match caps@[2] { Some(t) => Some(t@), None => None::<Seq<char>> }));
    assert(c[3] == (match caps@[3] { Some(t) => Some(t@), None => None::<Seq<char>> }));
    assert(c[4] == (match caps@[4] { Some(t) => Some(t@), None => None::<Seq<char>> }));
    assert(c[5] == (match caps@[5] { Some(t) => Some(t@), None => None::<Seq<char>> }));
    assert(c[6] == (match caps@[6] { Some(t) => Some(t@), None => None::<Seq<char>> }));
    match &caps[0] {
        Some(y) => {
            let (mo, d, h, mi, se) = match (&caps[1], &caps[2], &caps[3], &caps[4], &caps[5]) {
                (Some(mo), Some(d), Some(h), Some(mi), Some(se)) => (mo, d, h, mi, se),
                _ => {
                    return Err(EngineError::MissingCaptureGroup);
                },
            };
            let mut text = String::from_str(y.as_str());
            text.append("-");
            text.append(mo.as_str());
            text.append("-");
            text.append(d.as_str());
            text.append("T");
            text.append(h.as_str());
            text.append(":");
            text.append(mi.as_str());
            text.append(":");
            text.append(se.as_str());
            assert(text@ == joined_text(opt_views(caps@)));
            let dt = match parse_civil(text.as_str()) {
                Ok(dt) => dt,
                Err(_) => {
                    return Err(EngineError::BadNameCapture);
                },
            };
            if !utc {
                return Ok(dt);
            }
            proof { dt.lemma_seconds_bounds(); }
            let secs = dt.civil_seconds();
            if secs < MIN_INSTANT || secs > MAX_INSTANT {
                return Err(EngineError::OutOfRange);
            }
            let z = zoned_at(fallback, secs);
            assert(z.wf());
            Ok(z.datetime)
        },
        None => match &caps[6] {
            Some(t) => {
                let secs = match parse_seconds(t.as_str()) {
                    Some(secs) => secs,
                    None => {
                        return Err(EngineError::BadNameCapture);
                    },
                };
                let z = zoned_at(fallback, secs);
                assert(z.wf());
                Ok(z.datetime)
            },
            None => Err(EngineError::MissingCaptureGroup),
        },
    }
}

/// Index of the first pattern that matches a name; the number of patterns when none does.
pub open spec fn first_match(pats: Seq<regex::Regex>, name: Seq<char>) -> int
    decreases pats.len(),
{
    if pats.len() == 0 {
        0
    } else if captures_of(pats[0], name, group_names()) is Some {
        0
    } else {
        1 + first_match(pats.drop_first(), name)
    }
}

proof fn lemma_first_match(pats: Seq<regex::Regex>, name: Seq<char>, i: int)
    requires
        0 <= i <= pats.len(),
        forall|k: int| 0 <= k < i ==> captures_of(#[trigger] pats[k], name, group_names()) is None,
        i == pats.len() || captures_of(pats[i], name, group_names()) is Some,
    ensures
        first_match(pats, name) == i,
    decreases i,
{
    if i > 0 {
        let t = pats.drop_first();
        assert forall|k: int| 0 <= k < i - 1 implies captures_of(#[trigger] t[k], name, group_names()) is None by {
            assert(t[k] == pats[k + 1]);
        }
        lemma_first_match(t, name, i - 1);
    }
}

/// What reading a name gives: none when no pattern matches it; otherwise what the captures of
/// the first pattern that matches give, later patterns left untried.
pub open spec fn name_outcome(
    pats: Seq<regex::Regex>,
    name: Seq<char>,
    r: Result<Option<CivilDateTime>, EngineError>,
) -> bool {
    let i = first_match(pats, name);
    if i >= pats.len() {
        r == Ok::<Option<CivilDateTime>, EngineError>(None)
    } else {
        let c = captures_of(pats[i], name, group_names())->0;
        match r {
            Ok(None) => false,
            Ok(Some(d)) => captures_give(c, utc_named(name), Ok(d)),
            Err(e) => captures_give(c, utc_named(name), Err(e)),
        }
    }
}

/// The reading in a file's name by the first pattern that matches it, or `None` when none
/// does; later patterns are not tried once one matches.
pub fn name_reading(
    patterns: &Vec<regex::Regex>,
    name: &str,
    fallback: &jiff::tz::TimeZone,
) -> (r: Result<Option<CivilDateTime>, EngineError>)
    ensures
        name_outcome(patterns@, name@, r),
        r matches Ok(Some(d)) ==> d.wf(),
{
    let groups: Vec<&str> = vec!["year", "month", "day", "hour", "minute", "second", "sse"];
    assert(name_views(groups@) =~= group_names());
    let utc = str_contains(name, "PXL_");
    let mut i: usize = 0;
    while i < patterns.len()
        invariant
            i <= patterns@.len(),
            groups@.len() == 7,
            name_views(groups@) == group_names(),
            utc == utc_named(name@),
            forall|k: int| 0 <= k < i ==> captures_of(#[trigger] patterns@[k], name@, group_names()) is None,
        decreases patterns.len() - i,
    {
        match named_captures(&patterns[i], name, &groups) {
            Some(caps) => {
                proof { lemma_first_match(patterns@, name@, i as int); }
                let d = reading_from_captures(&caps, utc, fallback);
                return match d {
                    Ok(d) => Ok(Some(d)),
                    Err(e) => Err(e),
                };
            },
            None => {},
        }
        i = i + 1;
    }
    proof { lemma_first_match(patterns@, name@, i as int); }
    Ok(None)
}
} // verus!
