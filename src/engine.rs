//! Settles one file: its metadata tags and its name in, a prefix or an ambiguity out.
use crate::correct::{correct_zones, corrected_all};
use crate::datetime::{CivilDateTime, ZonedTime, MAX_INSTANT, MAX_OFFSET_SECONDS, MIN_INSTANT};
use crate::error::EngineError;
use crate::filename::{name_outcome, name_reading, occurs, str_contains};
use crate::offset::{parse_real_offset, real_offset};
use crate::prefix::prefix_text;
use crate::reconcile::{decide, name_list, real_candidates, reconcile, Resolution};
use crate::score::{str_eq, tag_weight};
use crate::store::{
    earlier, finalized, models, recorded, sort_by_score, sorted_by_score, CandidateModel,
    CandidateStore, SENTINEL_OFFSET,
};
use crate::settings::Settings;
use crate::zone::{date_reading, strptime, zone_named};
use vstd::prelude::*;
use vstd::string::*;

verus! {

/// Marks a tag value that holds a date-time.
pub const DATE_MARK: &'static str = "##DATE## ";

/// How a marked tag value writes its date-time.
pub const DATE_FORMAT: &'static str = "##DATE## %Y-%m-%d %H:%M:%S %z";

/// One tag of a file's metadata whose value is text.
pub struct MetaTag {
    pub group: String,
    pub tag: String,
    pub value: String,
}

pub open spec fn starts_with(s: Seq<char>, p: Seq<char>) -> bool {
    s.len() >= p.len() && s.subrange(0, p.len() as int) == p
}

/// Whether `s` begins with `p`.
pub fn str_starts_with(s: &str, p: &str) -> (r: bool)
    ensures
        r == starts_with(s@, p@),
{
    let n = s.unicode_len();
    let m = p.unicode_len();
    if m > n {
        return false;
    }
    let mut j: usize = 0;
    while j < m
        invariant
            n == s@.len(),
            m == p@.len(),
            m <= n,
            j <= m,
            forall|k: int| 0 <= k < j ==> s@[k] == p@[k],
        decreases m - j,
    {
        if s.get_char(j) != p.get_char(j) {
            assert(s@.subrange(0, m as int)[j as int] == s@[j as int]);
            return false;
        }
        j = j + 1;
    }
    assert(s@.subrange(0, m as int) =~= p@);
    true
}

/// Whether a tag is one of the offset tags that may name the file's real offset.
pub open spec fn is_offset_tag(e: MetaTag) -> bool {
    &&& e.group@ == "EXIF"@
    &&& e.tag@ == "OffsetTimeOriginal"@ || e.tag@ == "OffsetTimeDigitized"@ || e.tag@
        == "OffsetTime"@
}

/// The real offset that the offset tags agree on (`Some(None)` when none names one), or `None`
/// when two of them disagree.
pub open spec fn harvested(es: Seq<MetaTag>) -> Option<Option<int>>
    decreases es.len(),
{
    if es.len() == 0 {
        Some(None)
    } else {
        match harvested(es.drop_last()) {
            None => None,
            Some(acc) => {
                let e = es.last();
                if is_offset_tag(e) && real_offset(e.value@) is Some {
                    let o = real_offset(e.value@)->0;
                    match acc {
                        None => Some(Some(o)),
                        Some(p) => if p == o { Some(Some(p)) } else { None },
                    }
                } else {
                    Some(acc)
                }
            },
        }
    }
}

fn offset_tag(e: &MetaTag) -> (r: bool)
    ensures
        r == is_offset_tag(*e),
{
    str_eq(e.group.as_str(), "EXIF") && (str_eq(e.tag.as_str(), "OffsetTimeOriginal") || str_eq(
        e.tag.as_str(),
        "OffsetTimeDigitized",
    ) || str_eq(e.tag.as_str(), "OffsetTime"))
}

/// The real offset named by the file's offset tags, in seconds east of UTC; fails when two
/// of them name different offsets.
pub fn harvest_offset(es: &Vec<MetaTag>) -> (r: Result<Option<i32>, EngineError>)
    ensures
        match harvested(es@) {
            None => r == Err::<Option<i32>, EngineError>(EngineError::ConflictingOffsets),
            Some(acc) => (r matches Ok(x) && acc == (match x {
                Some(o) => Some(o as int),
                None => None,
            })),
        },
{
    let mut acc: Option<i32> = None;
    let mut i: usize = 0;
    assert(es@.take(0) =~= Seq::<MetaTag>::empty());
    while i < es.len()
        invariant
            i <= es@.len(),
            harvested(es@.take(i as int)) == Some(
                match acc {
                    Some(o) => Some(o as int),
                    None => None,
                },
            ),
        decreases es.len() - i,
    {
        assert(es@.take(i + 1).drop_last() =~= es@.take(i as int));
        assert(es@.take(i + 1).last() == es@[i as int]);
        let e = &es[i];
        if offset_tag(e) {
            match parse_real_offset(e.value.as_str()) {
                Some(o) => {
                    match acc {
                        None => {
                            acc = Some(o);
                        },
                        Some(p) => {
                            if p != o {
                                proof { lemma_harvest_conflict_stays(es@, i as int + 1); }
                                return Err(EngineError::ConflictingOffsets);
                            }
                        },
                    }
                },
                None => {},
            }
        }
        i = i + 1;
    }
    assert(es@.take(i as int) =~= es@);
    Ok(acc)
}

proof fn lemma_harvest_conflict_stays(es: Seq<MetaTag>, k: int)
    requires
        0 <= k <= es.len(),
        harvested(es.take(k)) is None,
    ensures
        harvested(es) is None,
    decreases es.len() - k,
{
    if k < es.len() {
        assert(es.take(k + 1).drop_last() =~= es.take(k));
        lemma_harvest_conflict_stays(es, k + 1);
    } else {
        assert(es.take(k) =~= es);
    }
}

/// The reading a marked tag value gives: parsed by the date format, the sentinel offset
/// replaced by the real offset when one is known; `None` when it does not parse or the
/// replacement leaves the range of instants.
pub open spec fn entry_reading(value: Seq<char>, off: Option<i32>) -> Option<ZonedTime> {
    match date_reading(value) {
        None => None,
        Some(z) => if z.offset == SENTINEL_OFFSET && off is Some {
            let y = ZonedTime { datetime: z.datetime, offset: off->0 };
            if y.wf() {
                Some(y)
            } else {
                None
            }
        } else {
            Some(z)
        },
    }
}

/// The name a tag is scored and listed under: its group and its own name.
pub open spec fn label(e: MetaTag) -> Seq<char> {
    e.group@ + " "@ + e.tag@
}

/// The candidates and the earliest file-system time after one more tag; `None` when the tag
/// fails to parse or is not in the weight table.
pub open spec fn collect_step(
    st: Option<(Seq<CandidateModel>, Option<ZonedTime>)>,
    e: MetaTag,
    off: Option<i32>,
) -> Option<(Seq<CandidateModel>, Option<ZonedTime>)> {
    match st {
        None => None,
        Some((cs, f)) => if e.group@ == "ICC_Profile"@ || !starts_with(e.value@, DATE_MARK@) {
            st
        } else {
            match entry_reading(e.value@, off) {
                None => None,
                Some(z) => if e.group@ == "File"@ {
                    Some((cs, Some(earlier(f, z))))
                } else if tag_weight(label(e)) is None {
                    None
                } else {
                    Some((recorded(cs, label(e), z), f))
                },
            }
        },
    }
}

/// The candidates and the earliest file-system time that a file's tags give, in order;
/// `None` when one of them fails.
pub open spec fn collected(es: Seq<MetaTag>, off: Option<i32>) -> Option<
    (Seq<CandidateModel>, Option<ZonedTime>),
>
    decreases es.len(),
{
    if es.len() == 0 {
        Some((Seq::empty(), None))
    } else {
        collect_step(collected(es.drop_last(), off), es.last(), off)
    }
}

proof fn lemma_collect_failure_stays(es: Seq<MetaTag>, off: Option<i32>, k: int)
    requires
        0 <= k <= es.len(),
        collected(es.take(k), off) is None,
    ensures
        collected(es, off) is None,
    decreases es.len() - k,
{
    if k < es.len() {
        assert(es.take(k + 1).drop_last() =~= es.take(k));
        lemma_collect_failure_stays(es, off, k + 1);
    } else {
        assert(es.take(k) =~= es);
    }
}

/// Whether a civil reading at an offset makes a zoned reading that can be held.
fn fits(dt: CivilDateTime, offset: i32) -> (r: bool)
    requires
        dt.wf(),
    ensures
        r == (ZonedTime { datetime: dt, offset }).wf(),
{
    if offset < -MAX_OFFSET_SECONDS || offset > MAX_OFFSET_SECONDS {
        return false;
    }
    proof { dt.lemma_seconds_bounds(); }
    let instant = dt.civil_seconds() - offset as i64;
    MIN_INSTANT <= instant && instant <= MAX_INSTANT
}

fn read_entry(value: &str, off: Option<i32>) -> (r: Option<ZonedTime>)
    ensures
        r == entry_reading(value@, off),
        r matches Some(z) ==> z.wf(),
{
    let z = match strptime(DATE_FORMAT, value) {
        Ok(z) => z,
        Err(_) => {
            return None;
        },
    };
    match off {
        Some(o) => {
            if z.offset == SENTINEL_OFFSET {
                if fits(z.datetime, o) {
                    Some(ZonedTime { datetime: z.datetime, offset: o })
                } else {
                    None
                }
            } else {
                Some(z)
            }
        },
        None => Some(z),
    }
}

/// Gathers the candidates of one file's tags, in the order given, the sentinel offset replaced
/// by `off` when that is known.
pub fn collect_candidates(es: &Vec<MetaTag>, off: Option<i32>) -> (r: Result<
    CandidateStore,
    EngineError,
>)
    ensures
        match collected(es@, off) {
            None => r is Err,
            Some((cs, f)) => (r matches Ok(st) && st.wf() && st.model() == cs && st.file_earliest
                == f),
        },
        r matches Err(e) ==> e is BadTimestamp || e is UnknownTag,
{
    let mut st = CandidateStore::new();
    let mut i: usize = 0;
    assert(es@.take(0) =~= Seq::<MetaTag>::empty());
    while i < es.len()
        invariant
            i <= es@.len(),
            st.wf(),
            collected(es@.take(i as int), off) == Some((st.model(), st.file_earliest)),
        decreases es.len() - i,
    {
        assert(es@.take(i + 1).drop_last() =~= es@.take(i as int));
        assert(es@.take(i + 1).last() == es@[i as int]);
        let e = &es[i];
        if !str_eq(e.group.as_str(), "ICC_Profile") && str_starts_with(e.value.as_str(), DATE_MARK) {
            let z = match read_entry(e.value.as_str(), off) {
                Some(z) => z,
                None => {
                    proof { lemma_collect_failure_stays(es@, off, i as int + 1); }
                    return Err(EngineError::BadTimestamp);
                },
            };
            if str_eq(e.group.as_str(), "File") {
                st.record_file_time(z);
            } else {
                let mut name = String::from_str(e.group.as_str());
                name.append(" ");
                name.append(e.tag.as_str());
                assert(name@ == label(*e));
                match st.record(name, z) {
                    Ok(()) => {},
                    Err(u) => {
                        proof { lemma_collect_failure_stays(es@, off, i as int + 1); }
                        return Err(EngineError::UnknownTag(u.tag));
                    },
                }
            }
        }
        i = i + 1;
    }
    assert(es@.take(i as int) =~= es@);
    Ok(st)
}

/// The zone whose local time stands in when a reading has no real zone.
pub const FALLBACK_ZONE: &'static str = "America/Los_Angeles";

/// Looks the fallback zone up in the time-zone database.
pub fn fallback_zone() -> (r: Result<jiff::tz::TimeZone, EngineError>)
    ensures
        r matches Err(e) ==> e is ZoneUnavailable,
{
    match zone_named(FALLBACK_ZONE) {
        Ok(tz) => Ok(tz),
        Err(_) => Err(EngineError::ZoneUnavailable),
    }
}

/// Whether a MIME type is that of a picture or a video.
pub fn is_media(mime: &str) -> (r: bool)
    ensures
        r == (occurs(mime@, "video"@) || occurs(mime@, "image"@)),
{
    str_contains(mime, "video") || str_contains(mime, "image")
}

pub open spec fn as_i32(o: Option<int>) -> Option<i32> {
    match o {
        Some(x) => Some(x as i32),
        None => None,
    }
}

/// A corrected candidate list and a name reading that one file's candidates and name may give.
pub open spec fn settles(
    fin: Seq<CandidateModel>,
    pats: Seq<regex::Regex>,
    path: Seq<char>,
    out: Seq<CandidateModel>,
    n: Option<CivilDateTime>,
) -> bool {
    corrected_all(fin, out) && name_outcome(pats, path, Ok(n))
}

/// No candidate has an offset that the zone rules act on.
pub open spec fn zone_free(fin: Seq<CandidateModel>) -> bool {
    forall|k: int| 0 <= k < fin.len() ==> (#[trigger] fin[k]).ts.offset != SENTINEL_OFFSET
        && fin[k].ts.offset != 0
}

/// Settles the capture time of the file at `path` from its text-valued metadata tags and its
/// name, with the patterns of `settings` and the given fallback zone. The candidates are
/// collected and finalized, their zones corrected, ordered by score, and weighed against the
/// reading of the first pattern that matches the name.
pub fn resolve_file(
    es: &Vec<MetaTag>,
    path: &str,
    settings: &Settings,
    fallback: &jiff::tz::TimeZone,
) -> (r: Result<Resolution, EngineError>)
    ensures
        r matches Ok(Resolution::Resolved { at, prefix }) ==> at.wf() && prefix@ == prefix_text(
            at,
        ),
        harvested(es@) is None ==> r == Err::<Resolution, EngineError>(
            EngineError::ConflictingOffsets,
        ),
        harvested(es@) matches Some(acc) ==> match collected(es@, as_i32(acc)) {
            None => (r matches Err(e) && (e is BadTimestamp || e is UnknownTag)),
            Some((cs, f)) => match finalized(cs, f) {
                None => r == Err::<Resolution, EngineError>(EngineError::NoTimestamp),
                Some(fin) => {
                    &&& zone_free(fin) && settings.file_regexes@.len() == 0 ==> match r {
                        Ok(Resolution::Resolved { at, .. }) => decide(sorted_by_score(fin), None)
                            == Some(at),
                        Ok(Resolution::Ambiguous { .. }) => decide(sorted_by_score(fin), None)
                            is None,
                        Err(_) => false,
                    }
                    &&& r matches Ok(Resolution::Resolved { at, .. }) ==> exists|
                        out: Seq<CandidateModel>,
                        n: Option<CivilDateTime>,
                    |
                        #[trigger] settles(fin, settings.file_regexes@, path@, out, n) && decide(
                            sorted_by_score(out),
                            n,
                        ) == Some(at)
                    &&& r matches Ok(Resolution::Ambiguous { candidates, name_times }) ==> exists|
                        out: Seq<CandidateModel>,
                        n: Option<CivilDateTime>,
                    |
                        #[trigger] settles(fin, settings.file_regexes@, path@, out, n) && decide(
                            sorted_by_score(out),
                            n,
                        ) is None && models(candidates@) == real_candidates(sorted_by_score(out))
                            && name_times@ == name_list(n)
                },
            },
        },
{
    let off = harvest_offset(es)?;
    let store = match collect_candidates(es, off) {
        Ok(st) => st,
        Err(e) => {
            return Err(e);
        },
    };
    let ghost cs = store.model();
    let ghost f = store.file_earliest;
    let found = match store.finalize() {
        Some(v) => v,
        None => {
            return Err(EngineError::NoTimestamp);
        },
    };
    let ghost fin = models(found@);
    let ghost found_v = found@;
    let corrected = match correct_zones(found, fallback) {
        Ok(v) => v,
        Err(e) => {
            proof {
                let k = choose|k: int|
                    0 <= k < found_v.len() && (#[trigger] found_v[k]).ts.offset == SENTINEL_OFFSET;
                assert(fin[k] == found_v[k]@);
                assert(!zone_free(fin));
            }
            return Err(e);
        },
    };
    let ghost out = models(corrected@);
    let sorted = sort_by_score(corrected);
    let name = name_reading(&settings.file_regexes, path, fallback)?;
    proof {
        if zone_free(fin) {
            lemma_zone_free_unchanged(fin, out);
        }
    }
    let r = reconcile(sorted, name);
    assert(settles(fin, settings.file_regexes@, path@, out, name));
    Ok(r)
}

/// Where no candidate has an offset that the zone rules act on, correction changes nothing.
proof fn lemma_zone_free_unchanged(cs: Seq<CandidateModel>, out: Seq<CandidateModel>)
    requires
        corrected_all(cs, out),
        zone_free(cs),
    ensures
        out == cs,
    decreases cs.len(),
{
    if cs.len() > 0 {
        let k = out.len() - 1;
        let init = cs.drop_last();
        assert(zone_free(init)) by {
            assert forall|j: int| 0 <= j < init.len() implies (#[trigger] init[j]).ts.offset
                != SENTINEL_OFFSET && init[j].ts.offset != 0 by {
                assert(init[j] == cs[j]);
            }
        }
        assert(cs.last() == cs[cs.len() - 1]);
        lemma_zone_free_unchanged(init, out.subrange(0, k));
        assert(out.subrange(k, out.len() as int)[0] == out[k]);
        assert(out =~= out.subrange(0, k).push(out[k]));
        assert(cs =~= init.push(cs.last()));
    } else {
        assert(out =~= cs);
    }
}
} // verus!
