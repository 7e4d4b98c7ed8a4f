use picnamion::correct::{correct_candidate, correct_zones};
use picnamion::datetime::{CivilDateTime, ZonedTime};
use picnamion::engine::{
    collect_candidates, fallback_zone, harvest_offset, is_media, resolve_file, MetaTag,
};
use picnamion::error::EngineError;
use picnamion::filename::{name_reading, parse_seconds};
use picnamion::prefix::{format_prefix, parse_prefix, renamed_path};
use picnamion::reconcile::{reconcile, Resolution};
use picnamion::score::{tag_score, PicTimeStamp};
use picnamion::settings::{Environment, Settings};
use picnamion::store::{sort_by_score, CandidateStore};

fn civil(year: i16, month: i8, day: i8, hour: i8, minute: i8, second: i8) -> CivilDateTime {
    CivilDateTime { year, month, day, hour, minute, second }
}

fn zoned(dt: CivilDateTime, offset_hours: i32) -> ZonedTime {
    ZonedTime { datetime: dt, offset: offset_hours * 3600 }
}

fn candidate(ts: ZonedTime, tags: &[&str], score: u32) -> PicTimeStamp {
    PicTimeStamp { ts, tags: tags.iter().map(|t| t.to_string()).collect(), score }
}

fn tag(group: &str, tag: &str, value: &str) -> MetaTag {
    MetaTag { group: group.to_string(), tag: tag.to_string(), value: value.to_string() }
}

fn resolved_prefix(r: &Resolution) -> Option<String> {
    match r {
        Resolution::Resolved { prefix, .. } => Some(prefix.clone()),
        Resolution::Ambiguous { .. } => None,
    }
}

#[test]
fn every_table_tag_has_a_weight() {
    let table = [
        ("Composite SubSecDateTimeOriginal", 5),
        ("Composite SubSecCreateDate", 5),
        ("Composite SubSecModifyDate", 3),
        ("EXIF DateTimeOriginal", 5),
        ("EXIF CreateDate", 3),
        ("QuickTime CreationDate-und-US", 3),
        ("QuickTime TrackModifyDate", 1),
        ("IPTC DateCreated", 0),
        ("PNG ModifyDate", 1),
        ("IPTC DigitalCreationDate", 0),
        ("IPTC TimeCreated", 0),
    ];
    for (name, weight) in table {
        assert_eq!(tag_score(name), Some(weight));
        assert_eq!(tag_score(name), tag_score(name));
    }
    assert_eq!(tag_score("EXIF Nonsense"), None);
    assert_eq!(tag_score("File Earliest"), None);
}

#[test]
fn rescore_sums_weights_and_rejects_unknown_tags() {
    let mut c = candidate(
        zoned(civil(2023, 6, 1, 14, 22, 5), -7),
        &["EXIF DateTimeOriginal", "XMP CreateDate", "PNG ModifyDate"],
        0,
    );
    assert!(c.rescore().is_ok());
    assert_eq!(c.score, 9);
    let mut bad = candidate(zoned(civil(2023, 6, 1, 14, 22, 5), -7), &["EXIF Bogus"], 4);
    let err = bad.rescore().unwrap_err();
    assert_eq!(err.tag, "EXIF Bogus");
    assert_eq!(bad.score, 4);
}

fn record_pair(first: (&str, ZonedTime), second: (&str, ZonedTime)) -> CandidateStore {
    let mut st = CandidateStore::new();
    st.record(first.0.to_string(), first.1).unwrap();
    st.record(second.0.to_string(), second.1).unwrap();
    st
}

#[test]
fn whole_hour_readings_merge_in_either_order() {
    let a = zoned(civil(2023, 6, 1, 14, 22, 5), 0);
    let b = zoned(civil(2023, 6, 1, 17, 22, 5), 0);
    let ab = record_pair(("EXIF DateTimeOriginal", a), ("XMP CreateDate", b));
    let ba = record_pair(("XMP CreateDate", b), ("EXIF DateTimeOriginal", a));
    assert_eq!(ab.candidates.len(), 1);
    assert_eq!(ba.candidates.len(), 1);
    assert_eq!(ab.candidates[0].score, 8);
    assert_eq!(ba.candidates[0].score, 8);
    let mut t1 = ab.candidates[0].tags.clone();
    let mut t2 = ba.candidates[0].tags.clone();
    t1.sort();
    t2.sort();
    assert_eq!(t1, t2);
    assert_eq!(t1, vec!["EXIF DateTimeOriginal".to_string(), "XMP CreateDate".to_string()]);
    // The higher-scored reading survives.
    assert_eq!(ab.candidates[0].ts, a);
    assert_eq!(ba.candidates[0].ts, a);
}

#[test]
fn same_instant_at_other_offset_merges() {
    let a = zoned(civil(2023, 6, 1, 14, 22, 5), 0);
    let b = zoned(civil(2023, 6, 1, 7, 22, 5), -7);
    let st = record_pair(("XMP CreateDate", a), ("EXIF DateTimeOriginal", b));
    assert_eq!(st.candidates.len(), 1);
    assert_eq!(st.candidates[0].ts, b);
    assert_eq!(st.candidates[0].score, 8);
}

#[test]
fn twelve_hours_merge_but_thirteen_do_not() {
    let a = zoned(civil(2023, 6, 1, 0, 0, 0), 0);
    let b = zoned(civil(2023, 6, 1, 12, 0, 0), 0);
    let c = zoned(civil(2023, 6, 1, 13, 0, 0), 0);
    assert_eq!(record_pair(("EXIF CreateDate", a), ("XMP CreateDate", b)).candidates.len(), 1);
    assert_eq!(record_pair(("EXIF CreateDate", a), ("XMP CreateDate", c)).candidates.len(), 2);
}

#[test]
fn an_hour_and_a_half_apart_never_merges() {
    let a = zoned(civil(2023, 6, 1, 14, 0, 0), 0);
    let b = ZonedTime { datetime: civil(2023, 6, 1, 15, 30, 0), offset: 0 };
    let st = record_pair(("EXIF DateTimeOriginal", a), ("XMP CreateDate", b));
    assert_eq!(st.candidates.len(), 2);
    assert_eq!(st.candidates[0].score, 5);
    assert_eq!(st.candidates[1].score, 3);
}

#[test]
fn exact_repeat_adds_the_tag() {
    let a = zoned(civil(2023, 6, 1, 14, 22, 5), -7);
    let st = record_pair(("EXIF DateTimeOriginal", a), ("EXIF CreateDate", a));
    assert_eq!(st.candidates.len(), 1);
    assert_eq!(st.candidates[0].tags.len(), 2);
    assert_eq!(st.candidates[0].score, 8);
}

#[test]
fn tie_keeps_the_new_reading_unless_it_is_the_sentinel() {
    let a = zoned(civil(2023, 6, 1, 14, 0, 0), -7);
    let b = zoned(civil(2023, 6, 1, 15, 0, 0), -7);
    let st = record_pair(("EXIF CreateDate", a), ("XMP CreateDate", b));
    assert_eq!(st.candidates[0].ts, b);
    let s = zoned(civil(2023, 6, 1, 9, 0, 0), -12);
    let st = record_pair(("EXIF CreateDate", a), ("XMP CreateDate", s));
    assert_eq!(st.candidates[0].ts, a);
}

#[test]
fn unknown_tag_is_an_error_and_changes_nothing() {
    let mut st = CandidateStore::new();
    let a = zoned(civil(2023, 6, 1, 14, 0, 0), -7);
    let err = st.record("EXIF Bogus".to_string(), a).unwrap_err();
    assert_eq!(err.tag, "EXIF Bogus");
    assert!(st.candidates.is_empty());
}

#[test]
fn finalize_falls_back_to_earliest_file_time_and_sorts() {
    let mut st = CandidateStore::new();
    st.record_file_time(zoned(civil(2023, 6, 2, 10, 0, 0), -7));
    st.record_file_time(zoned(civil(2023, 6, 1, 10, 0, 0), -7));
    st.record_file_time(zoned(civil(2023, 6, 3, 10, 0, 0), -7));
    let v = st.finalize().unwrap();
    assert_eq!(v.len(), 1);
    assert_eq!(v[0].tags, vec!["File Earliest".to_string()]);
    assert_eq!(v[0].score, 1);
    assert_eq!(v[0].ts.datetime, civil(2023, 6, 1, 10, 0, 0));
    assert!(CandidateStore::new().finalize().is_none());

    let mut st = CandidateStore::new();
    st.record("PNG ModifyDate".to_string(), zoned(civil(2020, 1, 1, 0, 0, 0), 1)).unwrap();
    st.record("XMP CreateDate".to_string(), zoned(civil(2020, 1, 1, 0, 10, 0), 1)).unwrap();
    st.record("EXIF ModifyDate".to_string(), zoned(civil(2020, 1, 1, 0, 20, 0), 1)).unwrap();
    let v = st.finalize().unwrap();
    let scores: Vec<u32> = v.iter().map(|c| c.score).collect();
    assert_eq!(scores, vec![3, 3, 1]);
    assert_eq!(v[0].tags, vec!["XMP CreateDate".to_string()]);
    assert_eq!(v[1].tags, vec!["EXIF ModifyDate".to_string()]);
}

#[test]
fn sentinel_candidate_is_moved_with_a_utc_sibling() {
    let dt = civil(2023, 6, 1, 14, 22, 5);
    let c = candidate(zoned(dt, -12), &["EXIF DateTimeOriginal"], 5);
    let local = zoned(dt, -7);
    let from_utc = zoned(civil(2023, 6, 1, 7, 22, 5), -7);
    let v = correct_candidate(c, local, from_utc, local);
    assert_eq!(v.len(), 2);
    assert_eq!(v[0].ts, local);
    assert_eq!(v[0].score, 5);
    assert_eq!(v[1].ts, from_utc);
    assert_eq!(v[1].score, 4);

    let f = candidate(zoned(dt, -12), &["File Earliest"], 1);
    let v = correct_candidate(f, local, from_utc, local);
    assert_eq!(v.len(), 1);
    assert_eq!(v[0].ts, local);
}

#[test]
fn utc_candidate_gets_a_fallback_sibling_scoring_one_more() {
    let dt = civil(2023, 6, 1, 14, 22, 5);
    let c = candidate(zoned(dt, 0), &["EXIF DateTimeOriginal", "XMP CreateDate"], 8);
    let moved = zoned(civil(2023, 6, 1, 7, 22, 5), -7);
    let v = correct_candidate(c, moved, moved, moved);
    assert_eq!(v.len(), 2);
    assert_eq!(v[0].ts, zoned(dt, 0));
    assert_eq!(v[0].score, 8);
    assert_eq!(v[1].ts, moved);
    assert_eq!(v[1].score, 9);

    let f = candidate(zoned(dt, 0), &["File Earliest"], 1);
    let v = correct_candidate(f, moved, moved, moved);
    assert_eq!(v.len(), 2);
    assert_eq!(v[0].score, 1);
    assert_eq!(v[1].ts, moved);
    assert_eq!(v[1].score, 2);
    let other = candidate(zoned(dt, 2), &["EXIF DateTimeOriginal"], 5);
    let v = correct_candidate(other, moved, moved, moved);
    assert_eq!(v.len(), 1);
    assert_eq!(v[0].ts, zoned(dt, 2));
}

#[test]
fn zone_correction_uses_the_fallback_zone() {
    let tz = fallback_zone().unwrap();
    let dt = civil(2023, 6, 1, 14, 22, 5);
    let v = correct_zones(
        vec![
            candidate(zoned(dt, -12), &["EXIF DateTimeOriginal"], 5),
            candidate(zoned(dt, 0), &["XMP CreateDate"], 3),
        ],
        &tz,
    )
    .unwrap();
    assert_eq!(v.len(), 4);
    assert_eq!(v[0].ts, zoned(dt, -7));
    assert_eq!(v[1].ts, zoned(civil(2023, 6, 1, 7, 22, 5), -7));
    assert_eq!(v[1].score, 4);
    assert_eq!(v[2].ts, zoned(dt, 0));
    assert_eq!(v[3].ts, zoned(civil(2023, 6, 1, 7, 22, 5), -7));
    assert_eq!(v[3].score, 4);
}

#[test]
fn exact_match_beats_looser_tiers() {
    let f = civil(2023, 6, 1, 14, 22, 5);
    let cs = vec![
        candidate(zoned(civil(2023, 6, 1, 22, 22, 5), 1), &["EXIF DateTimeOriginal"], 10),
        candidate(zoned(civil(2023, 6, 1, 14, 22, 30), 1), &["XMP CreateDate"], 6),
        candidate(zoned(f, 3), &["PNG ModifyDate"], 1),
    ];
    let r = reconcile(cs, Some(f));
    assert_eq!(resolved_prefix(&r), Some("2023-06-01_14-22-05--".to_string()));
}

#[test]
fn hour_shift_tiers() {
    let f = civil(2023, 6, 1, 14, 22, 5);
    // Eight hours: the candidate's reading wins.
    let cs = vec![candidate(zoned(civil(2023, 6, 1, 22, 22, 5), 1), &["EXIF DateTimeOriginal"], 5)];
    let r = reconcile(cs, Some(f));
    assert_eq!(resolved_prefix(&r), Some("2023-06-01_22-22-05--".to_string()));
    // Three hours and eight seconds: the name wins.
    let cs = vec![candidate(zoned(civil(2023, 6, 1, 17, 22, 13), 1), &["EXIF DateTimeOriginal"], 5)];
    let r = reconcile(cs, Some(f));
    assert_eq!(resolved_prefix(&r), Some("2023-06-01_14-22-05--".to_string()));
    // Twelve hours and five seconds: still twelve whole hours, so the candidate wins.
    let cs = vec![candidate(zoned(civil(2023, 6, 2, 2, 22, 10), 1), &["EXIF DateTimeOriginal"], 5)];
    let r = reconcile(cs, Some(f));
    assert_eq!(resolved_prefix(&r), Some("2023-06-02_02-22-10--".to_string()));
    // Thirteen hours: no match, and the file is ambiguous.
    let cs = vec![candidate(zoned(civil(2023, 6, 2, 3, 22, 5), 1), &["EXIF DateTimeOriginal"], 5)];
    match reconcile(cs, Some(f)) {
        Resolution::Ambiguous { candidates, name_times } => {
            assert_eq!(candidates.len(), 1);
            assert_eq!(name_times, vec![f]);
        }
        Resolution::Resolved { .. } => panic!("expected an ambiguous outcome"),
    }
}

#[test]
fn score_gap_decides_without_a_name() {
    let a = zoned(civil(2023, 6, 1, 14, 22, 5), 1);
    let b = zoned(civil(2023, 5, 1, 9, 0, 0), 1);
    let cs = vec![candidate(a, &["x"], 10), candidate(b, &["y"], 4)];
    let r = reconcile(cs, None);
    assert_eq!(resolved_prefix(&r), Some("2023-06-01_14-22-05--".to_string()));
    let cs = vec![candidate(a, &["x"], 10), candidate(b, &["y"], 6)];
    assert!(matches!(reconcile(cs, None), Resolution::Ambiguous { .. }));
}

#[test]
fn name_reading_used_when_metadata_has_only_file_time() {
    let f = civil(2023, 6, 1, 14, 22, 5);
    let cs = vec![candidate(zoned(civil(2021, 1, 1, 0, 0, 0), 1), &["File Earliest"], 1)];
    let r = reconcile(cs, Some(f));
    assert_eq!(resolved_prefix(&r), Some("2023-06-01_14-22-05--".to_string()));
    let cs = vec![candidate(zoned(civil(2021, 1, 1, 0, 0, 0), 1), &["File Earliest"], 1)];
    let r = reconcile(cs, None);
    assert_eq!(resolved_prefix(&r), Some("2021-01-01_00-00-00--".to_string()));
}

#[test]
fn prefix_round_trip() {
    let dts = [
        civil(2023, 6, 1, 14, 22, 5),
        civil(2024, 2, 29, 0, 0, 0),
        civil(9999, 12, 31, 23, 59, 59),
        civil(-44, 3, 15, 12, 0, 0),
        civil(0, 1, 1, 0, 0, 0),
    ];
    for dt in dts {
        let p = format_prefix(&dt);
        assert_eq!(parse_prefix(&p), Some(dt));
        assert_eq!(parse_prefix(&format!("{}IMG_1234.jpg", p)), Some(dt));
    }
    assert_eq!(format_prefix(&dts[0]), "2023-06-01_14-22-05--");
    assert_eq!(format_prefix(&dts[3]), "-0044-03-15_12-00-00--");
    assert_eq!(parse_prefix("2023-02-29_00-00-00--"), None);
    assert_eq!(parse_prefix("2023-06-01_14-22-05-"), None);
    assert_eq!(parse_prefix("IMG_1234.jpg"), None);
}

#[test]
fn sentinel_only_metadata_is_ambiguous_between_two_readings() {
    let tz = fallback_zone().unwrap();
    let es = vec![tag("EXIF", "DateTimeOriginal", "##DATE## 2023-06-01 14:22:05 -1200")];
    let settings = Settings { file_regexes: vec![] };
    let r = resolve_file(&es, "/pics/DSC0001.jpg", &settings, &tz).unwrap();
    match r {
        Resolution::Ambiguous { candidates, name_times } => {
            assert_eq!(candidates.len(), 2);
            assert_eq!(candidates[0].ts, zoned(civil(2023, 6, 1, 14, 22, 5), -7));
            assert_eq!(candidates[0].score, 5);
            assert_eq!(candidates[1].ts, zoned(civil(2023, 6, 1, 7, 22, 5), -7));
            assert_eq!(candidates[1].score, 4);
            assert!(name_times.is_empty());
        }
        Resolution::Resolved { .. } => panic!("a 5:4 score gap decides nothing"),
    }
}

#[test]
fn name_within_an_hour_shift_wins() {
    let tz = fallback_zone().unwrap();
    let pattern = regex::Regex::new(
        r"IMG_(?<year>\d{4})(?<month>\d{2})(?<day>\d{2})_(?<hour>\d{2})(?<minute>\d{2})(?<second>\d{2})",
    )
    .unwrap();
    let settings = Settings { file_regexes: vec![pattern] };
    let es = vec![tag("EXIF", "DateTimeOriginal", "##DATE## 2023-06-01 15:22:05 -0700")];
    let r = resolve_file(&es, "IMG_20230601_142205.jpg", &settings, &tz).unwrap();
    assert_eq!(resolved_prefix(&r), Some("2023-06-01_14-22-05--".to_string()));
}

#[test]
fn epoch_seconds_and_utc_names() {
    let tz = fallback_zone().unwrap();
    let sse = regex::Regex::new(r"^(?<sse>\d+)\.mp4$").unwrap();
    let pxl = regex::Regex::new(
        r"PXL_(?<year>\d{4})(?<month>\d{2})(?<day>\d{2})_(?<hour>\d{2})(?<minute>\d{2})(?<second>\d{2})",
    )
    .unwrap();
    let settings = Settings { file_regexes: vec![sse, pxl] };
    let es = vec![tag("File", "FileModifyDate", "##DATE## 2024-01-01 00:00:00 +0100")];
    // 1685629325 is 2023-06-01T14:22:05Z, 07:22:05 in the fallback zone.
    let r = resolve_file(&es, "1685629325.mp4", &settings, &tz).unwrap();
    assert_eq!(resolved_prefix(&r), Some("2023-06-01_07-22-05--".to_string()));
    let r = resolve_file(&es, "PXL_20230601_142205123.jpg", &settings, &tz).unwrap();
    assert_eq!(resolved_prefix(&r), Some("2023-06-01_07-22-05--".to_string()));
}

#[test]
fn pattern_without_groups_is_a_configuration_error() {
    let tz = fallback_zone().unwrap();
    let settings = Settings { file_regexes: vec![regex::Regex::new(r"IMG_\d+").unwrap()] };
    let es = vec![tag("EXIF", "DateTimeOriginal", "##DATE## 2023-06-01 15:22:05 -0700")];
    let r = resolve_file(&es, "IMG_1234.jpg", &settings, &tz);
    assert!(matches!(r, Err(EngineError::MissingCaptureGroup)));
}

#[test]
fn offsets_are_harvested_and_conflicts_refused() {
    let es = vec![
        tag("EXIF", "OffsetTimeOriginal", "+02:00"),
        tag("EXIF", "OffsetTime", "+0200"),
        tag("EXIF", "OffsetTimeDigitized", "-12:00"),
        tag("EXIF", "DateTimeOriginal", "##DATE## 2023-06-01 14:22:05 -1200"),
    ];
    assert_eq!(harvest_offset(&es).unwrap(), Some(7200));
    let st = collect_candidates(&es, Some(7200)).unwrap();
    assert_eq!(st.candidates.len(), 1);
    assert_eq!(st.candidates[0].ts, zoned(civil(2023, 6, 1, 14, 22, 5), 2));
    let bad = vec![
        tag("EXIF", "OffsetTimeOriginal", "+02:00"),
        tag("EXIF", "OffsetTime", "+03:00"),
    ];
    assert!(matches!(harvest_offset(&bad), Err(EngineError::ConflictingOffsets)));
    let tz = fallback_zone().unwrap();
    let settings = Settings { file_regexes: vec![] };
    assert!(matches!(
        resolve_file(&bad, "x.jpg", &settings, &tz),
        Err(EngineError::ConflictingOffsets)
    ));
}

#[test]
fn collection_skips_unmarked_and_profile_tags_and_reports_errors() {
    let es = vec![
        tag("ICC_Profile", "ProfileDateTime", "##DATE## 1998-02-09 06:49:00 +0000"),
        tag("EXIF", "Make", "Canon"),
        tag("EXIF", "CreateDate", "##DATE## 2023-06-01 14:22:05 -0700"),
    ];
    let st = collect_candidates(&es, None).unwrap();
    assert_eq!(st.candidates.len(), 1);
    assert_eq!(st.candidates[0].tags, vec!["EXIF CreateDate".to_string()]);
    let bad = vec![tag("EXIF", "CreateDate", "##DATE## yesterday")];
    assert!(matches!(collect_candidates(&bad, None), Err(EngineError::BadTimestamp)));
    let unknown = vec![tag("EXIF", "Weird", "##DATE## 2023-06-01 14:22:05 -0700")];
    assert!(matches!(collect_candidates(&unknown, None), Err(EngineError::UnknownTag(_))));
    let tz = fallback_zone().unwrap();
    let settings = Settings { file_regexes: vec![] };
    assert!(matches!(
        resolve_file(&vec![], "x.jpg", &settings, &tz),
        Err(EngineError::NoTimestamp)
    ));
}

#[test]
fn media_types_and_environments() {
    assert!(is_media("\"image/jpeg\""));
    assert!(is_media("video/mp4"));
    assert!(!is_media("application/pdf"));
    assert_eq!(Environment::Test.as_str(), "test");
    assert_eq!(Environment::Prod.as_str(), "prod");
    assert_eq!(Environment::try_from("PRODUCTION".to_string()), Ok(Environment::Prod));
    assert_eq!(Environment::try_from("Test".to_string()), Ok(Environment::Test));
    assert_eq!(Environment::try_from(Environment::Test.as_str().to_string()), Ok(Environment::Test));
    assert_eq!(Environment::try_from(Environment::Prod.as_str().to_string()), Ok(Environment::Prod));
    assert_eq!(Environment::from_setting(None), Ok(Environment::Prod));
    assert_eq!(Environment::from_setting(Some("TEST".to_string())), Ok(Environment::Test));
    assert_eq!(
        Environment::try_from("Staging".to_string()),
        Err("staging is not a supported environment. Use either `test` or `prod`.".to_string())
    );
}

#[test]
fn sorting_keeps_equal_scores_in_order() {
    let z = zoned(civil(2023, 6, 1, 0, 0, 0), 0);
    let v = vec![
        candidate(z, &["a"], 1),
        candidate(z, &["b"], 3),
        candidate(z, &["c"], 1),
        candidate(z, &["d"], 3),
    ];
    let s = sort_by_score(v);
    let tags: Vec<String> = s.iter().map(|c| c.tags[0].clone()).collect();
    assert_eq!(tags, vec!["b", "d", "a", "c"]);
}

#[test]
fn file_time_utc_candidate_gets_a_sibling() {
    let tz = fallback_zone().unwrap();
    let es = vec![tag("File", "FileModifyDate", "##DATE## 2023-06-01 14:22:05 +0000")];
    let settings = Settings { file_regexes: vec![] };
    let r = resolve_file(&es, "x.jpg", &settings, &tz).unwrap();
    // Only file-time candidates: the fallback-zone sibling scores 2 and comes first.
    assert_eq!(resolved_prefix(&r), Some("2023-06-01_07-22-05--".to_string()));
}

#[test]
fn only_the_first_matching_pattern_is_used() {
    let tz = fallback_zone().unwrap();
    let first = regex::Regex::new(
        r"(?<year>\d{4})(?<month>\d{2})(?<day>\d{2})_(?<hour>\d{2})(?<minute>\d{2})(?<second>\d{2})",
    )
    .unwrap();
    let second = regex::Regex::new(r"^(?<sse>\d+)_").unwrap();
    let name = "20230601_142205_1685629325_.jpg";
    let r = name_reading(&vec![first.clone(), second.clone()], name, &tz).unwrap();
    assert_eq!(r, Some(civil(2023, 6, 1, 14, 22, 5)));
    let none = regex::Regex::new(r"^nothing$").unwrap();
    assert_eq!(name_reading(&vec![none], name, &tz).unwrap(), None);
    assert_eq!(name_reading(&vec![], name, &tz).unwrap(), None);
}

#[test]
fn signed_epoch_seconds() {
    assert_eq!(parse_seconds("1685629325"), Some(1685629325));
    assert_eq!(parse_seconds("+42"), Some(42));
    assert_eq!(parse_seconds("-42"), Some(-42));
    assert_eq!(parse_seconds("-"), None);
    assert_eq!(parse_seconds(""), None);
    assert_eq!(parse_seconds("12a"), None);
    assert_eq!(parse_seconds("999999999999999"), None);
}

#[test]
fn rename_targets() {
    assert_eq!(renamed_path("/pics/IMG_1.jpg", "2023-06-01_14-22-05--"), "/pics/2023-06-01_14-22-05--IMG_1.jpg");
    assert_eq!(renamed_path("IMG_1.jpg", "P--"), "P--IMG_1.jpg");
    assert_eq!(renamed_path("a/b/c.mp4", "P--"), "a/b/P--c.mp4");
}
