//! Repairs candidates whose offset is known to be bogus or often wrong.
use crate::datetime::{ZonedTime, MAX_INSTANT, MIN_INSTANT};
use crate::error::EngineError;
use crate::reconcile::{is_file_fallback, is_file_fallback_candidate};
use crate::score::{capped, tag_texts, tags_total, PicTimeStamp};
use crate::store::{models, CandidateModel, SENTINEL_OFFSET};
use crate::zone::{zoned_at, zoned_from_civil};
use vstd::prelude::*;

verus! {

pub open spec fn one_less(s: u32) -> u32 {
    if s == 0 {
        0
    } else {
        (s - 1) as u32
    }
}

pub open spec fn one_more(s: u32) -> u32 {
    if s == u32::MAX {
        s
    } else {
        (s + 1) as u32
    }
}

/// The score of the fallback-zone sibling of a UTC candidate: one more than its tags weigh,
/// or, for the file-time candidate, whose tag the table does not hold, one more than it has.
pub open spec fn sibling_score(c: CandidateModel) -> u32 {
    match tags_total(c.tags) {
        Some(n) => one_more(capped(n)),
        None => one_more(c.score),
    }
}

/// What one candidate becomes, given its wall clock placed in the fallback zone (`local`),
/// its wall clock read as UTC and moved to the fallback zone (`from_utc`), and its instant
/// in the fallback zone (`moved`).
pub open spec fn corrected(
    c: CandidateModel,
    local: ZonedTime,
    from_utc: ZonedTime,
    moved: ZonedTime,
) -> Seq<CandidateModel> {
    if c.ts.offset == SENTINEL_OFFSET {
        let direct = CandidateModel { ts: local, tags: c.tags, score: c.score };
        if is_file_fallback(c) {
            seq![direct]
        } else {
            seq![direct, CandidateModel { ts: from_utc, tags: c.tags, score: one_less(c.score) }]
        }
    } else if c.ts.offset == 0 {
        seq![c, CandidateModel { ts: moved, tags: c.tags, score: sibling_score(c) }]
    } else {
        seq![c]
    }
}

/// How many candidates one candidate becomes.
pub open spec fn piece_len(c: CandidateModel) -> int {
    if c.ts.offset == SENTINEL_OFFSET {
        if is_file_fallback(c) { 1 } else { 2 }
    } else if c.ts.offset == 0 {
        2
    } else {
        1
    }
}

/// What holds of the candidates that one candidate becomes, whatever the zone database says:
/// a sentinel candidate is moved into the fallback zone with its tags and score, keeping its
/// wall clock unless that falls in a gap of the zone, where it moves later, and, unless it is
/// the file-time one, gets a sibling at its wall clock read as UTC scoring one less; a UTC
/// candidate stays and gets a sibling at the same instant scoring one more; any other
/// candidate stays as it is.
pub open spec fn piece_ok(c: CandidateModel, p: Seq<CandidateModel>) -> bool {
    &&& p.len() == piece_len(c)
    &&& forall|k: int| 0 <= k < p.len() ==> (#[trigger] p[k]).ts.wf() && p[k].tags == c.tags
    &&& if c.ts.offset == SENTINEL_OFFSET {
        &&& p[0].score == c.score
        &&& p[0].ts.datetime == c.ts.datetime || c.ts.datetime.seconds() < p[0].ts.datetime.seconds()
        &&& p.len() == 2 ==> p[1].score == one_less(c.score) && p[1].ts.instant()
            == c.ts.datetime.seconds()
    } else if c.ts.offset == 0 {
        &&& p[0] == c
        &&& p[1].score == sibling_score(c)
        &&& p[1].ts.instant() == c.ts.instant()
    } else {
        p[0] == c
    }
}

/// The corrected list is the pieces of the candidates, in their order.
pub open spec fn corrected_all(cs: Seq<CandidateModel>, out: Seq<CandidateModel>) -> bool
    decreases cs.len(),
{
    if cs.len() == 0 {
        out.len() == 0
    } else {
        let k = out.len() - piece_len(cs.last());
        &&& k >= 0
        &&& piece_ok(cs.last(), out.subrange(k, out.len() as int))
        &&& corrected_all(cs.drop_last(), out.subrange(0, k))
    }
}

fn clone_tags(v: &Vec<String>) -> (r: Vec<String>)
    ensures
        tag_texts(r@) == tag_texts(v@),
{
    let mut r: Vec<String> = Vec::new();
    let mut i: usize = 0;
    while i < v.len()
        invariant
            i <= v@.len(),
            r@.len() == i,
            forall|k: int| 0 <= k < i ==> (#[trigger] r@[k])@ == v@[k]@,
        decreases v.len() - i,
    {
        r.push(v[i].clone());
        i = i + 1;
    }
    assert(tag_texts(r@) =~= tag_texts(v@));
    r
}

/// What one candidate becomes under the zone rules, given its readings in the fallback zone
/// (see `corrected`).
pub fn correct_candidate(c: PicTimeStamp, local: ZonedTime, from_utc: ZonedTime, moved: ZonedTime) -> (r:
    Vec<PicTimeStamp>)
    ensures
        models(r@) == corrected(c@, local, from_utc, moved),
{
    if c.ts.offset == SENTINEL_OFFSET {
        let fallback = is_file_fallback_candidate(&c);
        let tags = clone_tags(&c.tags);
        let score = c.score;
        let direct = PicTimeStamp { ts: local, tags: c.tags, score };
        let mut v: Vec<PicTimeStamp> = Vec::new();
        v.push(direct);
        if !fallback {
            let sibling = PicTimeStamp {
                ts: from_utc,
                tags,
                score: if score == 0 { 0 } else { score - 1 },
            };
            v.push(sibling);
        }
        assert(models(v@) =~= corrected(c@, local, from_utc, moved));
        v
    } else if c.ts.offset == 0 {
        let mut sibling = PicTimeStamp { ts: moved, tags: clone_tags(&c.tags), score: c.score };
        let _ = sibling.rescore();
        sibling.score = if sibling.score == u32::MAX { sibling.score } else { sibling.score + 1 };
        let mut v: Vec<PicTimeStamp> = Vec::new();
        v.push(c);
        v.push(sibling);
        assert(models(v@) =~= corrected(c@, local, from_utc, moved));
        v
    } else {
        let mut v: Vec<PicTimeStamp> = Vec::new();
        v.push(c);
        assert(models(v@) =~= seq![c@]);
        v
    }
}

/// Applies the zone rules to every candidate, asking the fallback zone for the readings
/// they need.
#[verifier::rlimit(30)]
pub fn correct_zones(cs: Vec<PicTimeStamp>, fallback: &jiff::tz::TimeZone) -> (r: Result<
    Vec<PicTimeStamp>,
    EngineError,
>)
    requires
        forall|k: int| 0 <= k < cs@.len() ==> (#[trigger] cs@[k]).ts.wf(),
    ensures
        r matches Ok(out) ==> corrected_all(models(cs@), models(out@)),
        r matches Ok(out) ==> forall|k: int| 0 <= k < out@.len() ==> (#[trigger] out@[k]).ts.wf(),
        r matches Err(e) ==> e is OutOfRange || e is ZoneUnavailable,
        r is Err ==> exists|k: int|
            0 <= k < cs@.len() && (#[trigger] cs@[k]).ts.offset == SENTINEL_OFFSET,
{
    let ghost orig = models(cs@);
    let ghost cs0 = cs@;
    let len0: usize = cs.len();
    let ghost n = cs@.len();
    let mut v = cs;
    let mut out: Vec<PicTimeStamp> = Vec::new();
    let mut i: usize = 0;
    assert(cs0.skip(0) =~= cs0);
    assert(orig.take(0) =~= Seq::<CandidateModel>::empty());
    while v.len() > 0
        invariant
            n == orig.len(),
            n == len0,
            i + v@.len() == n,
            v@ =~= cs0.skip(i as int),
            orig == models(cs0),
            cs0 == cs@,
            corrected_all(orig.take(i as int), models(out@)),
            forall|k: int| 0 <= k < v@.len() ==> (#[trigger] v@[k]).ts.wf(),
            forall|k: int| 0 <= k < out@.len() ==> (#[trigger] out@[k]).ts.wf(),
        decreases v.len(),
    {
        let ghost vs = v@;
        let c = v.remove(0);
        assert(c == cs0[i as int]);
        assert(c@ == orig[i as int]);
        assert(c.ts.wf());
        let local;
        let from_utc;
        let moved;
        if c.ts.offset == SENTINEL_OFFSET {
            local = match zoned_from_civil(fallback, c.ts.datetime) {
                Ok(z) => z,
                Err(_) => {
                    assert(cs0[i as int].ts.offset == SENTINEL_OFFSET);
                    return Err(EngineError::ZoneUnavailable);
                },
            };
            proof { c.ts.datetime.lemma_seconds_bounds(); }
            let secs = c.ts.datetime.civil_seconds();
            if secs < MIN_INSTANT || secs > MAX_INSTANT {
                assert(cs0[i as int].ts.offset == SENTINEL_OFFSET);
                return Err(EngineError::OutOfRange);
            }
            from_utc = zoned_at(fallback, secs);
            moved = c.ts;
        } else if c.ts.offset == 0 {
            local = c.ts;
            from_utc = c.ts;
            moved = zoned_at(fallback, c.ts.instant_seconds());
        } else {
            local = c.ts;
            from_utc = c.ts;
            moved = c.ts;
        }
        let ghost cm = c@;
        let mut piece = correct_candidate(c, local, from_utc, moved);
        let ghost ps = models(piece@);
        let ghost os = models(out@);
        assert(piece_ok(cm, ps));
        out.append(&mut piece);
        proof {
            let t = orig.take(i + 1);
            assert(t.drop_last() =~= orig.take(i as int));
            assert(t.last() == cm);
            let all = models(out@);
            assert(all =~= os + ps);
            assert(all.subrange(os.len() as int, all.len() as int) =~= ps);
            assert(all.subrange(0, os.len() as int) =~= os);
        }
        assert forall|k: int| 0 <= k < out@.len() implies (#[trigger] out@[k]).ts.wf() by {
            if k >= os.len() {
                assert(models(out@)[k] == ps[k - os.len()]);
            }
        }
        assert(v@ =~= cs0.skip(i + 1));
        i = i + 1;
        assert forall|k: int| 0 <= k < v@.len() implies (#[trigger] v@[k]).ts.wf() by {
            assert(v@[k] == vs[k + 1]);
        }
    }
    assert(orig.take(i as int) =~= orig);
    Ok(out)
}

} // verus!
