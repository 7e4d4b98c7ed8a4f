//! Weighs the time in a file's name against the metadata candidates and settles on one.
use crate::datetime::CivilDateTime;
use crate::prefix::{format_prefix, prefix_text};
use crate::score::{str_eq, PicTimeStamp};
use crate::store::{abs_diff, models, CandidateModel, FILE_EARLIEST_TAG};
use vstd::prelude::*;

verus! {

/// Whether a candidate is the one made from the earliest file-system time.
pub open spec fn is_file_fallback(c: CandidateModel) -> bool {
    c.tags == seq![FILE_EARLIEST_TAG@]
}

/// The candidates that metadata tags gave, in their order.
pub open spec fn real_candidates(cs: Seq<CandidateModel>) -> Seq<CandidateModel>
    decreases cs.len(),
{
    if cs.len() == 0 {
        cs
    } else if is_file_fallback(cs.last()) {
        real_candidates(cs.drop_last())
    } else {
        real_candidates(cs.drop_last()).push(cs.last())
    }
}

/// Seconds between the name's reading and a candidate's reading, zones left aside.
pub open spec fn gap(f: CivilDateTime, c: CandidateModel) -> int {
    abs_diff(f.seconds(), c.ts.datetime.seconds())
}

/// The readings are the same, or less than a minute apart.
pub open spec fn near(f: CivilDateTime, c: CandidateModel) -> bool {
    gap(f, c) < 60
}

/// The readings lie a whole number of hours apart, give or take ten seconds.
pub open spec fn whole_hours(f: CivilDateTime, c: CandidateModel) -> bool {
    gap(f, c) % 3600 <= 10
}

/// What an hour shift of at most twelve whole hours settles: under seven hours the name is
/// right; from seven to twelve the candidate is.
pub open spec fn shift_pick(f: CivilDateTime, c: CandidateModel) -> Option<CivilDateTime> {
    if !whole_hours(f, c) {
        None
    } else if gap(f, c) / 3600 < 7 {
        Some(f)
    } else if gap(f, c) / 3600 <= 12 {
        Some(c.ts.datetime)
    } else {
        None
    }
}

/// The three ways of matching, loosest last: the same reading, under a minute apart, and
/// a shift of whole hours.
pub open spec fn in_tier(f: CivilDateTime, c: CandidateModel, tier: int) -> bool {
    if tier == 0 {
        c.ts.datetime == f
    } else if tier == 1 {
        near(f, c)
    } else {
        shift_pick(f, c) is Some
    }
}

/// Index of the first candidate that matches the name's reading in the given way; the length
/// when none does.
pub open spec fn first_in_tier(cs: Seq<CandidateModel>, f: CivilDateTime, tier: int) -> int
    decreases cs.len(),
{
    if cs.len() == 0 {
        0
    } else if in_tier(f, cs[0], tier) {
        0
    } else {
        1 + first_in_tier(cs.drop_first(), f, tier)
    }
}

/// The choice made from metadata alone: a single candidate, or the first when it scores at
/// least twice the second.
pub open spec fn metadata_pick(reals: Seq<CandidateModel>) -> Option<CivilDateTime> {
    if reals.len() == 1 {
        Some(reals[0].ts.datetime)
    } else if reals.len() >= 2 && reals[0].score >= 2 * reals[1].score {
        Some(reals[0].ts.datetime)
    } else {
        None
    }
}

/// The reading the prefix is made from, or `None` when the file is ambiguous.
pub open spec fn decide(cs: Seq<CandidateModel>, name: Option<CivilDateTime>) -> Option<
    CivilDateTime,
> {
    let reals = real_candidates(cs);
    match name {
        None => if reals.len() == 0 {
            if cs.len() > 0 { Some(cs[0].ts.datetime) } else { None }
        } else {
            metadata_pick(reals)
        },
        Some(f) => {
            let exact = first_in_tier(cs, f, 0);
            let close = first_in_tier(cs, f, 1);
            let shift = first_in_tier(cs, f, 2);
            if exact < cs.len() || close < cs.len() {
                Some(f)
            } else if shift < cs.len() {
                shift_pick(f, cs[shift])
            } else if reals.len() == 0 {
                Some(f)
            } else {
                None
            }
        },
    }
}

/// How a file's capture time was settled.
pub enum Resolution {
    /// The reading chosen, and the prefix that encodes it.
    Resolved { at: CivilDateTime, prefix: String },
    /// No safe choice: the metadata candidates and the name's reading, for a person to pick.
    Ambiguous { candidates: Vec<PicTimeStamp>, name_times: Vec<CivilDateTime> },
}

proof fn lemma_first_in_tier(cs: Seq<CandidateModel>, f: CivilDateTime, tier: int, i: int)
    requires
        0 <= i <= cs.len(),
        forall|k: int| 0 <= k < i ==> !in_tier(f, #[trigger] cs[k], tier),
        i == cs.len() || in_tier(f, cs[i], tier),
    ensures
        first_in_tier(cs, f, tier) == i,
    decreases i,
{
    if i > 0 {
        let t = cs.drop_first();
        assert forall|k: int| 0 <= k < i - 1 implies !in_tier(f, #[trigger] t[k], tier) by {
            assert(t[k] == cs[k + 1]);
        }
        lemma_first_in_tier(t, f, tier, i - 1);
    }
}

proof fn lemma_first_in_tier_hits(cs: Seq<CandidateModel>, f: CivilDateTime, tier: int)
    requires
        first_in_tier(cs, f, tier) < cs.len(),
    ensures
        0 <= first_in_tier(cs, f, tier),
        in_tier(f, cs[first_in_tier(cs, f, tier)], tier),
    decreases cs.len(),
{
    if cs.len() > 0 && !in_tier(f, cs[0], tier) {
        lemma_first_in_tier_hits(cs.drop_first(), f, tier);
        assert(cs.drop_first()[first_in_tier(cs.drop_first(), f, tier)] == cs[first_in_tier(cs, f, tier)]);
    }
}

/// The first match is no later than any match.
proof fn lemma_first_in_tier_le(cs: Seq<CandidateModel>, f: CivilDateTime, tier: int, i: int)
    requires
        0 <= i < cs.len(),
        in_tier(f, cs[i], tier),
    ensures
        first_in_tier(cs, f, tier) <= i,
    decreases i,
{
    if i > 0 && !in_tier(f, cs[0], tier) {
        assert(cs.drop_first()[i - 1] == cs[i]);
        lemma_first_in_tier_le(cs.drop_first(), f, tier, i - 1);
    }
}

/// Seconds between two civil readings.
fn civil_gap(a: &CivilDateTime, b: &CivilDateTime) -> (r: i64)
    requires
        a.wf(),
        b.wf(),
    ensures
        r == abs_diff(a.seconds(), b.seconds()),
{
    proof {
        a.lemma_seconds_bounds();
        b.lemma_seconds_bounds();
    }
    let x = a.civil_seconds();
    let y = b.civil_seconds();
    if x >= y {
        x - y
    } else {
        y - x
    }
}

fn same_civil(a: &CivilDateTime, b: &CivilDateTime) -> (r: bool)
    ensures
        r == (*a == *b),
{
    a.year == b.year && a.month == b.month && a.day == b.day && a.hour == b.hour && a.minute
        == b.minute && a.second == b.second
}

/// What an hour shift between the name's reading and a candidate settles.
fn shift_choice(f: &CivilDateTime, c: &PicTimeStamp) -> (r: Option<CivilDateTime>)
    requires
        f.wf(),
        c.ts.wf(),
    ensures
        r == shift_pick(*f, c@),
{
    let g = civil_gap(f, &c.ts.datetime);
    if g % 3600 > 10 {
        None
    } else if g / 3600 < 7 {
        Some(*f)
    } else if g / 3600 <= 12 {
        Some(c.ts.datetime)
    } else {
        None
    }
}

fn tier_holds(f: &CivilDateTime, c: &PicTimeStamp, tier: u8) -> (r: bool)
    requires
        f.wf(),
        c.ts.wf(),
    ensures
        r == in_tier(*f, c@, tier as int),
{
    if tier == 0 {
        same_civil(&c.ts.datetime, f)
    } else if tier == 1 {
        civil_gap(f, &c.ts.datetime) < 60
    } else {
        shift_choice(f, c).is_some()
    }
}

fn find_in_tier(cs: &Vec<PicTimeStamp>, f: &CivilDateTime, tier: u8) -> (r: usize)
    requires
        forall|k: int| 0 <= k < cs@.len() ==> (#[trigger] cs@[k]).ts.wf(),
        f.wf(),
    ensures
        r == first_in_tier(models(cs@), *f, tier as int),
        r <= cs@.len(),
{
    let ghost ms = models(cs@);
    let mut i: usize = 0;
    while i < cs.len()
        invariant
            ms == models(cs@),
            i <= cs@.len(),
            forall|k: int| 0 <= k < cs@.len() ==> (#[trigger] cs@[k]).ts.wf(),
            f.wf(),
            forall|k: int| 0 <= k < i ==> !in_tier(*f, #[trigger] ms[k], tier as int),
        decreases cs.len() - i,
    {
        if tier_holds(f, &cs[i], tier) {
            proof { lemma_first_in_tier(ms, *f, tier as int, i as int); }
            return i;
        }
        i = i + 1;
    }
    proof { lemma_first_in_tier(ms, *f, tier as int, i as int); }
    i
}

/// Whether a candidate is the one made from the earliest file-system time.
pub fn is_file_fallback_candidate(c: &PicTimeStamp) -> (r: bool)
    ensures
        r == is_file_fallback(c@),
{
    if c.tags.len() == 1 && str_eq(c.tags[0].as_str(), FILE_EARLIEST_TAG) {
        assert(c.tag_list() =~= seq![FILE_EARLIEST_TAG@]);
        true
    } else {
        if c.tags.len() == 1 {
            assert(c.tag_list()[0] == c.tags@[0]@);
        }
        assert(c.tag_list().len() == c.tags@.len());
        false
    }
}

/// Drops the candidate made from the earliest file-system time, keeping the order.
pub fn metadata_candidates(cs: Vec<PicTimeStamp>) -> (r: Vec<PicTimeStamp>)
    requires
        forall|k: int| 0 <= k < cs@.len() ==> (#[trigger] cs@[k]).ts.wf(),
    ensures
        models(r@) == real_candidates(models(cs@)),
        forall|k: int| 0 <= k < r@.len() ==> (#[trigger] r@[k]).ts.wf(),
{
    let ghost orig = models(cs@);
    let len0: usize = cs.len();
    let ghost n = cs@.len();
    let mut v = cs;
    let mut res: Vec<PicTimeStamp> = Vec::new();
    let mut i: usize = 0;
    assert(orig.take(0) =~= Seq::<CandidateModel>::empty());
    while v.len() > 0
        invariant
            n == orig.len(),
            n == len0,
            i + v@.len() == n,
            models(v@) =~= orig.skip(i as int),
            models(res@) == real_candidates(orig.take(i as int)),
            forall|k: int| 0 <= k < v@.len() ==> (#[trigger] v@[k]).ts.wf(),
            forall|k: int| 0 <= k < res@.len() ==> (#[trigger] res@[k]).ts.wf(),
        decreases v.len(),
    {
        let ghost vs = v@;
        let ghost rs = models(res@);
        let c = v.remove(0);
        assert(models(vs)[0] == vs[0]@);
        assert(c@ == orig[i as int]);
        proof {
            let t = orig.take(i + 1);
            assert(t.drop_last() =~= orig.take(i as int));
            assert(t.last() == c@);
        }
        if !is_file_fallback_candidate(&c) {
            res.push(c);
            assert(models(res@) =~= rs.push(c@));
        }
        assert forall|k: int| 0 <= k < v@.len() implies models(v@)[k] == orig.skip(i + 1)[k] by {
            assert(v@[k] == vs[k + 1]);
            assert(models(vs)[k + 1] == vs[k + 1]@);
        }
        assert(models(v@) =~= orig.skip(i + 1));
        i = i + 1;
        assert forall|k: int| 0 <= k < v@.len() implies (#[trigger] v@[k]).ts.wf() by {
            assert(v@[k] == vs[k + 1]);
        }
    }
    assert(orig.take(i as int) =~= orig);
    res
}

pub open spec fn name_list(name: Option<CivilDateTime>) -> Seq<CivilDateTime> {
    match name {
        Some(f) => seq![f],
        None => Seq::empty(),
    }
}

proof fn lemma_real_in(cs: Seq<CandidateModel>, k: int)
    requires
        0 <= k < real_candidates(cs).len(),
    ensures
        exists|j: int| 0 <= j < cs.len() && cs[j] == #[trigger] real_candidates(cs)[k],
    decreases cs.len(),
{
    let r = real_candidates(cs.drop_last());
    if !is_file_fallback(cs.last()) && k == r.len() {
        assert(cs[cs.len() - 1] == real_candidates(cs)[k]);
    } else {
        lemma_real_in(cs.drop_last(), k);
        let j = choose|j: int| 0 <= j < cs.drop_last().len() && cs.drop_last()[j] == r[k];
        assert(cs[j] == real_candidates(cs)[k]);
    }
}

/// Settles the capture time of a file from its candidates, highest score first, and the
/// reading found in its name, if any.
pub fn reconcile(cs: Vec<PicTimeStamp>, name: Option<CivilDateTime>) -> (r: Resolution)
    requires
        forall|k: int| 0 <= k < cs@.len() ==> (#[trigger] cs@[k]).ts.wf(),
        name matches Some(f) ==> f.wf(),
    ensures
        match r {
            Resolution::Resolved { at, prefix } => {
                &&& decide(models(cs@), name) == Some(at)
                &&& at.wf()
                &&& prefix@ == prefix_text(at)
            },
            Resolution::Ambiguous { candidates, name_times } => {
                &&& decide(models(cs@), name) is None
                &&& models(candidates@) == real_candidates(models(cs@))
                &&& name_times@ == name_list(name)
            },
        },
{
    let ghost ms = models(cs@);
    let mut picked: Option<CivilDateTime> = None;
    match name {
        Some(f) => {
            let n = cs.len();
            let exact = find_in_tier(&cs, &f, 0);
            let close = find_in_tier(&cs, &f, 1);
            if exact < n || close < n {
                picked = Some(f);
            } else {
                let shift = find_in_tier(&cs, &f, 2);
                if shift < n {
                    proof { lemma_first_in_tier_hits(ms, f, 2); }
                    assert(ms[shift as int] == cs@[shift as int]@);
                    picked = shift_choice(&f, &cs[shift]);
                }
            }
        },
        None => {},
    }
    let first = if cs.len() > 0 {
        Some(cs[0].ts.datetime)
    } else {
        None
    };
    proof {
        if cs@.len() > 0 {
            assert(ms[0] == cs@[0]@);
        }
    }
    let reals = metadata_candidates(cs);
    let ghost rs = models(reals@);
    assert(rs == real_candidates(ms));
    if picked.is_none() {
        match name {
            Some(f) => {
                if reals.len() == 0 {
                    picked = Some(f);
                }
            },
            None => {
                if reals.len() == 0 {
                    picked = first;
                } else if reals.len() == 1 {
                    assert(rs[0] == reals@[0]@);
                    picked = Some(reals[0].ts.datetime);
                } else if reals[0].score as u64 >= 2 * (reals[1].score as u64) {
                    assert(rs[0] == reals@[0]@);
                    assert(rs[1] == reals@[1]@);
                    picked = Some(reals[0].ts.datetime);
                }
            },
        }
    }
    proof {
        match name {
            Some(f) => {
                assert(picked == decide(ms, name));
            },
            None => {
                if rs.len() == 0 {
                    assert(picked == decide(ms, name));
                } else {
                    assert(metadata_pick(rs) == decide(ms, name));
                    assert(picked == metadata_pick(rs));
                }
            },
        }
    }
    match picked {
        Some(at) => {
            let prefix = format_prefix(&at);
            Resolution::Resolved { at, prefix }
        },
        None => {
            let mut name_times: Vec<CivilDateTime> = Vec::new();
            match name {
                Some(f) => name_times.push(f),
                None => {},
            }
            assert(name_times@ =~= name_list(name));
            Resolution::Ambiguous { candidates: reals, name_times }
        },
    }
}

/// When some candidate has exactly the name's reading, the name's reading is chosen, wherever
/// that candidate stands in the order and whatever looser matches come before it.
pub proof fn lemma_exact_match_wins(cs: Seq<CandidateModel>, f: CivilDateTime, i: int)
    requires
        0 <= i < cs.len(),
        cs[i].ts.datetime == f,
    ensures
        decide(cs, Some(f)) == Some(f),
{
    lemma_first_in_tier_le(cs, f, 0, i);
}

/// With no reading in the name and two or more metadata candidates, the first is chosen when
/// it scores at least twice the second, and otherwise the file is ambiguous.
pub proof fn lemma_score_gap_decides(cs: Seq<CandidateModel>)
    requires
        real_candidates(cs).len() >= 2,
    ensures
        ({
            let reals = real_candidates(cs);
            &&& reals[0].score >= 2 * reals[1].score ==> decide(cs, None) == Some(
                reals[0].ts.datetime,
            )
            &&& reals[0].score < 2 * reals[1].score ==> decide(cs, None) is None
        }),
{
}

} // verus!
