//! The candidates that one file's metadata yields, merged as they are recorded.
use crate::datetime::ZonedTime;
use crate::score::{
    capped, tag_score, tag_weight, tags_total, PicTimeStamp, UnknownTag,
};
use vstd::prelude::*;
use vstd::string::*;

verus! {

/// Offset that metadata producers write when no real zone is known (-12:00).
pub const SENTINEL_OFFSET: i32 = -43200;

/// What a candidate is, apart from how its tags are stored.
pub struct CandidateModel {
    pub ts: ZonedTime,
    pub tags: Seq<Seq<char>>,
    pub score: u32,
}

impl View for PicTimeStamp {
    type V = CandidateModel;

    open spec fn view(&self) -> CandidateModel {
        CandidateModel { ts: self.ts, tags: self.tag_list(), score: self.score }
    }
}

/// What a list of candidates is, candidate by candidate.
pub open spec fn models(cs: Seq<PicTimeStamp>) -> Seq<CandidateModel> {
    cs.map_values(|c: PicTimeStamp| c@)
}

pub open spec fn abs_diff(a: int, b: int) -> int {
    if a >= b {
        a - b
    } else {
        b - a
    }
}

/// Two readings are taken for one event seen through a zone error: their instants lie a
/// whole number of hours apart, twelve at most.
pub open spec fn merge_eligible(a: ZonedTime, b: ZonedTime) -> bool {
    let d = abs_diff(a.instant(), b.instant());
    d % 3600 == 0 && d <= 43200
}

/// Index of the first candidate whose reading equals `ts` (`exact`), or may merge with it;
/// the length when there is none.
pub open spec fn first_hit(cs: Seq<CandidateModel>, ts: ZonedTime, exact: bool) -> int
    decreases cs.len(),
{
    if cs.len() == 0 {
        0
    } else if (exact && cs[0].ts == ts) || (!exact && merge_eligible(cs[0].ts, ts)) {
        0
    } else {
        1 + first_hit(cs.drop_first(), ts, exact)
    }
}

pub open spec fn weight(tag: Seq<char>) -> nat {
    tag_weight(tag)->0 as nat
}

/// A candidate with one more tag, scored again.
pub open spec fn with_tag(c: CandidateModel, ts: ZonedTime, tag: Seq<char>) -> CandidateModel {
    CandidateModel { ts, tags: c.tags.push(tag), score: capped(tags_total(c.tags.push(tag))->0) }
}

/// Which reading survives when a tag of reading `ts` joins candidate `c`: the one with the
/// higher score; on a tie the new one, unless its offset is the sentinel.
pub open spec fn surviving_ts(c: CandidateModel, ts: ZonedTime, tag: Seq<char>) -> ZonedTime {
    if weight(tag) > c.score {
        ts
    } else if weight(tag) < c.score {
        c.ts
    } else if ts.offset == SENTINEL_OFFSET {
        c.ts
    } else {
        ts
    }
}

/// The candidates after one tag with reading `ts` is recorded.
pub open spec fn recorded(cs: Seq<CandidateModel>, tag: Seq<char>, ts: ZonedTime) -> Seq<
    CandidateModel,
> {
    let i = first_hit(cs, ts, true);
    let j = first_hit(cs, ts, false);
    if i < cs.len() {
        cs.update(i, with_tag(cs[i], cs[i].ts, tag))
    } else if j < cs.len() {
        cs.update(j, with_tag(cs[j], surviving_ts(cs[j], ts, tag), tag))
    } else {
        cs.push(CandidateModel { ts, tags: seq![tag], score: capped(weight(tag)) })
    }
}

/// Tag of the candidate made from the earliest file-system time.
pub const FILE_EARLIEST_TAG: &'static str = "File Earliest";

/// The candidate made from the earliest file-system time, when metadata gave none.
pub open spec fn file_candidate(f: ZonedTime) -> CandidateModel {
    CandidateModel { ts: f, tags: seq![FILE_EARLIEST_TAG@], score: 1 }
}

pub open spec fn earlier(f: Option<ZonedTime>, ts: ZonedTime) -> ZonedTime {
    match f {
        Some(g) => if ts.instant() < g.instant() { ts } else { g },
        None => ts,
    }
}

/// Where a candidate of the given score goes in a list ordered by score: after every one
/// that scores as much or more.
pub open spec fn insert_pos(s: Seq<CandidateModel>, score: u32) -> int
    decreases s.len(),
{
    if s.len() == 0 {
        0
    } else if s[0].score < score {
        0
    } else {
        1 + insert_pos(s.drop_first(), score)
    }
}

/// The candidates ordered by score, highest first, equal scores kept in their order.
pub open spec fn sorted_by_score(s: Seq<CandidateModel>) -> Seq<CandidateModel>
    decreases s.len(),
{
    if s.len() == 0 {
        s
    } else {
        let r = sorted_by_score(s.drop_last());
        r.insert(insert_pos(r, s.last().score), s.last())
    }
}

/// The list that ends collection: the recorded candidates by score, or else the one the
/// earliest file-system time gives, or else nothing.
pub open spec fn finalized(cs: Seq<CandidateModel>, file: Option<ZonedTime>) -> Option<
    Seq<CandidateModel>,
> {
    if cs.len() > 0 {
        Some(sorted_by_score(cs))
    } else {
        match file {
            Some(f) => Some(seq![file_candidate(f)]),
            None => None,
        }
    }
}

proof fn lemma_insert_pos(s: Seq<CandidateModel>, score: u32, i: int)
    requires
        0 <= i <= s.len(),
        forall|k: int| 0 <= k < i ==> (#[trigger] s[k]).score >= score,
        i == s.len() || s[i].score < score,
    ensures
        insert_pos(s, score) == i,
    decreases i,
{
    if i > 0 {
        let t = s.drop_first();
        assert forall|k: int| 0 <= k < i - 1 implies (#[trigger] t[k]).score >= score by {
            assert(t[k] == s[k + 1]);
        }
        lemma_insert_pos(t, score, i - 1);
    }
}

fn find_pos(v: &Vec<PicTimeStamp>, score: u32) -> (r: usize)
    ensures
        r == insert_pos(models(v@), score),
        r <= v@.len(),
{
    let ghost ms = models(v@);
    let mut i: usize = 0;
    while i < v.len()
        invariant
            ms == models(v@),
            i <= v@.len(),
            forall|k: int| 0 <= k < i ==> (#[trigger] ms[k]).score >= score,
        decreases v.len() - i,
    {
        if v[i].score < score {
            proof { lemma_insert_pos(ms, score, i as int); }
            return i;
        }
        i = i + 1;
    }
    proof { lemma_insert_pos(ms, score, i as int); }
    i
}

/// Orders candidates by score, highest first; equal scores keep their order.
pub fn sort_by_score(v: Vec<PicTimeStamp>) -> (r: Vec<PicTimeStamp>)
    requires
        forall|k: int| 0 <= k < v@.len() ==> (#[trigger] v@[k]).ts.wf(),
    ensures
        models(r@) == sorted_by_score(models(v@)),
        forall|k: int| 0 <= k < r@.len() ==> (#[trigger] r@[k]).ts.wf(),
{
    let ghost orig = models(v@);
    let len0: usize = v.len();
    let ghost n = v@.len();
    assert(n == len0);
    let mut v = v;
    let mut res: Vec<PicTimeStamp> = Vec::new();
    let mut i: usize = 0;
    assert(orig.take(0) =~= Seq::<CandidateModel>::empty());
    while v.len() > 0
        invariant
            n == orig.len(),
            n <= usize::MAX,
            i + v@.len() == n,
            models(v@) =~= orig.skip(i as int),
            models(res@) == sorted_by_score(orig.take(i as int)),
            forall|k: int| 0 <= k < v@.len() ==> (#[trigger] v@[k]).ts.wf(),
            forall|k: int| 0 <= k < res@.len() ==> (#[trigger] res@[k]).ts.wf(),
        decreases v.len(),
    {
        let ghost vs = v@;
        let c = v.remove(0);
        assert(models(vs)[0] == vs[0]@);
        assert(c@ == orig[i as int]);
        assert(vs[0] == c);
        assert(c.ts.wf());
        let ghost rs = models(res@);
        let pos = find_pos(&res, c.score);
        res.insert(pos, c);
        proof {
            let t = orig.take(i + 1);
            assert(t.drop_last() =~= orig.take(i as int));
            assert(t.last() == c@);
            assert(models(res@) =~= rs.insert(pos as int, c@));
        }
        assert forall|k: int| 0 <= k < v@.len() implies models(v@)[k] == orig.skip(i + 1)[k] by {
            assert(v@[k] == vs[k + 1]);
            assert(models(vs)[k + 1] == vs[k + 1]@);
        }
        assert(models(v@) =~= orig.skip(i + 1));
        i = i + 1;
        assert forall|k: int| 0 <= k < v@.len() implies (#[trigger] v@[k]).ts.wf() by {
            assert(v@[k] == vs[k + 1]);
        }
    }
    assert(orig.take(i as int) =~= orig);
    res
}

/// A recorded candidate: a valid reading, at least one tag, and the score its tags weigh.
pub open spec fn candidate_wf(c: PicTimeStamp) -> bool {
    &&& c.ts.wf()
    &&& c.tags@.len() > 0
    &&& tags_total(c.tag_list()) is Some
    &&& c.score == capped(tags_total(c.tag_list())->0)
}

/// Whether two readings are the same instant at the same offset.
pub fn same_reading(a: &ZonedTime, b: &ZonedTime) -> (r: bool)
    ensures
        r == (*a == *b),
{
    a.datetime.year == b.datetime.year && a.datetime.month == b.datetime.month
        && a.datetime.day == b.datetime.day && a.datetime.hour == b.datetime.hour
        && a.datetime.minute == b.datetime.minute && a.datetime.second == b.datetime.second
        && a.offset == b.offset
}

/// Whether two readings may be merged into one candidate.
pub fn may_merge(a: &ZonedTime, b: &ZonedTime) -> (r: bool)
    requires
        a.wf(),
        b.wf(),
    ensures
        r == merge_eligible(*a, *b),
{
    let x = a.instant_seconds();
    let y = b.instant_seconds();
    let d: u64 = if x >= y { (x - y) as u64 } else { (y - x) as u64 };
    d % 3600 == 0 && d <= 43200
}

pub open spec fn hits(c: CandidateModel, ts: ZonedTime, exact: bool) -> bool {
    (exact && c.ts == ts) || (!exact && merge_eligible(c.ts, ts))
}

proof fn lemma_first_hit(cs: Seq<CandidateModel>, ts: ZonedTime, exact: bool, i: int)
    requires
        0 <= i <= cs.len(),
        forall|k: int| 0 <= k < i ==> !hits(#[trigger] cs[k], ts, exact),
        i == cs.len() || hits(cs[i], ts, exact),
    ensures
        first_hit(cs, ts, exact) == i,
    decreases i,
{
    if i > 0 {
        assert(!hits(cs[0], ts, exact));
        let t = cs.drop_first();
        assert forall|k: int| 0 <= k < i - 1 implies !hits(#[trigger] t[k], ts, exact) by {
            assert(t[k] == cs[k + 1]);
        }
        lemma_first_hit(t, ts, exact, i - 1);
    }
}

fn find_hit(cs: &Vec<PicTimeStamp>, ts: &ZonedTime, exact: bool) -> (r: usize)
    requires
        forall|k: int| 0 <= k < cs@.len() ==> (#[trigger] cs@[k]).ts.wf(),
        ts.wf(),
    ensures
        r == first_hit(models(cs@), *ts, exact),
        r <= cs@.len(),
{
    let ghost ms = models(cs@);
    let mut i: usize = 0;
    while i < cs.len()
        invariant
            ms == models(cs@),
            i <= cs@.len(),
            forall|k: int| 0 <= k < cs@.len() ==> (#[trigger] cs@[k]).ts.wf(),
            ts.wf(),
            forall|k: int| 0 <= k < i ==> !hits(#[trigger] ms[k], *ts, exact),
        decreases cs.len() - i,
    {
        let hit = if exact {
            same_reading(&cs[i].ts, ts)
        } else {
            may_merge(&cs[i].ts, ts)
        };
        if hit {
            proof { lemma_first_hit(ms, *ts, exact, i as int); }
            return i;
        }
        i = i + 1;
    }
    proof { lemma_first_hit(ms, *ts, exact, i as int); }
    i
}

/// The candidates gathered from one file's metadata, and the earliest file-system time seen.
pub struct CandidateStore {
    pub candidates: Vec<PicTimeStamp>,
    pub file_earliest: Option<ZonedTime>,
}

impl CandidateStore {
    pub open spec fn wf(&self) -> bool {
        &&& forall|k: int| 0 <= k < self.candidates@.len() ==> candidate_wf(#[trigger] self.candidates@[k])
        &&& self.file_earliest matches Some(f) ==> f.wf()
    }

    pub open spec fn model(&self) -> Seq<CandidateModel> {
        models(self.candidates@)
    }

    /// Keeps a file-system time when it is earlier than every one seen before.
    pub fn record_file_time(&mut self, ts: ZonedTime)
        requires
            old(self).wf(),
            ts.wf(),
        ensures
            final(self).wf(),
            final(self).model() == old(self).model(),
            final(self).file_earliest == Some(earlier(old(self).file_earliest, ts)),
    {
        match self.file_earliest {
            Some(f) => {
                if ts.instant_seconds() < f.instant_seconds() {
                    self.file_earliest = Some(ts);
                }
            },
            None => {
                self.file_earliest = Some(ts);
            },
        }
    }

    /// The candidates, highest score first and equal scores in the order they were first
    /// recorded; with none recorded, the one that the earliest file-system time gives.
    pub fn finalize(self) -> (r: Option<Vec<PicTimeStamp>>)
        requires
            self.wf(),
        ensures
            r is Some <==> finalized(self.model(), self.file_earliest) is Some,
            r matches Some(v) ==> models(v@) == finalized(self.model(), self.file_earliest)->0,
            r matches Some(v) ==> forall|k: int| 0 <= k < v@.len() ==> (#[trigger] v@[k]).ts.wf(),
    {
        if self.candidates.len() == 0 {
            match self.file_earliest {
                Some(f) => {
                    let c = PicTimeStamp {
                        ts: f,
                        tags: vec![String::from_str(FILE_EARLIEST_TAG)],
                        score: 1,
                    };
                    let v = vec![c];
                    assert(c.tag_list() =~= seq![FILE_EARLIEST_TAG@]);
                    assert(models(v@) =~= seq![file_candidate(f)]);
                    Some(v)
                },
                None => None,
            }
        } else {
            assert forall|k: int| 0 <= k < self.candidates@.len() implies (#[trigger] self.candidates@[k]).ts.wf() by {
                assert(candidate_wf(self.candidates@[k]));
            }
            Some(sort_by_score(self.candidates))
        }
    }

    /// A store with no candidates and no file-system time.
    pub fn new() -> (r: CandidateStore)
        ensures
            r.wf(),
            r.model().len() == 0,
            r.file_earliest is None,
    {
        CandidateStore { candidates: Vec::new(), file_earliest: None }
    }

    /// Adds a tag that gave the reading `ts`: to the candidate with that very reading, else to
    /// the first one it may merge with, else as a new candidate.
    pub fn record(&mut self, tag: String, ts: ZonedTime) -> (r: Result<(), UnknownTag>)
        requires
            old(self).wf(),
            ts.wf(),
        ensures
            final(self).wf(),
            final(self).file_earliest == old(self).file_earliest,
            r is Ok <==> tag_weight(tag@) is Some,
            r is Ok ==> final(self).model() == recorded(old(self).model(), tag@, ts),
            r is Err ==> final(self).model() == old(self).model(),
            r matches Err(e) ==> e.tag@ == tag@,
    {
        let w = match tag_score(tag.as_str()) {
            Some(w) => w,
            None => {
                return Err(UnknownTag { tag });
            },
        };
        let ghost ms = self.model();
        assert forall|k: int| 0 <= k < self.candidates@.len() implies (#[trigger] self.candidates@[k]).ts.wf() by {
            assert(candidate_wf(self.candidates@[k]));
        }
        let i = find_hit(&self.candidates, &ts, true);
        let j = find_hit(&self.candidates, &ts, false);
        let n = self.candidates.len();
        if i < n || j < n {
            let k = if i < n { i } else { j };
            let mut c = self.candidates.remove(k);
            assert(c == old(self).candidates@[k as int]);
            assert(candidate_wf(c));
            let keep = if i < n {
                c.ts
            } else if w > c.score {
                ts
            } else if w < c.score {
                c.ts
            } else if ts.offset == SENTINEL_OFFSET {
                c.ts
            } else {
                ts
            };
            let ghost before = c@;
            c.ts = keep;
            c.tags.push(tag);
            assert(c.tag_list() =~= before.tags.push(tag@));
            assert(c.tag_list().drop_last() =~= before.tags);
            let res = c.rescore();
            assert(res is Ok);
            assert(c@ == with_tag(before, keep, tag@));
            self.candidates.insert(k, c);
            assert(self.model() =~= ms.update(k as int, c@));
            assert forall|x: int| 0 <= x < self.candidates@.len() implies candidate_wf(#[trigger] self.candidates@[x]) by {
                if x != k {
                    assert(self.candidates@[x] == old(self).candidates@[x]);
                } else {
                    assert(self.candidates@[x] == c);
                    assert(c.ts.wf());
                    assert(c.tags@.len() > 0);
                    assert(tags_total(c.tag_list()) is Some);
                }
            }
        } else {
            let c = PicTimeStamp { ts, tags: vec![tag], score: w };
            assert(c.tag_list() =~= seq![tag@]);
            assert(c.tag_list().drop_last() =~= Seq::<Seq<char>>::empty());
            assert(tags_total(Seq::<Seq<char>>::empty()) == Some(0nat));
            assert(tags_total(c.tag_list()) == Some(w as nat));
            assert(w <= 5);
            self.candidates.push(c);
            assert(self.model() =~= ms.push(c@));
            assert forall|x: int| 0 <= x < self.candidates@.len() implies candidate_wf(#[trigger] self.candidates@[x]) by {
                if x < old(self).candidates@.len() {
                    assert(self.candidates@[x] == old(self).candidates@[x]);
                } else {
                    assert(self.candidates@[x] == c);
                }
            }
        }
        Ok(())
    }
}

/// Recording, into an empty store, two known tags whose readings lie a whole number of hours
/// apart (twelve at most) gives one candidate in either order: it holds both tags, and its score
/// is the sum of their weights.
pub proof fn lemma_merge_commutes(a: Seq<char>, ta: ZonedTime, b: Seq<char>, tb: ZonedTime)
    requires
        tag_weight(a) is Some,
        tag_weight(b) is Some,
        merge_eligible(ta, tb),
    ensures
        ({
            let ab = recorded(recorded(Seq::empty(), a, ta), b, tb);
            let ba = recorded(recorded(Seq::empty(), b, tb), a, ta);
            &&& ab.len() == 1
            &&& ba.len() == 1
            &&& ab[0].tags == seq![a, b]
            &&& ba[0].tags == seq![b, a]
            &&& ab[0].tags.to_set() == ba[0].tags.to_set()
            &&& ab[0].score == weight(a) + weight(b)
            &&& ba[0].score == weight(a) + weight(b)
        }),
{
    lemma_merge_pair(a, ta, b, tb);
    lemma_merge_pair(b, tb, a, ta);
    let ab = recorded(recorded(Seq::empty(), a, ta), b, tb);
    let ba = recorded(recorded(Seq::empty(), b, tb), a, ta);
    assert(ab[0].tags.to_set() =~= ba[0].tags.to_set()) by {
        assert(ab[0].tags.to_set() =~= set![a, b]) by {
            assert forall|x| ab[0].tags.contains(x) <==> (x == a || x == b) by {
                if x == b {
                    assert(ab[0].tags[1] == b);
                }
                if x == a {
                    assert(ab[0].tags[0] == a);
                }
            }
        }
        assert(ba[0].tags.to_set() =~= set![a, b]) by {
            assert forall|x| ba[0].tags.contains(x) <==> (x == a || x == b) by {
                if x == b {
                    assert(ba[0].tags[0] == b);
                }
                if x == a {
                    assert(ba[0].tags[1] == a);
                }
            }
        }
    }
}

proof fn lemma_merge_pair(a: Seq<char>, ta: ZonedTime, b: Seq<char>, tb: ZonedTime)
    requires
        tag_weight(a) is Some,
        tag_weight(b) is Some,
        merge_eligible(ta, tb),
    ensures
        ({
            let ab = recorded(recorded(Seq::empty(), a, ta), b, tb);
            &&& ab.len() == 1
            &&& ab[0].tags == seq![a, b]
            &&& ab[0].score == weight(a) + weight(b)
        }),
{
    let e = Seq::<CandidateModel>::empty();
    assert(first_hit(e, ta, true) == 0);
    assert(first_hit(e, ta, false) == 0);
    let one = recorded(e, a, ta);
    let c = CandidateModel { ts: ta, tags: seq![a], score: capped(weight(a)) };
    assert(one =~= seq![c]);
    assert(one.drop_first() =~= e);
    assert(first_hit(one.drop_first(), tb, true) == 0);
    assert(first_hit(one.drop_first(), tb, false) == 0);
    assert(merge_eligible(c.ts, tb));
    assert(first_hit(one, tb, false) == 0);
    let tags = seq![a].push(b);
    assert(tags =~= seq![a, b]);
    assert(tags.drop_last() =~= seq![a]);
    assert(seq![a].drop_last() =~= Seq::<Seq<char>>::empty());
    assert(tags_total(Seq::<Seq<char>>::empty()) == Some(0nat));
    assert(tags_total(seq![a]) == Some(weight(a)));
    assert(tags_total(tags) == Some(weight(a) + weight(b)));
}

/// Two tags whose readings lie a fraction of an hour apart stay two candidates.
pub proof fn lemma_fraction_of_hour_keeps_apart(a: Seq<char>, ta: ZonedTime, b: Seq<char>, tb: ZonedTime)
    requires
        abs_diff(ta.instant(), tb.instant()) % 3600 != 0,
    ensures
        recorded(recorded(Seq::empty(), a, ta), b, tb).len() == 2,
{
    let e = Seq::<CandidateModel>::empty();
    assert(first_hit(e, ta, true) == 0);
    assert(first_hit(e, ta, false) == 0);
    let one = recorded(e, a, ta);
    let c = CandidateModel { ts: ta, tags: seq![a], score: capped(weight(a)) };
    assert(one =~= seq![c]);
    assert(one.drop_first() =~= e);
    assert(first_hit(one.drop_first(), tb, true) == 0);
    assert(first_hit(one.drop_first(), tb, false) == 0);
    assert(c.ts != tb);
    assert(!merge_eligible(c.ts, tb));
    assert(first_hit(one, tb, true) == 1);
    assert(first_hit(one, tb, false) == 1);
}

} // verus!
