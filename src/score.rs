//! Trust weights of metadata tags, and the candidates they add up to.
use crate::datetime::ZonedTime;
use vstd::prelude::*;
use vstd::string::*;

verus! {

/// The closed table of tag weights: `None` for a tag the table does not hold.
/// A tag that carries only a date or only a time weighs nothing.
pub open spec fn tag_weight(t: Seq<char>) -> Option<u32> {
    if t == "Composite SubSecDateTimeOriginal"@ {
        Some(5)
    } else if t == "Composite SubSecCreateDate"@ {
        Some(5)
    } else if t == "Composite SubSecModifyDate"@ {
        Some(3)
    } else if t == "Composite DateTimeCreated"@ {
        Some(5)
    } else if t == "Composite DigitalCreationDateTime"@ {
        Some(5)
    } else if t == "EXIF ModifyDate"@ {
        Some(3)
    } else if t == "EXIF CreateDate"@ {
        Some(3)
    } else if t == "EXIF DateTimeOriginal"@ {
        Some(5)
    } else if t == "Composite GPSDateTime"@ {
        Some(3)
    } else if t == "XMP GPSDateTime"@ {
        Some(3)
    } else if t == "XMP CreationDate"@ {
        Some(3)
    } else if t == "XMP CreateDate"@ {
        Some(3)
    } else if t == "XMP DateCreated"@ {
        Some(3)
    } else if t == "XMP ModifyDate"@ {
        Some(3)
    } else if t == "ASF CreationDate"@ {
        Some(3)
    } else if t == "QuickTime DateTimeOriginal"@ {
        Some(3)
    } else if t == "QuickTime ContentCreateDate"@ {
        Some(3)
    } else if t == "QuickTime CreateDate"@ {
        Some(3)
    } else if t == "QuickTime CreationDate"@ {
        Some(3)
    } else if t == "QuickTime CreationDate-und-US"@ {
        Some(3)
    } else if t == "QuickTime MediaCreateDate"@ {
        Some(3)
    } else if t == "QuickTime MediaModifyDate"@ {
        Some(1)
    } else if t == "QuickTime ModifyDate"@ {
        Some(1)
    } else if t == "QuickTime TrackCreateDate"@ {
        Some(1)
    } else if t == "QuickTime TrackModifyDate"@ {
        Some(1)
    } else if t == "IPTC DateCreated"@ {
        Some(0)
    } else if t == "RIFF DateTimeOriginal"@ {
        Some(1)
    } else if t == "XMP HistoryWhen"@ {
        Some(1)
    } else if t == "XMP MetadataDate"@ {
        Some(1)
    } else if t == "PNG ModifyDate"@ {
        Some(1)
    } else if t == "IPTC DigitalCreationDate"@ {
        Some(0)
    } else if t == "IPTC DigitalCreationTime"@ {
        Some(0)
    } else if t == "IPTC TimeCreated"@ {
        Some(0)
    } else {
        None
    }
}

/// Every tag name that the weight table holds.
pub open spec fn scored_tag_names() -> Seq<Seq<char>> {
    seq![
        "Composite SubSecDateTimeOriginal"@,
        "Composite SubSecCreateDate"@,
        "Composite SubSecModifyDate"@,
        "Composite DateTimeCreated"@,
        "Composite DigitalCreationDateTime"@,
        "EXIF ModifyDate"@,
        "EXIF CreateDate"@,
        "EXIF DateTimeOriginal"@,
        "Composite GPSDateTime"@,
        "XMP GPSDateTime"@,
        "XMP CreationDate"@,
        "XMP CreateDate"@,
        "XMP DateCreated"@,
        "XMP ModifyDate"@,
        "ASF CreationDate"@,
        "QuickTime DateTimeOriginal"@,
        "QuickTime ContentCreateDate"@,
        "QuickTime CreateDate"@,
        "QuickTime CreationDate"@,
        "QuickTime CreationDate-und-US"@,
        "QuickTime MediaCreateDate"@,
        "QuickTime MediaModifyDate"@,
        "QuickTime ModifyDate"@,
        "QuickTime TrackCreateDate"@,
        "QuickTime TrackModifyDate"@,
        "IPTC DateCreated"@,
        "RIFF DateTimeOriginal"@,
        "XMP HistoryWhen"@,
        "XMP MetadataDate"@,
        "PNG ModifyDate"@,
        "IPTC DigitalCreationDate"@,
        "IPTC DigitalCreationTime"@,
        "IPTC TimeCreated"@,
    ]
}

/// Every tag of the table has a weight: looking one up never fails.
pub proof fn lemma_scored_tags_have_weight(i: int)
    requires
        0 <= i < scored_tag_names().len(),
    ensures
        tag_weight(scored_tag_names()[i]) is Some,
{
}

/// Whether two strings hold the same characters.
pub fn str_eq(a: &str, b: &str) -> (r: bool)
    ensures
        r == (a@ == b@),
{
    let n = a.unicode_len();
    if n != b.unicode_len() {
        return false;
    }
    let mut i: usize = 0;
    while i < n
        invariant
            n == a@.len(),
            n == b@.len(),
            i <= n,
            forall|j: int| 0 <= j < i ==> a@[j] == b@[j],
        decreases n - i,
    {
        if a.get_char(i) != b.get_char(i) {
            return false;
        }
        i = i + 1;
    }
    assert(a@ =~= b@);
    true
}

/// The weight of a tag, or `None` when the table does not hold it.
pub fn tag_score(tag: &str) -> (r: Option<u32>)
    ensures
        r == tag_weight(tag@),
{
    if str_eq(tag, "Composite SubSecDateTimeOriginal") {
        Some(5)
    } else if str_eq(tag, "Composite SubSecCreateDate") {
        Some(5)
    } else if str_eq(tag, "Composite SubSecModifyDate") {
        Some(3)
    } else if str_eq(tag, "Composite DateTimeCreated") {
        Some(5)
    } else if str_eq(tag, "Composite DigitalCreationDateTime") {
        Some(5)
    } else if str_eq(tag, "EXIF ModifyDate") {
        Some(3)
    } else if str_eq(tag, "EXIF CreateDate") {
        Some(3)
    } else if str_eq(tag, "EXIF DateTimeOriginal") {
        Some(5)
    } else if str_eq(tag, "Composite GPSDateTime") {
        Some(3)
    } else if str_eq(tag, "XMP GPSDateTime") {
        Some(3)
    } else if str_eq(tag, "XMP CreationDate") {
        Some(3)
    } else if str_eq(tag, "XMP CreateDate") {
        Some(3)
    } else if str_eq(tag, "XMP DateCreated") {
        Some(3)
    } else if str_eq(tag, "XMP ModifyDate") {
        Some(3)
    } else if str_eq(tag, "ASF CreationDate") {
        Some(3)
    } else if str_eq(tag, "QuickTime DateTimeOriginal") {
        Some(3)
    } else if str_eq(tag, "QuickTime ContentCreateDate") {
        Some(3)
    } else if str_eq(tag, "QuickTime CreateDate") {
        Some(3)
    } else if str_eq(tag, "QuickTime CreationDate") {
        Some(3)
    } else if str_eq(tag, "QuickTime CreationDate-und-US") {
        Some(3)
    } else if str_eq(tag, "QuickTime MediaCreateDate") {
        Some(3)
    } else if str_eq(tag, "QuickTime MediaModifyDate") {
        Some(1)
    } else if str_eq(tag, "QuickTime ModifyDate") {
        Some(1)
    } else if str_eq(tag, "QuickTime TrackCreateDate") {
        Some(1)
    } else if str_eq(tag, "QuickTime TrackModifyDate") {
        Some(1)
    } else if str_eq(tag, "IPTC DateCreated") {
        Some(0)
    } else if str_eq(tag, "RIFF DateTimeOriginal") {
        Some(1)
    } else if str_eq(tag, "XMP HistoryWhen") {
        Some(1)
    } else if str_eq(tag, "XMP MetadataDate") {
        Some(1)
    } else if str_eq(tag, "PNG ModifyDate") {
        Some(1)
    } else if str_eq(tag, "IPTC DigitalCreationDate") {
        Some(0)
    } else if str_eq(tag, "IPTC DigitalCreationTime") {
        Some(0)
    } else if str_eq(tag, "IPTC TimeCreated") {
        Some(0)
    } else {
        None
    }
}

/// The summed weight of a list of tags, or `None` when one of them is not in the table.
pub open spec fn tags_total(tags: Seq<Seq<char>>) -> Option<nat>
    decreases tags.len(),
{
    if tags.len() == 0 {
        Some(0)
    } else {
        match (tags_total(tags.drop_last()), tag_weight(tags.last())) {
            (Some(s), Some(w)) => Some(s + w as nat),
            _ => None,
        }
    }
}

/// A sum of weights as a score: it stops at the largest `u32`.
pub open spec fn capped(n: nat) -> u32 {
    if n > u32::MAX {
        u32::MAX
    } else {
        n as u32
    }
}

pub open spec fn tag_texts(tags: Seq<String>) -> Seq<Seq<char>> {
    tags.map_values(|t: String| t@)
}

/// A tag that the weight table does not hold.
#[derive(Clone, Debug, PartialEq, Eq)]
pub struct UnknownTag {
    pub tag: String,
}

/// One instant seen in the metadata, with the tags that gave it and their summed weight.
#[derive(Clone, Debug)]
pub struct PicTimeStamp {
    pub ts: ZonedTime,
    pub tags: Vec<String>,
    pub score: u32,
}

impl PicTimeStamp {
    pub open spec fn tag_list(&self) -> Seq<Seq<char>> {
        tag_texts(self.tags@)
    }

    /// The score is the summed weight of the tags.
    pub open spec fn scored(&self) -> bool {
        tags_total(self.tag_list()) == Some(self.score as nat)
            || (tags_total(self.tag_list()) matches Some(n) && n > u32::MAX && self.score == u32::MAX)
    }

    /// Sets the score to the summed weight of the tags; fails on a tag the table does not hold,
    /// and then changes nothing.
    pub fn rescore(&mut self) -> (r: Result<(), UnknownTag>)
        ensures
            final(self).ts == old(self).ts,
            final(self).tags@ == old(self).tags@,
            r is Ok <==> tags_total(old(self).tag_list()) is Some,
            r is Ok ==> final(self).score == capped(tags_total(old(self).tag_list())->0),
            r is Err ==> final(self).score == old(self).score,
            r matches Err(e) ==> tag_weight(e.tag@) is None && old(self).tag_list().contains(e.tag@),
    {
        let ghost names = self.tag_list();
        let mut total: u32 = 0;
        let mut i: usize = 0;
        while i < self.tags.len()
            invariant
                names == self.tag_list(),
                i <= names.len(),
                tags_total(names.take(i as int)) matches Some(n) && total == capped(n),
            decreases self.tags.len() - i,
        {
            assert(names.take(i + 1).drop_last() =~= names.take(i as int));
            let w = tag_score(self.tags[i].as_str());
            match w {
                Some(w) => {
                    total = if total > u32::MAX - w { u32::MAX } else { total + w };
                },
                None => {
                    assert(tags_total(names.take(i + 1)) is None);
                    proof { lemma_total_none_extends(names, i as int + 1); }
                    assert(names[i as int] == self.tags@[i as int]@);
                    return Err(UnknownTag { tag: self.tags[i].clone() });
                },
            }
            i = i + 1;
        }
        assert(names.take(i as int) =~= names);
        self.score = total;
        Ok(())
    }
}

proof fn lemma_total_none_extends(names: Seq<Seq<char>>, k: int)
    requires
        0 <= k <= names.len(),
        tags_total(names.take(k)) is None,
    ensures
        tags_total(names) is None,
    decreases names.len() - k,
{
    if k < names.len() {
        assert(names.take(k + 1).drop_last() =~= names.take(k));
        lemma_total_none_extends(names, k + 1);
    } else {
        assert(names.take(k) =~= names);
    }
}

} // verus!
