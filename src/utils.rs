//! Date labels, the default extension table and the type classifier.
use vstd::prelude::*;
use vstd::string::StrSliceExecFns;
use vstd::string::StringExecFns;

verus! {

/// Which timestamp of an entry names its destination folder.
#[derive(Clone, Copy, Debug, PartialEq, Eq, Structural)]
pub enum AccumulateType {
    Created,
    Modified,
}

/// The day label (`YYYY-MM-DD`, UTC) of a number of seconds since the Unix
/// epoch, or `None` where the date cannot be represented.
pub uninterp spec fn utc_day_label(secs: int) -> Option<Seq<char>>;

/// Seconds on either side of the epoch within which every instant has a day
/// label (about 253,000 years).
pub const LABEL_RANGE_SECS: i64 = 8_000_000_000_000;

/// The first second of the year 0 (0000-01-01T00:00:00Z).
pub const YEAR_0_START_SECS: i64 = -62_167_219_200;

/// The last second of the year 9999 (9999-12-31T23:59:59Z).
pub const YEAR_9999_END_SECS: i64 = 253_402_300_799;

/// Whether `s` has the shape `YYYY-MM-DD`: ten characters, digits but for the
/// dashes at positions 4 and 7.
pub open spec fn is_day_label_shape(s: Seq<char>) -> bool {
    &&& s.len() == 10
    &&& s[4] == '-'
    &&& s[7] == '-'
    &&& forall|i: int| 0 <= i < 10 && i != 4 && i != 7 ==> '0' <= #[trigger] s[i] <= '9'
}

/// Relies on chrono's `DateTime::<Utc>::from_timestamp` (which returns `None`
/// only outside years -262143..=262142) and on `format("%Y-%m-%d")`, which
/// writes a year of 0..=9999 as four zero-padded digits and month and day as
/// two: the label depends on the number of seconds alone.
#[verifier::external_body]
fn format_utc_day(secs: i64) -> (r: Option<String>)
    ensures
        r is Some <==> utc_day_label(secs as int) is Some,
        r matches Some(s) ==> utc_day_label(secs as int) == Some(s@),
        -LABEL_RANGE_SECS <= secs <= LABEL_RANGE_SECS ==> r is Some,
        YEAR_0_START_SECS <= secs <= YEAR_9999_END_SECS ==> r is Some,
        r matches Some(s) ==> (YEAR_0_START_SECS <= secs <= YEAR_9999_END_SECS ==> is_day_label_shape(s@)),
{
    match chrono::DateTime::from_timestamp(secs, 0) {
        Some(t) => Some(t.format("%Y-%m-%d").to_string()),
        None => None,
    }
}

/// What a string is after case folding.
pub uninterp spec fn lower_of(s: Seq<char>) -> Seq<char>;

/// Relies on `str::to_lowercase`: the result depends on the characters alone.
#[verifier::external_body]
fn lowercase(s: &str) -> (r: String)
    ensures
        r@ == lower_of(s@),
{
    s.to_lowercase()
}

/// The day label of a timestamp, where it has one.
pub fn day_label(secs: i64) -> (r: Option<String>)
    ensures
        r is Some <==> utc_day_label(secs as int) is Some,
        r matches Some(s) ==> utc_day_label(secs as int) == Some(s@),
        -LABEL_RANGE_SECS <= secs <= LABEL_RANGE_SECS ==> r is Some,
        YEAR_0_START_SECS <= secs <= YEAR_9999_END_SECS ==> r is Some,
        r matches Some(s) ==> (YEAR_0_START_SECS <= secs <= YEAR_9999_END_SECS ==> is_day_label_shape(s@)),
{
    format_utc_day(secs)
}

/// One entry of a directory listing, as read once when the directory was
/// listed: its base name, whether it is a directory, and its two timestamps in
/// seconds since the Unix epoch (`None` where the filesystem could not give
/// one).
#[derive(Clone, Debug)]
pub struct CandidateEntry {
    pub name: String,
    pub is_dir: bool,
    pub created: Option<i64>,
    pub modified: Option<i64>,
}

/// The timestamp of `e` that `kind` selects.
pub open spec fn stamp_of(e: CandidateEntry, kind: AccumulateType) -> Option<i64> {
    match kind {
        AccumulateType::Created => e.created,
        AccumulateType::Modified => e.modified,
    }
}

/// The day label of `e` under `kind`, where its timestamp is known and has one.
pub open spec fn entry_day(e: CandidateEntry, kind: AccumulateType) -> Option<Seq<char>> {
    match stamp_of(e, kind) {
        Some(secs) => utc_day_label(secs as int),
        None => None,
    }
}

/// The day label of an entry under the chosen timestamp.
pub fn get_accumulated_date(entry: &CandidateEntry, accumulate_type: AccumulateType) -> (r: Option<
    String,
>)
    ensures
        r is Some <==> entry_day(*entry, accumulate_type) is Some,
        r matches Some(s) ==> entry_day(*entry, accumulate_type) == Some(s@),
{
    let stamp = match accumulate_type {
        AccumulateType::Created => entry.created,
        AccumulateType::Modified => entry.modified,
    };
    match stamp {
        Some(secs) => day_label(secs),
        None => None,
    }
}

// ----- extension table -----

/// Looks a key up in a list of pairs; the last pair with that key wins.
pub open spec fn lookup_pairs(s: Seq<(String, String)>, k: Seq<char>) -> Option<Seq<char>>
    decreases s.len(),
{
    if s.len() == 0 {
        None
    } else if s.last().0@ == k {
        Some(s.last().1@)
    } else {
        lookup_pairs(s.drop_last(), k)
    }
}

/// A mapping from file extensions (lower case, as listed in the table) to the
/// category that each belongs to. Many extensions may share one category; an
/// extension has one category at most.
///
/// Held as a list of pairs rather than a `HashMap`: vstd's hash-map
/// specification applies only to key types that obey its key model, which it
/// grants to integer and other primitive types but not to `String`, so no
/// lookup by a `String` key could be proved.
pub struct FileSplitMap {
    entries: Vec<(String, String)>,
}

impl View for FileSplitMap {
    type V = Map<Seq<char>, Seq<char>>;

    closed spec fn view(&self) -> Map<Seq<char>, Seq<char>> {
        Map::new(
            |k: Seq<char>| lookup_pairs(self.entries@, k) is Some,
            |k: Seq<char>| lookup_pairs(self.entries@, k)->0,
        )
    }
}

impl FileSplitMap {
    /// An empty mapping.
    pub fn new() -> (r: FileSplitMap)
        ensures
            r@ == Map::<Seq<char>, Seq<char>>::empty(),
    {
        let r = FileSplitMap { entries: Vec::new() };
        assert(r@ =~= Map::<Seq<char>, Seq<char>>::empty());
        r
    }

    /// Maps `extension` to `category`, replacing what it was mapped to.
    pub fn insert(&mut self, extension: String, category: String)
        ensures
            final(self)@ == old(self)@.insert(extension@, category@),
    {
        let ghost k = extension@;
        let ghost v = category@;
        self.entries.push((extension, category));
        assert(self.entries@.drop_last() == old(self).entries@);
        assert(self@ =~= old(self)@.insert(k, v));
    }

    /// The category of `extension`, if it has one.
    pub fn get(&self, extension: &String) -> (r: Option<String>)
        ensures
            r is Some <==> self@.contains_key(extension@),
            r matches Some(c) ==> c@ == self@[extension@],
    {
        let mut i = self.entries.len();
        assert(self.entries@.take(i as int) == self.entries@);
        while i > 0
            invariant
                i <= self.entries@.len(),
                lookup_pairs(self.entries@, extension@) == lookup_pairs(
                    self.entries@.take(i as int),
                    extension@,
                ),
            decreases i,
        {
            let ghost s = self.entries@.take(i as int);
            assert(s.drop_last() == self.entries@.take(i - 1));
            if self.entries[i - 1].0 == *extension {
                assert(s.last() == self.entries@[i - 1]);
                return Some(self.entries[i - 1].1.clone());
            }
            i = i - 1;
        }
        None
    }
}

/// The default category table, as category and the extensions it takes.
pub open spec fn default_labels_model() -> Seq<(Seq<char>, Seq<Seq<char>>)> {
    seq![
        ("video"@, seq![".mp4"@, ".srt"@, ".xml"@, ".mov"@, "insv"@]),
        ("image"@, seq![".png"@, ".jpg"@, ".jpeg"@, ".arw"@, ".bmp"@, ".tiff"@]),
    ]
}

/// The extensions of `labels`, each mapped to its category; where an
/// extension is listed twice, the later category.
pub open spec fn split_map_of(labels: Seq<(Seq<char>, Seq<Seq<char>>)>) -> Map<Seq<char>, Seq<char>>
    decreases labels.len(),
{
    if labels.len() == 0 {
        Map::empty()
    } else {
        let m = split_map_of(labels.drop_last());
        insert_all(m, labels.last().1, labels.last().0)
    }
}

/// `m` with each of `keys` mapped to `v`.
pub open spec fn insert_all(m: Map<Seq<char>, Seq<char>>, keys: Seq<Seq<char>>, v: Seq<char>) -> Map<
    Seq<char>,
    Seq<char>,
>
    decreases keys.len(),
{
    if keys.len() == 0 {
        m
    } else {
        insert_all(m, keys.drop_last(), v).insert(keys.last(), v)
    }
}

fn strings(items: &[&str]) -> (r: Vec<String>)
    ensures
        r@.len() == items@.len(),
        forall|j: int| 0 <= j < items@.len() ==> r@[j]@ == items@[j]@,
{
    let mut r: Vec<String> = Vec::new();
    let mut i: usize = 0;
    while i < items.len()
        invariant
            i <= items@.len(),
            r@.len() == i,
            forall|j: int| 0 <= j < i ==> r@[j]@ == items@[j]@,
        decreases items@.len() - i,
    {
        r.push(String::from_str(items[i]));
        i = i + 1;
    }
    r
}

/// The default categories and the extensions that each one takes.
pub fn get_default_file_labels() -> (r: Vec<(String, Vec<String>)>)
    ensures
        r.deep_view() == default_labels_model(),
{
    let video_files = strings(&[".mp4", ".srt", ".xml", ".mov", "insv"]);
    let image_files = strings(&[".png", ".jpg", ".jpeg", ".arw", ".bmp", ".tiff"]);
    assert(video_files.deep_view() =~= default_labels_model()[0].1);
    assert(image_files.deep_view() =~= default_labels_model()[1].1);
    let r = vec![
        (String::from_str("video"), video_files),
        (String::from_str("image"), image_files),
    ];
    assert(r.deep_view() =~= default_labels_model());
    r
}

/// Maps every extension of `labels` to its category.
pub fn split_map_from(labels: &Vec<(String, Vec<String>)>) -> (r: FileSplitMap)
    ensures
        r@ == split_map_of(labels.deep_view()),
{
    let mut r = FileSplitMap::new();
    let mut i: usize = 0;
    while i < labels.len()
        invariant
            i <= labels@.len(),
            r@ == split_map_of(labels.deep_view().take(i as int)),
        decreases labels@.len() - i,
    {
        let ghost before = r@;
        let label = &labels[i].0;
        let files = &labels[i].1;
        let mut j: usize = 0;
        while j < files.len()
            invariant
                i < labels@.len(),
                files == labels@[i as int].1,
                label == labels@[i as int].0,
                j <= files@.len(),
                r@ == insert_all(before, files.deep_view().take(j as int), label@),
            decreases files@.len() - j,
        {
            r.insert(files[j].clone(), label.clone());
            assert(files.deep_view().take(j + 1).drop_last() == files.deep_view().take(j as int));
            j = j + 1;
        }
        assert(files.deep_view().take(j as int) == files.deep_view());
        assert(labels.deep_view().take(i + 1).drop_last() == labels.deep_view().take(i as int));
        i = i + 1;
    }
    assert(labels.deep_view().take(i as int) == labels.deep_view());
    r
}

/// The default table: each extension of [`get_default_file_labels`] mapped to
/// its category.
pub fn get_default_file_split_map() -> (r: FileSplitMap)
    ensures
        r@ == split_map_of(default_labels_model()),
{
    let labels = get_default_file_labels();
    split_map_from(&labels)
}

// ----- type classifier -----

/// The position of the last `.` in `s`, or -1.
pub open spec fn last_dot(s: Seq<char>) -> int
    decreases s.len(),
{
    if s.len() == 0 {
        -1
    } else if s.last() == '.' {
        s.len() - 1
    } else {
        last_dot(s.drop_last())
    }
}

proof fn lemma_last_dot_bounds(s: Seq<char>)
    ensures
        -1 <= last_dot(s) < s.len(),
        last_dot(s) >= 0 ==> s[last_dot(s)] == '.',
    decreases s.len(),
{
    if s.len() > 0 && s.last() != '.' {
        lemma_last_dot_bounds(s.drop_last());
    }
}

/// A file name's extension: from its last `.` to the end, where that `.` is
/// not the name's first character.
pub open spec fn extension_of(name: Seq<char>) -> Option<Seq<char>> {
    let d = last_dot(name);
    if d > 0 {
        Some(name.subrange(d, name.len() as int))
    } else {
        None
    }
}

/// The category that `map` gives a case-folded extension, or `misc`.
pub open spec fn category_of(map: Map<Seq<char>, Seq<char>>, folded: Seq<char>) -> Seq<char> {
    if map.contains_key(folded) {
        map[folded]
    } else {
        "misc"@
    }
}

/// The type label of a file name: the category of its case-folded extension.
pub open spec fn type_label(map: Map<Seq<char>, Seq<char>>, name: Seq<char>) -> Seq<char> {
    match extension_of(name) {
        Some(e) => category_of(map, lower_of(e)),
        None => "misc"@,
    }
}

/// The extension of a file name, if it has one.
pub fn extension(name: &String) -> (r: Option<String>)
    ensures
        r is Some <==> extension_of(name@) is Some,
        r matches Some(e) ==> extension_of(name@) == Some(e@),
{
    let s = name.as_str();
    let n = s.unicode_len();
    let mut i = n;
    proof {
        lemma_last_dot_bounds(s@);
        assert(s@.take(n as int) == s@);
    }
    while i > 0
        invariant
            i <= n,
            n == s@.len(),
            s@ == name@,
            last_dot(s@) == last_dot(s@.take(i as int)),
        decreases i,
    {
        assert(s@.take(i as int).drop_last() == s@.take(i - 1));
        if s.get_char(i - 1) == '.' {
            if i == 1 {
                return None;
            }
            let e = s.substring_char(i - 1, n);
            return Some(String::from_str(e));
        }
        i = i - 1;
    }
    None
}

/// The category that `map` gives an extension already case-folded, or `misc`.
pub fn category_for(map: &FileSplitMap, folded: &String) -> (r: String)
    ensures
        r@ == category_of(map@, folded@),
{
    match map.get(folded) {
        Some(c) => c,
        None => String::from_str("misc"),
    }
}

/// The type label of a file name, read from its own extension.
pub fn classify(map: &FileSplitMap, name: &String) -> (r: String)
    ensures
        r@ == type_label(map@, name@),
{
    match extension(name) {
        Some(e) => {
            let folded = lowercase(e.as_str());
            category_for(map, &folded)
        },
        None => String::from_str("misc"),
    }
}

} // verus!
