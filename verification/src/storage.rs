use vstd::prelude::*;

use crate::i18n::ascii_lower_spec;
use crate::text::{chars_of, contains, contains_spec, dec_spec, push_chars, str_eq, string_from};

verus! {

/// What kind of thing a history entry records.
#[derive(Debug, Clone, Copy, PartialEq, Eq, Structural)]
pub enum HistoryType {
    Screenshot,
    Pin,
    Ocr,
    AiAnalysis,
    ColorPick,
}

/// Where history is kept and how long.
pub struct StorageConfig {
    pub data_dir: String,
    pub max_history_days: u32,
    pub max_storage_mb: u64,
    pub auto_cleanup: bool,
}

impl Default for StorageConfig {
    fn default() -> (c: Self)
        ensures
            c.data_dir@ == Seq::<char>::empty(),
            c.max_history_days == 30,
            c.max_storage_mb == 500,
            c.auto_cleanup,
    {
        StorageConfig { data_dir: String::new(), max_history_days: 30, max_storage_mb: 500, auto_cleanup: true }
    }
}

/// One remembered capture, recognition or analysis.
pub struct HistoryEntry {
    pub id: String,
    pub entry_type: HistoryType,
    pub title: String,
    pub file_path: Option<String>,
    pub thumbnail_path: Option<String>,
    /// Free-form details, as JSON text.
    pub metadata: String,
    /// The day it was made, `YYYY-MM-DD`.
    pub created_at: String,
    pub tags: Vec<String>,
}

/// The mathematical value of a history entry.
pub struct HistoryEntryView {
    pub id: Seq<char>,
    pub entry_type: HistoryType,
    pub title: Seq<char>,
    pub file_path: Option<Seq<char>>,
    pub thumbnail_path: Option<Seq<char>>,
    pub metadata: Seq<char>,
    pub created_at: Seq<char>,
    pub tags: Seq<Seq<char>>,
}

pub open spec fn opt_view(o: Option<String>) -> Option<Seq<char>> {
    match o {
        Some(s) => Some(s@),
        None => None,
    }
}

impl View for HistoryEntry {
    type V = HistoryEntryView;

    open spec fn view(&self) -> HistoryEntryView {
        HistoryEntryView {
            id: self.id@,
            entry_type: self.entry_type,
            title: self.title@,
            file_path: opt_view(self.file_path),
            thumbnail_path: opt_view(self.thumbnail_path),
            metadata: self.metadata@,
            created_at: self.created_at@,
            tags: self.tags@.map_values(|t: String| t@),
        }
    }
}

fn clone_opt(o: &Option<String>) -> (r: Option<String>)
    ensures
        opt_view(r) == opt_view(*o),
{
    match o {
        Some(s) => Some(s.clone()),
        None => None,
    }
}

fn clone_strings(v: &Vec<String>) -> (r: Vec<String>)
    ensures
        r@.map_values(|t: String| t@) == v@.map_values(|t: String| t@),
{
    let mut out: Vec<String> = Vec::new();
    let mut i: usize = 0;
    while i < v.len()
        invariant
            i <= v.len(),
            out@.map_values(|t: String| t@) == v@.subrange(0, i as int).map_values(|t: String| t@),
        decreases v.len() - i,
    {
        let s = v[i].clone();
        proof {
            assert(v@.subrange(0, i + 1) == v@.subrange(0, i as int).push(v@[i as int]));
            assert(out@.push(s).map_values(|t: String| t@) == out@.map_values(|t: String| t@).push(s@));
            assert(v@.subrange(0, i + 1).map_values(|t: String| t@) == v@.subrange(0, i as int).map_values(
                |t: String| t@,
            ).push(v@[i as int]@));
        }
        out.push(s);
        i = i + 1;
    }
    proof {
        assert(v@.subrange(0, v.len() as int) == v@);
    }
    out
}

impl Clone for HistoryEntry {
    fn clone(&self) -> (r: Self)
        ensures
            r@ == self@,
    {
        HistoryEntry {
            id: self.id.clone(),
            entry_type: self.entry_type,
            title: self.title.clone(),
            file_path: clone_opt(&self.file_path),
            thumbnail_path: clone_opt(&self.thumbnail_path),
            metadata: self.metadata.clone(),
            created_at: self.created_at.clone(),
            tags: clone_strings(&self.tags),
        }
    }
}

/// The lower-case form of a string as `str::to_lowercase` gives it (full Unicode mapping).
pub uninterp spec fn lowercase(s: Seq<char>) -> Seq<char>;

/// Trusted: `str::to_lowercase`, whose result is the Unicode lower-case mapping of `s`.
/// The mapping is named; for ASCII text, where Unicode's mapping takes `A`-`Z` to `a`-`z`
/// and keeps every other character, it is stated.
#[verifier::external_body]
fn to_lowercase(s: &str) -> (r: String)
    ensures
        r@ == lowercase(s@),
        (forall|i: int| 0 <= i < s@.len() ==> (#[trigger] s@[i] as u32) < 128) ==> r@ == s@.map_values(
            |c: char| ascii_lower_spec(c),
        ),
{
    s.to_lowercase()
}

/// The entry matches a search for `q` (already lower-cased): its title or one of its tags
/// contains `q` once lower-cased.
pub open spec fn entry_matches(e: HistoryEntryView, q: Seq<char>) -> bool {
    contains_spec(lowercase(e.title), q) || exists|k: int|
        0 <= k < e.tags.len() && contains_spec(lowercase(#[trigger] e.tags[k]), q)
}

/// The entries whose id is not `id`.
pub open spec fn without_id(es: Seq<HistoryEntryView>, id: Seq<char>) -> Seq<HistoryEntryView> {
    es.filter(|e: HistoryEntryView| e.id != id)
}

/// The index of the first entry with id `id`, if any.
pub open spec fn first_with_id(es: Seq<HistoryEntryView>, id: Seq<char>) -> Option<int> {
    if exists|i: int| 0 <= i < es.len() && (#[trigger] es[i]).id == id {
        Some(choose|i: int| 0 <= i < es.len() && es[i].id == id && forall|j: int| 0 <= j < i ==> (#[trigger] es[j]).id != id)
    } else {
        None
    }
}

/// The entries kept by a clean-up with cut-off day `cutoff`: those made on or after it.
pub open spec fn cleaned(es: Seq<HistoryEntryView>, cutoff: Seq<char>) -> Seq<HistoryEntryView> {
    es.filter(|e: HistoryEntryView| lex_le(cutoff, e.created_at))
}

/// `a` comes before `b` in dictionary order, or equals it.
pub open spec fn lex_le(a: Seq<char>, b: Seq<char>) -> bool
    decreases a.len(),
{
    if a.len() == 0 {
        true
    } else if b.len() == 0 {
        false
    } else if a[0] != b[0] {
        (a[0] as u32) < (b[0] as u32)
    } else {
        lex_le(a.drop_first(), b.drop_first())
    }
}

/// Whether `a <= b` in dictionary order (for strings this is the order `String`'s `<=`
/// gives, since UTF-8 keeps the order of code points).
pub fn lex_le_exec(a: &Vec<char>, b: &Vec<char>) -> (r: bool)
    ensures
        r == lex_le(a@, b@),
{
    let mut i: usize = 0;
    proof {
        assert(a@.skip(0) == a@);
        assert(b@.skip(0) == b@);
    }
    while i < a.len() && i < b.len() && a[i] == b[i]
        invariant
            i <= a.len(),
            i <= b.len(),
            lex_le(a@, b@) == lex_le(a@.skip(i as int), b@.skip(i as int)),
        decreases a.len() - i,
    {
        proof {
            assert(a@.skip(i as int).drop_first() == a@.skip(i + 1));
            assert(b@.skip(i as int).drop_first() == b@.skip(i + 1));
        }
        i = i + 1;
    }
    if i == a.len() {
        true
    } else if i == b.len() {
        false
    } else {
        (a[i] as u32) < (b[i] as u32)
    }
}

/// The in-memory history, newest first.
pub struct HistoryLog {
    entries: Vec<HistoryEntry>,
}

impl HistoryLog {
    /// The entries, newest first.
    pub closed spec fn entries_spec(&self) -> Seq<HistoryEntryView> {
        self.entries@.map_values(|e: HistoryEntry| e@)
    }

    /// A log holding `entries` as they are, newest first.
    pub fn from_entries(entries: Vec<HistoryEntry>) -> (r: Self)
        ensures
            r.entries_spec() == entries@.map_values(|e: HistoryEntry| e@),
    {
        HistoryLog { entries }
    }

    pub fn new() -> (r: Self)
        ensures
            r.entries_spec() == Seq::<HistoryEntryView>::empty(),
    {
        HistoryLog { entries: Vec::new() }
    }

    /// The entries, newest first.
    pub fn entries(&self) -> (r: &Vec<HistoryEntry>)
        ensures
            r@.map_values(|e: HistoryEntry| e@) == self.entries_spec(),
    {
        &self.entries
    }

    pub fn len(&self) -> (r: usize)
        ensures
            r == self.entries_spec().len(),
    {
        self.entries.len()
    }

    /// Records `entry` as the newest.
    pub fn add(&mut self, entry: &HistoryEntry)
        ensures
            final(self).entries_spec() == seq![entry@] + old(self).entries_spec(),
    {
        let e = entry.clone();
        self.entries.insert(0, e);
        proof {
            assert(self.entries@.map_values(|e: HistoryEntry| e@) =~= seq![entry@] + old(self).entries@.map_values(
                |e: HistoryEntry| e@,
            ));
        }
    }

    /// The newest entry with id `id`.
    pub fn get(&self, id: &str) -> (r: Option<HistoryEntry>)
        ensures
            match first_with_id(self.entries_spec(), id@) {
                Some(i) => r matches Some(e) && e@ == self.entries_spec()[i],
                None => r is None,
            },
    {
        let ghost es = self.entries_spec();
        let mut i: usize = 0;
        while i < self.entries.len()
            invariant
                es == self.entries_spec(),
                i <= self.entries.len(),
                forall|j: int| 0 <= j < i ==> (#[trigger] es[j]).id != id@,
            decreases self.entries.len() - i,
        {
            if str_eq(self.entries[i].id.as_str(), id) {
                let found = self.entries[i].clone();
                proof {
                    assert(es[i as int].id == id@);
                    let k = first_with_id(es, id@)->0;
                    assert(0 <= k < es.len() && es[k].id == id@);
                    if k < i {
                        assert(es[k].id != id@);
                    }
                    if k > i {
                        assert(es[i as int].id != id@);
                    }
                }
                return Some(found);
            }
            i = i + 1;
        }
        None
    }

    /// Up to `limit` entries, skipping the `offset` newest.
    pub fn list(&self, limit: usize, offset: usize) -> (r: Vec<HistoryEntry>)
        ensures
            r@.map_values(|e: HistoryEntry| e@) == self.entries_spec().skip(
                if offset <= self.entries_spec().len() {
                    offset as int
                } else {
                    self.entries_spec().len() as int
                },
            ).take(
                if limit <= self.entries_spec().len() - offset {
                    limit as int
                } else if offset <= self.entries_spec().len() {
                    self.entries_spec().len() - offset
                } else {
                    0
                },
            ),
    {
        let ghost es = self.entries_spec();
        let n = self.entries.len();
        let start: usize = if offset <= n {
            offset
        } else {
            n
        };
        let count: usize = if limit <= n - start {
            limit
        } else {
            n - start
        };
        let mut out: Vec<HistoryEntry> = Vec::new();
        let mut k: usize = 0;
        while k < count
            invariant
                es == self.entries_spec(),
                n == self.entries.len(),
                start <= n,
                count <= n - start,
                k <= count,
                out@.map_values(|e: HistoryEntry| e@) == es.skip(start as int).take(k as int),
            decreases count - k,
        {
            let e = self.entries[start + k].clone();
            proof {
                assert(es.skip(start as int).take(k + 1) == es.skip(start as int).take(k as int).push(
                    es[start + k],
                ));
                assert(out@.push(e).map_values(|e: HistoryEntry| e@) == out@.map_values(|e: HistoryEntry| e@).push(
                    e@,
                ));
            }
            out.push(e);
            k = k + 1;
        }
        proof {
            if offset > n {
                assert(count == 0);
            }
        }
        out
    }

    /// The entries whose title or a tag contains `query`, ignoring case, newest first.
    pub fn search(&self, query: &str) -> (r: Vec<HistoryEntry>)
        ensures
            r@.map_values(|e: HistoryEntry| e@) == self.entries_spec().filter(
                |e: HistoryEntryView| entry_matches(e, lowercase(query@)),
            ),
    {
        let ghost es = self.entries_spec();
        let ghost q = lowercase(query@);
        let ghost pred = |e: HistoryEntryView| entry_matches(e, q);
        let ql = to_lowercase(query);
        let qv = chars_of(ql.as_str());
        let mut out: Vec<HistoryEntry> = Vec::new();
        let mut i: usize = 0;
        while i < self.entries.len()
            invariant
                es == self.entries_spec(),
                qv@ == q,
                pred == (|e: HistoryEntryView| entry_matches(e, q)),
                i <= self.entries.len(),
                out@.map_values(|e: HistoryEntry| e@) == es.take(i as int).filter(pred),
            decreases self.entries.len() - i,
        {
            let e = &self.entries[i];
            let title = to_lowercase(e.title.as_str());
            let tv = chars_of(title.as_str());
            let mut hit = contains(&tv, &qv);
            let mut k: usize = 0;
            while !hit && k < e.tags.len()
                invariant
                    qv@ == q,
                    k <= e.tags.len(),
                    hit ==> entry_matches(e@, q),
                    !hit ==> !contains_spec(lowercase(e.title@), q) && forall|j: int|
                        0 <= j < k ==> !contains_spec(lowercase(#[trigger] e.tags@[j]@), q),
                decreases e.tags.len() - k,
            {
                let tl = to_lowercase(e.tags[k].as_str());
                let tlv = chars_of(tl.as_str());
                if contains(&tlv, &qv) {
                    hit = true;
                    proof {
                        assert(e@.tags[k as int] == e.tags@[k as int]@);
                    }
                }
                k = k + 1;
            }
            proof {
                if !hit {
                    assert forall|j: int| 0 <= j < e@.tags.len() implies !contains_spec(
                        lowercase(#[trigger] e@.tags[j]),
                        q,
                    ) by {
                        assert(e@.tags[j] == e.tags@[j]@);
                    }
                }
                assert(hit == pred(e@));
                assert(es.take(i + 1) == es.take(i as int).push(es[i as int]));
                es.take(i as int).lemma_filter_push(es[i as int], pred);
            }
            if hit {
                let c = e.clone();
                proof {
                    assert(out@.push(c).map_values(|e: HistoryEntry| e@) == out@.map_values(|e: HistoryEntry| e@).push(
                        c@,
                    ));
                }
                out.push(c);
            }
            i = i + 1;
        }
        proof {
            assert(es.take(self.entries.len() as int) == es);
        }
        out
    }

    /// Forgets every entry with id `id`.
    pub fn delete(&mut self, id: &str)
        ensures
            final(self).entries_spec() == without_id(old(self).entries_spec(), id@),
    {
        let ghost es = self.entries_spec();
        let ghost pred = |e: HistoryEntryView| e.id != id@;
        let mut kept: Vec<HistoryEntry> = Vec::new();
        let mut i: usize = 0;
        while i < self.entries.len()
            invariant
                es == self.entries_spec(),
                pred == (|e: HistoryEntryView| e.id != id@),
                i <= self.entries.len(),
                kept@.map_values(|e: HistoryEntry| e@) == es.take(i as int).filter(pred),
            decreases self.entries.len() - i,
        {
            proof {
                assert(es.take(i + 1) == es.take(i as int).push(es[i as int]));
                es.take(i as int).lemma_filter_push(es[i as int], pred);
            }
            if !str_eq(self.entries[i].id.as_str(), id) {
                let c = self.entries[i].clone();
                proof {
                    assert(kept@.push(c).map_values(|e: HistoryEntry| e@) == kept@.map_values(
                        |e: HistoryEntry| e@,
                    ).push(c@));
                }
                kept.push(c);
            }
            i = i + 1;
        }
        proof {
            assert(es.take(self.entries.len() as int) == es);
        }
        self.entries = kept;
    }

    /// Forgets everything.
    pub fn clear(&mut self)
        ensures
            final(self).entries_spec() == Seq::<HistoryEntryView>::empty(),
    {
        self.entries.clear();
        proof {
            assert(self.entries@.map_values(|e: HistoryEntry| e@) =~= Seq::<HistoryEntryView>::empty());
        }
    }

    /// Forgets the entries made before the day `cutoff` (`YYYY-MM-DD`) and says how many
    /// went.
    pub fn cleanup(&mut self, cutoff: &str) -> (removed: u64)
        ensures
            final(self).entries_spec() == cleaned(old(self).entries_spec(), cutoff@),
            removed == old(self).entries_spec().len() - final(self).entries_spec().len(),
    {
        let ghost es = self.entries_spec();
        let ghost pred = |e: HistoryEntryView| lex_le(cutoff@, e.created_at);
        let cv = chars_of(cutoff);
        let mut kept: Vec<HistoryEntry> = Vec::new();
        let mut i: usize = 0;
        while i < self.entries.len()
            invariant
                es == self.entries_spec(),
                cv@ == cutoff@,
                pred == (|e: HistoryEntryView| lex_le(cutoff@, e.created_at)),
                i <= self.entries.len(),
                kept@.map_values(|e: HistoryEntry| e@) == es.take(i as int).filter(pred),
                kept@.len() <= i,
            decreases self.entries.len() - i,
        {
            proof {
                assert(es.take(i + 1) == es.take(i as int).push(es[i as int]));
                es.take(i as int).lemma_filter_push(es[i as int], pred);
            }
            let created = chars_of(self.entries[i].created_at.as_str());
            if lex_le_exec(&cv, &created) {
                let c = self.entries[i].clone();
                proof {
                    assert(kept@.push(c).map_values(|e: HistoryEntry| e@) == kept@.map_values(
                        |e: HistoryEntry| e@,
                    ).push(c@));
                }
                kept.push(c);
            }
            i = i + 1;
        }
        proof {
            assert(es.take(self.entries.len() as int) == es);
        }
        let before = self.entries.len();
        let after = kept.len();
        self.entries = kept;
        (before - after) as u64
    }
}

/// Leap years of the Gregorian calendar.
pub open spec fn is_leap_spec(y: int) -> bool {
    (y % 4 == 0 && y % 100 != 0) || y % 400 == 0
}

pub fn is_leap(y: u64) -> (r: bool)
    ensures
        r == is_leap_spec(y as int),
{
    (y % 4 == 0 && y % 100 != 0) || y % 400 == 0
}

/// Days in year `y`.
pub open spec fn year_len(y: int) -> int {
    if is_leap_spec(y) {
        366
    } else {
        365
    }
}

/// Days in month `m` (1 to 12) of year `y`.
pub open spec fn month_len(y: int, m: int) -> int {
    if m == 2 {
        if is_leap_spec(y) {
            29
        } else {
            28
        }
    } else if m == 4 || m == 6 || m == 9 || m == 11 {
        30
    } else {
        31
    }
}

/// Starting from January 1st of year `y`, the year that day `days` falls in and the day's
/// index within it.
pub open spec fn year_of(days: int, y: int) -> (int, int)
    decreases days,
{
    if days < 0 || days < year_len(y) {
        (y, days)
    } else {
        year_of(days - year_len(y), y + 1)
    }
}

/// Starting from month `m` of year `y`, the month that day-of-year `rem` falls in and the
/// day's index within it.
pub open spec fn month_of(rem: int, y: int, m: int) -> (int, int)
    decreases 12 - m,
{
    if m >= 12 || rem < month_len(y, m) {
        (m, rem)
    } else {
        month_of(rem - month_len(y, m), y, m + 1)
    }
}

/// The calendar date of day `days` counted from 1970-01-01 (day 0).
pub open spec fn ymd_spec(days: int) -> (int, int, int) {
    let (y, rem) = year_of(days, 1970);
    let (m, r) = month_of(rem, y, 1);
    (y, m, r + 1)
}

/// The date `days` days after 1970-01-01, as year, month (1 to 12) and day (from 1): a
/// real date, whose days since 1970-01-01 (the lengths of the years before it, of the months
/// before it in its year, and its day less one) add up to `days`.
pub fn days_to_ymd(days: u64) -> (r: (u64, u64, u64))
    ensures
        (r.0 as int, r.1 as int, r.2 as int) == ymd_spec(days as int),
        r.0 >= 1970,
        1 <= r.1 <= 12,
        1 <= r.2 <= month_len(r.0 as int, r.1 as int),
        ymd_to_days(r.0 as int, r.1 as int, r.2 as int) == days,
{
    let mut y: u64 = 1970;
    let mut remaining: u64 = days;
    loop
        invariant
            1970 <= y,
            (y - 1970) * 365 <= days - remaining,
            remaining <= days,
            year_of(days as int, 1970) == year_of(remaining as int, y as int),
        ensures
            year_of(days as int, 1970) == (y as int, remaining as int),
            remaining < 366,
        decreases remaining,
    {
        let days_in_year: u64 = if is_leap(y) {
            366
        } else {
            365
        };
        if remaining < days_in_year {
            break;
        }
        remaining = remaining - days_in_year;
        y = y + 1;
    }
    let mut m: u64 = 1;
    loop
        invariant
            1 <= m <= 12,
            year_of(days as int, 1970).0 == y,
            month_of(year_of(days as int, 1970).1, y as int, 1) == month_of(remaining as int, y as int, m as int),
            remaining < 366,
        ensures
            year_of(days as int, 1970).0 == y,
            month_of(year_of(days as int, 1970).1, y as int, 1) == (m as int, remaining as int),
            remaining < 366,
        decreases 12 - m,
    {
        let dim: u64 = if m == 2 {
            if is_leap(y) {
                29
            } else {
                28
            }
        } else if m == 4 || m == 6 || m == 9 || m == 11 {
            30
        } else {
            31
        };
        if m >= 12 || remaining < dim {
            break;
        }
        remaining = remaining - dim;
        m = m + 1;
    }
    proof {
        lemma_ymd_valid(days as int);
        lemma_ymd_roundtrip(days as int);
    }
    (y, m, remaining + 1)
}

/// Zero-padded decimal of `n` with at least `width` digits, as `{:0width$}` writes it.
pub open spec fn padded_dec(n: nat, width: nat) -> Seq<char> {
    let d = dec_spec(n);
    if d.len() < width {
        Seq::new((width - d.len()) as nat, |i: int| '0') + d
    } else {
        d
    }
}

fn push_padded(out: &mut Vec<char>, n: u64, width: usize)
    ensures
        final(out)@ == old(out)@ + padded_dec(n as nat, width as nat),
{
    let d = crate::text::decimal(n);
    let mut k: usize = d.len();
    let ghost start = out@;
    while k < width
        invariant
            d.len() <= k <= (if width >= d.len() {
                width
            } else {
                d.len()
            }),
            out@ == start + Seq::new((k - d.len()) as nat, |i: int| '0'),
        decreases width - k,
    {
        out.push('0');
        proof {
            assert(Seq::new((k + 1 - d.len()) as nat, |i: int| '0') == Seq::new((k - d.len()) as nat, |i: int| '0').push(
                '0',
            ));
        }
        k = k + 1;
    }
    push_chars(out, &d);
    proof {
        if d.len() >= width {
            assert(Seq::new(0nat, |i: int| '0') == Seq::<char>::empty());
            assert(out@ == start + d@);
        }
    }
}

/// The date as `YYYY-MM-DD`.
pub open spec fn date_string(y: nat, m: nat, d: nat) -> Seq<char> {
    padded_dec(y, 4) + seq!['-'] + padded_dec(m, 2) + seq!['-'] + padded_dec(d, 2)
}

/// The day that is `max_age_days` days before the moment `now_secs` (seconds since
/// 1970-01-01, no earlier than that day), as `YYYY-MM-DD`: entries made before it are too
/// old to keep.
pub fn cutoff_date(now_secs: u64, max_age_days: u32) -> (r: String)
    ensures
        ({
            let back = max_age_days as int * 86400;
            let cut = if now_secs >= back {
                now_secs - back
            } else {
                0
            };
            let (y, m, d) = ymd_spec(cut / 86400);
            r@ == date_string(y as nat, m as nat, d as nat)
        }),
{
    let back: u64 = max_age_days as u64 * 86400;
    let cutoff_secs: u64 = if now_secs >= back {
        now_secs - back
    } else {
        0
    };
    let (y, m, d) = days_to_ymd(cutoff_secs / 86400);
    let mut out: Vec<char> = Vec::new();
    push_padded(&mut out, y, 4);
    out.push('-');
    push_padded(&mut out, m, 2);
    out.push('-');
    push_padded(&mut out, d, 2);
    string_from(&out)
}

/// Days from 1970-01-01 to January 1st of year `y`.
pub open spec fn days_before_year(y: int) -> int
    decreases y - 1970,
{
    if y <= 1970 {
        0
    } else {
        days_before_year(y - 1) + year_len(y - 1)
    }
}

/// Days from January 1st to the first of month `m` in year `y`.
pub open spec fn days_before_month(y: int, m: int) -> int
    decreases m,
{
    if m <= 1 {
        0
    } else {
        days_before_month(y, m - 1) + month_len(y, m - 1)
    }
}

/// The number of days from 1970-01-01 to the date `y-m-d`.
pub open spec fn ymd_to_days(y: int, m: int, d: int) -> int {
    days_before_year(y) + days_before_month(y, m) + d - 1
}

proof fn lemma_year_of(days: int, y: int)
    requires
        days >= 0,
        y >= 1970,
    ensures
        year_of(days, y).0 >= y,
        0 <= year_of(days, y).1 < year_len(year_of(days, y).0),
        days_before_year(year_of(days, y).0) + year_of(days, y).1 == days_before_year(y) + days,
    decreases days,
{
    if days >= year_len(y) {
        lemma_year_of(days - year_len(y), y + 1);
    }
}

proof fn lemma_month_of(rem: int, y: int, m: int)
    requires
        1 <= m <= 12,
        0 <= rem,
        days_before_month(y, m) + rem < year_len(y),
    ensures
        m <= month_of(rem, y, m).0 <= 12,
        0 <= month_of(rem, y, m).1 < month_len(y, month_of(rem, y, m).0),
        days_before_month(y, month_of(rem, y, m).0) + month_of(rem, y, m).1 == days_before_month(y, m) + rem,
    decreases 12 - m,
{
    if m < 12 && rem >= month_len(y, m) {
        lemma_month_of(rem - month_len(y, m), y, m + 1);
    } else if m >= 12 {
        reveal_with_fuel(days_before_month, 12);
    }
}

/// The date that `days_to_ymd` gives for a day is a real date: a year from 1970 on, a month
/// from 1 to 12 and a day within that month.
pub proof fn lemma_ymd_valid(days: int)
    requires
        days >= 0,
    ensures
        ymd_spec(days).0 >= 1970,
        1 <= ymd_spec(days).1 <= 12,
        1 <= ymd_spec(days).2 <= month_len(ymd_spec(days).0, ymd_spec(days).1),
{
    lemma_year_of(days, 1970);
    let (y, rem) = year_of(days, 1970);
    assert(days_before_month(y, 1) == 0);
    lemma_month_of(rem, y, 1);
}

/// Counting the days up to the date `days_to_ymd` gives brings back the day number.
pub proof fn lemma_ymd_roundtrip(days: int)
    requires
        days >= 0,
    ensures
        ymd_to_days(ymd_spec(days).0, ymd_spec(days).1, ymd_spec(days).2) == days,
{
    lemma_year_of(days, 1970);
    let (y, rem) = year_of(days, 1970);
    assert(days_before_month(y, 1) == 0);
    lemma_month_of(rem, y, 1);
}

/// An entry just added is the one found by its id.
pub proof fn lemma_add_then_get(es: Seq<HistoryEntryView>, e: HistoryEntryView)
    ensures
        first_with_id(seq![e] + es, e.id) == Some(0int),
{
    let s = seq![e] + es;
    assert(s[0].id == e.id);
    let k = first_with_id(s, e.id)->0;
    if k != 0 {
        assert(s[0].id != e.id);
    }
}

/// After deleting an id, no entry has it.
pub proof fn lemma_delete_then_get(es: Seq<HistoryEntryView>, id: Seq<char>)
    ensures
        first_with_id(without_id(es, id), id) is None,
{
    broadcast use vstd::seq_lib::group_filter_ensures;
    let f = without_id(es, id);
    if exists|i: int| 0 <= i < f.len() && (#[trigger] f[i]).id == id {
        let i = choose|i: int| 0 <= i < f.len() && (#[trigger] f[i]).id == id;
        assert((|e: HistoryEntryView| e.id != id)(f[i]));
    }
}

/// Deleting an id keeps every entry with another id.
pub proof fn lemma_delete_keeps_others(es: Seq<HistoryEntryView>, id: Seq<char>, i: int)
    requires
        0 <= i < es.len(),
        es[i].id != id,
    ensures
        without_id(es, id).contains(es[i]),
{
    es.lemma_filter_contains(|e: HistoryEntryView| e.id != id, i);
}

/// Clean-up keeps exactly the entries made on or after the cut-off day.
pub proof fn lemma_cleanup_exact(es: Seq<HistoryEntryView>, cutoff: Seq<char>, i: int)
    requires
        0 <= i < es.len(),
    ensures
        lex_le(cutoff, es[i].created_at) ==> cleaned(es, cutoff).contains(es[i]),
        forall|k: int| 0 <= k < cleaned(es, cutoff).len() ==> lex_le(cutoff, (#[trigger] cleaned(es, cutoff)[k]).created_at),
{
    let pred = |e: HistoryEntryView| lex_le(cutoff, e.created_at);
    if lex_le(cutoff, es[i].created_at) {
        es.lemma_filter_contains(pred, i);
    }
    assert forall|k: int| 0 <= k < cleaned(es, cutoff).len() implies lex_le(cutoff, (#[trigger] cleaned(es, cutoff)[k]).created_at) by {
        es.lemma_filter_pred(pred, k);
    }
}

} // verus!
