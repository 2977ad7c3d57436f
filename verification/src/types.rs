//! The data model: activities, requests, report rows, and errors.

use vstd::prelude::*;
use vstd::string::StrSliceExecFns;

verus! {

/// Earliest timestamp (in seconds since the Unix epoch) an activity may
/// carry.  A generous cover of the range a calendar datetime can denote.
pub const TS_MIN: i64 = -9_000_000_000_000;

/// Latest timestamp (in seconds since the Unix epoch) an activity may carry.
pub const TS_MAX: i64 = 9_000_000_000_000;

/// A timestamp the library accepts.
pub open spec fn ts_ok(t: int) -> bool {
    TS_MIN as int <= t <= TS_MAX as int
}

/// A tracked interval of work.  `end` is absent while the activity is still
/// being tracked.  `tags` is a set: well-formed activities carry no tag twice.
#[derive(Clone, Debug)]
pub struct Activity {
    pub id: String,
    pub start: i64,
    pub end: Option<i64>,
    pub name: String,
    pub tags: Vec<String>,
}

/// The mathematical image of an [`Activity`].
#[verifier::ext_equal]
pub struct ActivityView {
    pub id: Seq<char>,
    pub start: int,
    pub end: Option<int>,
    pub name: Seq<char>,
    pub tags: Seq<Seq<char>>,
}

impl View for Activity {
    type V = ActivityView;

    open spec fn view(&self) -> ActivityView {
        ActivityView {
            id: self.id@,
            start: self.start as int,
            end: match self.end {
                Some(e) => Some(e as int),
                None => None,
            },
            name: self.name@,
            tags: str_views(self.tags@),
        }
    }
}

/// No tag occurs twice.
pub open spec fn distinct_tags(tags: Seq<Seq<char>>) -> bool {
    forall|i: int, j: int| 0 <= i < j < tags.len() ==> tags[i] != tags[j]
}

impl ActivityView {
    /// Well-formed: timestamps in range, tags a set.
    pub open spec fn wf(self) -> bool {
        &&& ts_ok(self.start)
        &&& (self.end matches Some(e) ==> ts_ok(e))
        &&& distinct_tags(self.tags)
    }

    /// An activity is active while its end is not set.
    pub open spec fn active(self) -> bool {
        self.end is None
    }
}

/// Elapsed seconds at time `now`: the end (or `now` while still active)
/// minus the start.
pub open spec fn dur_of(a: ActivityView, now: int) -> int {
    (match a.end {
        Some(e) => e,
        None => now,
    }) - a.start
}

/// The views of a sequence of strings.
pub open spec fn str_views(s: Seq<String>) -> Seq<Seq<char>> {
    s.map_values(|t: String| t@)
}

/// The views of a sequence of activities.
pub open spec fn views_of(s: Seq<Activity>) -> Seq<ActivityView> {
    s.map_values(|a: Activity| a@)
}

/// The two error kinds: caller-caused, and storage/environment failures.
#[derive(Clone, Copy, Debug, PartialEq, Eq, Structural)]
pub enum ErrorType {
    ClientError,
    ServerError,
}

/// A typed failure: a stable identifier for programmatic matching, a
/// human-readable message, and the kind.
#[derive(Clone, Debug)]
pub struct Error {
    pub id: String,
    pub msg: String,
    pub kind: ErrorType,
}

/// Builds a caller-caused error.
pub fn client_error(id: &str, msg: &str) -> (e: Error)
    ensures
        e.id@ == id@,
        e.kind == ErrorType::ClientError,
{
    Error { id: id.to_owned(), msg: msg.to_owned(), kind: ErrorType::ClientError }
}

/// Builds a storage-kind error.
pub fn server_error(id: &str, msg: &str) -> (e: Error)
    ensures
        e.id@ == id@,
        e.kind == ErrorType::ServerError,
{
    Error { id: id.to_owned(), msg: msg.to_owned(), kind: ErrorType::ServerError }
}

/// Intent to start tracking a new activity.
#[derive(Clone, Debug)]
pub struct StartActivityRequest {
    pub name: String,
    pub tags: Vec<String>,
}

/// A partial update of one activity: fields left unset keep their stored
/// value; `tags_to_add` are unioned into the tag set and `tags_to_del`
/// removed from it.
#[derive(Clone, Debug)]
pub struct EditActivityRequest {
    pub activity_id: String,
    pub start_time: Option<i64>,
    pub end_time: Option<i64>,
    pub name: Option<String>,
    pub tags_to_add: Vec<String>,
    pub tags_to_del: Vec<String>,
}

/// The mathematical image of an [`EditActivityRequest`].
#[verifier::ext_equal]
pub struct EditRequestView {
    pub activity_id: Seq<char>,
    pub start_time: Option<int>,
    pub end_time: Option<int>,
    pub name: Option<Seq<char>>,
    pub tags_to_add: Seq<Seq<char>>,
    pub tags_to_del: Seq<Seq<char>>,
}

impl View for EditActivityRequest {
    type V = EditRequestView;

    open spec fn view(&self) -> EditRequestView {
        EditRequestView {
            activity_id: self.activity_id@,
            start_time: match self.start_time {
                Some(t) => Some(t as int),
                None => None,
            },
            end_time: match self.end_time {
                Some(t) => Some(t as int),
                None => None,
            },
            name: match self.name {
                Some(n) => Some(n@),
                None => None,
            },
            tags_to_add: str_views(self.tags_to_add@),
            tags_to_del: str_views(self.tags_to_del@),
        }
    }
}

/// A page of the time-range history query.
pub struct GetHistoryRequest {
    pub page: i32,
    pub page_size: i32,
    pub since_datetime: i64,
    pub until_datetime: i64,
}

/// Deletion of one activity, addressed by an identifier prefix.
pub struct DeleteActivityRequest {
    pub activity_id: String,
}

/// One row of a report: a tag (or the `untagged` bucket) and the total
/// elapsed seconds of the activities carrying it.
pub struct ReportItem {
    pub tag: String,
    pub duration_secs: i64,
}

/// The mathematical image of a [`ReportItem`].
#[verifier::ext_equal]
pub struct ReportItemView {
    pub tag: Seq<char>,
    pub duration_secs: int,
}

impl View for ReportItem {
    type V = ReportItemView;

    open spec fn view(&self) -> ReportItemView {
        ReportItemView { tag: self.tag@, duration_secs: self.duration_secs as int }
    }
}

impl ReportItem {
    /// A field-for-field copy.
    pub fn duplicate(&self) -> (r: ReportItem)
        ensures
            r@ == self@,
    {
        ReportItem { tag: self.tag.clone(), duration_secs: self.duration_secs }
    }
}

/// A duration report, ordered by total duration descending.
pub type Report = Vec<ReportItem>;

/// The views of a sequence of report rows.
pub open spec fn item_views(s: Seq<ReportItem>) -> Seq<ReportItemView> {
    s.map_values(|r: ReportItem| r@)
}

/// A report over a time range.
pub struct GetReportRequest {
    pub since_datetime: i64,
    pub until_datetime: i64,
}

/// Copies a vector of strings.
pub fn clone_strings(v: &Vec<String>) -> (r: Vec<String>)
    ensures
        r@ == v@,
{
    let mut out: Vec<String> = Vec::new();
    let mut i: usize = 0;
    while i < v.len()
        invariant
            0 <= i <= v.len(),
            out@ == v@.take(i as int),
        decreases v.len() - i,
    {
        out.push(v[i].clone());
        proof {
            assert(out@ =~= v@.take(i as int + 1));
        }
        i += 1;
    }
    proof {
        assert(v@.take(v.len() as int) =~= v@);
    }
    out
}

impl Activity {
    /// The first eight characters of the identifier, as shown in listings.
    pub fn short_id(&self) -> (r: String)
        requires
            self.id@.len() >= 8,
        ensures
            r@ == self@.id.subrange(0, 8),
    {
        self.id.as_str().substring_char(0, 8).to_owned()
    }

    /// Elapsed seconds at time `now`: the end (or `now` while still active)
    /// minus the start.
    pub fn duration_at(&self, now: i64) -> (d: i64)
        requires
            self@.wf(),
            ts_ok(now as int),
        ensures
            d as int == dur_of(self@, now as int),
    {
        let e: i64 = match self.end {
            Some(e) => e,
            None => now,
        };
        e - self.start
    }

    /// Elapsed seconds at the present moment.
    pub fn duration(&self) -> (d: i64)
        requires
            self@.wf(),
        ensures
            exists|now: int| ts_ok(now) && d as int == dur_of(self@, now),
            self@.end matches Some(e) ==> d as int == e - self@.start,
    {
        let now = crate::sys::now_seconds();
        let d = self.duration_at(now);
        proof {
            assert(ts_ok(now as int) && d as int == dur_of(self@, now as int));
        }
        d
    }

    /// A field-for-field copy.
    pub fn duplicate(&self) -> (r: Activity)
        ensures
            r@ == self@,
    {
        let r = Activity {
            id: self.id.clone(),
            start: self.start,
            end: self.end,
            name: self.name.clone(),
            tags: clone_strings(&self.tags),
        };
        proof {
            assert(r@ =~= self@);
        }
        r
    }
}

} // verus!
