//! The activity store: an in-memory collection of activities with
//! insert, partial update, delete, and the two query shapes — paginated
//! time-range history and per-tag duration reports.

use vstd::prelude::*;
use vstd::string::StrSliceExecFns;
use crate::tags::{
    add_tags, add_tags_into, lemma_add_tags_distinct, lemma_remove_tags_distinct, remove_tags,
    remove_tags_from,
};
use crate::report::{report_fits, report_of, report_spec};
use crate::types::{
    client_error, item_views, server_error, ts_ok, views_of, Activity, ActivityView,
    EditActivityRequest, EditRequestView, Error, ErrorType, GetHistoryRequest, GetReportRequest,
    Report,
};

verus! {

/// `p` is a leading substring of `s`.
pub open spec fn is_id_prefix(p: Seq<char>, s: Seq<char>) -> bool {
    p.len() <= s.len() && s.subrange(0, p.len() as int) == p
}

/// The first position at or after `i` whose activity's identifier starts
/// with `p`.
pub open spec fn find_by_prefix_from(s: Seq<ActivityView>, p: Seq<char>, i: int) -> Option<int>
    decreases s.len() - i,
{
    if i < 0 || i >= s.len() {
        None
    } else if is_id_prefix(p, s[i].id) {
        Some(i)
    } else {
        find_by_prefix_from(s, p, i + 1)
    }
}

/// Identifier lookup: the first stored activity whose identifier starts
/// with the caller-supplied prefix, in insertion order.
pub open spec fn find_by_prefix(s: Seq<ActivityView>, p: Seq<char>) -> Option<int> {
    find_by_prefix_from(s, p, 0)
}

/// Some stored activity carries exactly this identifier.
pub open spec fn has_id(s: Seq<ActivityView>, id: Seq<char>) -> bool {
    exists|i: int| 0 <= i < s.len() && s[i].id == id
}

/// The position of the most recently started activity: the greatest start,
/// with the later insertion winning a tie.
pub open spec fn top_idx(s: Seq<ActivityView>) -> int
    decreases s.len(),
{
    if s.len() <= 1 {
        0
    } else {
        let r = top_idx(s.drop_last());
        if s.last().start >= s[r].start {
            s.len() - 1
        } else {
            r
        }
    }
}

/// `top_idx` is a position, and no activity starts later than it.
pub proof fn lemma_top_idx(s: Seq<ActivityView>)
    requires
        s.len() > 0,
    ensures
        0 <= top_idx(s) < s.len(),
        forall|i: int| 0 <= i < s.len() ==> (#[trigger] s[i]).start <= s[top_idx(s)].start,
    decreases s.len(),
{
    if s.len() > 1 {
        lemma_top_idx(s.drop_last());
        assert(forall|i: int| 0 <= i < s.len() - 1 ==> s.drop_last()[i] == s[i]);
    }
}

/// The most recently started activity, if it is still active.
pub open spec fn last_active_of(s: Seq<ActivityView>) -> Option<ActivityView> {
    if s.len() == 0 {
        None
    } else if s[top_idx(s)].end is None {
        Some(s[top_idx(s)])
    } else {
        None
    }
}

/// The view of an optional activity.
pub open spec fn opt_view(o: Option<Activity>) -> Option<ActivityView> {
    match o {
        Some(a) => Some(a@),
        None => None,
    }
}

/// The activity's start falls within `[since, until]`.
pub open spec fn in_range(a: ActivityView, since: int, until: int) -> bool {
    since <= a.start <= until
}

/// The activities whose start falls within the range, in stored order.
pub open spec fn filter_range(s: Seq<ActivityView>, since: int, until: int) -> Seq<ActivityView>
    decreases s.len(),
{
    if s.len() == 0 {
        Seq::empty()
    } else {
        let prev = filter_range(s.drop_last(), since, until);
        if in_range(s.last(), since, until) {
            prev.push(s.last())
        } else {
            prev
        }
    }
}

/// Inserts `x` into a start-descending sequence, after any activity that
/// starts no earlier.
pub open spec fn insert_desc(x: ActivityView, s: Seq<ActivityView>) -> Seq<ActivityView>
    decreases s.len(),
{
    if s.len() == 0 {
        seq![x]
    } else if x.start > s[0].start {
        seq![x] + s
    } else {
        seq![s[0]] + insert_desc(x, s.subrange(1, s.len() as int))
    }
}

/// Sorts by start descending; activities with equal starts keep their
/// stored order.
pub open spec fn sort_start_desc(s: Seq<ActivityView>) -> Seq<ActivityView>
    decreases s.len(),
{
    if s.len() == 0 {
        Seq::empty()
    } else {
        insert_desc(s.last(), sort_start_desc(s.drop_last()))
    }
}

/// The smaller of two integers.
pub open spec fn spec_min(a: int, b: int) -> int {
    if a < b {
        a
    } else {
        b
    }
}

/// Page `page` of `s`: skip `page * page_size`, take up to `page_size`.
pub open spec fn window(s: Seq<ActivityView>, page: int, page_size: int) -> Seq<ActivityView> {
    s.subrange(
        spec_min(page * page_size, s.len() as int),
        spec_min(page * page_size + page_size, s.len() as int),
    )
}

/// What a history query returns: the requested page of the in-range
/// activities, ordered by start descending.
pub open spec fn history_spec(
    s: Seq<ActivityView>,
    page: int,
    page_size: int,
    since: int,
    until: int,
) -> Seq<ActivityView> {
    window(sort_start_desc(filter_range(s, since, until)), page, page_size)
}

/// A partial update: fields left unset keep the stored value, `tags_to_add`
/// are unioned in, then `tags_to_del` removed.  The identifier never changes.
pub open spec fn apply_edit(a: ActivityView, r: EditRequestView) -> ActivityView {
    ActivityView {
        id: a.id,
        start: match r.start_time {
            Some(t) => t,
            None => a.start,
        },
        end: match r.end_time {
            Some(t) => Some(t),
            None => a.end,
        },
        name: match r.name {
            Some(n) => n,
            None => a.name,
        },
        tags: remove_tags(add_tags(a.tags, r.tags_to_add), r.tags_to_del),
    }
}

/// Timestamps an edit carries must be in range.
pub open spec fn edit_request_wf(r: EditRequestView) -> bool {
    &&& (r.start_time matches Some(t) ==> ts_ok(t))
    &&& (r.end_time matches Some(t) ==> ts_ok(t))
}

/// No identifier is stored twice.
pub open spec fn ids_unique(s: Seq<ActivityView>) -> bool {
    forall|i: int, j: int| 0 <= i < j < s.len() ==> s[i].id != s[j].id
}

/// Every stored activity is well-formed.
pub open spec fn all_wf(s: Seq<ActivityView>) -> bool {
    forall|i: int| 0 <= i < s.len() ==> s[i].wf()
}

/// Whether `p` is a leading substring of `s`, checked character by
/// character.
pub fn str_is_prefix(p: &str, s: &str) -> (r: bool)
    ensures
        r == is_id_prefix(p@, s@),
{
    let pl = p.unicode_len();
    let sl = s.unicode_len();
    if pl > sl {
        return false;
    }
    let mut i: usize = 0;
    while i < pl
        invariant
            0 <= i <= pl,
            pl == p@.len(),
            sl == s@.len(),
            pl <= sl,
            forall|k: int| 0 <= k < i ==> p@[k] == s@[k],
        decreases pl - i,
    {
        if p.get_char(i) != s.get_char(i) {
            proof {
                assert(s@.subrange(0, p@.len() as int)[i as int] == s@[i as int]);
            }
            return false;
        }
        i += 1;
    }
    proof {
        assert(p@ =~= s@.subrange(0, p@.len() as int));
    }
    true
}

/// The in-memory activity store.
pub struct ActivityStore {
    activities: Vec<Activity>,
}

impl View for ActivityStore {
    type V = Seq<ActivityView>;

    closed spec fn view(&self) -> Seq<ActivityView> {
        views_of(self.activities@)
    }
}

impl ActivityStore {
    /// Identifiers unique, every record well-formed.
    pub open spec fn inv(&self) -> bool {
        ids_unique(self@) && all_wf(self@)
    }

    /// An empty store.
    pub fn new() -> (s: ActivityStore)
        ensures
            s@ == Seq::<ActivityView>::empty(),
            s.inv(),
    {
        let s = ActivityStore { activities: Vec::new() };
        proof {
            assert(s@ =~= Seq::<ActivityView>::empty());
        }
        s
    }

    /// How many activities are stored.
    pub fn len(&self) -> (n: usize)
        ensures
            n == self@.len(),
    {
        self.activities.len()
    }

    /// The position of the first activity whose identifier starts with
    /// `prefix`, in insertion order.
    #[verifier::loop_isolation(false)]
    fn find_index(&self, prefix: &String) -> (r: Option<usize>)
        ensures
            match r {
                Some(j) => find_by_prefix(self@, prefix@) == Some(j as int),
                None => find_by_prefix(self@, prefix@) is None,
            },
    {
        let mut j: usize = 0;
        while j < self.activities.len()
            invariant
                0 <= j <= self.activities.len(),
                find_by_prefix(self@, prefix@) == find_by_prefix_from(self@, prefix@, j as int),
            decreases self.activities.len() - j,
        {
            if str_is_prefix(prefix.as_str(), self.activities[j].id.as_str()) {
                proof {
                    assert(self@[j as int] == self.activities@[j as int]@);
                }
                return Some(j);
            }
            j += 1;
        }
        None
    }

    /// Persists a new activity.  Fails with a storage-kind error when the
    /// identifier is already taken; otherwise appends the record.
    #[verifier::loop_isolation(false)]
    pub fn add_activity(&mut self, activity: &Activity) -> (r: Result<(), Error>)
        requires
            old(self).inv(),
            activity@.wf(),
        ensures
            final(self).inv(),
            has_id(old(self)@, activity@.id) ==> (r matches Err(e) && e.kind
                == ErrorType::ServerError && e.id@ == "db_error"@ && final(self)@ == old(self)@),
            !has_id(old(self)@, activity@.id) ==> r is Ok && final(self)@ == old(self)@.push(
                activity@,
            ),
    {
        let ghost s0: Seq<ActivityView> = self@;
        let mut j: usize = 0;
        while j < self.activities.len()
            invariant
                0 <= j <= self.activities.len(),
                forall|k: int| 0 <= k < j ==> s0[k].id != activity@.id,
            decreases self.activities.len() - j,
        {
            if self.activities[j].id.eq(&activity.id) {
                proof {
                    assert(s0[j as int].id == activity@.id);
                }
                return Err(server_error("db_error", "an activity with this id already exists"));
            }
            j += 1;
        }
        proof {
            assert(!has_id(s0, activity@.id));
        }
        self.activities.push(activity.duplicate());
        proof {
            assert(self@ =~= s0.push(activity@));
            assert forall|i: int, k: int| 0 <= i < k < self@.len() implies self@[i].id
                != self@[k].id by {
                if k == s0.len() {
                    assert(s0[i].id != activity@.id);
                }
            }
        }
        Ok(())
    }

    /// Looks an activity up by identifier prefix and applies a partial
    /// update; fails with a not-found client error when nothing matches.
    /// Returns the activity as it stands after the update.
    pub fn edit_activity(&mut self, request: &EditActivityRequest) -> (r: Result<Activity, Error>)
        requires
            old(self).inv(),
            edit_request_wf(request@),
        ensures
            final(self).inv(),
            find_by_prefix(old(self)@, request@.activity_id) is None ==> (r matches Err(e)
                && e.kind == ErrorType::ClientError && e.id@ == "activity_id_not_found"@
                && final(self)@ == old(self)@),
            find_by_prefix(old(self)@, request@.activity_id) matches Some(j) ==> (r matches Ok(a)
                && a@ == apply_edit(old(self)@[j], request@) && final(self)@ == old(self)@.update(
                j,
                a@,
            )),
    {
        let ghost s0: Seq<ActivityView> = self@;
        match self.find_index(&request.activity_id) {
            None => Err(client_error("activity_id_not_found", "ID not found!")),
            Some(j) => {
                proof {
                    lemma_find_in_bounds(s0, request@.activity_id, 0);
                }
                let updated = build_edited(&self.activities[j], request);
                let snapshot = updated.duplicate();
                self.activities.set(j, updated);
                proof {
                    assert(self@ =~= s0.update(j as int, snapshot@));
                    let e = apply_edit(s0[j as int], request@);
                    assert forall|i: int, k: int| 0 <= i < k < self@.len() implies self@[i].id
                        != self@[k].id by {
                        assert(e.id == s0[j as int].id);
                        assert(s0[i].id != s0[k].id);
                    }
                    assert forall|i: int| 0 <= i < self@.len() implies self@[i].wf() by {
                        if i == j as int {
                            lemma_add_tags_distinct(s0[i].tags, request@.tags_to_add);
                            lemma_remove_tags_distinct(
                                add_tags(s0[i].tags, request@.tags_to_add),
                                request@.tags_to_del,
                            );
                        }
                    }
                }
                Ok(snapshot)
            },
        }
    }

    /// Looks an activity up by identifier prefix and removes it together
    /// with its tags, returning the pre-deletion snapshot; fails with a
    /// not-found client error when nothing matches.
    pub fn delete_activity(&mut self, request: &crate::types::DeleteActivityRequest) -> (r: Result<
        Activity,
        Error,
    >)
        requires
            old(self).inv(),
        ensures
            final(self).inv(),
            find_by_prefix(old(self)@, request.activity_id@) is None ==> (r matches Err(e)
                && e.kind == ErrorType::ClientError && e.id@ == "activity_id_not_found"@
                && final(self)@ == old(self)@),
            find_by_prefix(old(self)@, request.activity_id@) matches Some(j) ==> (r matches Ok(a)
                && a@ == old(self)@[j] && final(self)@ == old(self)@.remove(j)),
    {
        let ghost s0: Seq<ActivityView> = self@;
        match self.find_index(&request.activity_id) {
            None => Err(client_error("activity_id_not_found", "ID not found!")),
            Some(j) => {
                proof {
                    lemma_find_in_bounds(s0, request.activity_id@, 0);
                }
                let snapshot = self.activities[j].duplicate();
                self.activities.remove(j);
                proof {
                    assert(self@ =~= s0.remove(j as int));
                    assert forall|i: int, k: int| 0 <= i < k < self@.len() implies self@[i].id
                        != self@[k].id by {
                        let pi = if i < j as int {
                            i
                        } else {
                            i + 1
                        };
                        let pk = if k < j as int {
                            k
                        } else {
                            k + 1
                        };
                        assert(self@[i] == s0[pi]);
                        assert(self@[k] == s0[pk]);
                    }
                    assert forall|i: int| 0 <= i < self@.len() implies self@[i].wf() by {
                        let pi = if i < j as int {
                            i
                        } else {
                            i + 1
                        };
                        assert(self@[i] == s0[pi]);
                    }
                }
                Ok(snapshot)
            },
        }
    }

    /// The most recently started activity, if it is currently active;
    /// absence otherwise.  A derived read over the stored records.
    #[verifier::loop_isolation(false)]
    pub fn get_last_active_activity(&self) -> (r: Result<Option<Activity>, Error>)
        requires
            self.inv(),
        ensures
            r matches Ok(o) && opt_view(o) == last_active_of(self@),
    {
        if self.activities.len() == 0 {
            return Ok(None);
        }
        let mut best: usize = 0;
        let mut j: usize = 1;
        while j < self.activities.len()
            invariant
                1 <= j <= self.activities.len(),
                0 <= best < j,
                best as int == top_idx(self@.take(j as int)),
            decreases self.activities.len() - j,
        {
            proof {
                assert(self@.take(j as int + 1).drop_last() =~= self@.take(j as int));
                assert(self@.take(j as int + 1).last() == self@[j as int]);
                lemma_top_idx(self@.take(j as int));
            }
            if self.activities[j].start >= self.activities[best].start {
                best = j;
            }
            j += 1;
        }
        proof {
            assert(self@.take(self.activities.len() as int) =~= self@);
        }
        let a = &self.activities[best];
        if a.end.is_none() {
            Ok(Some(a.duplicate()))
        } else {
            Ok(None)
        }
    }

    /// The activities whose start falls within `[since, until]`, ordered by
    /// start descending, paginated: skip `page * page_size`, return up to
    /// `page_size`.
    #[verifier::loop_isolation(false)]
    pub fn get_history(&self, request: &GetHistoryRequest) -> (r: Result<Vec<Activity>, Error>)
        requires
            self.inv(),
            request.page >= 0,
            request.page_size >= 0,
        ensures
            r matches Ok(v) && views_of(v@) == history_spec(
                self@,
                request.page as int,
                request.page_size as int,
                request.since_datetime as int,
                request.until_datetime as int,
            ),
    {
        let ghost since: int = request.since_datetime as int;
        let ghost until: int = request.until_datetime as int;
        let mut matching: Vec<Activity> = Vec::new();
        proof {
            assert(views_of(matching@) =~= Seq::<ActivityView>::empty());
            assert(self@.take(0) =~= Seq::<ActivityView>::empty());
        }
        let mut i: usize = 0;
        while i < self.activities.len()
            invariant
                0 <= i <= self.activities.len(),
                views_of(matching@) == filter_range(self@.take(i as int), since, until),
            decreases self.activities.len() - i,
        {
            let ghost pre: Seq<ActivityView> = views_of(matching@);
            let a = &self.activities[i];
            if request.since_datetime <= a.start && a.start <= request.until_datetime {
                matching.push(a.duplicate());
                proof {
                    assert(views_of(matching@) =~= pre.push(self@[i as int]));
                }
            }
            proof {
                assert(self@.take(i as int + 1).drop_last() =~= self@.take(i as int));
                assert(self@.take(i as int + 1).last() == self@[i as int]);
            }
            i += 1;
        }
        proof {
            assert(self@.take(self.activities.len() as int) =~= self@);
        }
        let sorted = sort_by_start_desc(&matching);
        let ghost sv: Seq<ActivityView> = views_of(sorted@);
        let pg = request.page as u64;
        let psz = request.page_size as u64;
        proof {
            assert(pg * psz <= 0x7fff_ffff * 0x7fff_ffffu64) by (nonlinear_arith)
                requires
                    pg <= 0x7fff_ffff,
                    psz <= 0x7fff_ffff,
            ;
        }
        let skip64: u64 = pg * psz;
        let len64: u64 = sorted.len() as u64;
        let lo: usize = if skip64 > len64 {
            sorted.len()
        } else {
            skip64 as usize
        };
        let end64: u64 = skip64 + psz;
        let hi: usize = if end64 > len64 {
            sorted.len()
        } else {
            end64 as usize
        };
        let mut out: Vec<Activity> = Vec::new();
        proof {
            assert(views_of(out@) =~= Seq::<ActivityView>::empty());
            assert(sv.subrange(lo as int, lo as int) =~= Seq::<ActivityView>::empty());
        }
        let mut j: usize = lo;
        while j < hi
            invariant
                lo <= j <= hi,
                views_of(out@) == sv.subrange(lo as int, j as int),
            decreases hi - j,
        {
            let ghost pre: Seq<ActivityView> = views_of(out@);
            out.push(sorted[j].duplicate());
            proof {
                assert(views_of(out@) =~= pre.push(sv[j as int]));
                assert(sv.subrange(lo as int, j as int + 1) =~= sv.subrange(
                    lo as int,
                    j as int,
                ).push(sv[j as int]));
            }
            j += 1;
        }
        proof {
            assert(views_of(out@) =~= window(sv, request.page as int, request.page_size as int));
        }
        Ok(out)
    }

    /// The per-tag duration report over `[since, until]`, evaluating the
    /// still-active activity, if any, at time `now`.  Fails with a
    /// storage-kind error exactly when some total does not fit a 64-bit
    /// count of seconds.
    pub fn get_report_at(&self, request: &GetReportRequest, now: i64) -> (r: Result<Report, Error>)
        requires
            self.inv(),
            ts_ok(now as int),
        ensures
            r matches Ok(items) ==> item_views(items@) == report_spec(
                self@,
                request.since_datetime as int,
                request.until_datetime as int,
                now as int,
            ),
            r is Ok <==> report_fits(
                self@,
                request.since_datetime as int,
                request.until_datetime as int,
                now as int,
            ),
            r matches Err(e) ==> e.kind == ErrorType::ServerError && e.id@ == "db_error"@,
    {
        report_of(&self.activities, request.since_datetime, request.until_datetime, now)
    }
}

/// A lookup whose prefix matches some position at or after `i` finds one.
pub proof fn lemma_find_from_some(s: Seq<ActivityView>, p: Seq<char>, i: int, m: int)
    requires
        0 <= i <= m < s.len(),
        is_id_prefix(p, s[m].id),
    ensures
        find_by_prefix_from(s, p, i) is Some,
    decreases m - i,
{
    if i < m && !is_id_prefix(p, s[i].id) {
        lemma_find_from_some(s, p, i + 1, m);
    }
}

/// A found position lies within the sequence.
pub proof fn lemma_find_in_bounds(s: Seq<ActivityView>, p: Seq<char>, i: int)
    ensures
        find_by_prefix_from(s, p, i) matches Some(j) ==> i <= j < s.len() && is_id_prefix(
            p,
            s[j].id,
        ),
    decreases s.len() - i,
{
    if 0 <= i < s.len() && !is_id_prefix(p, s[i].id) {
        lemma_find_in_bounds(s, p, i + 1);
    }
}

/// Inserting before the first strictly-smaller start is what `insert_desc`
/// denotes.
pub proof fn lemma_insert_desc_at(x: ActivityView, s: Seq<ActivityView>, pos: int)
    requires
        0 <= pos <= s.len(),
        forall|k: int| 0 <= k < pos ==> (#[trigger] s[k]).start >= x.start,
        pos < s.len() ==> x.start > s[pos].start,
    ensures
        insert_desc(x, s) == s.insert(pos, x),
    decreases pos,
{
    if pos == 0 {
        if s.len() == 0 {
            assert(insert_desc(x, s) =~= s.insert(0, x));
        } else {
            assert(seq![x] + s =~= s.insert(0, x));
        }
    } else {
        let rest = s.subrange(1, s.len() as int);
        lemma_insert_desc_at(x, rest, pos - 1);
        assert(seq![s[0]] + rest.insert(pos - 1, x) =~= s.insert(pos, x));
    }
}

/// Inserts `x` into a start-descending vector, after any activity that
/// starts no earlier.
#[verifier::loop_isolation(false)]
fn insert_sorted(v: &mut Vec<Activity>, x: Activity)
    ensures
        views_of(final(v)@) == insert_desc(x@, views_of(old(v)@)),
{
    let ghost s0: Seq<ActivityView> = views_of(v@);
    let mut pos: usize = 0;
    while pos < v.len() && v[pos].start >= x.start
        invariant
            0 <= pos <= v.len(),
            forall|k: int| 0 <= k < pos ==> (#[trigger] s0[k]).start >= x@.start,
        decreases v.len() - pos,
    {
        pos += 1;
    }
    v.insert(pos, x);
    proof {
        lemma_insert_desc_at(x@, s0, pos as int);
        assert(views_of(v@) =~= s0.insert(pos as int, x@));
    }
}

/// Sorts by start descending; equal starts keep their order.
#[verifier::loop_isolation(false)]
fn sort_by_start_desc(src: &Vec<Activity>) -> (r: Vec<Activity>)
    ensures
        views_of(r@) == sort_start_desc(views_of(src@)),
{
    let mut out: Vec<Activity> = Vec::new();
    proof {
        assert(views_of(out@) =~= Seq::<ActivityView>::empty());
        assert(views_of(src@).take(0) =~= Seq::<ActivityView>::empty());
    }
    let mut i: usize = 0;
    while i < src.len()
        invariant
            0 <= i <= src.len(),
            views_of(out@) == sort_start_desc(views_of(src@).take(i as int)),
        decreases src.len() - i,
    {
        insert_sorted(&mut out, src[i].duplicate());
        proof {
            assert(views_of(src@).take(i as int + 1).drop_last() =~= views_of(src@).take(i as int));
            assert(views_of(src@).take(i as int + 1).last() == src@[i as int]@);
        }
        i += 1;
    }
    proof {
        assert(views_of(src@).take(src@.len() as int) =~= views_of(src@));
    }
    out
}

/// Applies a partial update to one activity value.
fn build_edited(a: &Activity, request: &EditActivityRequest) -> (r: Activity)
    ensures
        r@ == apply_edit(a@, request@),
{
    let name = match &request.name {
        Some(n) => n.clone(),
        None => a.name.clone(),
    };
    let start = match request.start_time {
        Some(t) => t,
        None => a.start,
    };
    let end = match request.end_time {
        Some(t) => Some(t),
        None => a.end,
    };
    let mut tag_acc = crate::types::clone_strings(&a.tags);
    add_tags_into(&mut tag_acc, &request.tags_to_add);
    let tag_list = remove_tags_from(&tag_acc, &request.tags_to_del);
    let r = Activity { id: a.id.clone(), start, end, name, tags: tag_list };
    proof {
        assert(r@ =~= apply_edit(a@, request@));
    }
    r
}

} // verus!
