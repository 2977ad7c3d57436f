//! The store capability and the intent-level service over it.
//!
//! [`ActivityRepo`] is the abstract store capability: insert, partial
//! update, delete, and the two query shapes, each with its contract over an
//! abstract view of the stored records.  [`ActivityStore`] implements it;
//! any other durable store can.  [`Service`] is the stateless coordinator
//! over any such store: `start_activity` and `stop_activity` enforce the
//! rule that at most one activity is active at a time — starting is refused
//! while the most recently started activity is still active, and stopping
//! is refused when it is not.  The check is a derived read over the stored
//! records, never a cached flag.
//!
//! The `*_at` forms on [`ActivityStore`] take the identifier and the clock
//! reading as arguments and carry exact contracts; the trait forms draw
//! them from the environment.

use vstd::prelude::*;
use crate::store::{
    apply_edit, edit_request_wf, find_by_prefix, has_id, history_spec, last_active_of,
    lemma_find_from_some, opt_view, ActivityStore,
};
use crate::report::report_spec;
use crate::sys::{fresh_activity_id, now_seconds};
use crate::tags::{add_tags, dedup_strings, lemma_add_tags_distinct, lemma_remove_no_tags};
use crate::types::{
    client_error, item_views, str_views, ts_ok, views_of, Activity, ActivityView,
    DeleteActivityRequest, EditActivityRequest, Error, ErrorType, GetHistoryRequest,
    GetReportRequest, Report, StartActivityRequest,
};

verus! {

/// The activity with its end set to `t` and every other field kept.
pub open spec fn with_end(a: ActivityView, t: int) -> ActivityView {
    ActivityView { id: a.id, start: a.start, end: Some(t), name: a.name, tags: a.tags }
}

/// The abstract store capability: durable CRUD and query over activities,
/// specified against an abstract view of the stored records.  A failing
/// operation leaves the records as they were.
pub trait ActivityRepo: Sized {
    /// The stored records, in insertion order.
    spec fn repo(&self) -> Seq<ActivityView>;

    /// Identifiers unique, every record well-formed.
    spec fn repo_inv(&self) -> bool;

    /// Persists a new activity, or fails with a storage-kind error.
    fn add_activity(&mut self, activity: &Activity) -> (r: Result<(), Error>)
        requires
            old(self).repo_inv(),
            activity@.wf(),
        ensures
            final(self).repo_inv(),
            r is Ok ==> final(self).repo() == old(self).repo().push(activity@),
            r matches Err(e) ==> e.kind == ErrorType::ServerError && final(self).repo() == old(self).repo(),
    ;

    /// Looks an activity up by identifier prefix and applies a partial
    /// update, returning the activity as it stands after it.
    fn edit_activity(&mut self, request: &EditActivityRequest) -> (r: Result<Activity, Error>)
        requires
            old(self).repo_inv(),
            edit_request_wf(request@),
        ensures
            final(self).repo_inv(),
            r matches Ok(a) ==> (find_by_prefix(old(self).repo(), request@.activity_id)
                matches Some(j) && a@ == apply_edit(old(self).repo()[j], request@) && final(self).repo() == old(self).repo().update(j, a@)),
            r matches Err(e) ==> (final(self).repo() == old(self).repo() && (e.kind
                == ErrorType::ClientError ==> e.id@ == "activity_id_not_found"@ && find_by_prefix(
                old(self).repo(),
                request@.activity_id,
            ) is None)),
    ;

    /// The most recently started activity, if it is currently active.
    fn get_last_active_activity(&self) -> (r: Result<Option<Activity>, Error>)
        requires
            self.repo_inv(),
        ensures
            r matches Ok(o) ==> opt_view(o) == last_active_of(self.repo()),
            r matches Err(e) ==> e.kind == ErrorType::ServerError,
    ;

    /// The requested page of the in-range activities, ordered by start
    /// descending.
    fn get_history(&self, request: &GetHistoryRequest) -> (r: Result<Vec<Activity>, Error>)
        requires
            self.repo_inv(),
            request.page >= 0,
            request.page_size >= 0,
        ensures
            r matches Ok(v) ==> views_of(v@) == history_spec(
                self.repo(),
                request.page as int,
                request.page_size as int,
                request.since_datetime as int,
                request.until_datetime as int,
            ),
            r matches Err(e) ==> e.kind == ErrorType::ServerError,
    ;

    /// Looks an activity up by identifier prefix and removes it, returning
    /// the pre-deletion snapshot.
    fn delete_activity(&mut self, request: &DeleteActivityRequest) -> (r: Result<Activity, Error>)
        requires
            old(self).repo_inv(),
        ensures
            final(self).repo_inv(),
            r matches Ok(a) ==> (find_by_prefix(old(self).repo(), request.activity_id@)
                matches Some(j) && a@ == old(self).repo()[j] && final(self).repo() == old(self).repo().remove(j)),
            r matches Err(e) ==> (final(self).repo() == old(self).repo() && (e.kind
                == ErrorType::ClientError ==> e.id@ == "activity_id_not_found"@ && find_by_prefix(
                old(self).repo(),
                request.activity_id@,
            ) is None)),
    ;

    /// The per-tag duration report over the requested range, evaluating the
    /// still-active activity, if any, at some moment of the call.
    fn get_report(&self, request: &GetReportRequest) -> (r: Result<Report, Error>)
        requires
            self.repo_inv(),
        ensures
            r matches Ok(items) ==> exists|now: int|
                ts_ok(now) && item_views(items@) == report_spec(
                    self.repo(),
                    request.since_datetime as int,
                    request.until_datetime as int,
                    now,
                ),
            r matches Err(e) ==> e.kind == ErrorType::ServerError,
    ;
}

impl ActivityRepo for ActivityStore {
    open spec fn repo(&self) -> Seq<ActivityView> {
        self@
    }

    open spec fn repo_inv(&self) -> bool {
        self.inv()
    }

    fn add_activity(&mut self, activity: &Activity) -> (r: Result<(), Error>) {
        self.add_activity(activity)
    }

    fn edit_activity(&mut self, request: &EditActivityRequest) -> (r: Result<Activity, Error>) {
        self.edit_activity(request)
    }

    fn get_last_active_activity(&self) -> (r: Result<Option<Activity>, Error>) {
        self.get_last_active_activity()
    }

    fn get_history(&self, request: &GetHistoryRequest) -> (r: Result<Vec<Activity>, Error>) {
        self.get_history(request)
    }

    fn delete_activity(&mut self, request: &DeleteActivityRequest) -> (r: Result<Activity, Error>) {
        self.delete_activity(request)
    }

    fn get_report(&self, request: &GetReportRequest) -> (r: Result<Report, Error>) {
        let now = now_seconds();
        let r = self.get_report_at(request, now);
        proof {
            if r is Ok {
                assert(ts_ok(now as int) && item_views(r->Ok_0@) == report_spec(
                    self@,
                    request.since_datetime as int,
                    request.until_datetime as int,
                    now as int,
                ));
            }
        }
        r
    }
}

/// The stateless coordinator over any store capability: high-level intents,
/// with the single-active-activity rule enforced by `start_activity` and
/// `stop_activity`.
pub trait Service: ActivityRepo {
    /// Starts tracking: refused with a client error while an activity is
    /// active; otherwise a freshly identified record starting now, with the
    /// requested name and the requested tags with duplicates dropped, is
    /// persisted and returned.
    fn start_activity(&mut self, request: &StartActivityRequest) -> (r: Result<Activity, Error>)
        requires
            old(self).repo_inv(),
        ensures
            final(self).repo_inv(),
            r matches Ok(a) ==> (last_active_of(old(self).repo()) is None && a@.id.len() == 36
                && ts_ok(a@.start) && a@.end is None && a@.name == request.name@ && a@.tags
                == add_tags(Seq::empty(), str_views(request.tags@)) && final(self).repo() == old(self).repo().push(a@)),
            r matches Err(e) ==> (final(self).repo() == old(self).repo() && (e.kind
                == ErrorType::ClientError ==> e.id@ == "active_activity_exists"@
                && last_active_of(old(self).repo()) is Some)),
    ;

    /// Stops tracking: refused with a client error when no activity is
    /// active; otherwise the active activity's end is set to the present
    /// moment, every other field kept, and the updated record returned.
    fn stop_activity(&mut self) -> (r: Result<Activity, Error>)
        requires
            old(self).repo_inv(),
        ensures
            final(self).repo_inv(),
            r matches Ok(a) ==> (last_active_of(old(self).repo()) matches Some(t)
                && find_by_prefix(old(self).repo(), t.id) matches Some(j) && a@.id == old(self).repo()[j].id && a@.start == old(self).repo()[j].start && a@.name == old(self).repo()[j].name && a@.tags == old(self).repo()[j].tags && (a@.end matches Some(n)
                && ts_ok(n)) && final(self).repo() == old(self).repo().update(j, a@)),
            r matches Err(e) ==> (final(self).repo() == old(self).repo() && (e.kind
                == ErrorType::ClientError ==> e.id@ == "active_activity_does_not_exist"@
                && last_active_of(old(self).repo()) is None)),
    ;
}

impl<T: ActivityRepo> Service for T {
    fn start_activity(&mut self, request: &StartActivityRequest) -> (r: Result<Activity, Error>) {
        let last = match self.get_last_active_activity() {
            Ok(o) => o,
            Err(e) => {
                return Err(e);
            },
        };
        if last.is_some() {
            return Err(
                client_error(
                    "active_activity_exists",
                    "You can't start tracking another activity while there is an actively tracked activity!",
                ),
            );
        }
        let id = fresh_activity_id();
        let now = now_seconds();
        let tag_list = dedup_strings(&request.tags);
        let a = Activity { id, start: now, end: None, name: request.name.clone(), tags: tag_list };
        proof {
            lemma_add_tags_distinct(Seq::empty(), str_views(request.tags@));
        }
        match self.add_activity(&a) {
            Ok(()) => Ok(a),
            Err(e) => Err(e),
        }
    }

    fn stop_activity(&mut self) -> (r: Result<Activity, Error>) {
        let ghost s0: Seq<ActivityView> = self.repo();
        let last = match self.get_last_active_activity() {
            Ok(o) => o,
            Err(e) => {
                return Err(e);
            },
        };
        match last {
            None => Err(
                client_error(
                    "active_activity_does_not_exist",
                    "You are currently not tracking any activity",
                ),
            ),
            Some(active) => {
                let now = now_seconds();
                let req = EditActivityRequest {
                    activity_id: active.id,
                    start_time: None,
                    end_time: Some(now),
                    name: None,
                    tags_to_add: Vec::new(),
                    tags_to_del: Vec::new(),
                };
                proof {
                    let top = crate::store::top_idx(s0);
                    crate::store::lemma_top_idx(s0);
                    assert(s0[top].id.subrange(0, s0[top].id.len() as int) =~= s0[top].id);
                    lemma_find_from_some(s0, active@.id, 0, top);
                    crate::store::lemma_find_in_bounds(s0, active@.id, 0);
                }
                let res = ActivityRepo::edit_activity(self, &req);
                proof {
                    let j = find_by_prefix(s0, active@.id)->Some_0;
                    lemma_remove_no_tags(s0[j].tags);
                    assert(str_views(req.tags_to_add@) =~= Seq::<Seq<char>>::empty());
                    assert(str_views(req.tags_to_del@) =~= Seq::<Seq<char>>::empty());
                    assert(apply_edit(s0[j], req@) =~= with_end(s0[j], now as int));
                }
                res
            },
        }
    }
}

impl ActivityStore {
    /// Starts tracking with the given identifier at the given time: the
    /// exact form of `start_activity`.  Refused with a client error while
    /// an activity is active, and with a storage-kind error when the
    /// identifier is already taken.
    pub fn start_activity_at(
        &mut self,
        request: &StartActivityRequest,
        id: String,
        now: i64,
    ) -> (r: Result<Activity, Error>)
        requires
            old(self).inv(),
            ts_ok(now as int),
        ensures
            final(self).inv(),
            last_active_of(old(self)@) is Some ==> (r matches Err(e) && e.kind
                == ErrorType::ClientError && e.id@ == "active_activity_exists"@ && final(self)@
                == old(self)@),
            last_active_of(old(self)@) is None && has_id(old(self)@, id@) ==> (r matches Err(e)
                && e.kind == ErrorType::ServerError && e.id@ == "db_error"@ && final(self)@ == old(self)@),
            last_active_of(old(self)@) is None && !has_id(old(self)@, id@) ==> (r matches Ok(a)
                && a@.id == id@ && a@.start == now as int && a@.end is None && a@.name
                == request.name@ && a@.tags == add_tags(Seq::empty(), str_views(request.tags@))
                && final(self)@ == old(self)@.push(a@)),
    {
        let last = match self.get_last_active_activity() {
            Ok(o) => o,
            Err(e) => {
                return Err(e);
            },
        };
        if last.is_some() {
            return Err(
                client_error(
                    "active_activity_exists",
                    "You can't start tracking another activity while there is an actively tracked activity!",
                ),
            );
        }
        let tag_list = dedup_strings(&request.tags);
        let a = Activity { id, start: now, end: None, name: request.name.clone(), tags: tag_list };
        proof {
            lemma_add_tags_distinct(Seq::empty(), str_views(request.tags@));
        }
        match self.add_activity(&a) {
            Ok(()) => Ok(a),
            Err(e) => Err(e),
        }
    }

    /// Stops tracking at the given time: the exact form of `stop_activity`.
    pub fn stop_activity_at(&mut self, now: i64) -> (r: Result<Activity, Error>)
        requires
            old(self).inv(),
            ts_ok(now as int),
        ensures
            final(self).inv(),
            last_active_of(old(self)@) is None ==> (r matches Err(e) && e.kind
                == ErrorType::ClientError && e.id@ == "active_activity_does_not_exist"@ && final(self)@ == old(self)@),
            last_active_of(old(self)@) matches Some(t) ==> (find_by_prefix(old(self)@, t.id)
                matches Some(j) && r matches Ok(a) && a@ == with_end(old(self)@[j], now as int)
                && final(self)@ == old(self)@.update(j, a@)),
    {
        let ghost s0: Seq<ActivityView> = self@;
        let last = match self.get_last_active_activity() {
            Ok(o) => o,
            Err(e) => {
                return Err(e);
            },
        };
        match last {
            None => Err(
                client_error(
                    "active_activity_does_not_exist",
                    "You are currently not tracking any activity",
                ),
            ),
            Some(active) => {
                let req = EditActivityRequest {
                    activity_id: active.id,
                    start_time: None,
                    end_time: Some(now),
                    name: None,
                    tags_to_add: Vec::new(),
                    tags_to_del: Vec::new(),
                };
                proof {
                    let top = crate::store::top_idx(s0);
                    crate::store::lemma_top_idx(s0);
                    assert(s0[top].id.subrange(0, s0[top].id.len() as int) =~= s0[top].id);
                    lemma_find_from_some(s0, active@.id, 0, top);
                    crate::store::lemma_find_in_bounds(s0, active@.id, 0);
                }
                let res = self.edit_activity(&req);
                proof {
                    let j = find_by_prefix(s0, active@.id)->Some_0;
                    lemma_remove_no_tags(s0[j].tags);
                    assert(str_views(req.tags_to_add@) =~= Seq::<Seq<char>>::empty());
                    assert(str_views(req.tags_to_del@) =~= Seq::<Seq<char>>::empty());
                    assert(apply_edit(s0[j], req@) =~= with_end(s0[j], now as int));
                }
                res
            },
        }
    }
}

} // verus!
