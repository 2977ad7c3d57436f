//! Per-tag duration reports.
//!
//! For every activity whose start falls within the queried range, the
//! elapsed duration (its end, or the given current time while it is still
//! active, minus its start) is credited to each of its tags; activities
//! without tags are credited to an `untagged` bucket.  Rows are ordered by
//! total duration descending.

use vstd::prelude::*;
use crate::store::{all_wf, in_range};
use crate::tags::{add_tags, add_tags_into, tags_contain};
use crate::types::{
    dur_of, item_views, server_error, str_views, ts_ok, views_of, Activity, ActivityView, Error,
    ErrorType, ReportItem, ReportItemView,
};

verus! {

/// The label of the bucket for activities without tags.
pub open spec fn untagged_label() -> Seq<char> {
    "untagged"@
}

/// What one activity credits to `tag`.
pub open spec fn tag_contrib(
    a: ActivityView,
    tag: Seq<char>,
    since: int,
    until: int,
    now: int,
) -> int {
    if in_range(a, since, until) && a.tags.contains(tag) {
        dur_of(a, now)
    } else {
        0
    }
}

/// The total duration credited to `tag` over the range.
pub open spec fn tag_total(
    s: Seq<ActivityView>,
    tag: Seq<char>,
    since: int,
    until: int,
    now: int,
) -> int
    decreases s.len(),
{
    if s.len() == 0 {
        0
    } else {
        tag_total(s.drop_last(), tag, since, until, now) + tag_contrib(
            s.last(),
            tag,
            since,
            until,
            now,
        )
    }
}

/// What one activity credits to the `untagged` bucket.
pub open spec fn untagged_contrib(a: ActivityView, since: int, until: int, now: int) -> int {
    if in_range(a, since, until) && a.tags.len() == 0 {
        dur_of(a, now)
    } else {
        0
    }
}

/// The total duration of the in-range activities without tags.
pub open spec fn untagged_total(s: Seq<ActivityView>, since: int, until: int, now: int) -> int
    decreases s.len(),
{
    if s.len() == 0 {
        0
    } else {
        untagged_total(s.drop_last(), since, until, now) + untagged_contrib(
            s.last(),
            since,
            until,
            now,
        )
    }
}

/// Some in-range activity has no tags.
pub open spec fn has_untagged(s: Seq<ActivityView>, since: int, until: int) -> bool
    decreases s.len(),
{
    if s.len() == 0 {
        false
    } else {
        has_untagged(s.drop_last(), since, until) || (in_range(s.last(), since, until)
            && s.last().tags.len() == 0)
    }
}

/// Every tag of an in-range activity, first occurrences first.
pub open spec fn collect_keys(s: Seq<ActivityView>, since: int, until: int) -> Seq<Seq<char>>
    decreases s.len(),
{
    if s.len() == 0 {
        Seq::empty()
    } else {
        let prev = collect_keys(s.drop_last(), since, until);
        if in_range(s.last(), since, until) {
            add_tags(prev, s.last().tags)
        } else {
            prev
        }
    }
}

/// One row per tag seen in the range, in first-occurrence order, then the
/// `untagged` bucket if some in-range activity has no tags.
pub open spec fn report_entries(
    s: Seq<ActivityView>,
    since: int,
    until: int,
    now: int,
) -> Seq<ReportItemView> {
    let keys = collect_keys(s, since, until);
    let tag_rows = Seq::new(
        keys.len(),
        |i: int|
            ReportItemView { tag: keys[i], duration_secs: tag_total(s, keys[i], since, until, now) },
    );
    if has_untagged(s, since, until) {
        tag_rows.push(
            ReportItemView {
                tag: untagged_label(),
                duration_secs: untagged_total(s, since, until, now),
            },
        )
    } else {
        tag_rows
    }
}

/// Inserts `x` into a duration-descending sequence, after any row whose
/// total is no smaller.
pub open spec fn insert_dur_desc(x: ReportItemView, s: Seq<ReportItemView>) -> Seq<ReportItemView>
    decreases s.len(),
{
    if s.len() == 0 {
        seq![x]
    } else if x.duration_secs > s[0].duration_secs {
        seq![x] + s
    } else {
        seq![s[0]] + insert_dur_desc(x, s.subrange(1, s.len() as int))
    }
}

/// Sorts rows by total duration descending; equal totals keep their order.
pub open spec fn sort_dur_desc(s: Seq<ReportItemView>) -> Seq<ReportItemView>
    decreases s.len(),
{
    if s.len() == 0 {
        Seq::empty()
    } else {
        insert_dur_desc(s.last(), sort_dur_desc(s.drop_last()))
    }
}

/// What a report query returns.
pub open spec fn report_spec(
    s: Seq<ActivityView>,
    since: int,
    until: int,
    now: int,
) -> Seq<ReportItemView> {
    sort_dur_desc(report_entries(s, since, until, now))
}

/// `x` is representable as a 64-bit signed count of seconds.
pub open spec fn fits_i64(x: int) -> bool {
    i64::MIN as int <= x <= i64::MAX as int
}

/// Every row's total is representable.
pub open spec fn report_fits(s: Seq<ActivityView>, since: int, until: int, now: int) -> bool {
    forall|i: int|
        0 <= i < report_entries(s, since, until, now).len() ==> fits_i64(
            (#[trigger] report_entries(s, since, until, now)[i]).duration_secs,
        )
}

/// The total duration credited to `tag`, summed without loss in a wide
/// accumulator.
#[verifier::loop_isolation(false)]
fn total_for_tag(v: &Vec<Activity>, tag: &String, since: i64, until: i64, now: i64) -> (t: i128)
    requires
        all_wf(views_of(v@)),
        ts_ok(now as int),
    ensures
        t as int == tag_total(views_of(v@), tag@, since as int, until as int, now as int),
{
    let ghost s: Seq<ActivityView> = views_of(v@);
    let mut acc: i128 = 0;
    let mut i: usize = 0;
    while i < v.len()
        invariant
            0 <= i <= v.len(),
            acc as int == tag_total(s.take(i as int), tag@, since as int, until as int, now as int),
            -(i as int) * 18_000_000_000_000 <= acc as int <= (i as int) * 18_000_000_000_000,
        decreases v.len() - i,
    {
        let a = &v[i];
        let ghost d_old: int = acc as int;
        if since <= a.start && a.start <= until && tags_contain(&a.tags, tag) {
            let e: i64 = match a.end {
                Some(e) => e,
                None => now,
            };
            let d: i128 = (e as i128) - (a.start as i128);
            proof {
                assert(s[i as int].wf());
                assert(-18_000_000_000_000 <= d as int <= 18_000_000_000_000);
                assert((i as int + 1) * 18_000_000_000_000 <= 0x1_0000_0000_0000_0000
                    * 18_000_000_000_000) by (nonlinear_arith)
                    requires
                        i as int + 1 <= 0x1_0000_0000_0000_0000,
                ;
                assert(-((i as int + 1) * 18_000_000_000_000) <= acc as int + d as int <= (i as int
                    + 1) * 18_000_000_000_000) by (nonlinear_arith)
                    requires
                        -(i as int) * 18_000_000_000_000 <= acc as int <= (i as int)
                            * 18_000_000_000_000,
                        -18_000_000_000_000 <= d as int <= 18_000_000_000_000,
                ;
            }
            acc = acc + d;
        }
        proof {
            assert(s.take(i as int + 1).drop_last() =~= s.take(i as int));
            assert(s.take(i as int + 1).last() == s[i as int]);
            assert(-(i as int + 1) * 18_000_000_000_000 <= acc as int <= (i as int + 1)
                * 18_000_000_000_000) by (nonlinear_arith)
                requires
                    -(i as int) * 18_000_000_000_000 <= d_old <= (i as int) * 18_000_000_000_000,
                    acc as int == d_old || (acc as int - d_old) <= 18_000_000_000_000 && (d_old
                        - acc as int) <= 18_000_000_000_000,
            ;
        }
        i += 1;
    }
    proof {
        assert(s.take(v@.len() as int) =~= s);
    }
    acc
}

/// The total duration of the in-range activities without tags, summed
/// without loss in a wide accumulator.
#[verifier::loop_isolation(false)]
fn total_untagged(v: &Vec<Activity>, since: i64, until: i64, now: i64) -> (t: i128)
    requires
        all_wf(views_of(v@)),
        ts_ok(now as int),
    ensures
        t as int == untagged_total(views_of(v@), since as int, until as int, now as int),
{
    let ghost s: Seq<ActivityView> = views_of(v@);
    let mut acc: i128 = 0;
    let mut i: usize = 0;
    while i < v.len()
        invariant
            0 <= i <= v.len(),
            acc as int == untagged_total(s.take(i as int), since as int, until as int, now as int),
            -(i as int) * 18_000_000_000_000 <= acc as int <= (i as int) * 18_000_000_000_000,
        decreases v.len() - i,
    {
        let a = &v[i];
        let ghost d_old: int = acc as int;
        if since <= a.start && a.start <= until && a.tags.len() == 0 {
            let e: i64 = match a.end {
                Some(e) => e,
                None => now,
            };
            let d: i128 = (e as i128) - (a.start as i128);
            proof {
                assert(s[i as int].wf());
                assert(s[i as int].tags.len() == 0);
                assert(-18_000_000_000_000 <= d as int <= 18_000_000_000_000);
                assert(-((i as int + 1) * 18_000_000_000_000) <= acc as int + d as int <= (i as int
                    + 1) * 18_000_000_000_000) by (nonlinear_arith)
                    requires
                        -(i as int) * 18_000_000_000_000 <= acc as int <= (i as int)
                            * 18_000_000_000_000,
                        -18_000_000_000_000 <= d as int <= 18_000_000_000_000,
                ;
                assert((i as int + 1) * 18_000_000_000_000 <= 0x1_0000_0000_0000_0000
                    * 18_000_000_000_000) by (nonlinear_arith)
                    requires
                        i as int + 1 <= 0x1_0000_0000_0000_0000,
                ;
            }
            acc = acc + d;
        }
        proof {
            assert(s.take(i as int + 1).drop_last() =~= s.take(i as int));
            assert(s.take(i as int + 1).last() == s[i as int]);
            assert(-(i as int + 1) * 18_000_000_000_000 <= acc as int <= (i as int + 1)
                * 18_000_000_000_000) by (nonlinear_arith)
                requires
                    -(i as int) * 18_000_000_000_000 <= d_old <= (i as int) * 18_000_000_000_000,
                    acc as int == d_old || (acc as int - d_old) <= 18_000_000_000_000 && (d_old
                        - acc as int) <= 18_000_000_000_000,
            ;
        }
        i += 1;
    }
    proof {
        assert(s.take(v@.len() as int) =~= s);
    }
    acc
}

/// Inserting before the first strictly-smaller total is what
/// `insert_dur_desc` denotes.
proof fn lemma_insert_dur_at(x: ReportItemView, s: Seq<ReportItemView>, pos: int)
    requires
        0 <= pos <= s.len(),
        forall|k: int| 0 <= k < pos ==> (#[trigger] s[k]).duration_secs >= x.duration_secs,
        pos < s.len() ==> x.duration_secs > s[pos].duration_secs,
    ensures
        insert_dur_desc(x, s) == s.insert(pos, x),
    decreases pos,
{
    if pos == 0 {
        if s.len() == 0 {
            assert(insert_dur_desc(x, s) =~= s.insert(0, x));
        } else {
            assert(seq![x] + s =~= s.insert(0, x));
        }
    } else {
        let rest = s.subrange(1, s.len() as int);
        lemma_insert_dur_at(x, rest, pos - 1);
        assert(seq![s[0]] + rest.insert(pos - 1, x) =~= s.insert(pos, x));
    }
}

/// Inserts a row into a duration-descending vector, after any row whose
/// total is no smaller.
#[verifier::loop_isolation(false)]
fn insert_row_sorted(v: &mut Vec<ReportItem>, x: ReportItem)
    ensures
        item_views(final(v)@) == insert_dur_desc(x@, item_views(old(v)@)),
{
    let ghost s0: Seq<ReportItemView> = item_views(v@);
    let mut pos: usize = 0;
    while pos < v.len() && v[pos].duration_secs >= x.duration_secs
        invariant
            0 <= pos <= v.len(),
            forall|k: int| 0 <= k < pos ==> (#[trigger] s0[k]).duration_secs >= x@.duration_secs,
        decreases v.len() - pos,
    {
        pos += 1;
    }
    v.insert(pos, x);
    proof {
        lemma_insert_dur_at(x@, s0, pos as int);
        assert(item_views(v@) =~= s0.insert(pos as int, x@));
    }
}

/// Sorts rows by total duration descending; equal totals keep their order.
#[verifier::loop_isolation(false)]
fn sort_rows(src: Vec<ReportItem>) -> (r: Vec<ReportItem>)
    ensures
        item_views(r@) == sort_dur_desc(item_views(src@)),
{
    let mut out: Vec<ReportItem> = Vec::new();
    proof {
        assert(item_views(out@) =~= Seq::<ReportItemView>::empty());
        assert(item_views(src@).take(0) =~= Seq::<ReportItemView>::empty());
    }
    let mut i: usize = 0;
    while i < src.len()
        invariant
            0 <= i <= src.len(),
            item_views(out@) == sort_dur_desc(item_views(src@).take(i as int)),
        decreases src.len() - i,
    {
        insert_row_sorted(&mut out, src[i].duplicate());
        proof {
            assert(item_views(src@).take(i as int + 1).drop_last() =~= item_views(src@).take(
                i as int,
            ));
            assert(item_views(src@).take(i as int + 1).last() == src@[i as int]@);
        }
        i += 1;
    }
    proof {
        assert(item_views(src@).take(src@.len() as int) =~= item_views(src@));
    }
    out
}

/// Computes the report over `v`: one row per tag seen in the range plus an
/// `untagged` bucket, ordered by total duration descending.  Fails with a
/// storage-kind error exactly when some total does not fit a 64-bit count
/// of seconds.
#[verifier::loop_isolation(false)]
pub fn report_of(v: &Vec<Activity>, since: i64, until: i64, now: i64) -> (r: Result<
    Vec<ReportItem>,
    Error,
>)
    requires
        all_wf(views_of(v@)),
        ts_ok(now as int),
    ensures
        r matches Ok(items) ==> item_views(items@) == report_spec(
            views_of(v@),
            since as int,
            until as int,
            now as int,
        ),
        r is Ok <==> report_fits(views_of(v@), since as int, until as int, now as int),
        r matches Err(e) ==> e.kind == ErrorType::ServerError && e.id@ == "db_error"@,
{
    let ghost s: Seq<ActivityView> = views_of(v@);
    let ghost gsince: int = since as int;
    let ghost guntil: int = until as int;
    let ghost gnow: int = now as int;
    let ghost entries: Seq<ReportItemView> = report_entries(s, gsince, guntil, gnow);

    // Collect the tags of in-range activities, and whether any in-range
    // activity has none.
    let mut keys: Vec<String> = Vec::new();
    let mut any_untagged = false;
    proof {
        assert(str_views(keys@) =~= Seq::<Seq<char>>::empty());
        assert(s.take(0) =~= Seq::<ActivityView>::empty());
    }
    let mut i: usize = 0;
    while i < v.len()
        invariant
            0 <= i <= v.len(),
            str_views(keys@) == collect_keys(s.take(i as int), gsince, guntil),
            any_untagged == has_untagged(s.take(i as int), gsince, guntil),
        decreases v.len() - i,
    {
        let a = &v[i];
        if since <= a.start && a.start <= until {
            add_tags_into(&mut keys, &a.tags);
            if a.tags.len() == 0 {
                any_untagged = true;
            }
        }
        proof {
            assert(s.take(i as int + 1).drop_last() =~= s.take(i as int));
            assert(s.take(i as int + 1).last() == s[i as int]);
        }
        i += 1;
    }
    proof {
        assert(s.take(v@.len() as int) =~= s);
    }

    // One row per tag; fail if a total does not fit.
    let mut rows: Vec<ReportItem> = Vec::new();
    proof {
        assert(item_views(rows@) =~= Seq::<ReportItemView>::empty());
        assert(entries.take(0) =~= Seq::<ReportItemView>::empty());
    }
    let ghost keyviews: Seq<Seq<char>> = str_views(keys@);
    let mut k: usize = 0;
    while k < keys.len()
        invariant
            0 <= k <= keys.len(),
            item_views(rows@) == entries.take(k as int),
            forall|m: int| 0 <= m < k ==> fits_i64((#[trigger] entries[m]).duration_secs),
        decreases keys.len() - k,
    {
        let ghost pre: Seq<ReportItemView> = item_views(rows@);
        let total = total_for_tag(v, &keys[k], since, until, now);
        if total > i64::MAX as i128 || total < i64::MIN as i128 {
            proof {
                assert(entries[k as int].duration_secs == total as int);
                assert(!fits_i64(entries[k as int].duration_secs));
            }
            return Err(server_error("db_error", "integer overflow in duration total"));
        }
        rows.push(ReportItem { tag: keys[k].clone(), duration_secs: total as i64 });
        proof {
            assert(entries[k as int] == (ReportItemView {
                tag: keyviews[k as int],
                duration_secs: tag_total(s, keyviews[k as int], gsince, guntil, gnow),
            }));
            assert(item_views(rows@) =~= pre.push(entries[k as int]));
            assert(entries.take(k as int + 1) =~= entries.take(k as int).push(entries[k as int]));
        }
        k += 1;
    }
    if any_untagged {
        let total = total_untagged(v, since, until, now);
        let ghost upos: int = keyviews.len() as int;
        proof {
            assert(entries[upos] == (ReportItemView {
                tag: untagged_label(),
                duration_secs: untagged_total(s, gsince, guntil, gnow),
            }));
        }
        if total > i64::MAX as i128 || total < i64::MIN as i128 {
            proof {
                assert(!fits_i64(entries[upos].duration_secs));
            }
            return Err(server_error("db_error", "integer overflow in duration total"));
        }
        let ghost pre2: Seq<ReportItemView> = item_views(rows@);
        let label: &str = "untagged";
        rows.push(ReportItem { tag: label.to_owned(), duration_secs: total as i64 });
        proof {
            let urow = (ReportItemView {
                tag: untagged_label(),
                duration_secs: untagged_total(s, gsince, guntil, gnow),
            });
            assert(item_views(rows@) =~= pre2.push(urow));
            assert(entries =~= entries.take(upos).push(entries[upos]));
            assert(item_views(rows@) =~= entries);
        }
    } else {
        proof {
            assert(entries.take(keyviews.len() as int) =~= entries);
        }
    }
    proof {
        assert(item_views(rows@) == entries);
        assert(forall|m: int| 0 <= m < entries.len() ==> fits_i64(
            (#[trigger] entries[m]).duration_secs,
        ));
    }
    let sorted = sort_rows(rows);
    Ok(sorted)
}

} // verus!
