//! The library's general guarantees, stated and proved once for all
//! inputs: the single-active-activity rule across every operation, the
//! start/stop pairing, partial-update and tag-set semantics, and the
//! history round trip.

use vstd::prelude::*;
use crate::service::with_end;
use crate::store::{
    apply_edit, filter_range, find_by_prefix, find_by_prefix_from, in_range, insert_desc,
    is_id_prefix, last_active_of, lemma_top_idx, sort_start_desc, top_idx, window,
};
use crate::tags::{add_tags, lemma_add_tags_keeps, lemma_remove_no_tags, remove_tags};
use crate::types::{ActivityView, EditRequestView};

verus! {

/// No two activities are active at once.
pub open spec fn at_most_one_active(s: Seq<ActivityView>) -> bool {
    forall|i: int, j: int|
        0 <= i < s.len() && 0 <= j < s.len() && (#[trigger] s[i]).active() && (
        #[trigger] s[j]).active() ==> i == j
}

/// Only the most recently started activity may be active.
pub open spec fn active_on_top(s: Seq<ActivityView>) -> bool {
    forall|i: int| 0 <= i < s.len() && (#[trigger] s[i]).active() ==> i == top_idx(s)
}

/// The stronger shape of the rule implies the plain one.
pub proof fn lemma_active_on_top_at_most_one(s: Seq<ActivityView>)
    requires
        active_on_top(s),
    ensures
        at_most_one_active(s),
{
}

/// Starting preserves the rule: when the store reports no active activity
/// and only the most recent could be active, appending one active record
/// leaves at most one active; and when the new start is no earlier than
/// every stored one (a monotone clock), the new record is again the most
/// recent.
pub proof fn lemma_start_preserves_single_active(s: Seq<ActivityView>, a: ActivityView)
    requires
        active_on_top(s),
        last_active_of(s) is None,
        a.active(),
    ensures
        at_most_one_active(s.push(a)),
        (s.len() == 0 || a.start >= s[top_idx(s)].start) ==> active_on_top(s.push(a)),
{
    if s.len() > 0 {
        lemma_top_idx(s);
        assert(!s[top_idx(s)].active());
    }
    assert(forall|i: int| 0 <= i < s.len() ==> !(#[trigger] s[i]).active());
    let p = s.push(a);
    assert(forall|i: int| 0 <= i < p.len() && (#[trigger] p[i]).active() ==> i == s.len());
    if s.len() == 0 || a.start >= s[top_idx(s)].start {
        if s.len() == 0 {
            assert(top_idx(p) == 0);
        } else {
            assert(p.drop_last() =~= s);
            assert(p.last() == a);
            assert(top_idx(p) == s.len());
        }
    }
}

/// Stopping preserves the rule: setting an end can only shrink the set of
/// active activities.
pub proof fn lemma_stop_preserves_single_active(s: Seq<ActivityView>, j: int, now: int)
    requires
        at_most_one_active(s),
        0 <= j < s.len(),
    ensures
        at_most_one_active(s.update(j, with_end(s[j], now))),
{
    let u = s.update(j, with_end(s[j], now));
    assert forall|i: int, k: int|
        0 <= i < u.len() && 0 <= k < u.len() && (#[trigger] u[i]).active() && (
        #[trigger] u[k]).active() implies i == k by {
        assert(s[i].active() && s[k].active());
    }
}

/// An arbitrary edit preserves the rule: a partial update never clears an
/// end, so it cannot wake a stopped activity.
pub proof fn lemma_edit_preserves_at_most_one_active(
    s: Seq<ActivityView>,
    j: int,
    r: EditRequestView,
)
    requires
        at_most_one_active(s),
        0 <= j < s.len(),
    ensures
        at_most_one_active(s.update(j, apply_edit(s[j], r))),
{
    let u = s.update(j, apply_edit(s[j], r));
    assert forall|i: int, k: int|
        0 <= i < u.len() && 0 <= k < u.len() && (#[trigger] u[i]).active() && (
        #[trigger] u[k]).active() implies i == k by {
        assert(s[i].active() && s[k].active());
    }
}

/// Deleting preserves the rule: removing a record can only shrink the set
/// of active activities.
pub proof fn lemma_delete_preserves_at_most_one_active(s: Seq<ActivityView>, j: int)
    requires
        at_most_one_active(s),
        0 <= j < s.len(),
    ensures
        at_most_one_active(s.remove(j)),
{
    let u = s.remove(j);
    assert forall|i: int, k: int|
        0 <= i < u.len() && 0 <= k < u.len() && (#[trigger] u[i]).active() && (
        #[trigger] u[k]).active() implies i == k by {
        let pi = if i < j {
            i
        } else {
            i + 1
        };
        let pk = if k < j {
            k
        } else {
            k + 1
        };
        assert(u[i] == s[pi] && u[k] == s[pk]);
        assert(s[pi].active() && s[pk].active());
    }
}

/// A lookup that fails before `m` and matches at `m` finds `m`.
proof fn lemma_find_from_exact(s: Seq<ActivityView>, p: Seq<char>, i: int, m: int)
    requires
        0 <= i <= m < s.len(),
        forall|k: int| i <= k < m ==> !is_id_prefix(p, (#[trigger] s[k]).id),
        is_id_prefix(p, s[m].id),
    ensures
        find_by_prefix_from(s, p, i) == Some(m),
    decreases m - i,
{
    if i < m {
        lemma_find_from_exact(s, p, i + 1, m);
    }
}

/// Start then stop: when the store reports no active activity, the clock
/// is monotone, and the fresh identifier extends no stored one, the started
/// activity is the one the stop finds, and the stop sets its end and
/// touches nothing else.
pub proof fn lemma_start_stop_pairing(s: Seq<ActivityView>, a: ActivityView, now: int)
    requires
        active_on_top(s),
        last_active_of(s) is None,
        a.active(),
        forall|i: int| 0 <= i < s.len() ==> (#[trigger] s[i]).start <= a.start,
        forall|i: int| 0 <= i < s.len() ==> !is_id_prefix(a.id, (#[trigger] s[i]).id),
    ensures
        last_active_of(s.push(a)) == Some(a),
        find_by_prefix(s.push(a), a.id) == Some(s.len() as int),
        s.push(a).update(s.len() as int, with_end(a, now)) == s.push(with_end(a, now)),
{
    let p = s.push(a);
    if s.len() == 0 {
        assert(top_idx(p) == 0);
    } else {
        lemma_top_idx(s);
        assert(p.drop_last() =~= s);
        assert(p.last() == a);
        assert(top_idx(p) == s.len());
    }
    assert(a.id.subrange(0, a.id.len() as int) =~= a.id);
    assert(is_id_prefix(a.id, p[s.len() as int].id));
    assert(forall|k: int| 0 <= k < s.len() ==> !is_id_prefix(a.id, (#[trigger] p[k]).id));
    lemma_find_from_exact(p, a.id, 0, s.len() as int);
    assert(p.update(s.len() as int, with_end(a, now)) =~= s.push(with_end(a, now)));
}

/// An edit carrying only tags to add leaves the name, the start, the end,
/// the identifier, and every already-present tag unchanged.
pub proof fn lemma_edit_partial_update(a: ActivityView, r: EditRequestView)
    requires
        r.name is None,
        r.start_time is None,
        r.end_time is None,
        r.tags_to_del.len() == 0,
    ensures
        apply_edit(a, r).name == a.name,
        apply_edit(a, r).start == a.start,
        apply_edit(a, r).end == a.end,
        apply_edit(a, r).id == a.id,
        apply_edit(a, r).tags == add_tags(a.tags, r.tags_to_add),
        forall|t: Seq<char>|
            a.tags.contains(t) ==> #[trigger] apply_edit(a, r).tags.contains(t),
{
    assert(r.tags_to_del =~= Seq::<Seq<char>>::empty());
    lemma_remove_no_tags(add_tags(a.tags, r.tags_to_add));
    assert forall|t: Seq<char>|
        a.tags.contains(t) implies #[trigger] apply_edit(a, r).tags.contains(t) by {
        lemma_add_tags_keeps(a.tags, r.tags_to_add, t);
    }
}

/// Adding a tag that is already present changes nothing.
pub proof fn lemma_add_present_tag_noop(tags: Seq<Seq<char>>, t: Seq<char>)
    requires
        tags.contains(t),
    ensures
        add_tags(tags, seq![t]) == tags,
{
    assert(seq![t].drop_last() =~= Seq::<Seq<char>>::empty());
    assert(seq![t].last() == t);
    assert(add_tags(tags, seq![t].drop_last()) == tags);
    assert(add_tags(tags, seq![t]) == crate::tags::push_unique(
        add_tags(tags, seq![t].drop_last()),
        t,
    ));
}

/// Removing a tag that is absent changes nothing.
pub proof fn lemma_remove_absent_tag_noop(tags: Seq<Seq<char>>, t: Seq<char>)
    requires
        !tags.contains(t),
    ensures
        remove_tags(tags, seq![t]) == tags,
    decreases tags.len(),
{
    if tags.len() > 0 {
        assert(!tags.drop_last().contains(t)) by {
            if tags.drop_last().contains(t) {
                let k = choose|k: int|
                    0 <= k < tags.drop_last().len() && tags.drop_last()[k] == t;
                assert(tags[k] == t);
                assert(false);
            }
        }
        lemma_remove_absent_tag_noop(tags.drop_last(), t);
        assert(tags.last() != t) by {
            if tags.last() == t {
                assert(tags[tags.len() - 1] == t);
                assert(false);
            }
        }
        assert(!seq![t].contains(tags.last())) by {
            if seq![t].contains(tags.last()) {
                let k = choose|k: int| 0 <= k < seq![t].len() && seq![t][k] == tags.last();
                assert(seq![t][0] == t);
                assert(false);
            }
        }
        assert(remove_tags(tags, seq![t]) =~= tags);
    } else {
        assert(remove_tags(tags, seq![t]) =~= tags);
    }
}

/// Whatever is inserted into a sorted sequence is in the result.
proof fn lemma_insert_desc_contains(x: ActivityView, s: Seq<ActivityView>)
    ensures
        insert_desc(x, s).contains(x),
    decreases s.len(),
{
    if s.len() == 0 {
        assert(insert_desc(x, s)[0] == x);
    } else if x.start > s[0].start {
        assert(insert_desc(x, s)[0] == x);
    } else {
        let rest = s.subrange(1, s.len() as int);
        lemma_insert_desc_contains(x, rest);
        let k = choose|k: int|
            0 <= k < insert_desc(x, rest).len() && insert_desc(x, rest)[k] == x;
        assert(insert_desc(x, s)[k + 1] == x);
    }
}

/// Round trip: an added activity whose start lies in the queried range
/// appears in the history over that range, and a single page large enough
/// to hold everything is the whole ordered history.
pub proof fn lemma_add_then_history_contains(
    s: Seq<ActivityView>,
    a: ActivityView,
    since: int,
    until: int,
)
    requires
        in_range(a, since, until),
    ensures
        sort_start_desc(filter_range(s.push(a), since, until)).contains(a),
{
    let p = s.push(a);
    assert(p.drop_last() =~= s);
    assert(p.last() == a);
    let f = filter_range(p, since, until);
    assert(f == filter_range(s, since, until).push(a));
    assert(f.drop_last() =~= filter_range(s, since, until));
    assert(f.last() == a);
    assert(sort_start_desc(f) == insert_desc(a, sort_start_desc(filter_range(s, since, until))));
    lemma_insert_desc_contains(a, sort_start_desc(filter_range(s, since, until)));
}

/// Page zero with a page size at least the result's length is the whole
/// ordered history.
pub proof fn lemma_full_page(s: Seq<ActivityView>, n: int)
    requires
        n >= s.len(),
    ensures
        window(s, 0, n) == s,
{
    assert(window(s, 0, n) =~= s);
}

} // verus!
