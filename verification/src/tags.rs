//! Tag-set operations.
//!
//! A tag list is kept free of duplicates.  Adding a tag that is already
//! present is a no-op, and so is removing a tag that is absent.

use vstd::prelude::*;
use crate::types::{distinct_tags, str_views};

verus! {

/// Appends `t` unless it is already present.
pub open spec fn push_unique(tags: Seq<Seq<char>>, t: Seq<char>) -> Seq<Seq<char>> {
    if tags.contains(t) {
        tags
    } else {
        tags.push(t)
    }
}

/// Unions `toadd` into `tags`, left to right, keeping first occurrences.
pub open spec fn add_tags(tags: Seq<Seq<char>>, toadd: Seq<Seq<char>>) -> Seq<Seq<char>>
    decreases toadd.len(),
{
    if toadd.len() == 0 {
        tags
    } else {
        push_unique(add_tags(tags, toadd.drop_last()), toadd.last())
    }
}

/// Removes every tag of `todel` from `tags`, keeping the order of the rest.
pub open spec fn remove_tags(tags: Seq<Seq<char>>, todel: Seq<Seq<char>>) -> Seq<Seq<char>>
    decreases tags.len(),
{
    if tags.len() == 0 {
        Seq::empty()
    } else {
        let prev = remove_tags(tags.drop_last(), todel);
        if todel.contains(tags.last()) {
            prev
        } else {
            prev.push(tags.last())
        }
    }
}

/// Whether `t` occurs in `tags`.
pub fn tags_contain(tags: &Vec<String>, t: &String) -> (r: bool)
    ensures
        r == str_views(tags@).contains(t@),
{
    let mut i: usize = 0;
    while i < tags.len()
        invariant
            0 <= i <= tags.len(),
            forall|k: int| 0 <= k < i ==> str_views(tags@)[k] != t@,
        decreases tags.len() - i,
    {
        if tags[i].eq(t) {
            proof {
                assert(str_views(tags@)[i as int] == t@);
            }
            return true;
        }
        i += 1;
    }
    proof {
        assert(forall|k: int| 0 <= k < tags@.len() ==> str_views(tags@)[k] != t@);
        assert(!str_views(tags@).contains(t@));
    }
    false
}

/// Unions the tags of `toadd` into `dst`, in order, skipping those present.
pub fn add_tags_into(dst: &mut Vec<String>, toadd: &Vec<String>)
    ensures
        str_views(final(dst)@) == add_tags(str_views(old(dst)@), str_views(toadd@)),
{
    let ghost base: Seq<Seq<char>> = str_views(dst@);
    let mut k: usize = 0;
    while k < toadd.len()
        invariant
            0 <= k <= toadd.len(),
            str_views(dst@) == add_tags(base, str_views(toadd@).take(k as int)),
        decreases toadd.len() - k,
    {
        let ghost pre: Seq<Seq<char>> = str_views(dst@);
        if !tags_contain(dst, &toadd[k]) {
            dst.push(toadd[k].clone());
            proof {
                assert(str_views(dst@) =~= pre.push(toadd@[k as int]@));
            }
        }
        proof {
            assert(str_views(toadd@).take(k as int + 1).drop_last() =~= str_views(toadd@).take(
                k as int,
            ));
            assert(str_views(toadd@).take(k as int + 1).last() == toadd@[k as int]@);
            assert(str_views(dst@) == push_unique(pre, toadd@[k as int]@));
        }
        k += 1;
    }
    proof {
        assert(str_views(toadd@).take(toadd@.len() as int) =~= str_views(toadd@));
    }
}

/// Keeps the tags of `src` that are not named in `todel`.
pub fn remove_tags_from(src: &Vec<String>, todel: &Vec<String>) -> (r: Vec<String>)
    ensures
        str_views(r@) == remove_tags(str_views(src@), str_views(todel@)),
{
    let mut out: Vec<String> = Vec::new();
    let mut i: usize = 0;
    while i < src.len()
        invariant
            0 <= i <= src.len(),
            str_views(out@) == remove_tags(str_views(src@).take(i as int), str_views(todel@)),
        decreases src.len() - i,
    {
        let ghost pre: Seq<Seq<char>> = str_views(out@);
        if !tags_contain(todel, &src[i]) {
            out.push(src[i].clone());
            proof {
                assert(str_views(out@) =~= pre.push(src@[i as int]@));
            }
        }
        proof {
            assert(str_views(src@).take(i as int + 1).drop_last() =~= str_views(src@).take(
                i as int,
            ));
            assert(str_views(src@).take(i as int + 1).last() == src@[i as int]@);
        }
        i += 1;
    }
    proof {
        assert(str_views(src@).take(src@.len() as int) =~= str_views(src@));
    }
    out
}

/// Copies `v` with duplicates dropped, keeping first occurrences.
pub fn dedup_strings(v: &Vec<String>) -> (r: Vec<String>)
    ensures
        str_views(r@) == add_tags(Seq::empty(), str_views(v@)),
{
    let mut out: Vec<String> = Vec::new();
    proof {
        assert(str_views(out@) =~= Seq::<Seq<char>>::empty());
    }
    add_tags_into(&mut out, v);
    out
}

/// Whatever is added, an already-distinct tag list stays distinct.
pub proof fn lemma_add_tags_distinct(tags: Seq<Seq<char>>, toadd: Seq<Seq<char>>)
    requires
        distinct_tags(tags),
    ensures
        distinct_tags(add_tags(tags, toadd)),
    decreases toadd.len(),
{
    if toadd.len() > 0 {
        lemma_add_tags_distinct(tags, toadd.drop_last());
        let prev = add_tags(tags, toadd.drop_last());
        let t = toadd.last();
        if !prev.contains(t) {
            assert forall|i: int, j: int|
                0 <= i < j < prev.push(t).len() implies prev.push(t)[i] != prev.push(t)[j] by {
                if j == prev.len() {
                    assert(prev.push(t)[i] == prev[i]);
                    assert(prev.contains(prev[i]));
                }
            }
        }
    }
}

/// Removing tags keeps the rest distinct, and drops exactly those named.
pub proof fn lemma_remove_tags_distinct(tags: Seq<Seq<char>>, todel: Seq<Seq<char>>)
    requires
        distinct_tags(tags),
    ensures
        distinct_tags(remove_tags(tags, todel)),
    decreases tags.len(),
{
    if tags.len() > 0 {
        assert(distinct_tags(tags.drop_last()));
        lemma_remove_tags_distinct(tags.drop_last(), todel);
        let prev = remove_tags(tags.drop_last(), todel);
        let t = tags.last();
        lemma_remove_tags_subset(tags.drop_last(), todel);
        if !todel.contains(t) {
            assert(!prev.contains(t)) by {
                if prev.contains(t) {
                    assert(tags.drop_last().contains(t));
                    let m = choose|m: int|
                        0 <= m < tags.drop_last().len() && tags.drop_last()[m] == t;
                    assert(tags[m] == tags[tags.len() - 1]);
                    assert(false);
                }
            }
            assert forall|i: int, j: int|
                0 <= i < j < prev.push(t).len() implies prev.push(t)[i] != prev.push(t)[j] by {
                if j == prev.len() {
                    assert(prev.push(t)[i] == prev[i]);
                    assert(prev.contains(prev[i]));
                } else {
                    assert(prev[i] != prev[j]);
                }
            }
        }
    }
}

/// Every tag of the removal's result was present before.
pub proof fn lemma_remove_tags_subset(tags: Seq<Seq<char>>, todel: Seq<Seq<char>>)
    ensures
        forall|t: Seq<char>|
            #[trigger] remove_tags(tags, todel).contains(t) ==> tags.contains(t) && !todel.contains(
                t,
            ),
    decreases tags.len(),
{
    if tags.len() > 0 {
        lemma_remove_tags_subset(tags.drop_last(), todel);
        let prev = remove_tags(tags.drop_last(), todel);
        assert forall|t: Seq<char>| #[trigger]
            remove_tags(tags, todel).contains(t) implies tags.contains(t) && !todel.contains(t) by {
            let r = remove_tags(tags, todel);
            let k = choose|k: int| 0 <= k < r.len() && r[k] == t;
            if todel.contains(tags.last()) || k < prev.len() {
                assert(prev.contains(t));
                assert(tags.drop_last().contains(t));
                let m = choose|m: int|
                    0 <= m < tags.drop_last().len() && tags.drop_last()[m] == t;
                assert(tags[m] == t);
            } else {
                assert(t == tags.last());
                assert(tags[tags.len() - 1] == t);
            }
        }
    }
}

/// Removing nothing changes nothing.
pub proof fn lemma_remove_no_tags(tags: Seq<Seq<char>>)
    ensures
        remove_tags(tags, Seq::empty()) == tags,
    decreases tags.len(),
{
    if tags.len() > 0 {
        lemma_remove_no_tags(tags.drop_last());
        assert(remove_tags(tags, Seq::empty()) =~= tags);
    } else {
        assert(remove_tags(tags, Seq::empty()) =~= tags);
    }
}

/// Every tag present before an addition is present after it.
pub proof fn lemma_add_tags_keeps(tags: Seq<Seq<char>>, toadd: Seq<Seq<char>>, t: Seq<char>)
    requires
        tags.contains(t),
    ensures
        add_tags(tags, toadd).contains(t),
    decreases toadd.len(),
{
    if toadd.len() > 0 {
        lemma_add_tags_keeps(tags, toadd.drop_last(), t);
        let prev = add_tags(tags, toadd.drop_last());
        if !prev.contains(toadd.last()) {
            let k = choose|k: int| 0 <= k < prev.len() && prev[k] == t;
            assert(prev.push(toadd.last())[k] == t);
        }
    }
}

} // verus!
