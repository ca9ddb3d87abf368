//! No two records of one document name the same pointer, as long as the
//! document's keys are distinct within each object and hold no slash.

use crate::json::{distinct_keys, is_container, JsonView, MemberView};
use crate::output::BuilderView;
use crate::pointer::{
    after_visit, array_children, child_path, container_records, drain, flatten_spec,
    lemma_visit_decreases, object_children, queue_weight, record_of, visit_records, Pending,
};
use crate::resolve::{lemma_segments_of_child, plain_keys, segments, slash_free};
use crate::text::{decimal, lemma_decimal_has_no_slash, lemma_decimal_injective};
use vstd::prelude::*;

verus! {

/// Whether the segments `a` are the first segments of `b`.
pub open spec fn is_prefix(a: Seq<Seq<char>>, b: Seq<Seq<char>>) -> bool {
    a.len() <= b.len() && forall|i: int| 0 <= i < a.len() ==> a[i] == b[i]
}

/// Whether one of two runs of segments starts with the other.
pub open spec fn related(a: Seq<Seq<char>>, b: Seq<Seq<char>>) -> bool {
    is_prefix(a, b) || is_prefix(b, a)
}

/// Whether no entry of a queue stands at or below another.
pub open spec fn apart(queue: Seq<Pending>) -> bool {
    forall|i: int, j: int|
        0 <= i < j < queue.len() ==> !related(
            segments((#[trigger] queue[i]).1),
            segments((#[trigger] queue[j]).1),
        )
}

/// Whether the keys of every entry of a queue are distinct and plain.
pub open spec fn sound(queue: Seq<Pending>) -> bool {
    forall|k: int|
        0 <= k < queue.len() ==> distinct_keys((#[trigger] queue[k]).0) && plain_keys(queue[k].0)
}

/// Whether a record stands at or below a queue entry, and below it if the
/// entry is a container.
pub open spec fn covers(e: Pending, r: BuilderView) -> bool {
    match r.pointer {
        Some(p) => is_prefix(segments(e.1), segments(p)) && (segments(e.1).len() == segments(
            p,
        ).len() ==> !is_container(e.0)),
        None => false,
    }
}

/// The children of a value at `path`, as values that wait to be visited.
pub open spec fn children(v: JsonView, path: Seq<char>) -> Seq<Pending> {
    match v {
        JsonView::Object(members) => object_children(path, members),
        JsonView::Array(items) => array_children(path, items),
        _ => Seq::empty(),
    }
}

/// The last segment of the pointer of a value's child.
pub open spec fn child_key(v: JsonView, c: int) -> Seq<char> {
    match v {
        JsonView::Object(members) => members[c].key,
        JsonView::Array(_) => decimal(c as nat),
        _ => Seq::empty(),
    }
}

proof fn lemma_children(v: JsonView, path: Seq<char>)
    requires
        distinct_keys(v),
        plain_keys(v),
    ensures
        forall|c: int|
            0 <= c < children(v, path).len() ==> {
                &&& segments((#[trigger] children(v, path)[c]).1) == segments(path).push(
                    child_key(v, c),
                )
                &&& children(v, path)[c].1 == child_path(path, child_key(v, c))
                &&& distinct_keys(children(v, path)[c].0)
                &&& plain_keys(children(v, path)[c].0)
            },
        forall|c: int, d: int|
            0 <= c < d < children(v, path).len() ==> child_key(v, c) != child_key(v, d),
{
    assert forall|c: int| 0 <= c < children(v, path).len() implies {
        &&& segments((#[trigger] children(v, path)[c]).1) == segments(path).push(child_key(v, c))
        &&& children(v, path)[c].1 == child_path(path, child_key(v, c))
        &&& distinct_keys(children(v, path)[c].0)
        &&& plain_keys(children(v, path)[c].0)
    } by {
        match v {
            JsonView::Object(members) => {
                assert(slash_free(members[c].key));
                assert(distinct_keys(members[c].value));
            },
            JsonView::Array(items) => {
                lemma_decimal_has_no_slash(c as nat);
                assert(distinct_keys(items[c]));
                assert(plain_keys(items[c]));
            },
            _ => {},
        }
        lemma_segments_of_child(path, child_key(v, c));
    }
    assert forall|c: int, d: int| 0 <= c < d < children(v, path).len() implies child_key(v, c)
        != child_key(v, d) by {
        match v {
            JsonView::Object(members) => {
                assert(members[c].key != members[d].key);
            },
            JsonView::Array(items) => {
                if decimal(c as nat) == decimal(d as nat) {
                    lemma_decimal_injective(c as nat, d as nat);
                }
            },
            _ => {},
        }
    }
}

/// After a visit the queue is still apart and sound.
proof fn lemma_visit_keeps_apart(queue: Seq<Pending>)
    requires
        queue.len() > 0,
        apart(queue),
        sound(queue),
    ensures
        apart(after_visit(queue)),
        sound(after_visit(queue)),
        after_visit(queue) == queue.drop_first() + children(queue[0].0, queue[0].1),
{
    let (v, path) = queue[0];
    let tail = queue.drop_first();
    let kids = children(v, path);
    let next = after_visit(queue);
    assert(next =~= tail + kids);
    assert(distinct_keys(queue[0].0) && plain_keys(queue[0].0));
    lemma_children(v, path);
    let here = segments(path);
    assert forall|k: int| 0 <= k < next.len() implies distinct_keys((#[trigger] next[k]).0)
        && plain_keys(next[k].0) by {
        if k < tail.len() {
            assert(next[k] == queue[k + 1]);
        } else {
            assert(next[k] == kids[k - tail.len()]);
        }
    }
    assert forall|i: int, j: int| 0 <= i < j < next.len() implies !related(
        segments((#[trigger] next[i]).1),
        segments((#[trigger] next[j]).1),
    ) by {
        let a = segments(next[i].1);
        let b = segments(next[j].1);
        if j < tail.len() {
            assert(next[i] == queue[i + 1]);
            assert(next[j] == queue[j + 1]);
        } else if i < tail.len() {
            let c = j - tail.len();
            assert(next[i] == queue[i + 1]);
            assert(next[j] == kids[c]);
            assert(b == here.push(child_key(v, c)));
            assert(!related(segments(queue[0].1), segments(queue[i + 1].1)));
            if is_prefix(a, b) {
                if a.len() <= here.len() {
                    assert(is_prefix(a, here));
                } else {
                    assert(is_prefix(here, a));
                }
            }
            if is_prefix(b, a) {
                assert(is_prefix(here, a));
            }
        } else {
            let c = i - tail.len();
            let d = j - tail.len();
            assert(next[i] == kids[c]);
            assert(next[j] == kids[d]);
            assert(a == here.push(child_key(v, c)));
            assert(b == here.push(child_key(v, d)));
            if related(a, b) {
                assert(a[here.len() as int] == b[here.len() as int]);
            }
        }
    }
}

/// The records that an object emits at once stand right below it, one
/// for a member each, and no two of them name the same pointer.
proof fn lemma_container_records_distinct(
    ident: usize,
    path: Seq<char>,
    members: Seq<MemberView>,
    n: int,
)
    requires
        distinct_keys(JsonView::Object(members)),
        plain_keys(JsonView::Object(members)),
        0 <= n <= members.len(),
    ensures
        forall|i: int|
            0 <= i < container_records(ident, path, members.take(n)).len() ==> exists|m: int|
                0 <= m < n && is_container(members[m].value) && (#[trigger] container_records(
                    ident,
                    path,
                    members.take(n),
                )[i]).pointer == Some(child_path(path, members[m].key)) && segments(
                    child_path(path, members[m].key),
                ) == segments(path).push(members[m].key),
        forall|i: int, j: int|
            0 <= i < j < container_records(ident, path, members.take(n)).len() ==> (
            #[trigger] container_records(ident, path, members.take(n))[i]).pointer != (
            #[trigger] container_records(ident, path, members.take(n))[j]).pointer,
    decreases n,
{
    let records = container_records(ident, path, members.take(n));
    if n > 0 {
        lemma_container_records_distinct(ident, path, members, n - 1);
        assert(members.take(n).drop_last() =~= members.take(n - 1));
        assert(members.take(n).last() == members[n - 1]);
        let rest = container_records(ident, path, members.take(n - 1));
        let key = members[n - 1].key;
        assert(slash_free(key));
        lemma_segments_of_child(path, key);
        assert forall|i: int| 0 <= i < records.len() implies exists|m: int|
            0 <= m < n && is_container(members[m].value) && (#[trigger] records[i]).pointer == Some(
                child_path(path, members[m].key),
            ) && segments(child_path(path, members[m].key)) == segments(path).push(
                members[m].key,
            ) by {
            if i < rest.len() {
                assert(records[i] == rest[i]);
                let m = choose|m: int|
                    0 <= m < n - 1 && is_container(members[m].value) && rest[i].pointer == Some(
                        child_path(path, members[m].key),
                    ) && segments(child_path(path, members[m].key)) == segments(path).push(
                        members[m].key,
                    );
                assert(0 <= m < n);
            } else {
                assert(records[i].pointer == Some(child_path(path, key)));
            }
        }
        assert forall|i: int, j: int| 0 <= i < j < records.len() implies (
        #[trigger] records[i]).pointer != (#[trigger] records[j]).pointer by {
            if j < rest.len() {
                assert(records[i] == rest[i]);
                assert(records[j] == rest[j]);
            } else {
                assert(records[i] == rest[i]);
                let m = choose|m: int|
                    0 <= m < n - 1 && is_container(members[m].value) && rest[i].pointer == Some(
                        child_path(path, members[m].key),
                    ) && segments(child_path(path, members[m].key)) == segments(path).push(
                        members[m].key,
                    );
                assert(members[m].key != members[n - 1].key);
                let a = segments(path).push(members[m].key);
                let b = segments(path).push(key);
                assert(a.last() != b.last());
            }
        }
    }
}

/// No two records of a walk name the same pointer, and every record
/// stands at or below an entry of the queue, if no entry of the queue
/// stands at or below another.
pub proof fn lemma_drain_distinct(ident: usize, queue: Seq<Pending>)
    requires
        apart(queue),
        sound(queue),
    ensures
        forall|i: int, j: int|
            0 <= i < j < drain(ident, queue).len() ==> (#[trigger] drain(ident, queue)[i]).pointer
                != (#[trigger] drain(ident, queue)[j]).pointer,
        forall|i: int|
            0 <= i < drain(ident, queue).len() ==> exists|q: int|
                0 <= q < queue.len() && covers(queue[q], #[trigger] drain(ident, queue)[i]),
    decreases queue_weight(queue),
{
    if queue.len() > 0 {
        let (v, path) = queue[0];
        let here = segments(path);
        let tail = queue.drop_first();
        let kids = children(v, path);
        let next = after_visit(queue);
        let first = visit_records(ident, queue);
        let rest = drain(ident, next);
        let all = drain(ident, queue);
        lemma_visit_decreases(queue);
        lemma_visit_keeps_apart(queue);
        lemma_drain_distinct(ident, next);
        assert(distinct_keys(queue[0].0) && plain_keys(queue[0].0));
        lemma_children(v, path);
        match v {
            JsonView::Object(members) => {
                lemma_container_records_distinct(ident, path, members, members.len() as int);
                assert(members.take(members.len() as int) =~= members);
            },
            _ => {},
        }
        // Every record of this visit stands at or below the entry visited.
        assert forall|i: int| 0 <= i < first.len() implies covers(queue[0], #[trigger] first[i]) by {
            match v {
                JsonView::Object(members) => {
                    let m = choose|m: int|
                        0 <= m < members.len() && is_container(members[m].value)
                            && first[i].pointer == Some(child_path(path, members[m].key))
                            && segments(child_path(path, members[m].key)) == here.push(
                            members[m].key,
                        );
                    assert(is_prefix(here, here.push(members[m].key)));
                },
                JsonView::Array(_) => {},
                _ => {
                    assert(is_prefix(here, here));
                },
            }
        }
        // Every later record stands at or below an entry of this queue.
        assert forall|i: int| 0 <= i < rest.len() implies exists|q: int|
            0 <= q < queue.len() && covers(queue[q], #[trigger] rest[i]) by {
            let q = choose|q: int| 0 <= q < next.len() && covers(next[q], rest[i]);
            if q < tail.len() {
                assert(next[q] == queue[q + 1]);
                assert(covers(queue[q + 1], rest[i]));
            } else {
                let c = q - tail.len();
                assert(next[q] == kids[c]);
                assert(segments(kids[c].1) == here.push(child_key(v, c)));
                assert(is_prefix(here, segments(rest[i].pointer.unwrap())));
                assert(covers(queue[0], rest[i]));
            }
        }
        assert forall|i: int| 0 <= i < all.len() implies exists|q: int|
            0 <= q < queue.len() && covers(queue[q], #[trigger] all[i]) by {
            if i < first.len() {
                assert(all[i] == first[i]);
                assert(covers(queue[0], all[i]));
            } else {
                assert(all[i] == rest[i - first.len()]);
            }
        }
        assert forall|i: int, j: int| 0 <= i < j < all.len() implies (#[trigger] all[i]).pointer
            != (#[trigger] all[j]).pointer by {
            if j < first.len() {
                assert(all[i] == first[i]);
                assert(all[j] == first[j]);
            } else if i >= first.len() {
                assert(all[i] == rest[i - first.len()]);
                assert(all[j] == rest[j - first.len()]);
            } else {
                let early = first[i];
                let late = rest[j - first.len()];
                assert(all[i] == early);
                assert(all[j] == late);
                if early.pointer == late.pointer {
                    let spot = segments(late.pointer.unwrap());
                    let q = choose|q: int| 0 <= q < next.len() && covers(next[q], late);
                    let under = segments(next[q].1);
                    assert(is_prefix(under, spot));
                    assert(covers(queue[0], early));
                    if q < tail.len() {
                        assert(next[q] == queue[q + 1]);
                        assert(!related(segments(queue[0].1), segments(queue[q + 1].1)));
                        if under.len() <= here.len() {
                            assert(is_prefix(under, here));
                        } else {
                            assert(is_prefix(here, under));
                        }
                    } else {
                        let c = q - tail.len();
                        assert(next[q] == kids[c]);
                        assert(under == here.push(child_key(v, c)));
                        match v {
                            JsonView::Object(members) => {
                                let m = choose|m: int|
                                    0 <= m < members.len() && is_container(members[m].value)
                                        && early.pointer == Some(
                                        child_path(path, members[m].key),
                                    ) && segments(child_path(path, members[m].key)) == here.push(
                                        members[m].key,
                                    );
                                assert(spot == here.push(members[m].key));
                                assert(under[here.len() as int] == spot[here.len() as int]);
                                assert(members[c].key == members[m].key);
                                if c < m {
                                    assert(members[c].key != members[m].key);
                                } else if m < c {
                                    assert(members[m].key != members[c].key);
                                }
                                assert(kids[c].0 == members[c].value);
                            },
                            JsonView::Array(_) => {},
                            _ => {},
                        }
                    }
                }
            }
        }
    }
}

/// No two records of one document name the same pointer. This holds of
/// documents whose objects have distinct keys and whose keys hold no
/// slash.
pub proof fn lemma_pointers_distinct(doc: JsonView, ident: usize, base: Seq<char>)
    requires
        distinct_keys(doc),
        plain_keys(doc),
    ensures
        forall|i: int, j: int|
            0 <= i < j < flatten_spec(doc, ident, base).len() ==> (#[trigger] flatten_spec(
                doc,
                ident,
                base,
            )[i]).pointer != (#[trigger] flatten_spec(doc, ident, base)[j]).pointer,
{
    let queue = seq![(doc, base)];
    assert(apart(queue));
    assert(sound(queue));
    lemma_drain_distinct(ident, queue);
}

} // verus!
