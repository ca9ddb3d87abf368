//! What a pointer means: the value it leads to in a document, and the
//! proof that every record of a walk names a pointer that leads to the
//! value the record describes.

use crate::json::{distinct_keys, JsonView, MemberView};
use crate::output::BuilderView;
use crate::pointer::{
    after_visit, array_children, child_path, container_records, drain, flatten_spec,
    lemma_visit_decreases, object_children, queue_weight, record_of, visit_records, Pending,
};
use crate::text::{decimal, lemma_decimal_has_no_slash, lemma_decimal_injective};
use vstd::prelude::*;

verus! {

/// Where the last slash of a text stands, or -1 where it has none.
pub open spec fn last_slash(text: Seq<char>) -> int
    decreases text.len(),
{
    if text.len() == 0 {
        -1
    } else if text.last() == '/' {
        text.len() - 1
    } else {
        last_slash(text.drop_last())
    }
}

/// The segments of a pointer: the texts that follow each of its slashes,
/// in order. The empty pointer has none.
pub open spec fn segments(pointer: Seq<char>) -> Seq<Seq<char>>
    decreases pointer.len(),
{
    let k = last_slash(pointer);
    if 0 <= k < pointer.len() {
        segments(pointer.take(k)).push(pointer.skip(k + 1))
    } else {
        Seq::empty()
    }
}

/// The child of a value that a segment names: the member of an object
/// with that key, the element of an array with that index in decimal.
pub open spec fn child(v: JsonView, segment: Seq<char>) -> Option<JsonView> {
    match v {
        JsonView::Object(members) => if exists|i: int|
            0 <= i < members.len() && (#[trigger] members[i]).key == segment {
            Some(
                members[choose|i: int|
                    0 <= i < members.len() && (#[trigger] members[i]).key == segment].value,
            )
        } else {
            None
        },
        JsonView::Array(items) => if exists|i: int|
            0 <= i < items.len() && #[trigger] decimal(i as nat) == segment {
            Some(
                items[choose|i: int|
                    0 <= i < items.len() && #[trigger] decimal(i as nat) == segment],
            )
        } else {
            None
        },
        _ => None,
    }
}

/// The value reached from `v` by following the segments one after the
/// other.
pub open spec fn follow(v: JsonView, path: Seq<Seq<char>>) -> Option<JsonView>
    decreases path.len(),
{
    if path.len() == 0 {
        Some(v)
    } else {
        match follow(v, path.drop_last()) {
            Some(parent) => child(parent, path.last()),
            None => None,
        }
    }
}

/// The value that a pointer leads to in a document. The empty pointer
/// leads to the document itself; any other pointer starts with a slash.
pub open spec fn resolve(doc: JsonView, pointer: Seq<char>) -> Option<JsonView> {
    if pointer.len() > 0 && pointer[0] != '/' {
        None
    } else {
        follow(doc, segments(pointer))
    }
}

/// Whether a text holds no slash.
pub open spec fn slash_free(text: Seq<char>) -> bool {
    forall|i: int| 0 <= i < text.len() ==> text[i] != '/'
}

/// Whether no key holds a slash, at any depth.
pub open spec fn plain_keys(v: JsonView) -> bool
    decreases v,
{
    match v {
        JsonView::Array(items) => forall|i: int|
            0 <= i < items.len() ==> plain_keys(#[trigger] items[i]),
        JsonView::Object(members) => forall|i: int|
            0 <= i < members.len() ==> slash_free((#[trigger] members[i]).key) && plain_keys(
                members[i].value,
            ),
        _ => true,
    }
}

/// Whether a record describes the value that its pointer leads to in
/// `doc`: the type is that value's type, and the value is that value's
/// text for a leaf and absent for a container.
pub open spec fn faithful(doc: JsonView, ident: usize, r: BuilderView) -> bool {
    match r.pointer {
        Some(pointer) => match resolve(doc, pointer) {
            Some(v) => r == record_of(ident, pointer, v),
            None => false,
        },
        None => false,
    }
}

proof fn lemma_last_slash_of_child(path: Seq<char>, key: Seq<char>)
    requires
        slash_free(key),
    ensures
        last_slash(child_path(path, key)) == path.len(),
    decreases key.len(),
{
    let whole = child_path(path, key);
    if key.len() == 0 {
        assert(whole =~= path.push('/'));
    } else {
        assert(whole.last() == key.last());
        assert(whole.drop_last() =~= child_path(path, key.drop_last()));
        lemma_last_slash_of_child(path, key.drop_last());
    }
}

/// A child's pointer has the segments of its parent's pointer, and the
/// key after them.
pub proof fn lemma_segments_of_child(path: Seq<char>, key: Seq<char>)
    requires
        slash_free(key),
    ensures
        segments(child_path(path, key)) == segments(path).push(key),
{
    let whole = child_path(path, key);
    lemma_last_slash_of_child(path, key);
    assert(whole.take(path.len() as int) =~= path);
    assert(whole.skip(path.len() as int + 1) =~= key);
}

/// Whether a queue entry stands where its pointer says: the pointer leads
/// to the entry's value, and the value's keys are distinct and plain.
pub open spec fn placed(doc: JsonView, e: Pending) -> bool {
    resolve(doc, e.1) == Some(e.0) && distinct_keys(e.0) && plain_keys(e.0)
}

proof fn lemma_member_placed(doc: JsonView, path: Seq<char>, members: Seq<MemberView>, i: int)
    requires
        placed(doc, (JsonView::Object(members), path)),
        0 <= i < members.len(),
    ensures
        placed(doc, (members[i].value, child_path(path, members[i].key))),
{
    let v = JsonView::Object(members);
    let key = members[i].key;
    let whole = child_path(path, key);
    assert(slash_free(key));
    lemma_segments_of_child(path, key);
    assert(segments(whole).drop_last() =~= segments(path));
    assert(segments(whole).last() == key);
    assert(whole[0] == '/') by {
        if path.len() > 0 {
            assert(whole[0] == path[0]);
        }
    }
    assert(follow(doc, segments(whole)) == child(v, key));
    let j = choose|j: int| 0 <= j < members.len() && (#[trigger] members[j]).key == key;
    assert(j == i) by {
        if j < i {
            assert(members[j].key != members[i].key);
        } else if i < j {
            assert(members[i].key != members[j].key);
        }
    }
    assert(distinct_keys(v));
    assert(distinct_keys(members[i].value));
}

proof fn lemma_item_placed(doc: JsonView, path: Seq<char>, items: Seq<JsonView>, i: int)
    requires
        placed(doc, (JsonView::Array(items), path)),
        0 <= i < items.len(),
    ensures
        placed(doc, (items[i], child_path(path, decimal(i as nat)))),
{
    let v = JsonView::Array(items);
    let key = decimal(i as nat);
    let whole = child_path(path, key);
    lemma_decimal_has_no_slash(i as nat);
    assert(slash_free(key));
    lemma_segments_of_child(path, key);
    assert(segments(whole).drop_last() =~= segments(path));
    assert(segments(whole).last() == key);
    assert(whole[0] == '/') by {
        if path.len() > 0 {
            assert(whole[0] == path[0]);
        }
    }
    assert(follow(doc, segments(whole)) == child(v, key));
    let j = choose|j: int| 0 <= j < items.len() && #[trigger] decimal(j as nat) == key;
    lemma_decimal_injective(j as nat, i as nat);
    assert(distinct_keys(v));
    assert(plain_keys(v));
    assert(distinct_keys(items[i]));
    assert(plain_keys(items[i]));
}

proof fn lemma_container_records_faithful(
    doc: JsonView,
    ident: usize,
    path: Seq<char>,
    members: Seq<MemberView>,
    n: int,
)
    requires
        placed(doc, (JsonView::Object(members), path)),
        0 <= n <= members.len(),
    ensures
        forall|i: int|
            0 <= i < container_records(ident, path, members.take(n)).len() ==> faithful(
                doc,
                ident,
                #[trigger] container_records(ident, path, members.take(n))[i],
            ),
    decreases n,
{
    let records = container_records(ident, path, members.take(n));
    if n > 0 {
        lemma_container_records_faithful(doc, ident, path, members, n - 1);
        lemma_member_placed(doc, path, members, n - 1);
        assert(members.take(n).drop_last() =~= members.take(n - 1));
        let rest = container_records(ident, path, members.take(n - 1));
        assert forall|i: int| 0 <= i < records.len() implies faithful(
            doc,
            ident,
            #[trigger] records[i],
        ) by {
            if i < rest.len() {
                assert(records[i] == rest[i]);
            }
        }
    }
}

/// Every record of a walk is faithful, if every entry of the queue stands
/// where its pointer says.
pub proof fn lemma_drain_faithful(doc: JsonView, ident: usize, queue: Seq<Pending>)
    requires
        forall|k: int| 0 <= k < queue.len() ==> placed(doc, #[trigger] queue[k]),
    ensures
        forall|i: int|
            0 <= i < drain(ident, queue).len() ==> faithful(
                doc,
                ident,
                #[trigger] drain(ident, queue)[i],
            ),
    decreases queue_weight(queue),
{
    if queue.len() > 0 {
        let (v, path) = queue[0];
        let next = after_visit(queue);
        let first = visit_records(ident, queue);
        let rest = drain(ident, next);
        lemma_visit_decreases(queue);
        assert(placed(doc, queue[0]));
        assert forall|k: int| 0 <= k < next.len() implies placed(doc, #[trigger] next[k]) by {
            if k < queue.len() - 1 {
                assert(next[k] == queue[k + 1]);
            } else {
                let c = k - (queue.len() - 1);
                match v {
                    JsonView::Object(members) => {
                        lemma_member_placed(doc, path, members, c);
                        assert(next[k] == object_children(path, members)[c]);
                    },
                    JsonView::Array(items) => {
                        lemma_item_placed(doc, path, items, c);
                        assert(next[k] == array_children(path, items)[c]);
                    },
                    _ => {},
                }
            }
        }
        lemma_drain_faithful(doc, ident, next);
        match v {
            JsonView::Object(members) => {
                lemma_container_records_faithful(doc, ident, path, members, members.len() as int);
                assert(members.take(members.len() as int) =~= members);
            },
            _ => {},
        }
        assert forall|i: int| 0 <= i < drain(ident, queue).len() implies faithful(
            doc,
            ident,
            #[trigger] drain(ident, queue)[i],
        ) by {
            if i < first.len() {
                assert(drain(ident, queue)[i] == first[i]);
            } else {
                assert(drain(ident, queue)[i] == rest[i - first.len()]);
            }
        }
    }
}

/// Every record of a document names a pointer that leads, in that
/// document, to the value the record describes: the record's type is the
/// value's type, and the record's value is the value's text for a leaf and
/// absent for a container. This holds of documents whose objects have
/// distinct keys and whose keys hold no slash, flattened at the empty base
/// path.
pub proof fn lemma_records_resolve(doc: JsonView, ident: usize)
    requires
        distinct_keys(doc),
        plain_keys(doc),
    ensures
        forall|i: int|
            0 <= i < flatten_spec(doc, ident, Seq::empty()).len() ==> faithful(
                doc,
                ident,
                #[trigger] flatten_spec(doc, ident, Seq::empty())[i],
            ),
{
    let queue = seq![(doc, Seq::<char>::empty())];
    assert(segments(Seq::<char>::empty()) =~= Seq::<Seq<char>>::empty());
    assert(placed(doc, queue[0]));
    lemma_drain_faithful(doc, ident, queue);
}

} // verus!
