//! The flattener: a breadth-first walk of a document that turns it into
//! records addressed by pointer.

use crate::json::{
    is_container, items_of, items_size, json_size, leaf_text, lemma_array_view, lemma_object_view,
    members_of, members_size, Json, JsonView, MemberView,
};
use crate::output::{type_of, BuilderView, JType, OutputBuilder};
use crate::text::{decimal, decimal_string};
use std::collections::VecDeque;
use vstd::prelude::*;
use vstd::string::StringExecFns;

verus! {

/// A value that waits to be visited, with the pointer that leads to it.
pub type Pending = (JsonView, Seq<char>);

/// The pointer of a child: the parent's pointer, a slash, and the key or
/// index, verbatim.
pub open spec fn child_path(path: Seq<char>, key: Seq<char>) -> Seq<char> {
    path.push('/') + key
}

/// The record of the value `v` found at `path`: a container carries no
/// value, a leaf carries its text.
pub open spec fn record_of(ident: usize, path: Seq<char>, v: JsonView) -> BuilderView {
    BuilderView {
        ident: Some(ident),
        delim: None,
        jtype: Some(type_of(v)),
        pointer: Some(path),
        value: Some(
            if is_container(v) {
                None
            } else {
                Some(leaf_text(v))
            },
        ),
    }
}

/// The records that visiting an object at `path` emits at once: one for
/// each member that is itself a container, in member order.
pub open spec fn container_records(
    ident: usize,
    path: Seq<char>,
    members: Seq<MemberView>,
) -> Seq<BuilderView>
    decreases members.len(),
{
    if members.len() == 0 {
        Seq::empty()
    } else {
        let rest = container_records(ident, path, members.drop_last());
        let last = members.last();
        if is_container(last.value) {
            rest.push(record_of(ident, child_path(path, last.key), last.value))
        } else {
            rest
        }
    }
}

/// The members of an object at `path`, as values that wait to be visited.
pub open spec fn object_children(path: Seq<char>, members: Seq<MemberView>) -> Seq<
    Pending,
> {
    Seq::new(members.len(), |i: int| (members[i].value, child_path(path, members[i].key)))
}

/// The elements of an array at `path`, as values that wait to be visited.
pub open spec fn array_children(path: Seq<char>, items: Seq<JsonView>) -> Seq<Pending> {
    Seq::new(items.len(), |i: int| (items[i], child_path(path, decimal(i as nat))))
}

/// The number of values that a queue still holds, descendants included.
pub open spec fn queue_weight(queue: Seq<Pending>) -> nat
    decreases queue.len(),
{
    if queue.len() == 0 {
        0
    } else {
        queue_weight(queue.drop_last()) + json_size(queue.last().0)
    }
}

/// The weight of two queues in a row is the sum of their weights.
proof fn lemma_weight_concat(a: Seq<Pending>, b: Seq<Pending>)
    ensures
        queue_weight(a + b) == queue_weight(a) + queue_weight(b),
    decreases b.len(),
{
    if b.len() == 0 {
        assert(a + b =~= a);
    } else {
        assert((a + b).drop_last() =~= a + b.drop_last());
        assert((a + b).last() == b.last());
        lemma_weight_concat(a, b.drop_last());
    }
}

/// The weight of a queue is that of its front entry and of the rest.
proof fn lemma_weight_front(queue: Seq<Pending>)
    requires
        queue.len() > 0,
    ensures
        queue_weight(queue) == json_size(queue[0].0) + queue_weight(queue.drop_first()),
{
    let head = seq![queue[0]];
    assert(queue =~= head + queue.drop_first());
    lemma_weight_concat(head, queue.drop_first());
    assert(head.drop_last() =~= Seq::<Pending>::empty());
    assert(queue_weight(head.drop_last()) == 0);
    assert(queue_weight(head) == json_size(queue[0].0));
}

/// The first members of an object weigh, as queue entries, what they hold.
proof fn lemma_object_children_weight(
    path: Seq<char>,
    members: Seq<MemberView>,
    n: nat,
)
    requires
        n <= members.len(),
    ensures
        queue_weight(object_children(path, members.take(n as int))) == members_size(members, n),
    decreases n,
{
    let q = object_children(path, members.take(n as int));
    if n > 0 {
        lemma_object_children_weight(path, members, (n - 1) as nat);
        assert(q.drop_last() =~= object_children(path, members.take(n - 1)));
        assert(q.last().0 == members[n - 1].value);
    }
}

/// The first elements of an array weigh, as queue entries, what they hold.
proof fn lemma_array_children_weight(path: Seq<char>, items: Seq<JsonView>, n: nat)
    requires
        n <= items.len(),
    ensures
        queue_weight(array_children(path, items.take(n as int))) == items_size(items, n),
    decreases n,
{
    let q = array_children(path, items.take(n as int));
    if n > 0 {
        lemma_array_children_weight(path, items, (n - 1) as nat);
        assert(q.drop_last() =~= array_children(path, items.take(n - 1)));
        assert(q.last().0 == items[n - 1]);
    }
}

/// The queue after its front entry was visited: the rest, then the
/// children of that entry in order.
pub open spec fn after_visit(queue: Seq<Pending>) -> Seq<Pending>
    recommends
        queue.len() > 0,
{
    let (v, path) = queue[0];
    queue.drop_first() + (match v {
        JsonView::Object(members) => object_children(path, members),
        JsonView::Array(items) => array_children(path, items),
        _ => Seq::empty(),
    })
}

/// The records that visiting the front entry of a queue emits: for an
/// object, the records of its container members; for an array, none; for a
/// leaf, its own record.
pub open spec fn visit_records(ident: usize, queue: Seq<Pending>) -> Seq<BuilderView>
    recommends
        queue.len() > 0,
{
    let (v, path) = queue[0];
    match v {
        JsonView::Object(members) => container_records(ident, path, members),
        JsonView::Array(_) => Seq::empty(),
        _ => seq![record_of(ident, path, v)],
    }
}

/// A visit takes exactly one value off the weight of the queue.
pub proof fn lemma_visit_decreases(queue: Seq<Pending>)
    requires
        queue.len() > 0,
    ensures
        queue_weight(after_visit(queue)) + 1 == queue_weight(queue),
{
    let (v, path) = queue[0];
    lemma_weight_front(queue);
    match v {
        JsonView::Object(members) => {
            lemma_weight_concat(queue.drop_first(), object_children(path, members));
            lemma_object_children_weight(path, members, members.len());
            assert(members.take(members.len() as int) =~= members);
        },
        JsonView::Array(items) => {
            lemma_weight_concat(queue.drop_first(), array_children(path, items));
            lemma_array_children_weight(path, items, items.len());
            assert(items.take(items.len() as int) =~= items);
        },
        _ => {
            assert(after_visit(queue) =~= queue.drop_first());
        },
    }
}

/// The records that a first-in-first-out walk emits from `queue` until it
/// is empty, in the order of emission.
pub open spec fn drain(ident: usize, queue: Seq<Pending>) -> Seq<BuilderView>
    decreases queue_weight(queue),
    via drain_decreases
{
    if queue.len() == 0 {
        Seq::empty()
    } else {
        visit_records(ident, queue) + drain(ident, after_visit(queue))
    }
}

#[via_fn]
proof fn drain_decreases(ident: usize, queue: Seq<Pending>) {
    if queue.len() > 0 {
        lemma_visit_decreases(queue);
    }
}

/// The records of a whole document: the walk started from the root at the
/// base path.
pub open spec fn flatten_spec(doc: JsonView, ident: usize, base: Seq<char>) -> Seq<BuilderView> {
    drain(ident, seq![(doc, base)])
}


/// Whether a record has every field that a walk sets: identifier, type,
/// pointer and value.
pub open spec fn complete(r: BuilderView) -> bool {
    r.ident is Some && r.delim is None && r.jtype is Some && r.pointer is Some && r.value is Some
}

proof fn lemma_container_records_complete(ident: usize, path: Seq<char>, members: Seq<MemberView>)
    ensures
        forall|i: int|
            0 <= i < container_records(ident, path, members).len() ==> complete(
                #[trigger] container_records(ident, path, members)[i],
            ),
    decreases members.len(),
{
    let records = container_records(ident, path, members);
    if members.len() > 0 {
        lemma_container_records_complete(ident, path, members.drop_last());
        let rest = container_records(ident, path, members.drop_last());
        assert forall|i: int| 0 <= i < records.len() implies complete(#[trigger] records[i]) by {
            if i < rest.len() {
                assert(records[i] == rest[i]);
            }
        }
    }
}

/// Every record of a walk is complete.
pub proof fn lemma_drain_complete(ident: usize, queue: Seq<Pending>)
    ensures
        forall|i: int|
            0 <= i < drain(ident, queue).len() ==> complete(#[trigger] drain(ident, queue)[i]),
    decreases queue_weight(queue),
{
    if queue.len() > 0 {
        lemma_visit_decreases(queue);
        lemma_drain_complete(ident, after_visit(queue));
        let first = visit_records(ident, queue);
        let rest = drain(ident, after_visit(queue));
        match queue[0].0 {
            JsonView::Object(members) => {
                lemma_container_records_complete(ident, queue[0].1, members);
            },
            _ => {},
        }
        assert forall|i: int| 0 <= i < drain(ident, queue).len() implies complete(
            #[trigger] drain(ident, queue)[i],
        ) by {
            if i < first.len() {
                assert(drain(ident, queue)[i] == first[i]);
            } else {
                assert(drain(ident, queue)[i] == rest[i - first.len()]);
            }
        }
    }
}

/// Flattening is deterministic: two runs over the same document, with the
/// same identifier and base path, hand out the same records.
pub proof fn lemma_flatten_deterministic(
    first: Seq<OutputBuilder>,
    second: Seq<OutputBuilder>,
    doc: JsonView,
    ident: usize,
    base: Seq<char>,
)
    requires
        records_view(first) == flatten_spec(doc, ident, base),
        records_view(second) == flatten_spec(doc, ident, base),
    ensures
        records_view(first) == records_view(second),
{
}

/// An empty object or an empty array as the whole document yields no
/// record.
pub proof fn lemma_empty_container_yields_nothing(ident: usize, base: Seq<char>)
    ensures
        flatten_spec(JsonView::Object(Seq::empty()), ident, base) == Seq::<BuilderView>::empty(),
        flatten_spec(JsonView::Array(Seq::empty()), ident, base) == Seq::<BuilderView>::empty(),
{
    let object = seq![(JsonView::Object(Seq::empty()), base)];
    let array = seq![(JsonView::Array(Seq::empty()), base)];
    assert(after_visit(object) =~= Seq::<Pending>::empty());
    assert(after_visit(array) =~= Seq::<Pending>::empty());
    assert(drain(ident, after_visit(object)) =~= Seq::<BuilderView>::empty());
    assert(drain(ident, after_visit(array)) =~= Seq::<BuilderView>::empty());
    assert(visit_records(ident, object) =~= Seq::<BuilderView>::empty());
    assert(drain(ident, object) =~= Seq::<BuilderView>::empty());
    assert(drain(ident, array) =~= Seq::<BuilderView>::empty());
}

/// The models of the entries of a work queue.
pub open spec fn queue_view(queue: Seq<(&Json, String)>) -> Seq<Pending> {
    Seq::new(queue.len(), |i: int| (queue[i].0@, queue[i].1@))
}

/// The models of a run of records.
pub open spec fn records_view(records: Seq<OutputBuilder>) -> Seq<BuilderView> {
    Seq::new(records.len(), |i: int| records[i]@)
}

proof fn lemma_queue_view_push(queue: Seq<(&Json, String)>, e: (&Json, String))
    ensures
        queue_view(queue.push(e)) == queue_view(queue).push((e.0@, e.1@)),
{
    assert(queue_view(queue.push(e)) =~= queue_view(queue).push((e.0@, e.1@)));
}

proof fn lemma_records_view_push(records: Seq<OutputBuilder>, b: OutputBuilder)
    ensures
        records_view(records.push(b)) == records_view(records).push(b@),
{
    assert(records_view(records.push(b)) =~= records_view(records).push(b@));
}

proof fn lemma_container_records_step(
    ident: usize,
    path: Seq<char>,
    members: Seq<MemberView>,
    i: int,
)
    requires
        0 <= i < members.len(),
    ensures
        container_records(ident, path, members.take(i + 1)) == if is_container(members[i].value) {
            container_records(ident, path, members.take(i)).push(
                record_of(ident, child_path(path, members[i].key), members[i].value),
            )
        } else {
            container_records(ident, path, members.take(i))
        },
        object_children(path, members.take(i + 1)) == object_children(path, members.take(i)).push(
            (members[i].value, child_path(path, members[i].key)),
        ),
{
    assert(members.take(i + 1).drop_last() =~= members.take(i));
    assert(members.take(i + 1).last() == members[i]);
    assert(object_children(path, members.take(i + 1)) =~= object_children(
        path,
        members.take(i),
    ).push((members[i].value, child_path(path, members[i].key))));
}

proof fn lemma_array_children_step(path: Seq<char>, items: Seq<JsonView>, i: int)
    requires
        0 <= i < items.len(),
    ensures
        array_children(path, items.take(i + 1)) == array_children(path, items.take(i)).push(
            (items[i], child_path(path, decimal(i as nat))),
        ),
{
    assert(array_children(path, items.take(i + 1)) =~= array_children(path, items.take(i)).push(
        (items[i], child_path(path, decimal(i as nat))),
    ));
}

/// The pointer of the child `key` under `path`.
fn join_path(path: &String, key: &str) -> (child: String)
    ensures
        child@ == child_path(path@, key@),
{
    let mut child = path.clone();
    child.append("/");
    child.append(key);
    proof {
        reveal_strlit("/");
        assert("/"@ =~= seq!['/']);
        assert(child@ =~= child_path(path@, key@));
    }
    child
}

/// The record of `node` at `path`.
fn make_record(ident: usize, path: String, node: &Json) -> (b: OutputBuilder)
    ensures
        b@ == record_of(ident, path@, node@),
{
    OutputBuilder::new().ident(ident).pointer(path).value(node.render()).type_of(JType::from(node))
}

/// A walk in progress over one document.
pub struct JsonPointer<'j> {
    ident: usize,
    queue: VecDeque<(&'j Json, String)>,
    pbuf: VecDeque<OutputBuilder>,
}

impl<'j> JsonPointer<'j> {
    /// The identifier that every record of this walk carries.
    pub closed spec fn ident(&self) -> usize {
        self.ident
    }

    /// The records that this walk has yet to hand out, in order.
    pub closed spec fn remaining(&self) -> Seq<BuilderView> {
        records_view(self.pbuf@) + drain(self.ident, queue_view(self.queue@))
    }

    /// Starts the walk of `json`. `meta` holds the document's identifier,
    /// the base path that every pointer starts with, and a hint of how many
    /// children the root has. The hint only reserves room, and never more
    /// than for the children that the root does have.
    pub fn new(json: &'j Json, meta: (usize, String, Option<usize>)) -> (p: Self)
        ensures
            p.ident() == meta.0,
            p.remaining() == flatten_spec(json@, meta.0, meta.1@),
    {
        let (ident, base, hint) = meta;
        let room = json.child_count();
        let (mut queue, pbuf) = match hint {
            Some(hint) => if hint <= room {
                (VecDeque::with_capacity(hint), VecDeque::with_capacity(hint))
            } else {
                (VecDeque::with_capacity(room), VecDeque::with_capacity(room))
            },
            None => (VecDeque::new(), VecDeque::new()),
        };
        proof {
            lemma_queue_view_push(queue@, (json, base));
            assert(queue_view(queue@) =~= Seq::<Pending>::empty());
        }
        queue.push_back((json, base));
        let p = JsonPointer { ident, queue, pbuf };
        proof {
            assert(queue_view(p.queue@) =~= seq![(json@, base@)]);
            assert(records_view(p.pbuf@) =~= Seq::<BuilderView>::empty());
            assert(p.remaining() =~= flatten_spec(json@, ident, base@));
        }
        p
    }

    /// Hands out the next record of the walk, or `None` when the walk is
    /// over.
    pub fn parse_next(&mut self) -> (r: Option<OutputBuilder>)
        ensures
            final(self).ident() == old(self).ident(),
            match r {
                Some(b) => old(self).remaining().len() > 0 && b@ == old(self).remaining()[0]
                    && final(self).remaining() == old(self).remaining().drop_first(),
                None => old(self).remaining().len() == 0 && final(self).remaining().len() == 0,
            },
    {
        loop
            invariant
                self.ident == old(self).ident,
                self.remaining() == old(self).remaining(),
            decreases queue_weight(queue_view(self.queue@)),
        {
            let ghost before = self.remaining();
            let ghost pending = records_view(self.pbuf@);
            let ghost q0 = queue_view(self.queue@);
            if let Some(b) = self.pbuf.pop_front() {
                proof {
                    assert(records_view(self.pbuf@) =~= pending.drop_first());
                    assert(self.remaining() =~= before.drop_first());
                }
                return Some(b);
            }
            assert(pending.len() == 0);
            let ident = self.ident;
            match self.queue.pop_front() {
                None => {
                    assert(q0.len() == 0);
                    return None;
                },
                Some((node, path)) => {
                    proof {
                        assert(q0[0] == (node@, path@));
                        assert(queue_view(self.queue@) =~= q0.drop_first());
                        lemma_visit_decreases(q0);
                        assert(before =~= visit_records(ident, q0) + drain(ident, after_visit(q0)));
                    }
                    match node {
                        Json::Object(members) => {
                            let ghost mv = members_of(node@);
                            proof {
                                lemma_object_view(*members);
                            }
                            let mut i: usize = 0;
                            proof {
                                assert(object_children(path@, mv.take(0)) =~= Seq::<
                                    Pending,
                                >::empty());
                                assert(queue_view(self.queue@) =~= q0.drop_first()
                                    + object_children(path@, mv.take(0)));
                            }
                            while i < members.len()
                                invariant
                                    i <= members.len(),
                                    self.ident == ident,
                                    mv.len() == members.len(),
                                    forall|k: int|
                                        0 <= k < members.len() ==> mv[k] == (MemberView {
                                            key: members[k].0@,
                                            value: members[k].1@,
                                        }),
                                    queue_view(self.queue@) == q0.drop_first() + object_children(
                                        path@,
                                        mv.take(i as int),
                                    ),
                                    records_view(self.pbuf@) == container_records(
                                        ident,
                                        path@,
                                        mv.take(i as int),
                                    ),
                                decreases members.len() - i,
                            {
                                let key = &members[i].0;
                                let child = &members[i].1;
                                let child_path = join_path(&path, key.as_str());
                                proof {
                                    lemma_container_records_step(ident, path@, mv, i as int);
                                }
                                match child {
                                    Json::Object(_) | Json::Array(_) => {
                                        let record = make_record(ident, child_path.clone(), child);
                                        proof {
                                            lemma_records_view_push(self.pbuf@, record);
                                        }
                                        self.pbuf.push_back(record);
                                    },
                                    _ => {},
                                }
                                proof {
                                    lemma_queue_view_push(self.queue@, (child, child_path));
                                    assert((q0.drop_first() + object_children(
                                        path@,
                                        mv.take(i as int),
                                    )).push((child@, child_path@)) =~= q0.drop_first()
                                        + object_children(path@, mv.take(i as int + 1)));
                                }
                                self.queue.push_back((child, child_path));
                                i += 1;
                            }
                            proof {
                                assert(mv.take(i as int) =~= mv);
                            }
                        },
                        Json::Array(items) => {
                            let ghost iv = items_of(node@);
                            proof {
                                lemma_array_view(*items);
                            }
                            let mut i: usize = 0;
                            proof {
                                assert(array_children(path@, iv.take(0)) =~= Seq::<
                                    Pending,
                                >::empty());
                                assert(queue_view(self.queue@) =~= q0.drop_first()
                                    + array_children(path@, iv.take(0)));
                            }
                            while i < items.len()
                                invariant
                                    i <= items.len(),
                                    self.ident == ident,
                                    iv.len() == items.len(),
                                    forall|k: int| 0 <= k < items.len() ==> iv[k] == items[k]@,
                                    queue_view(self.queue@) == q0.drop_first() + array_children(
                                        path@,
                                        iv.take(i as int),
                                    ),
                                    self.pbuf@.len() == 0,
                                decreases items.len() - i,
                            {
                                let child = &items[i];
                                let index = decimal_string(i);
                                let child_path = join_path(&path, index.as_str());
                                proof {
                                    lemma_array_children_step(path@, iv, i as int);
                                    lemma_queue_view_push(self.queue@, (child, child_path));
                                    assert((q0.drop_first() + array_children(
                                        path@,
                                        iv.take(i as int),
                                    )).push((child@, child_path@)) =~= q0.drop_first()
                                        + array_children(path@, iv.take(i as int + 1)));
                                }
                                self.queue.push_back((child, child_path));
                                i += 1;
                            }
                            proof {
                                assert(iv.take(i as int) =~= iv);
                                assert(records_view(self.pbuf@) =~= Seq::<BuilderView>::empty());
                                assert(self.remaining() =~= before);
                            }
                        },
                        _ => {
                            let record = make_record(ident, path, node);
                            proof {
                                assert(after_visit(q0) =~= q0.drop_first());
                                assert(records_view(self.pbuf@) =~= Seq::<BuilderView>::empty());
                                assert(self.remaining() =~= before.drop_first());
                            }
                            return Some(record);
                        },
                    }
                },
            }
        }
    }
}

/// Flattens a whole document: every record of its walk, in order.
pub fn flatten(json: &Json, ident: usize, base: String) -> (records: Vec<OutputBuilder>)
    ensures
        records_view(records@) == flatten_spec(json@, ident, base@),
{
    let ghost root = base@;
    let ghost all = flatten_spec(json@, ident, root);
    let mut walk = JsonPointer::new(json, (ident, base, None));
    let mut records: Vec<OutputBuilder> = Vec::new();
    proof {
        assert(records_view(records@) + walk.remaining() =~= all);
    }
    loop
        invariant
            records_view(records@) + walk.remaining() == all,
            all == flatten_spec(json@, ident, root),
            root == base@,
        decreases walk.remaining().len(),
    {
        match walk.parse_next() {
            Some(record) => {
                proof {
                    lemma_records_view_push(records@, record);
                    assert(records_view(records@).push(record@) + walk.remaining() =~= all);
                }
                records.push(record);
            },
            None => {
                proof {
                    assert(records_view(records@) =~= all);
                }
                return records;
            },
        }
    }
}

} // verus!
