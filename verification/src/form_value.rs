use vstd::prelude::*;

use vstd::pervasive::VecAdditionalExecFns;

use crate::grammar::{NamePathSegment, NameSeg, segs_view};

verus! {

/// One value of a submitted form: a nested tree built from bracketed field
/// names. A `Mapping` never holds two entries with the same key; an `Array` is
/// only ever appended to while a form is built; `Empty` is the identity of
/// merging.
pub enum FormValue {
    Empty,
    Scalar(String),
    Array(Vec<FormValue>),
    Mapping(Vec<(String, FormValue)>),
}

/// Mathematical model of a [`FormValue`]: keys and scalars are character
/// sequences, children are ordered sequences.
pub enum FormNode {
    Empty,
    Scalar(Seq<char>),
    Array(Seq<FormNode>),
    Mapping(Seq<(Seq<char>, FormNode)>),
}

/// Model of a form value.
pub open spec fn node_of(v: FormValue) -> FormNode
    decreases v,
    via node_of_dec
{
    match v {
        FormValue::Empty => FormNode::Empty,
        FormValue::Scalar(s) => FormNode::Scalar(s@),
        FormValue::Array(items) => FormNode::Array(
            Seq::new(
                items@.len(),
                |i: int|
                    if 0 <= i < items@.len() {
                        node_of(items@[i])
                    } else {
                        FormNode::Empty
                    },
            ),
        ),
        FormValue::Mapping(entries) => FormNode::Mapping(
            Seq::new(
                entries@.len(),
                |i: int|
                    if 0 <= i < entries@.len() {
                        (entries@[i].0@, node_of(entries@[i].1))
                    } else {
                        (Seq::empty(), FormNode::Empty)
                    },
            ),
        ),
    }
}

#[via_fn]
proof fn node_of_dec(v: FormValue) {
    match v {
        FormValue::Array(items) => {
            assert forall|i: int| 0 <= i < items@.len() implies decreases_to!(v => items@[i]) by {
                assert(decreases_to!(items => items[i]));
            }
        },
        FormValue::Mapping(entries) => {
            assert forall|i: int|
                0 <= i < entries@.len() implies decreases_to!(v => entries@[i].1) by {
                assert(decreases_to!(entries => entries[i]));
            }
        },
        _ => {},
    }
}

impl View for FormValue {
    type V = FormNode;

    open spec fn view(&self) -> FormNode {
        node_of(*self)
    }
}

/// Model of a list of keyed entries.
pub open spec fn entries_view(entries: Seq<(String, FormValue)>) -> Seq<(Seq<char>, FormNode)> {
    Seq::new(
        entries.len(),
        |i: int|
            if 0 <= i < entries.len() {
                (entries[i].0@, node_of(entries[i].1))
            } else {
                (Seq::empty(), FormNode::Empty)
            },
    )
}

/// Index of the first entry carrying key `k`, or `-1` when no entry does.
pub open spec fn first_key_index(m: Seq<(Seq<char>, FormNode)>, k: Seq<char>) -> int
    decreases m.len(),
{
    if m.len() == 0 {
        -1
    } else if m[0].0 == k {
        0
    } else {
        let r = first_key_index(m.subrange(1, m.len() as int), k);
        if r < 0 {
            -1
        } else {
            r + 1
        }
    }
}

/// Whether some entry of `m` carries key `k`.
pub open spec fn has_key(m: Seq<(Seq<char>, FormNode)>, k: Seq<char>) -> bool {
    first_key_index(m, k) >= 0
}

pub proof fn lemma_first_key_index_bounds(m: Seq<(Seq<char>, FormNode)>, k: Seq<char>)
    ensures
        first_key_index(m, k) >= 0 ==> first_key_index(m, k) < m.len() && m[first_key_index(
            m,
            k,
        )].0 == k,
        first_key_index(m, k) < 0 ==> first_key_index(m, k) == -1,
    decreases m.len(),
{
    if m.len() != 0 && m[0].0 != k {
        lemma_first_key_index_bounds(m.subrange(1, m.len() as int), k);
    }
}

/// The first matching index is exactly the least index whose key is `k`.
pub proof fn lemma_first_key_index_is(m: Seq<(Seq<char>, FormNode)>, k: Seq<char>, j: int)
    requires
        0 <= j < m.len(),
        m[j].0 == k,
        forall|t: int| 0 <= t < j ==> m[t].0 != k,
    ensures
        first_key_index(m, k) == j,
    decreases m.len(),
{
    if j == 0 {
    } else {
        assert(m[0].0 != k);
        lemma_first_key_index_is(m.subrange(1, m.len() as int), k, j - 1);
    }
}

/// When no entry carries key `k`, the lookup reports `-1`.
pub proof fn lemma_first_key_index_none(m: Seq<(Seq<char>, FormNode)>, k: Seq<char>)
    requires
        forall|t: int| 0 <= t < m.len() ==> m[t].0 != k,
    ensures
        first_key_index(m, k) == -1,
    decreases m.len(),
{
    if m.len() != 0 {
        lemma_first_key_index_none(m.subrange(1, m.len() as int), k);
    }
}

/// Merge of two form trees.
///
/// `Empty` yields the other operand; two `Mapping`s merge recursively on
/// shared keys and append new keys in first-seen order; two `Array`s
/// concatenate; any other pair keeps the first operand unchanged.
pub open spec fn merge_nodes(a: FormNode, b: FormNode) -> FormNode
    decreases b,
    via merge_nodes_dec
{
    match (a, b) {
        (FormNode::Empty, _) => b,
        (_, FormNode::Empty) => a,
        (FormNode::Mapping(m1), FormNode::Mapping(m2)) => FormNode::Mapping(
            merge_entries(m1, m2),
        ),
        (FormNode::Array(x), FormNode::Array(y)) => FormNode::Array(x + y),
        _ => a,
    }
}

/// Fold the entries of `rest` into `acc`, left to right: an entry whose key
/// `acc` already carries merges into that entry in place; a new key is
/// appended.
pub open spec fn merge_entries(
    acc: Seq<(Seq<char>, FormNode)>,
    rest: Seq<(Seq<char>, FormNode)>,
) -> Seq<(Seq<char>, FormNode)>
    decreases rest,
    via merge_entries_dec
{
    if rest.len() == 0 {
        acc
    } else {
        let k = rest[0].0;
        let v = rest[0].1;
        let j = first_key_index(acc, k);
        let acc2 = if j >= 0 {
            acc.update(j, (k, merge_nodes(acc[j].1, v)))
        } else {
            acc.push((k, v))
        };
        merge_entries(acc2, rest.subrange(1, rest.len() as int))
    }
}

#[via_fn]
proof fn merge_nodes_dec(a: FormNode, b: FormNode) {
    match (a, b) {
        (FormNode::Mapping(m1), FormNode::Mapping(m2)) => {
            assert(decreases_to!(b => m2));
        },
        _ => {},
    }
}

#[via_fn]
proof fn merge_entries_dec(acc: Seq<(Seq<char>, FormNode)>, rest: Seq<(Seq<char>, FormNode)>) {
    if rest.len() != 0 {
        assert(decreases_to!(rest => rest[0]));
        assert(decreases_to!(rest => rest.subrange(1, rest.len() as int)));
    }
}

/// Copy of a list of form values.
fn clone_items(items: &Vec<FormValue>) -> (r: Vec<FormValue>)
    ensures
        r@.len() == items@.len(),
        forall|j: int| 0 <= j < items@.len() ==> r@[j]@ == items@[j]@,
{
    let mut out: Vec<FormValue> = Vec::new();
    let mut i: usize = 0;
    while i < items.len()
        invariant
            i <= items.len(),
            out@.len() == i as int,
            forall|j: int| 0 <= j < i ==> out@[j]@ == items@[j]@,
        decreases items.len() - i,
    {
        let c = clone_form(&items[i]);
        out.push(c);
        i = i + 1;
    }
    out
}

/// Copy of a list of keyed entries.
fn clone_entries(entries: &Vec<(String, FormValue)>) -> (r: Vec<(String, FormValue)>)
    ensures
        r@.len() == entries@.len(),
        forall|j: int| 0 <= j < entries@.len() ==> r@[j].0@ == entries@[j].0@ && r@[j].1@
            == entries@[j].1@,
{
    let mut out: Vec<(String, FormValue)> = Vec::new();
    let mut i: usize = 0;
    while i < entries.len()
        invariant
            i <= entries.len(),
            out@.len() == i as int,
            forall|j: int| 0 <= j < i ==> out@[j].0@ == entries@[j].0@ && out@[j].1@
                == entries@[j].1@,
        decreases entries.len() - i,
    {
        let k = entries[i].0.clone();
        let c = clone_form(&entries[i].1);
        out.push((k, c));
        i = i + 1;
    }
    out
}

/// Structural copy of a form value.
#[verifier::loop_isolation(false)]
pub fn clone_form(v: &FormValue) -> (r: FormValue)
    ensures
        r@ == v@,
    decreases v,
{
    match v {
        FormValue::Empty => FormValue::Empty,
        FormValue::Scalar(s) => FormValue::Scalar(s.clone()),
        FormValue::Array(items) => {
            let mut out: Vec<FormValue> = Vec::new();
            let mut i: usize = 0;
            while i < items.len()
                invariant
                    i <= items.len(),
                    out@.len() == i as int,
                    forall|j: int| 0 <= j < i ==> out@[j]@ == items@[j]@,
                decreases items.len() - i,
            {
                proof {
                    assert(decreases_to!(items => items[i as int]));
                    assert(decreases_to!(*v => *items));
                    assert(decreases_to!(*v => items[i as int]));
                }
                let c = clone_form(&items[i]);
                out.push(c);
                i = i + 1;
            }
            let r = FormValue::Array(out);
            proof {
                assert(r@ matches FormNode::Array(s) && v@ matches FormNode::Array(t) && s =~= t);
            }
            r
        },
        FormValue::Mapping(entries) => {
            let mut out: Vec<(String, FormValue)> = Vec::new();
            let mut i: usize = 0;
            while i < entries.len()
                invariant
                    i <= entries.len(),
                    out@.len() == i as int,
                    forall|j: int| 0 <= j < i ==> out@[j].0@ == entries@[j].0@ && out@[j].1@
                        == entries@[j].1@,
                decreases entries.len() - i,
            {
                proof {
                    assert(decreases_to!(entries => entries[i as int]));
                    assert(decreases_to!(*v => *entries));
                    assert(decreases_to!(*v => entries[i as int].1));
                }
                let k = entries[i].0.clone();
                let c = clone_form(&entries[i].1);
                out.push((k, c));
                i = i + 1;
            }
            let r = FormValue::Mapping(out);
            proof {
                assert(r@ matches FormNode::Mapping(s) && v@ matches FormNode::Mapping(t) && s
                    =~= t);
            }
            r
        },
    }
}

/// First entry of `entries` whose key equals `k`, if any.
pub(crate) fn find_key(entries: &Vec<(String, FormValue)>, k: &String) -> (r: Option<usize>)
    ensures
        match r {
            Some(j) => j < entries@.len() && entries@[j as int].0@ == k@ && forall|t: int|
                0 <= t < j ==> entries@[t].0@ != k@,
            None => forall|t: int| 0 <= t < entries@.len() ==> entries@[t].0@ != k@,
        },
{
    let mut j: usize = 0;
    while j < entries.len()
        invariant
            j <= entries.len(),
            forall|t: int| 0 <= t < j ==> entries@[t].0@ != k@,
        decreases entries.len() - j,
    {
        if entries[j].0 == *k {
            return Some(j);
        }
        j = j + 1;
    }
    None
}

/// Merge `b` into `a`, building a fresh tree; the result is the model-level
/// merge of the two operands.
#[verifier::loop_isolation(false)]
pub fn merge(a: &FormValue, b: &FormValue) -> (r: FormValue)
    ensures
        r@ == merge_nodes(a@, b@),
    decreases b,
{
    match (a, b) {
        (FormValue::Empty, _) => clone_form(b),
        (_, FormValue::Empty) => clone_form(a),
        (FormValue::Mapping(m1), FormValue::Mapping(m2)) => {
            let ghost m1v = entries_view(m1@);
            let ghost m2v = entries_view(m2@);
            proof {
                assert(a@->Mapping_0 =~= m1v);
                assert(b@->Mapping_0 =~= m2v);
            }
            let mut out = clone_entries(m1);
            proof {
                assert(entries_view(out@) =~= m1v);
                assert(m2v.subrange(0, m2v.len() as int) =~= m2v);
            }
            let mut i: usize = 0;
            while i < m2.len()
                invariant
                    i <= m2@.len(),
                    merge_entries(m1v, m2v) == merge_entries(
                        entries_view(out@),
                        m2v.subrange(i as int, m2v.len() as int),
                    ),
                decreases m2@.len() - i,
            {
                let ghost outv = entries_view(out@);
                let ghost rest = m2v.subrange(i as int, m2v.len() as int);
                proof {
                    assert(rest[0] == m2v[i as int]);
                    assert(rest.subrange(1, rest.len() as int) =~= m2v.subrange(
                        i + 1,
                        m2v.len() as int,
                    ));
                }
                match find_key(&out, &m2[i].0) {
                    Some(j) => {
                        proof {
                            lemma_first_key_index_is(outv, m2@[i as int].0@, j as int);
                            assert(decreases_to!(m2 => m2[i as int]));
                            assert(decreases_to!(*b => *m2));
                            assert(decreases_to!(*b => m2[i as int].1));
                        }
                        let merged = merge(&out[j].1, &m2[i].1);
                        let new_key = m2[i].0.clone();
                        out.set(j, (new_key, merged));
                        proof {
                            assert(entries_view(out@) =~= outv.update(
                                j as int,
                                (m2v[i as int].0, merge_nodes(outv[j as int].1, m2v[i as int].1)),
                            ));
                        }
                    },
                    None => {
                        proof {
                            lemma_first_key_index_none(outv, m2@[i as int].0@);
                        }
                        let new_key = m2[i].0.clone();
                        let cv = clone_form(&m2[i].1);
                        out.push((new_key, cv));
                        proof {
                            assert(entries_view(out@) =~= outv.push(
                                (m2v[i as int].0, m2v[i as int].1),
                            ));
                        }
                    },
                }
                i = i + 1;
            }
            proof {
                assert(m2v.subrange(i as int, m2v.len() as int).len() == 0);
            }
            let r = FormValue::Mapping(out);
            proof {
                assert(r@->Mapping_0 =~= entries_view(out@));
            }
            r
        },
        (FormValue::Array(x), FormValue::Array(y)) => {
            let mut out = clone_items(x);
            let mut i: usize = 0;
            while i < y.len()
                invariant
                    i <= y@.len(),
                    out@.len() == x@.len() + i as int,
                    forall|j: int| 0 <= j < x@.len() ==> out@[j]@ == x@[j]@,
                    forall|j: int| 0 <= j < i ==> out@[x@.len() + j]@ == y@[j]@,
                decreases y@.len() - i,
            {
                let c = clone_form(&y[i]);
                out.push(c);
                i = i + 1;
            }
            let r = FormValue::Array(out);
            proof {
                assert(r@->Array_0 =~= a@->Array_0 + b@->Array_0);
            }
            r
        },
        _ => clone_form(a),
    }
}

/// Tree holding `value` at the single path `segs`: the innermost segment
/// wraps the scalar first, the outermost wraps last.
pub open spec fn single_node(segs: Seq<NameSeg>, value: Seq<char>) -> FormNode
    decreases segs.len(),
{
    if segs.len() == 0 {
        FormNode::Scalar(value)
    } else {
        let child = single_node(segs.subrange(1, segs.len() as int), value);
        match segs[0] {
            NameSeg::Field(name) => FormNode::Mapping(seq![(name, child)]),
            NameSeg::Key(name) => FormNode::Mapping(seq![(name, child)]),
            NameSeg::Index => FormNode::Array(seq![child]),
        }
    }
}

fn single_from(segments: &Vec<NamePathSegment>, idx: usize, value: String) -> (r: FormValue)
    requires
        idx <= segments@.len(),
    ensures
        r@ == single_node(
            segs_view(segments@).subrange(idx as int, segments@.len() as int),
            value@,
        ),
    decreases segments@.len() - idx,
{
    let ghost tail = segs_view(segments@).subrange(idx as int, segments@.len() as int);
    if idx == segments.len() {
        proof {
            assert(tail.len() == 0);
        }
        FormValue::Scalar(value)
    } else {
        proof {
            assert(tail[0] == segments@[idx as int]@);
            assert(tail.subrange(1, tail.len() as int) =~= segs_view(segments@).subrange(
                idx + 1,
                segments@.len() as int,
            ));
        }
        match &segments[idx] {
            NamePathSegment::Field(name) => {
                let child = single_from(segments, idx + 1, value);
                let mut entries: Vec<(String, FormValue)> = Vec::new();
                entries.push((name.clone(), child));
                let r = FormValue::Mapping(entries);
                proof {
                    assert(r@->Mapping_0 =~= single_node(tail, value@)->Mapping_0);
                }
                r
            },
            NamePathSegment::Key(name) => {
                let child = single_from(segments, idx + 1, value);
                let mut entries: Vec<(String, FormValue)> = Vec::new();
                entries.push((name.clone(), child));
                let r = FormValue::Mapping(entries);
                proof {
                    assert(r@->Mapping_0 =~= single_node(tail, value@)->Mapping_0);
                }
                r
            },
            NamePathSegment::Index => {
                let child = single_from(segments, idx + 1, value);
                let mut items: Vec<FormValue> = Vec::new();
                items.push(child);
                let r = FormValue::Array(items);
                proof {
                    assert(r@->Array_0 =~= single_node(tail, value@)->Array_0);
                }
                r
            },
        }
    }
}

/// Tree holding `value` at the single path `segments`.
pub fn single_pair(segments: &Vec<NamePathSegment>, value: String) -> (r: FormValue)
    ensures
        r@ == single_node(segs_view(segments@), value@),
{
    proof {
        assert(segs_view(segments@).subrange(0, segments@.len() as int) =~= segs_view(segments@));
    }
    single_from(segments, 0, value)
}

/// Fold the given path/value pairs into `acc`, in order.
pub open spec fn build_acc(acc: FormNode, pairs: Seq<(Seq<NameSeg>, Seq<char>)>) -> FormNode
    decreases pairs.len(),
{
    if pairs.len() == 0 {
        acc
    } else {
        build_acc(
            merge_nodes(acc, single_node(pairs[0].0, pairs[0].1)),
            pairs.subrange(1, pairs.len() as int),
        )
    }
}

/// Tree for a whole submitted form, folded pair by pair from `Empty`.
pub open spec fn build_nodes(pairs: Seq<(Seq<NameSeg>, Seq<char>)>) -> FormNode {
    build_acc(FormNode::Empty, pairs)
}

/// Model of a list of path/value pairs.
pub open spec fn pairs_view(pairs: Seq<(Vec<NamePathSegment>, String)>) -> Seq<
    (Seq<NameSeg>, Seq<char>),
> {
    Seq::new(
        pairs.len(),
        |i: int|
            if 0 <= i < pairs.len() {
                (segs_view(pairs[i].0@), pairs[i].1@)
            } else {
                (Seq::empty(), Seq::empty())
            },
    )
}

/// Build the tree for a whole submitted form from its path/value pairs,
/// regardless of how files and text fields interleaved on the wire.
#[verifier::loop_isolation(false)]
pub fn build(pairs: &Vec<(Vec<NamePathSegment>, String)>) -> (r: FormValue)
    ensures
        r@ == build_nodes(pairs_view(pairs@)),
{
    let ghost pv = pairs_view(pairs@);
    let mut acc = FormValue::Empty;
    proof {
        assert(pv.subrange(0, pv.len() as int) =~= pv);
    }
    let mut i: usize = 0;
    while i < pairs.len()
        invariant
            i <= pairs@.len(),
            build_nodes(pv) == build_acc(acc@, pv.subrange(i as int, pv.len() as int)),
        decreases pairs@.len() - i,
    {
        let ghost rest = pv.subrange(i as int, pv.len() as int);
        proof {
            assert(rest[0] == pv[i as int]);
            assert(rest.subrange(1, rest.len() as int) =~= pv.subrange(i + 1, pv.len() as int));
        }
        let single = single_pair(&pairs[i].0, pairs[i].1.clone());
        let next = merge(&acc, &single);
        acc = next;
        i = i + 1;
    }
    proof {
        assert(pv.subrange(i as int, pv.len() as int).len() == 0);
    }
    acc
}


/// The keys of a list of entries, in order.
pub open spec fn keys_of(m: Seq<(Seq<char>, FormNode)>) -> Seq<Seq<char>> {
    Seq::new(
        m.len(),
        |i: int|
            if 0 <= i < m.len() {
                m[i].0
            } else {
                Seq::empty()
            },
    )
}

/// No two entries of `m` carry the same key.
pub open spec fn distinct_keys(m: Seq<(Seq<char>, FormNode)>) -> bool {
    forall|i: int, j: int| 0 <= i < j < m.len() ==> m[i].0 != m[j].0
}

/// The value at key `k`, if any entry carries it.
pub open spec fn lookup_key(m: Seq<(Seq<char>, FormNode)>, k: Seq<char>) -> Option<FormNode> {
    if has_key(m, k) {
        Option::Some(m[first_key_index(m, k)].1)
    } else {
        Option::None
    }
}

/// A negative lookup means no entry at all carries the key.
pub proof fn lemma_first_key_index_covers(m: Seq<(Seq<char>, FormNode)>, k: Seq<char>)
    requires
        first_key_index(m, k) < 0,
    ensures
        forall|t: int| 0 <= t < m.len() ==> m[t].0 != k,
    decreases m.len(),
{
    if m.len() != 0 {
        assert(m[0].0 != k);
        lemma_first_key_index_covers(m.subrange(1, m.len() as int), k);
        assert forall|t: int| 0 <= t < m.len() implies m[t].0 != k by {
            if t > 0 {
                assert(m.subrange(1, m.len() as int)[t - 1] == m[t]);
            }
        }
    }
}

/// Looking a key up in a concatenation searches the left side first.
pub proof fn lemma_first_key_index_append(
    a: Seq<(Seq<char>, FormNode)>,
    b: Seq<(Seq<char>, FormNode)>,
    k: Seq<char>,
)
    ensures
        first_key_index(a, k) >= 0 ==> first_key_index(a + b, k) == first_key_index(a, k),
        first_key_index(a, k) < 0 && first_key_index(b, k) >= 0 ==> first_key_index(a + b, k)
            == a.len() + first_key_index(b, k),
        first_key_index(a, k) < 0 && first_key_index(b, k) < 0 ==> first_key_index(a + b, k) < 0,
    decreases a.len(),
{
    if a.len() == 0 {
        assert(a + b =~= b);
    } else {
        assert((a + b)[0] == a[0]);
        assert((a + b).subrange(1, (a + b).len() as int) =~= a.subrange(1, a.len() as int) + b);
        lemma_first_key_index_append(a.subrange(1, a.len() as int), b, k);
    }
}

/// Folding entries with throughout-new keys appends them.
pub proof fn lemma_merge_entries_disjoint_append(
    acc: Seq<(Seq<char>, FormNode)>,
    rest: Seq<(Seq<char>, FormNode)>,
)
    requires
        distinct_keys(rest),
        forall|i: int| 0 <= i < rest.len() ==> first_key_index(acc, #[trigger] rest[i].0) < 0,
    ensures
        merge_entries(acc, rest) == acc + rest,
    decreases rest.len(),
{
    if rest.len() == 0 {
        assert(acc + rest =~= acc);
    } else {
        let r0 = rest[0];
        let acc2 = acc.push(r0);
        let rest2 = rest.subrange(1, rest.len() as int);
        lemma_first_key_index_covers(acc, r0.0);
        assert forall|i: int|
            0 <= i < rest2.len() implies first_key_index(acc2, #[trigger] rest2[i].0) < 0 by {
            assert(rest2[i] == rest[i + 1]);
            lemma_first_key_index_covers(acc, rest2[i].0);
            assert(rest2[i].0 != r0.0);
            lemma_first_key_index_none(acc2, rest2[i].0);
        }
        assert forall|i: int, j: int| 0 <= i < j < rest2.len() implies rest2[i].0 != rest2[j].0 by {
            assert(rest2[i] == rest[i + 1]);
            assert(rest2[j] == rest[j + 1]);
        }
        lemma_merge_entries_disjoint_append(acc2, rest2);
        assert(acc2 + rest2 =~= acc + rest);
    }
}

/// Folding entries never duplicates a key: an entry whose key is present
/// merges in place, and only absent keys are appended. This is the `Mapping`
/// invariant.
pub proof fn lemma_merge_entries_distinct(
    acc: Seq<(Seq<char>, FormNode)>,
    rest: Seq<(Seq<char>, FormNode)>,
)
    requires
        distinct_keys(acc),
    ensures
        distinct_keys(merge_entries(acc, rest)),
    decreases rest.len(),
{
    if rest.len() != 0 {
        let k = rest[0].0;
        let j = first_key_index(acc, k);
        if j >= 0 {
            lemma_first_key_index_bounds(acc, k);
            let acc2 = acc.update(j, (k, merge_nodes(acc[j].1, rest[0].1)));
            assert forall|x: int, y: int|
                0 <= x < y < acc2.len() implies acc2[x].0 != acc2[y].0 by {
                assert(acc2[x].0 == acc[x].0);
                assert(acc2[y].0 == acc[y].0);
            }
            lemma_merge_entries_distinct(acc2, rest.subrange(1, rest.len() as int));
        } else {
            lemma_first_key_index_covers(acc, k);
            let acc2 = acc.push((k, rest[0].1));
            assert forall|x: int, y: int|
                0 <= x < y < acc2.len() implies acc2[x].0 != acc2[y].0 by {
                if y < acc.len() {
                    assert(acc2[x].0 == acc[x].0);
                    assert(acc2[y].0 == acc[y].0);
                } else {
                    assert(acc2[x].0 == acc[x].0);
                    assert(acc2[y].0 == k);
                }
            }
            lemma_merge_entries_distinct(acc2, rest.subrange(1, rest.len() as int));
        }
    }
}

/// Law: merging two mappings with disjoint top-level keys is commutative up
/// to key order: either merge holds the same value at every key, while the
/// output key order stays first-seen (the first operand's keys, then the
/// second's).
pub proof fn lemma_merge_disjoint_maps(a: FormNode, b: FormNode, k: Seq<char>)
    requires
        a is Mapping,
        b is Mapping,
        distinct_keys(a->Mapping_0),
        distinct_keys(b->Mapping_0),
        forall|i: int|
            0 <= i < b->Mapping_0.len() ==> first_key_index(
                a->Mapping_0,
                #[trigger] b->Mapping_0[i].0,
            ) < 0,
    ensures
        merge_nodes(a, b)->Mapping_0 == a->Mapping_0 + b->Mapping_0,
        merge_nodes(b, a)->Mapping_0 == b->Mapping_0 + a->Mapping_0,
        lookup_key(merge_nodes(a, b)->Mapping_0, k) == lookup_key(
            merge_nodes(b, a)->Mapping_0,
            k,
        ),
        keys_of(merge_nodes(a, b)->Mapping_0) == keys_of(a->Mapping_0) + keys_of(b->Mapping_0),
{
    let ma = a->Mapping_0;
    let mb = b->Mapping_0;
    // Disjointness is symmetric: no key of `a` occurs in `b` either.
    assert forall|i: int|
        0 <= i < ma.len() implies first_key_index(mb, #[trigger] ma[i].0) < 0 by {
        if first_key_index(mb, ma[i].0) >= 0 {
            lemma_first_key_index_bounds(mb, ma[i].0);
            let t = first_key_index(mb, ma[i].0);
            assert(first_key_index(ma, mb[t].0) < 0);
            lemma_first_key_index_covers(ma, mb[t].0);
            assert(false);
        }
    }
    lemma_merge_entries_disjoint_append(ma, mb);
    lemma_merge_entries_disjoint_append(mb, ma);
    lemma_first_key_index_append(ma, mb, k);
    lemma_first_key_index_append(mb, ma, k);
    if first_key_index(ma, k) >= 0 {
        lemma_first_key_index_bounds(ma, k);
        assert((ma + mb)[first_key_index(ma, k)] == ma[first_key_index(ma, k)]);
        assert((mb + ma)[mb.len() + first_key_index(ma, k)] == ma[first_key_index(ma, k)]);
    } else if first_key_index(mb, k) >= 0 {
        lemma_first_key_index_bounds(mb, k);
        assert((ma + mb)[ma.len() + first_key_index(mb, k)] == mb[first_key_index(mb, k)]);
        assert((mb + ma)[first_key_index(mb, k)] == mb[first_key_index(mb, k)]);
    }
    assert(keys_of(ma + mb) =~= keys_of(ma) + keys_of(mb));
}

/// The n pairs that submit `values` one by one at the array path `f[]`.
pub open spec fn array_pairs(f: Seq<char>, values: Seq<Seq<char>>) -> Seq<
    (Seq<NameSeg>, Seq<char>),
> {
    Seq::new(
        values.len(),
        |i: int|
            if 0 <= i < values.len() {
                (seq![NameSeg::Field(f), NameSeg::Index], values[i])
            } else {
                (Seq::empty(), Seq::empty())
            },
    )
}

/// The scalars of `values`, in order.
pub open spec fn scalars_of(values: Seq<Seq<char>>) -> Seq<FormNode> {
    Seq::new(
        values.len(),
        |i: int|
            if 0 <= i < values.len() {
                FormNode::Scalar(values[i])
            } else {
                FormNode::Empty
            },
    )
}

/// One pair at path `f[]` builds a mapping holding a one-element array.
proof fn lemma_single_array_pair(f: Seq<char>, v: Seq<char>)
    ensures
        single_node(seq![NameSeg::Field(f), NameSeg::Index], v) == FormNode::Mapping(
            seq![(f, FormNode::Array(seq![FormNode::Scalar(v)]))],
        ),
{
    let segs = seq![NameSeg::Field(f), NameSeg::Index];
    let tail = segs.subrange(1, 2);
    assert(tail =~= seq![NameSeg::Index]);
    assert(tail.subrange(1, 1) =~= Seq::<NameSeg>::empty());
    assert(single_node(tail.subrange(1, 1), v) == FormNode::Scalar(v));
    assert(single_node(tail, v) == FormNode::Array(seq![FormNode::Scalar(v)]));
}

proof fn lemma_build_array_pairs_acc(f: Seq<char>, values: Seq<Seq<char>>, xs: Seq<FormNode>)
    ensures
        build_acc(
            FormNode::Mapping(seq![(f, FormNode::Array(xs))]),
            array_pairs(f, values),
        ) == FormNode::Mapping(seq![(f, FormNode::Array(xs + scalars_of(values)))]),
    decreases values.len(),
{
    let acc = FormNode::Mapping(seq![(f, FormNode::Array(xs))]);
    let pairs = array_pairs(f, values);
    if values.len() == 0 {
        assert(xs + scalars_of(values) =~= xs);
    } else {
        let v = values[0];
        lemma_single_array_pair(f, v);
        let leaf = FormNode::Mapping(seq![(f, FormNode::Array(seq![FormNode::Scalar(v)]))]);
        let am = seq![(f, FormNode::Array(xs))];
        let lm = seq![(f, FormNode::Array(seq![FormNode::Scalar(v)]))];
        assert(first_key_index(am, f) == 0);
        let merged_arr = FormNode::Array(xs + seq![FormNode::Scalar(v)]);
        assert(merge_nodes(FormNode::Array(xs), FormNode::Array(seq![FormNode::Scalar(v)]))
            == merged_arr);
        let am2 = am.update(0, (f, merged_arr));
        assert(lm.subrange(1, 1).len() == 0);
        assert(merge_entries(am2, lm.subrange(1, 1)) == am2);
        assert(am2 =~= seq![(f, merged_arr)]);
        assert(merge_nodes(acc, leaf) == FormNode::Mapping(seq![(f, merged_arr)]));
        let values2 = values.subrange(1, values.len() as int);
        assert(pairs.subrange(1, pairs.len() as int) =~= array_pairs(f, values2));
        lemma_build_array_pairs_acc(f, values2, xs + seq![FormNode::Scalar(v)]);
        assert((xs + seq![FormNode::Scalar(v)]) + scalars_of(values2) =~= xs + scalars_of(
            values,
        ));
    }
}

/// Law: folding n scalar pairs submitted at one array path `f[]` yields a
/// mapping whose single entry holds an array of the n scalars in arrival
/// order; zero pairs yield the empty form.
pub proof fn lemma_build_array_pairs(f: Seq<char>, values: Seq<Seq<char>>)
    ensures
        values.len() == 0 ==> build_nodes(array_pairs(f, values)) == FormNode::Empty,
        values.len() > 0 ==> build_nodes(array_pairs(f, values)) == FormNode::Mapping(
            seq![(f, FormNode::Array(scalars_of(values)))],
        ),
{
    let pairs = array_pairs(f, values);
    if values.len() > 0 {
        let v = values[0];
        lemma_single_array_pair(f, v);
        let leaf = FormNode::Mapping(seq![(f, FormNode::Array(seq![FormNode::Scalar(v)]))]);
        assert(merge_nodes(FormNode::Empty, leaf) == leaf);
        let values2 = values.subrange(1, values.len() as int);
        assert(pairs.subrange(1, pairs.len() as int) =~= array_pairs(f, values2));
        lemma_build_array_pairs_acc(f, values2, seq![FormNode::Scalar(v)]);
        assert(seq![FormNode::Scalar(v)] + scalars_of(values2) =~= scalars_of(values));
    }
}


/// Well-formedness of a form tree: every mapping, at every depth, carries
/// distinct keys.
pub open spec fn wf_node(n: FormNode) -> bool
    decreases n,
    via wf_node_dec
{
    match n {
        FormNode::Empty => true,
        FormNode::Scalar(_) => true,
        FormNode::Array(items) => forall|i: int|
            0 <= i < items.len() ==> wf_node(#[trigger] items[i]),
        FormNode::Mapping(entries) => distinct_keys(entries) && forall|i: int|
            0 <= i < entries.len() ==> wf_node(#[trigger] entries[i].1),
    }
}

#[via_fn]
proof fn wf_node_dec(n: FormNode) {
    match n {
        FormNode::Array(items) => {
            assert forall|i: int| 0 <= i < items.len() implies decreases_to!(n => items[i]) by {
                assert(decreases_to!(items => items[i]));
            }
        },
        FormNode::Mapping(entries) => {
            assert forall|i: int|
                0 <= i < entries.len() implies decreases_to!(n => entries[i].1) by {
                assert(decreases_to!(entries => entries[i]));
            }
        },
        _ => {},
    }
}

proof fn lemma_merge_entries_preserves_wf(
    acc: Seq<(Seq<char>, FormNode)>,
    rest: Seq<(Seq<char>, FormNode)>,
)
    requires
        distinct_keys(acc),
        forall|i: int| 0 <= i < acc.len() ==> wf_node(#[trigger] acc[i].1),
        forall|i: int| 0 <= i < rest.len() ==> wf_node(#[trigger] rest[i].1),
    ensures
        distinct_keys(merge_entries(acc, rest)),
        forall|i: int|
            0 <= i < merge_entries(acc, rest).len() ==> wf_node(
                #[trigger] merge_entries(acc, rest)[i].1,
            ),
    decreases rest, 0int,
{
    if rest.len() != 0 {
        let k = rest[0].0;
        let v = rest[0].1;
        let j = first_key_index(acc, k);
        let rest2 = rest.subrange(1, rest.len() as int);
        assert forall|i: int| 0 <= i < rest2.len() implies wf_node(#[trigger] rest2[i].1) by {
            assert(rest2[i] == rest[i + 1]);
        }
        assert(decreases_to!(rest => rest[0]));
        if j >= 0 {
            lemma_first_key_index_bounds(acc, k);
            lemma_merge_preserves_wf(acc[j].1, v);
            let acc2 = acc.update(j, (k, merge_nodes(acc[j].1, v)));
            assert forall|x: int, y: int|
                0 <= x < y < acc2.len() implies acc2[x].0 != acc2[y].0 by {
                assert(acc2[x].0 == acc[x].0);
                assert(acc2[y].0 == acc[y].0);
            }
            assert forall|i: int| 0 <= i < acc2.len() implies wf_node(#[trigger] acc2[i].1) by {
                if i != j {
                    assert(acc2[i] == acc[i]);
                }
            }
            lemma_merge_entries_preserves_wf(acc2, rest2);
        } else {
            let acc2 = acc.push((k, v));
            lemma_first_key_index_covers(acc, k);
            assert forall|x: int, y: int|
                0 <= x < y < acc2.len() implies acc2[x].0 != acc2[y].0 by {
                if y < acc.len() {
                    assert(acc2[x].0 == acc[x].0);
                    assert(acc2[y].0 == acc[y].0);
                } else {
                    assert(acc2[x].0 == acc[x].0);
                    assert(acc2[y].0 == k);
                }
            }
            assert forall|i: int| 0 <= i < acc2.len() implies wf_node(#[trigger] acc2[i].1) by {
                if i < acc.len() {
                    assert(acc2[i] == acc[i]);
                } else {
                    assert(acc2[i].1 == v);
                }
            }
            lemma_merge_entries_preserves_wf(acc2, rest2);
        }
    }
}

/// Law: merging two well-formed trees yields a well-formed tree; in
/// particular no mapping anywhere in a merged form ever carries a duplicate
/// key.
pub proof fn lemma_merge_preserves_wf(a: FormNode, b: FormNode)
    requires
        wf_node(a),
        wf_node(b),
    ensures
        wf_node(merge_nodes(a, b)),
    decreases b, 1int,
{
    match (a, b) {
        (FormNode::Empty, _) => {},
        (_, FormNode::Empty) => {},
        (FormNode::Mapping(m1), FormNode::Mapping(m2)) => {
            assert(decreases_to!(b => m2));
            lemma_merge_entries_preserves_wf(m1, m2);
        },
        (FormNode::Array(x), FormNode::Array(y)) => {
            assert forall|i: int| 0 <= i < (x + y).len() implies wf_node(#[trigger] (x + y)[i]) by {
                if i < x.len() {
                    assert((x + y)[i] == x[i]);
                } else {
                    assert((x + y)[i] == y[i - x.len()]);
                }
            }
        },
        _ => {},
    }
}

/// Law: the tree holding one value at one path is well formed.
pub proof fn lemma_single_node_wf(segs: Seq<NameSeg>, value: Seq<char>)
    ensures
        wf_node(single_node(segs, value)),
    decreases segs.len(),
{
    if segs.len() != 0 {
        lemma_single_node_wf(segs.subrange(1, segs.len() as int), value);
    }
}

/// Law: every form the reconstructor builds is well formed, whatever pairs
/// arrive and in whatever order.
pub proof fn lemma_build_wf(pairs: Seq<(Seq<NameSeg>, Seq<char>)>)
    ensures
        wf_node(build_nodes(pairs)),
{
    lemma_build_acc_wf(FormNode::Empty, pairs);
}

proof fn lemma_build_acc_wf(acc: FormNode, pairs: Seq<(Seq<NameSeg>, Seq<char>)>)
    requires
        wf_node(acc),
    ensures
        wf_node(build_acc(acc, pairs)),
    decreases pairs.len(),
{
    if pairs.len() != 0 {
        lemma_single_node_wf(pairs[0].0, pairs[0].1);
        lemma_merge_preserves_wf(acc, single_node(pairs[0].0, pairs[0].1));
        lemma_build_acc_wf(
            merge_nodes(acc, single_node(pairs[0].0, pairs[0].1)),
            pairs.subrange(1, pairs.len() as int),
        );
    }
}


proof fn lemma_build_acc_snoc(
    acc: FormNode,
    pairs: Seq<(Seq<NameSeg>, Seq<char>)>,
    p: (Seq<NameSeg>, Seq<char>),
)
    ensures
        build_acc(acc, pairs.push(p)) == merge_nodes(build_acc(acc, pairs), single_node(p.0, p.1)),
    decreases pairs.len(),
{
    let pp = pairs.push(p);
    if pairs.len() == 0 {
        assert(pp[0] == p);
        assert(pp.subrange(1, pp.len() as int) =~= Seq::<(Seq<NameSeg>, Seq<char>)>::empty());
        assert(build_acc(acc, pairs) == acc);
        let step = merge_nodes(acc, single_node(p.0, p.1));
        assert(build_acc(acc, pp) == build_acc(step, pp.subrange(1, pp.len() as int)));
        assert(build_acc(step, pp.subrange(1, pp.len() as int)) == step);
    } else {
        assert(pp[0] == pairs[0]);
        assert(pp.subrange(1, pp.len() as int) =~= pairs.subrange(1, pairs.len() as int).push(p));
        let step = merge_nodes(acc, single_node(pairs[0].0, pairs[0].1));
        assert(build_acc(acc, pp) == build_acc(step, pp.subrange(1, pp.len() as int)));
        assert(build_acc(acc, pairs) == build_acc(step, pairs.subrange(1, pairs.len() as int)));
        lemma_build_acc_snoc(step, pairs.subrange(1, pairs.len() as int), p);
    }
}

/// Folding one more pair into a built form merges that pair's tree in.
pub proof fn lemma_build_nodes_snoc(
    pairs: Seq<(Seq<NameSeg>, Seq<char>)>,
    p: (Seq<NameSeg>, Seq<char>),
)
    ensures
        build_nodes(pairs.push(p)) == merge_nodes(build_nodes(pairs), single_node(p.0, p.1)),
{
    lemma_build_acc_snoc(FormNode::Empty, pairs, p);
}

} // verus!
