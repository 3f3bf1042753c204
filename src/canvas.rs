//! The canvas aggregator: a snapshot of every author's drawing steps, where
//! steps of one author with the same id are merged and each author's steps
//! are kept in ascending id order.
use vstd::prelude::*;
use crate::event::{Event, EventModel, Step, StepModel};

verus! {

/// The models of a vector of steps.
pub open spec fn step_models(v: Seq<Step>) -> Seq<StepModel> {
    v.map_values(|s: Step| s@)
}

/// Ids strictly increase along `s`; so no id occurs twice.
pub open spec fn ids_ascending(s: Seq<StepModel>) -> bool {
    forall|i: int, j: int| 0 <= i < j < s.len() ==> s[i].id < s[j].id
}

/// Two parts of the same stroke as one: the coordinates of the later part
/// follow those of the earlier, and the later part's color wins.
pub open spec fn merge_parts(earlier: StepModel, later: StepModel) -> StepModel {
    StepModel { id: earlier.id, coords: earlier.coords + later.coords, color: later.color }
}

pub open spec fn has_id(s: Seq<StepModel>, id: i32) -> bool {
    exists|i: int| 0 <= i < s.len() && s[i].id == id
}

pub open spec fn index_of(s: Seq<StepModel>, id: i32) -> int {
    choose|i: int| 0 <= i < s.len() && s[i].id == id
}

/// `k` is where a step with `id` goes in `s`: every id before it is smaller,
/// every id from it on is larger.
pub open spec fn is_slot(s: Seq<StepModel>, id: i32, k: int) -> bool {
    &&& 0 <= k <= s.len()
    &&& forall|j: int| 0 <= j < k ==> s[j].id < id
    &&& forall|j: int| k <= j < s.len() ==> s[j].id > id
}

pub open spec fn slot_for(s: Seq<StepModel>, id: i32) -> int {
    choose|k: int| is_slot(s, id, k)
}

/// An author's steps after `step` arrives: merged into the step with the same
/// id where there is one, else inserted where its id keeps the order.
pub open spec fn merged_into(s: Seq<StepModel>, step: StepModel) -> Seq<StepModel> {
    if has_id(s, step.id) {
        let i = index_of(s, step.id);
        s.update(i, merge_parts(s[i], step))
    } else {
        s.insert(slot_for(s, step.id), step)
    }
}

/// The coordinates that author's stroke `id` holds in `s`, none where there
/// is no such stroke.
pub open spec fn coords_of(s: Seq<StepModel>, id: i32) -> Seq<i32> {
    if has_id(s, id) { s[index_of(s, id)].coords } else { Seq::empty() }
}

proof fn lemma_index_unique(s: Seq<StepModel>, id: i32, i: int)
    requires
        ids_ascending(s),
        0 <= i < s.len(),
        s[i].id == id,
    ensures
        has_id(s, id),
        index_of(s, id) == i,
{
    assert(has_id(s, id));
    let k = index_of(s, id);
    if k < i {
        assert(s[k].id < s[i].id);
    } else if k > i {
        assert(s[i].id < s[k].id);
    }
}

proof fn lemma_slot_from(s: Seq<StepModel>, id: i32, n: int)
    requires
        ids_ascending(s),
        !has_id(s, id),
        0 <= n <= s.len(),
        forall|j: int| 0 <= j < n ==> s[j].id < id,
    ensures
        is_slot(s, id, slot_for(s, id)),
    decreases s.len() - n,
{
    if n < s.len() && s[n].id < id {
        lemma_slot_from(s, id, n + 1);
    } else {
        assert forall|j: int| n <= j < s.len() implies s[j].id > id by {
            assert(s[n].id != id);
            if j > n {
                assert(s[n].id < s[j].id);
            }
        }
        assert(is_slot(s, id, n));
    }
}

/// What a merge does, id by id: the order is kept, the arriving stroke is
/// there with its coordinates appended to what it held and its color, and
/// every other stroke is as it was.
pub proof fn lemma_merged_into(s: Seq<StepModel>, step: StepModel)
    requires
        ids_ascending(s),
    ensures
        ids_ascending(merged_into(s, step)),
        has_id(merged_into(s, step), step.id),
        merged_into(s, step)[index_of(merged_into(s, step), step.id)] == (StepModel {
            id: step.id,
            coords: coords_of(s, step.id) + step.coords,
            color: step.color,
        }),
        forall|id: i32| id != step.id ==> (#[trigger] has_id(merged_into(s, step), id) <==> has_id(s, id)),
        forall|id: i32| id != step.id && has_id(s, id) ==>
            merged_into(s, step)[index_of(merged_into(s, step), id)] == #[trigger] s[index_of(s, id)],
{
    let r = merged_into(s, step);
    if has_id(s, step.id) {
        let i = index_of(s, step.id);
        assert(ids_ascending(r)) by {
            assert forall|a: int, b: int| 0 <= a < b < r.len() implies r[a].id < r[b].id by {
                assert(r[a].id == s[a].id && r[b].id == s[b].id);
            }
        }
        lemma_index_unique(r, step.id, i);
        assert forall|id: i32| id != step.id implies (#[trigger] has_id(r, id) <==> has_id(s, id)) by {
            if has_id(r, id) {
                let j = index_of(r, id);
                assert(s[j].id == id);
            }
            if has_id(s, id) {
                let j = index_of(s, id);
                assert(r[j].id == id);
            }
        }
        assert forall|id: i32| id != step.id && has_id(s, id) implies
            r[index_of(r, id)] == #[trigger] s[index_of(s, id)] by {
            let j = index_of(s, id);
            assert(r[j].id == id);
            lemma_index_unique(r, id, j);
        }
    } else {
        let k = slot_for(s, step.id);
        lemma_slot_from(s, step.id, 0);
        assert(r == s.insert(k, step));
        assert(ids_ascending(r)) by {
            assert forall|a: int, b: int| 0 <= a < b < r.len() implies r[a].id < r[b].id by {
                if b < k {
                } else if b == k {
                } else if a < k {
                    assert(r[b] == s[b - 1]);
                } else if a == k {
                    assert(r[b] == s[b - 1]);
                } else {
                    assert(r[a] == s[a - 1] && r[b] == s[b - 1]);
                }
            }
        }
        assert(r[k] == step);
        lemma_index_unique(r, step.id, k);
        assert(step.coords =~= Seq::<i32>::empty() + step.coords);
        assert forall|id: i32| id != step.id implies (#[trigger] has_id(r, id) <==> has_id(s, id)) by {
            if has_id(r, id) {
                let j = index_of(r, id);
                if j < k {
                    assert(s[j].id == id);
                } else {
                    assert(s[j - 1].id == id);
                }
            }
            if has_id(s, id) {
                let j = index_of(s, id);
                if j < k {
                    assert(r[j].id == id);
                } else {
                    assert(r[j + 1].id == id);
                }
            }
        }
        assert forall|id: i32| id != step.id && has_id(s, id) implies
            r[index_of(r, id)] == #[trigger] s[index_of(s, id)] by {
            let j = index_of(s, id);
            if j < k {
                assert(r[j] == s[j]);
                lemma_index_unique(r, id, j);
            } else {
                assert(r[j + 1] == s[j]);
                lemma_index_unique(r, id, j + 1);
            }
        }
    }
}

/// The snapshot after a decoded event: its step applied under its author
/// where it is a canvas event with a step, unchanged otherwise.
pub open spec fn recorded(m: Map<Seq<char>, Seq<StepModel>>, e: EventModel) -> Map<Seq<char>, Seq<StepModel>> {
    match e {
        EventModel::Canvas { author, step: Some(s) } => applied(m, author, s),
        _ => m,
    }
}

proof fn lemma_same_entries(a: Seq<AuthorSteps>, b: Seq<AuthorSteps>)
    requires
        entries_wf(a),
        a.len() == b.len(),
        forall|j: int| 0 <= j < a.len() ==> (#[trigger] b[j]).author@ == a[j].author@
            && step_models(b[j].steps@) == step_models(a[j].steps@),
    ensures
        entries_wf(b),
        entries_map(b) == entries_map(a),
{
    assert(entries_wf(b)) by {
        assert forall|i: int| 0 <= i < b.len() implies ids_ascending(step_models(#[trigger] b[i].steps@)) by {
            assert(ids_ascending(step_models(a[i].steps@)));
        }
    }
    assert forall|x: Seq<char>| #[trigger] entries_map(b).contains_key(x) == entries_map(a).contains_key(x) by {
        if has_author(a, x) {
            let j = choose|j: int| 0 <= j < a.len() && a[j].author@ == x;
            assert(b[j].author@ == x);
        }
        if has_author(b, x) {
            let j = choose|j: int| 0 <= j < b.len() && b[j].author@ == x;
            assert(a[j].author@ == x);
        }
    }
    assert forall|x: Seq<char>| #[trigger] entries_map(b).contains_key(x) implies entries_map(b)[x] == entries_map(a)[x] by {
        let j = choose|j: int| 0 <= j < b.len() && b[j].author@ == x;
        assert(b[j].author@ == a[j].author@);
        lemma_entry_lookup(a, j);
        lemma_entry_lookup(b, j);
    }
    assert(entries_map(b) =~= entries_map(a));
}

/// Every author's steps in a snapshot are in ascending id order.
pub open spec fn strokes_ordered(m: Map<Seq<char>, Seq<StepModel>>) -> bool {
    forall|a: Seq<char>| #[trigger] m.contains_key(a) ==> ids_ascending(m[a])
}

proof fn lemma_entries_ordered(es: Seq<AuthorSteps>)
    requires
        entries_wf(es),
    ensures
        strokes_ordered(entries_map(es)),
{
    assert forall|a: Seq<char>| #[trigger] entries_map(es).contains_key(a) implies ids_ascending(entries_map(es)[a]) by {
        let j = choose|j: int| 0 <= j < es.len() && es[j].author@ == a;
        lemma_entry_lookup(es, j);
    }
}

/// Two id-ordered step sequences that hold the same ids, with the same step
/// under each, are equal.
proof fn lemma_ascending_ext(a: Seq<StepModel>, b: Seq<StepModel>)
    requires
        ids_ascending(a),
        ids_ascending(b),
        forall|id: i32| #[trigger] has_id(a, id) <==> has_id(b, id),
        forall|id: i32| #[trigger] has_id(a, id) ==> a[index_of(a, id)] == b[index_of(b, id)],
    ensures
        a == b,
    decreases a.len(),
{
    if a.len() == 0 {
        if b.len() > 0 {
            assert(has_id(b, b[0].id));
            assert(has_id(a, b[0].id));
        }
        assert(a =~= b);
    } else {
        assert(has_id(a, a[0].id));
        lemma_index_unique(a, a[0].id, 0);
        let ib = index_of(b, a[0].id);
        assert(has_id(b, b[0].id));
        assert(has_id(a, b[0].id));
        let ja = index_of(a, b[0].id);
        if ib > 0 {
            assert(b[0].id < b[ib].id);
            if ja > 0 {
                assert(a[0].id < a[ja].id);
            }
        }
        lemma_index_unique(b, a[0].id, ib);
        assert(ib == 0);
        let a1 = a.drop_first();
        let b1 = b.drop_first();
        assert forall|id: i32| #[trigger] has_id(a1, id) <==> has_id(b1, id) by {
            if has_id(a1, id) {
                let k = index_of(a1, id);
                assert(a[k + 1].id == id);
                assert(a[0].id < a[k + 1].id);
                assert(has_id(a, id));
                assert(has_id(b, id));
                let kb = index_of(b, id);
                if kb == 0 {
                } else {
                    assert(b1[kb - 1].id == id);
                }
            }
            if has_id(b1, id) {
                let k = index_of(b1, id);
                assert(b[k + 1].id == id);
                assert(b[0].id < b[k + 1].id);
                assert(has_id(b, id));
                assert(has_id(a, id));
                let ka = index_of(a, id);
                if ka == 0 {
                } else {
                    assert(a1[ka - 1].id == id);
                }
            }
        }
        assert forall|id: i32| #[trigger] has_id(a1, id) implies a1[index_of(a1, id)] == b1[index_of(b1, id)] by {
            let k = index_of(a1, id);
            let kb = index_of(b1, id);
            assert(a[k + 1].id == id);
            assert(b[kb + 1].id == id);
            lemma_index_unique(a, id, k + 1);
            lemma_index_unique(b, id, kb + 1);
        }
        lemma_ascending_ext(a1, b1);
        assert(a =~= b) by {
            assert forall|i: int| 0 <= i < a.len() implies a[i] == b[i] by {
                if i > 0 {
                    assert(a[i] == a1[i - 1]);
                }
            }
        }
    }
}

/// A step sent twice is merged twice: its coordinates are appended once per
/// arrival, so sending it again changes the snapshot whenever it carries any
/// coordinates.
pub proof fn lemma_resend_appends_again(m: Map<Seq<char>, Seq<StepModel>>, author: Seq<char>, step: StepModel)
    requires
        strokes_ordered(m),
    ensures
        coords_of(steps_in(applied(applied(m, author, step), author, step), author), step.id)
            == coords_of(steps_in(m, author), step.id) + step.coords + step.coords,
        step.coords.len() > 0 ==> applied(applied(m, author, step), author, step) != applied(m, author, step),
{
    let s0 = steps_in(m, author);
    let s1 = merged_into(s0, step);
    let s2 = merged_into(s1, step);
    lemma_merged_into(s0, step);
    lemma_merged_into(s1, step);
    let once = applied(m, author, step);
    let twice = applied(once, author, step);
    assert(steps_in(once, author) == s1);
    assert(steps_in(twice, author) == s2);
    assert(coords_of(s1, step.id) == coords_of(s0, step.id) + step.coords);
    assert(coords_of(s2, step.id) == coords_of(s0, step.id) + step.coords + step.coords);
    if step.coords.len() > 0 {
        assert(coords_of(s2, step.id).len() != coords_of(s1, step.id).len());
    }
}

/// Steps with different ids from one author both stand in the snapshot, the
/// lower id first, and the snapshot is the same whichever of them arrived
/// first.
pub proof fn lemma_distinct_ids_commute(m: Map<Seq<char>, Seq<StepModel>>, author: Seq<char>, x: StepModel, y: StepModel)
    requires
        strokes_ordered(m),
        x.id < y.id,
    ensures
        applied(applied(m, author, x), author, y) == applied(applied(m, author, y), author, x),
        ({
            let s = steps_in(applied(applied(m, author, x), author, y), author);
            &&& ids_ascending(s)
            &&& has_id(s, x.id)
            &&& has_id(s, y.id)
            &&& index_of(s, x.id) < index_of(s, y.id)
        }),
{
    let s0 = steps_in(m, author);
    let sx = merged_into(s0, x);
    let sy = merged_into(s0, y);
    let sxy = merged_into(sx, y);
    let syx = merged_into(sy, x);
    lemma_merged_into(s0, x);
    lemma_merged_into(s0, y);
    lemma_merged_into(sx, y);
    lemma_merged_into(sy, x);
    assert(coords_of(sx, y.id) == coords_of(s0, y.id));
    assert(coords_of(sy, x.id) == coords_of(s0, x.id));
    assert forall|id: i32| #[trigger] has_id(sxy, id) <==> has_id(syx, id) by {
        if id != x.id && id != y.id {
            assert(has_id(sxy, id) == has_id(sx, id));
            assert(has_id(syx, id) == has_id(sy, id));
        }
    }
    assert forall|id: i32| #[trigger] has_id(sxy, id) implies sxy[index_of(sxy, id)] == syx[index_of(syx, id)] by {
        if id != x.id && id != y.id {
            assert(has_id(sx, id) == has_id(s0, id));
            assert(sx[index_of(sx, id)] == s0[index_of(s0, id)]);
            assert(sy[index_of(sy, id)] == s0[index_of(s0, id)]);
        }
    }
    lemma_ascending_ext(sxy, syx);
    let mxy = applied(applied(m, author, x), author, y);
    let myx = applied(applied(m, author, y), author, x);
    assert(steps_in(applied(m, author, x), author) == sx);
    assert(steps_in(applied(m, author, y), author) == sy);
    assert(mxy =~= myx);
    assert(steps_in(mxy, author) == sxy);
    let ix = index_of(sxy, x.id);
    let iy = index_of(sxy, y.id);
    if ix > iy {
        assert(sxy[iy].id < sxy[ix].id);
    }
}

/// All steps of one author.
pub struct AuthorSteps {
    pub author: String,
    pub steps: Vec<Step>,
}

pub open spec fn authors_distinct(es: Seq<AuthorSteps>) -> bool {
    forall|i: int, j: int|
        0 <= i < es.len() && 0 <= j < es.len() && i != j ==> es[i].author@ != es[j].author@
}

/// Entries in this form make a snapshot: one entry per author, and each
/// author's steps in ascending id order.
pub open spec fn entries_wf(es: Seq<AuthorSteps>) -> bool {
    &&& authors_distinct(es)
    &&& forall|i: int| 0 <= i < es.len() ==> ids_ascending(step_models(#[trigger] es[i].steps@))
}

pub open spec fn has_author(es: Seq<AuthorSteps>, a: Seq<char>) -> bool {
    exists|i: int| 0 <= i < es.len() && es[i].author@ == a
}

/// The mapping from author to steps that a list of entries stands for.
pub open spec fn entries_map(es: Seq<AuthorSteps>) -> Map<Seq<char>, Seq<StepModel>> {
    Map::new(
        |a: Seq<char>| has_author(es, a),
        |a: Seq<char>| step_models(es[choose|i: int| 0 <= i < es.len() && es[i].author@ == a].steps@),
    )
}

/// The steps of author `a` in a snapshot, none where `a` drew nothing.
pub open spec fn steps_in(m: Map<Seq<char>, Seq<StepModel>>, a: Seq<char>) -> Seq<StepModel> {
    if m.contains_key(a) { m[a] } else { Seq::empty() }
}

/// The snapshot after `author` sends `step`.
pub open spec fn applied(m: Map<Seq<char>, Seq<StepModel>>, author: Seq<char>, step: StepModel) -> Map<Seq<char>, Seq<StepModel>> {
    m.insert(author, merged_into(steps_in(m, author), step))
}

proof fn lemma_entry_lookup(es: Seq<AuthorSteps>, i: int)
    requires
        authors_distinct(es),
        0 <= i < es.len(),
    ensures
        entries_map(es).contains_key(es[i].author@),
        entries_map(es)[es[i].author@] == step_models(es[i].steps@),
{
    let a = es[i].author@;
    assert(has_author(es, a));
    let j = choose|j: int| 0 <= j < es.len() && es[j].author@ == a;
    assert(j == i);
}

/// Merges `step` into a vector of steps in ascending id order.
fn merge_step(steps: &mut Vec<Step>, step: Step)
    requires
        ids_ascending(step_models(old(steps)@)),
    ensures
        step_models(final(steps)@) == merged_into(step_models(old(steps)@), step@),
        ids_ascending(step_models(final(steps)@)),
{
    let ghost s = step_models(steps@);
    let mut i: usize = 0;
    while i < steps.len() && steps[i].id < step.id
        invariant
            s == step_models(steps@),
            i <= steps.len(),
            forall|j: int| 0 <= j < i ==> s[j].id < step.id,
        decreases steps.len() - i,
    {
        i = i + 1;
    }
    let ghost st = step@;
    if i < steps.len() && steps[i].id == step.id {
        assert(s[i as int].id == st.id);
        let mut part = steps.remove(i);
        let mut more = step.coords;
        part.coords.append(&mut more);
        part.color = step.color;
        steps.insert(i, part);
        proof {
            assert(has_id(s, st.id));
            let k = index_of(s, st.id);
            if k < i {
                assert(s[k].id < s[i as int].id);
            } else if k > i {
                assert(s[i as int].id < s[k].id);
            }
            assert(step_models(steps@) =~= s.update(i as int, merge_parts(s[i as int], st)));
        }
    } else {
        steps.insert(i, step);
        proof {
            assert(is_slot(s, st.id, i as int));
            assert(!has_id(s, st.id));
            let k = slot_for(s, st.id);
            if k < i {
                assert(s[k].id > st.id);
            } else if k > i {
                assert(s[i as int].id < st.id);
            }
            assert(step_models(steps@) =~= s.insert(i as int, st));
        }
    }
}

/// Merges `step` under `author` into a list of entries.
fn apply_entries(entries: &mut Vec<AuthorSteps>, author: String, step: Step)
    requires
        entries_wf(old(entries)@),
    ensures
        entries_wf(final(entries)@),
        entries_map(final(entries)@) == applied(entries_map(old(entries)@), author@, step@),
{
    let ghost es = entries@;
    let mut i: usize = 0;
    while i < entries.len() && entries[i].author != author
        invariant
            es == entries@,
            i <= es.len(),
            forall|j: int| 0 <= j < i ==> es[j].author@ != author@,
        decreases es.len() - i,
    {
        i = i + 1;
    }
    if i < entries.len() {
        let mut entry = entries.remove(i);
        proof {
            assert(es[i as int].author@ == author@);
            lemma_entry_lookup(es, i as int);
            assert(ids_ascending(step_models(es[i as int].steps@)));
        }
        merge_step(&mut entry.steps, step);
        entries.insert(i, entry);
        proof {
            let ne = entries@;
            assert(ne =~= es.update(i as int, ne[i as int]));
            assert(forall|j: int| 0 <= j < ne.len() && j != i ==> ne[j] == es[j]);
            assert(entries_wf(ne));
            let goal = applied(entries_map(es), author@, step@);
            assert forall|a: Seq<char>| #[trigger] entries_map(ne).contains_key(a) == goal.contains_key(a) by {
                if has_author(ne, a) {
                    let j = choose|j: int| 0 <= j < ne.len() && ne[j].author@ == a;
                    assert(es[j].author@ == a);
                }
                if has_author(es, a) {
                    let j = choose|j: int| 0 <= j < es.len() && es[j].author@ == a;
                    assert(ne[j].author@ == a);
                }
            }
            assert forall|a: Seq<char>| #[trigger] entries_map(ne).contains_key(a) implies entries_map(ne)[a] == goal[a] by {
                let j = choose|j: int| 0 <= j < ne.len() && ne[j].author@ == a;
                lemma_entry_lookup(ne, j);
                lemma_entry_lookup(es, j);
            }
            assert(entries_map(ne) =~= goal);
        }
    } else {
        let ghost st = step@;
        let mut steps: Vec<Step> = Vec::new();
        steps.push(step);
        let ghost a = author@;
        entries.push(AuthorSteps { author, steps });
        proof {
            let ne = entries@;
            let n = es.len() as int;
            assert(!has_author(es, a));
            assert(step_models(ne[n].steps@) =~= seq![st]);
            assert(merged_into(Seq::empty(), st) =~= seq![st]) by {
                assert(!has_id(Seq::<StepModel>::empty(), st.id));
                assert(is_slot(Seq::<StepModel>::empty(), st.id, 0));
            }
            assert(forall|j: int| 0 <= j < n ==> ne[j] == es[j]);
            assert(entries_wf(ne));
            let goal = applied(entries_map(es), a, st);
            assert forall|b: Seq<char>| #[trigger] entries_map(ne).contains_key(b) == goal.contains_key(b) by {
                if has_author(ne, b) {
                    let j = choose|j: int| 0 <= j < ne.len() && ne[j].author@ == b;
                    if j < n {
                        assert(es[j].author@ == b);
                    }
                }
                if has_author(es, b) {
                    let j = choose|j: int| 0 <= j < es.len() && es[j].author@ == b;
                    assert(ne[j].author@ == b);
                }
            }
            assert forall|b: Seq<char>| #[trigger] entries_map(ne).contains_key(b) implies entries_map(ne)[b] == goal[b] by {
                let j = choose|j: int| 0 <= j < ne.len() && ne[j].author@ == b;
                lemma_entry_lookup(ne, j);
                if j < n {
                    lemma_entry_lookup(es, j);
                }
            }
            assert(entries_map(ne) =~= goal);
        }
    }
}

/// The merged drawing state of every author.
pub struct Canvas {
    entries: Vec<AuthorSteps>,
}

impl View for Canvas {
    type V = Map<Seq<char>, Seq<StepModel>>;

    closed spec fn view(&self) -> Map<Seq<char>, Seq<StepModel>> {
        entries_map(self.entries@)
    }
}

impl Canvas {
    #[verifier::type_invariant]
    closed spec fn wf(&self) -> bool {
        entries_wf(self.entries@)
    }

    /// A canvas on which nobody has drawn.
    pub fn new() -> (r: Canvas)
        ensures
            strokes_ordered(r@),
            r@ == Map::<Seq<char>, Seq<StepModel>>::empty(),
    {
        let r = Canvas { entries: Vec::new() };
        assert(r@ =~= Map::<Seq<char>, Seq<StepModel>>::empty());
        r
    }

    /// Records that `author` sent `step`: merged into that author's step with
    /// the same id where there is one, else added in id order.
    pub fn apply(&mut self, author: String, step: Step)
        ensures
            strokes_ordered(final(self)@),
            final(self)@ == applied(old(self)@, author@, step@),
    {
        let mut taken = Canvas { entries: Vec::new() };
        std::mem::swap(self, &mut taken);
        proof { use_type_invariant(&taken); }
        let mut entries = taken.entries;
        apply_entries(&mut entries, author, step);
        proof { lemma_entries_ordered(entries@); }
        *self = Canvas { entries };
    }

    /// Records a decoded event: a canvas event with a step is applied under
    /// its author; any other event leaves the canvas as it is.
    pub fn record(&mut self, e: &Event)
        ensures
            strokes_ordered(final(self)@),
            final(self)@ == recorded(old(self)@, e@),
    {
        proof {
            use_type_invariant(&*self);
            lemma_entries_ordered(self.entries@);
        }
        match e {
            Event::Canvas { author, step: Some(step) } => {
                self.apply(author.clone(), step.duplicate());
            },
            _ => {},
        }
    }

    /// A copy of the current state, one entry per author, each author's steps
    /// in ascending id order. Changing the copy leaves the canvas as it is.
    pub fn snapshot(&self) -> (r: Vec<AuthorSteps>)
        ensures
            entries_wf(r@),
            entries_map(r@) == self@,
    {
        proof { use_type_invariant(self); }
        let mut out: Vec<AuthorSteps> = Vec::new();
        let mut i: usize = 0;
        while i < self.entries.len()
            invariant
                i <= self.entries.len(),
                out.len() == i,
                forall|j: int| 0 <= j < i ==> (#[trigger] out@[j]).author@ == self.entries@[j].author@
                    && step_models(out@[j].steps@) == step_models(self.entries@[j].steps@),
            decreases self.entries.len() - i,
        {
            let src = &self.entries[i];
            let mut steps: Vec<Step> = Vec::new();
            let mut k: usize = 0;
            while k < src.steps.len()
                invariant
                    k <= src.steps.len(),
                    steps.len() == k,
                    forall|j: int| 0 <= j < k ==> (#[trigger] steps@[j])@ == src.steps@[j]@,
                decreases src.steps.len() - k,
            {
                let s = src.steps[k].duplicate();
                steps.push(s);
                k = k + 1;
            }
            assert(step_models(steps@) =~= step_models(src.steps@));
            out.push(AuthorSteps { author: src.author.clone(), steps });
            i = i + 1;
        }
        proof { lemma_same_entries(self.entries@, out@); }
        out
    }
}

} // verus!
