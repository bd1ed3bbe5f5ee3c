use vstd::prelude::*;

verus! {

/// A row of a child table: the id of the owning game and one value
/// (a screenshot path or a genre label). Rows keep the order in which they were inserted.
pub struct ChildRow {
    pub game_id: i64,
    pub value: String,
}

/// The values that belong to `id`, in the order of the rows.
pub open spec fn children_of(rows: Seq<ChildRow>, id: i64) -> Seq<String>
    decreases rows.len(),
{
    if rows.len() == 0 {
        Seq::empty()
    } else {
        let pre = children_of(rows.drop_last(), id);
        if rows.last().game_id == id {
            pre.push(rows.last().value)
        } else {
            pre
        }
    }
}

/// The rows that do not belong to `id`, in their order.
pub open spec fn rows_without(rows: Seq<ChildRow>, id: i64) -> Seq<ChildRow>
    decreases rows.len(),
{
    if rows.len() == 0 {
        Seq::empty()
    } else {
        let pre = rows_without(rows.drop_last(), id);
        if rows.last().game_id == id {
            pre
        } else {
            pre.push(rows.last())
        }
    }
}

/// One row for each value, all owned by `id`.
pub open spec fn rows_for(id: i64, values: Seq<String>) -> Seq<ChildRow> {
    Seq::new(values.len(), |i: int| ChildRow { game_id: id, value: values[i] })
}

pub proof fn lemma_children_concat(s: Seq<ChildRow>, t: Seq<ChildRow>, id: i64)
    ensures
        children_of(s + t, id) == children_of(s, id) + children_of(t, id),
    decreases t.len(),
{
    if t.len() == 0 {
        assert(s + t =~= s);
        assert(children_of(t, id) =~= Seq::<String>::empty());
        assert(children_of(s, id) + children_of(t, id) =~= children_of(s, id));
    } else {
        assert((s + t).drop_last() =~= s + t.drop_last());
        lemma_children_concat(s, t.drop_last(), id);
        if t.last().game_id == id {
            assert(children_of(s, id) + children_of(t.drop_last(), id).push(t.last().value)
                =~= (children_of(s, id) + children_of(t.drop_last(), id)).push(t.last().value));
        }
    }
}

pub proof fn lemma_children_rows_for(id: i64, values: Seq<String>, other: i64)
    ensures
        children_of(rows_for(id, values), other) == (if other == id {
            values
        } else {
            Seq::<String>::empty()
        }),
    decreases values.len(),
{
    if values.len() == 0 {
        assert(values =~= Seq::<String>::empty());
    } else {
        assert(rows_for(id, values).drop_last() =~= rows_for(id, values.drop_last()));
        lemma_children_rows_for(id, values.drop_last(), other);
        assert(values.drop_last().push(values.last()) =~= values);
    }
}

pub proof fn lemma_children_without(s: Seq<ChildRow>, x: i64, id: i64)
    ensures
        children_of(rows_without(s, x), id) == (if id == x {
            Seq::<String>::empty()
        } else {
            children_of(s, id)
        }),
    decreases s.len(),
{
    if s.len() > 0 {
        lemma_children_without(s.drop_last(), x, id);
        let pre = rows_without(s.drop_last(), x);
        assert(pre.push(s.last()).drop_last() =~= pre);
    }
}

pub proof fn lemma_without_owners(s: Seq<ChildRow>, x: i64)
    ensures
        forall|k: int| 0 <= k < rows_without(s, x).len() ==> rows_without(s, x)[k].game_id != x,
        forall|k: int|
            0 <= k < rows_without(s, x).len() ==> s.contains(#[trigger] rows_without(s, x)[k]),
    decreases s.len(),
{
    if s.len() > 0 {
        lemma_without_owners(s.drop_last(), x);
        let pre = rows_without(s.drop_last(), x);
        assert(pre.push(s.last()).drop_last() =~= pre);
        assert forall|k: int| 0 <= k < pre.len() implies s.contains(#[trigger] pre[k]) by {
            let j = choose|j: int| 0 <= j < s.drop_last().len() && s.drop_last()[j] == pre[k];
            assert(s[j] == pre[k]);
        }
        assert(s[s.len() - 1] == s.last());
    }
}

pub proof fn lemma_no_children(rows: Seq<ChildRow>, id: i64)
    requires
        forall|k: int| 0 <= k < rows.len() ==> rows[k].game_id != id,
    ensures
        children_of(rows, id) == Seq::<String>::empty(),
    decreases rows.len(),
{
    if rows.len() > 0 {
        lemma_no_children(rows.drop_last(), id);
    }
}

fn copy_row(r: &ChildRow) -> (c: ChildRow)
    ensures
        c == *r,
{
    ChildRow { game_id: r.game_id, value: r.value.clone() }
}

/// The values of the rows that belong to `id`, in row order.
pub fn collect_children(rows: &Vec<ChildRow>, id: i64) -> (r: Vec<String>)
    ensures
        r@ == children_of(rows@, id),
{
    let mut r: Vec<String> = Vec::new();
    let mut i: usize = 0;
    while i < rows.len()
        invariant
            0 <= i <= rows@.len(),
            r@ == children_of(rows@.take(i as int), id),
        decreases rows@.len() - i,
    {
        proof {
            assert(rows@.take(i + 1).drop_last() =~= rows@.take(i as int));
        }
        if rows[i].game_id == id {
            r.push(rows[i].value.clone());
        }
        i = i + 1;
    }
    proof {
        assert(rows@.take(rows@.len() as int) =~= rows@);
    }
    r
}

/// Deletes every row that belongs to `id`; the others keep their order.
pub fn remove_children(rows: &mut Vec<ChildRow>, id: i64)
    ensures
        final(rows)@ == rows_without(old(rows)@, id),
{
    let mut kept: Vec<ChildRow> = Vec::new();
    let mut i: usize = 0;
    while i < rows.len()
        invariant
            0 <= i <= rows@.len(),
            kept@ == rows_without(rows@.take(i as int), id),
        decreases rows@.len() - i,
    {
        proof {
            assert(rows@.take(i + 1).drop_last() =~= rows@.take(i as int));
        }
        if rows[i].game_id != id {
            kept.push(copy_row(&rows[i]));
        }
        i = i + 1;
    }
    proof {
        assert(rows@.take(rows@.len() as int) =~= rows@);
    }
    *rows = kept;
}

/// Appends one row owned by `id` for each value, in order.
pub fn append_children(rows: &mut Vec<ChildRow>, id: i64, values: &Vec<String>)
    ensures
        final(rows)@ == old(rows)@ + rows_for(id, values@),
{
    let ghost start = rows@;
    let mut i: usize = 0;
    while i < values.len()
        invariant
            0 <= i <= values@.len(),
            rows@ == start + rows_for(id, values@.take(i as int)),
        decreases values@.len() - i,
    {
        rows.push(ChildRow { game_id: id, value: values[i].clone() });
        proof {
            assert(rows_for(id, values@.take(i + 1)) =~= rows_for(id, values@.take(i as int)).push(
                ChildRow { game_id: id, value: values@[i as int] },
            ));
            assert(rows@ =~= start + rows_for(id, values@.take(i + 1)));
        }
        i = i + 1;
    }
    proof {
        assert(values@.take(values@.len() as int) =~= values@);
    }
}

} // verus!
