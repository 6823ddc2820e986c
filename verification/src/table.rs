//! Rows with a unique key: what a table holds, and the rule by which a later
//! row replaces an earlier one with the same key.

use vstd::prelude::*;

verus! {

/// A row that is found again by its key.
pub trait Row: Sized {
    /// What tells one row from another.
    type Key;

    /// The key of the row.
    spec fn key(&self) -> Self::Key;

    /// Whether two rows have the same key.
    fn same_key(&self, other: &Self) -> (r: bool)
        ensures
            r == (self.key() == other.key()),
    ;

    /// A second row like this one.
    fn duplicate(&self) -> (r: Self)
        ensures
            r == *self,
    ;
}

/// Whether no two rows have the same key.
pub open spec fn unique<R: Row>(rows: Seq<R>) -> bool {
    forall|i: int, j: int|
        0 <= i < rows.len() && 0 <= j < rows.len() && i != j ==> (#[trigger] rows[i]).key()
            != (#[trigger] rows[j]).key()
}

/// Whether some row has the key.
pub open spec fn has_key<R: Row>(rows: Seq<R>, k: R::Key) -> bool {
    exists|i: int| 0 <= i < rows.len() && (#[trigger] rows[i]).key() == k
}

/// The row with the key, if there is one.
pub open spec fn lookup<R: Row>(rows: Seq<R>, k: R::Key) -> Option<R> {
    if has_key(rows, k) {
        Some(rows[choose|i: int| 0 <= i < rows.len() && (#[trigger] rows[i]).key() == k])
    } else {
        None
    }
}

/// What a table holds: its rows by their keys.
pub open spec fn table_map<R: Row>(rows: Seq<R>) -> Map<R::Key, R> {
    Map::new(|k: R::Key| has_key(rows, k), |k: R::Key| lookup(rows, k)->Some_0)
}

/// What a table holds after rows were written to it one after the other,
/// each replacing what the table held under its key.
pub open spec fn upsert_all<R: Row>(held: Map<R::Key, R>, rows: Seq<R>) -> Map<R::Key, R>
    decreases rows.len(),
{
    if rows.len() == 0 {
        held
    } else {
        upsert_all(held, rows.drop_last()).insert(rows.last().key(), rows.last())
    }
}

/// The last of the rows that has the key, if any has.
pub open spec fn last_with_key<R: Row>(rows: Seq<R>, k: R::Key) -> Option<R>
    decreases rows.len(),
{
    if rows.len() == 0 {
        None
    } else if rows.last().key() == k {
        Some(rows.last())
    } else {
        last_with_key(rows.drop_last(), k)
    }
}

/// In a table without repeated keys, the row at a position is the row found
/// under its key.
pub proof fn lemma_lookup_unique<R: Row>(rows: Seq<R>, i: int)
    requires
        unique(rows),
        0 <= i < rows.len(),
    ensures
        has_key(rows, rows[i].key()),
        lookup(rows, rows[i].key()) == Some(rows[i]),
{
    let k = rows[i].key();
    assert(has_key(rows, k));
    let w = choose|j: int| 0 <= j < rows.len() && (#[trigger] rows[j]).key() == k;
    assert(w == i);
}

/// The position of the row with the same key as `probe`, if there is one.
pub fn position<R: Row>(rows: &Vec<R>, probe: &R) -> (r: Option<usize>)
    ensures
        r is Some <==> has_key(rows@, probe.key()),
        r matches Some(i) ==> i < rows@.len() && rows@[i as int].key() == probe.key(),
{
    let mut i: usize = 0;
    while i < rows.len()
        invariant
            i <= rows@.len(),
            forall|k: int| 0 <= k < i ==> (#[trigger] rows@[k]).key() != probe.key(),
        decreases rows@.len() - i,
    {
        if rows[i].same_key(probe) {
            return Some(i);
        }
        i += 1;
    }
    None
}

/// Writes a row: it replaces the row with the same key, or joins the table
/// where there is none. Every other row stays as it is.
pub fn upsert<R: Row>(rows: &mut Vec<R>, row: R)
    requires
        unique(old(rows)@),
    ensures
        unique(final(rows)@),
        table_map(final(rows)@) == table_map(old(rows)@).insert(row.key(), row),
        has_key(old(rows)@, row.key()) ==> final(rows)@.len() == old(rows)@.len(),
        !has_key(old(rows)@, row.key()) ==> final(rows)@ == old(rows)@.push(row),
{
    let ghost before = rows@;
    let ghost k = row.key();
    match position(rows, &row) {
        Some(i) => {
            rows[i] = row;
            proof {
                let after = rows@;
                assert(after == before.update(i as int, row));
                assert forall|a: int, b: int|
                    0 <= a < after.len() && 0 <= b < after.len() && a != b implies (
                #[trigger] after[a]).key() != (#[trigger] after[b]).key() by {
                    assert(after[a].key() == before[a].key());
                    assert(after[b].key() == before[b].key());
                }
                lemma_map_after_write(before, after, row);
            }
        },
        None => {
            rows.push(row);
            proof {
                let after = rows@;
                assert forall|a: int, b: int|
                    0 <= a < after.len() && 0 <= b < after.len() && a != b implies (
                #[trigger] after[a]).key() != (#[trigger] after[b]).key() by {
                    if a < before.len() {
                        assert(after[a] == before[a]);
                    }
                    if b < before.len() {
                        assert(after[b] == before[b]);
                    }
                }
                lemma_map_after_write(before, after, row);
            }
        },
    }
}

/// A table whose rows are those of another, but for one row written over the
/// row with its key or added at the end, holds what the other holds with
/// that row put under its key.
proof fn lemma_map_after_write<R: Row>(before: Seq<R>, after: Seq<R>, row: R)
    requires
        unique(before),
        unique(after),
        ({
            ||| (exists|i: int|
                0 <= i < before.len() && (#[trigger] before[i]).key() == row.key() && after
                    == before.update(i, row))
            ||| (!has_key(before, row.key()) && after == before.push(row))
        }),
    ensures
        table_map(after) == table_map(before).insert(row.key(), row),
{
    let k = row.key();
    let goal = table_map(before).insert(k, row);
    let at: int = if has_key(before, k) {
        choose|i: int|
            0 <= i < before.len() && (#[trigger] before[i]).key() == row.key() && after
                == before.update(i, row)
    } else {
        before.len() as int
    };
    assert(0 <= at < after.len() && after[at] == row);
    assert forall|q: R::Key| has_key(after, q) <==> (q == k || has_key(before, q)) by {
        if has_key(after, q) {
            let j = choose|j: int| 0 <= j < after.len() && (#[trigger] after[j]).key() == q;
            if j != at {
                assert(before[j].key() == q);
            }
        }
        if q == k {
            assert(after[at].key() == q);
        }
        if has_key(before, q) && q != k {
            let j = choose|j: int| 0 <= j < before.len() && (#[trigger] before[j]).key() == q;
            assert(j != at);
            assert(after[j].key() == q);
        }
    }
    assert forall|q: R::Key| has_key(after, q) implies lookup(after, q)->Some_0 == goal[q] by {
        let j = choose|j: int| 0 <= j < after.len() && (#[trigger] after[j]).key() == q;
        lemma_lookup_unique(after, j);
        if q == k {
            assert(after[at].key() == k);
            assert(j == at);
        } else {
            assert(j != at);
            assert(before[j] == after[j]);
            lemma_lookup_unique(before, j);
        }
    }
    assert(table_map(after) =~= goal);
}

/// Writes rows one after the other, each replacing what the table held
/// under its key.
pub fn upsert_each<R: Row>(rows: &mut Vec<R>, new: &Vec<R>)
    requires
        unique(old(rows)@),
    ensures
        unique(final(rows)@),
        table_map(final(rows)@) == upsert_all(table_map(old(rows)@), new@),
{
    let ghost held = table_map(rows@);
    let mut i: usize = 0;
    while i < new.len()
        invariant
            i <= new@.len(),
            unique(rows@),
            table_map(rows@) == upsert_all(held, new@.take(i as int)),
        decreases new@.len() - i,
    {
        proof {
            assert(new@.take(i + 1).drop_last() =~= new@.take(i as int));
        }
        upsert(rows, new[i].duplicate());
        i += 1;
    }
    proof {
        assert(new@.take(new@.len() as int) =~= new@);
    }
}

/// Writing one list of rows and then another is writing the two lists as
/// one.
pub proof fn lemma_upsert_all_concat<R: Row>(held: Map<R::Key, R>, first: Seq<R>, second: Seq<R>)
    ensures
        upsert_all(upsert_all(held, first), second) == upsert_all(held, first + second),
    decreases second.len(),
{
    if second.len() == 0 {
        assert(first + second =~= first);
    } else {
        lemma_upsert_all_concat(held, first, second.drop_last());
        assert((first + second).drop_last() =~= first + second.drop_last());
        assert((first + second).last() == second.last());
    }
}

/// After rows were written, the table holds under a key the last of the rows
/// written with that key, whatever it held there before; under a key that no
/// written row has, it holds what it held before.
pub proof fn lemma_upsert_all_lookup<R: Row>(held: Map<R::Key, R>, rows: Seq<R>, k: R::Key)
    ensures
        upsert_all(held, rows).dom().contains(k) <==> (held.dom().contains(k) || last_with_key(
            rows,
            k,
        ) is Some),
        last_with_key(rows, k) matches Some(row) ==> upsert_all(held, rows)[k] == row && row.key()
            == k,
        last_with_key(rows, k) is None ==> upsert_all(held, rows)[k] == held[k],
    decreases rows.len(),
{
    if rows.len() > 0 {
        lemma_upsert_all_lookup(held, rows.drop_last(), k);
    }
}

/// Writing the same rows a second time changes nothing.
pub proof fn lemma_upsert_all_idempotent<R: Row>(held: Map<R::Key, R>, rows: Seq<R>)
    ensures
        upsert_all(upsert_all(held, rows), rows) == upsert_all(held, rows),
{
    let once = upsert_all(held, rows);
    let twice = upsert_all(once, rows);
    assert forall|k: R::Key| twice.dom().contains(k) == once.dom().contains(k) by {
        lemma_upsert_all_lookup(held, rows, k);
        lemma_upsert_all_lookup(once, rows, k);
    }
    assert forall|k: R::Key| twice.dom().contains(k) implies twice[k] == once[k] by {
        lemma_upsert_all_lookup(held, rows, k);
        lemma_upsert_all_lookup(once, rows, k);
    }
    assert(twice =~= once);
}

/// A row written after every other row with its key is what the table then
/// holds under that key: it replaces what was held, and is not added to it.
pub proof fn lemma_upsert_all_replaces<R: Row>(held: Map<R::Key, R>, rows: Seq<R>, i: int)
    requires
        0 <= i < rows.len(),
        forall|j: int| i < j < rows.len() ==> (#[trigger] rows[j]).key() != rows[i].key(),
    ensures
        upsert_all(held, rows).dom().contains(rows[i].key()),
        upsert_all(held, rows)[rows[i].key()] == rows[i],
    decreases rows.len(),
{
    if i == rows.len() - 1 {
    } else {
        let rest = rows.drop_last();
        assert(rest[i] == rows[i]);
        assert forall|j: int| i < j < rest.len() implies (#[trigger] rest[j]).key()
            != rest[i].key() by {
            assert(rest[j] == rows[j]);
        }
        lemma_upsert_all_replaces(held, rest, i);
    }
}

/// A second table with the same rows.
pub fn copy_rows<R: Row>(rows: &Vec<R>) -> (r: Vec<R>)
    ensures
        r@ == rows@,
{
    let mut out: Vec<R> = Vec::new();
    let mut i: usize = 0;
    while i < rows.len()
        invariant
            i <= rows@.len(),
            out@ == rows@.take(i as int),
        decreases rows@.len() - i,
    {
        out.push(rows[i].duplicate());
        proof {
            assert(rows@.take(i + 1) =~= rows@.take(i as int).push(rows@[i as int]));
        }
        i += 1;
    }
    proof {
        assert(rows@.take(rows@.len() as int) =~= rows@);
    }
    out
}

/// The rows of several statements, in the order in which they are written.
pub open spec fn flat<R>(chunks: Seq<Vec<R>>) -> Seq<R>
    decreases chunks.len(),
{
    if chunks.len() == 0 {
        Seq::empty()
    } else {
        flat(chunks.drop_last()) + chunks.last()@
    }
}

/// Writes the rows of several statements, statement after statement.
pub fn upsert_chunks<R: Row>(rows: &mut Vec<R>, chunks: &Vec<Vec<R>>)
    requires
        unique(old(rows)@),
    ensures
        unique(final(rows)@),
        table_map(final(rows)@) == upsert_all(table_map(old(rows)@), flat(chunks@)),
{
    let ghost held = table_map(rows@);
    let mut c: usize = 0;
    while c < chunks.len()
        invariant
            c <= chunks@.len(),
            unique(rows@),
            table_map(rows@) == upsert_all(held, flat(chunks@.take(c as int))),
        decreases chunks@.len() - c,
    {
        proof {
            assert(chunks@.take(c + 1).drop_last() =~= chunks@.take(c as int));
            lemma_upsert_all_concat(held, flat(chunks@.take(c as int)), chunks@[c as int]@);
        }
        upsert_each(rows, &chunks[c]);
        c += 1;
    }
    proof {
        assert(chunks@.take(chunks@.len() as int) =~= chunks@);
    }
}

/// Whether no two rows of a table have the same key.
pub fn is_unique<R: Row>(rows: &Vec<R>) -> (r: bool)
    ensures
        r == unique(rows@),
{
    let n = rows.len();
    let mut i: usize = 0;
    while i < n
        invariant
            n == rows@.len(),
            i <= n,
            forall|a: int, b: int|
                0 <= a < i && 0 <= b < a ==> (#[trigger] rows@[a]).key() != (#[trigger] rows@[b]).key(),
        decreases n - i,
    {
        let mut j: usize = 0;
        while j < i
            invariant
                n == rows@.len(),
                i < n,
                j <= i,
                forall|b: int| 0 <= b < j ==> rows@[i as int].key() != (#[trigger] rows@[b]).key(),
            decreases i - j,
        {
            if rows[i].same_key(&rows[j]) {
                return false;
            }
            j += 1;
        }
        i += 1;
    }
    proof {
        assert forall|a: int, b: int| 0 <= a < n && 0 <= b < n && a != b implies (
        #[trigger] rows@[a]).key() != (#[trigger] rows@[b]).key() by {
            if b < a {
            } else {
                assert(rows@[b].key() != rows@[a].key());
            }
        }
    }
    true
}

} // verus!
