//! Turning a table of records around.

use vstd::prelude::*;

verus! {

/// The entries found at position `j` of the records that are long enough to
/// have one, in the order of the records.
pub open spec fn column<T>(records: Seq<Seq<T>>, j: int) -> Seq<T>
    decreases records.len(),
{
    if records.len() == 0 {
        Seq::empty()
    } else {
        let front = column(records.drop_last(), j);
        if j < records.last().len() {
            front.push(records.last()[j])
        } else {
            front
        }
    }
}

/// The records of a table, each as a sequence.
pub open spec fn rows<T>(records: Seq<Vec<T>>) -> Seq<Seq<T>> {
    Seq::new(records.len(), |i: int| records[i]@)
}

/// In a table whose records all reach position `j`, the column at `j` has
/// one entry for each record: entry `i` of the column is entry `j` of
/// record `i`.
pub proof fn lemma_column_of_full_table<T>(records: Seq<Seq<T>>, j: int)
    requires
        0 <= j,
        forall|i: int| 0 <= i < records.len() ==> j < (#[trigger] records[i]).len(),
    ensures
        column(records, j).len() == records.len(),
        forall|i: int| 0 <= i < records.len() ==> column(records, j)[i] == records[i][j],
    decreases records.len(),
{
    if records.len() > 0 {
        let front = records.drop_last();
        assert forall|i: int| 0 <= i < front.len() implies j < (#[trigger] front[i]).len() by {
            assert(front[i] == records[i]);
        }
        lemma_column_of_full_table(front, j);
        assert(j < records[records.len() - 1].len());
        assert forall|i: int| 0 <= i < records.len() implies column(records, j)[i]
            == records[i][j] by {
            if i < front.len() {
                assert(front[i] == records[i]);
            }
        }
    }
}

/// Every entry of a column is the entry at that position of one of the
/// records.
pub proof fn lemma_column_members<T>(records: Seq<Seq<T>>, j: int, k: int)
    requires
        0 <= j,
        0 <= k < column(records, j).len(),
    ensures
        exists|c: int|
            0 <= c < records.len() && j < records[c].len() && column(records, j)[k]
                == #[trigger] records[c][j],
    decreases records.len(),
{
    if records.len() > 0 {
        let front = records.drop_last();
        let last = records.len() - 1;
        if j < records[last].len() && k == column(front, j).len() {
            assert(column(records, j)[k] == records[last][j]);
        } else {
            lemma_column_members(front, j, k);
            let c = choose|c: int|
                0 <= c < front.len() && j < front[c].len() && column(front, j)[k]
                    == #[trigger] front[c][j];
            assert(front[c] == records[c]);
            assert(column(records, j)[k] == records[c][j]);
        }
    }
}

/// Gathers the column at `j`.
fn gather<T: Copy>(records: &Vec<Vec<T>>, j: usize) -> (out: Vec<T>)
    ensures
        out@ == column(rows(records@), j as int),
{
    let mut out: Vec<T> = Vec::new();
    let mut i: usize = 0;
    while i < records.len()
        invariant
            i <= records@.len(),
            out@ == column(rows(records@).take(i as int), j as int),
        decreases records@.len() - i,
    {
        assert(rows(records@).take(i + 1).drop_last() =~= rows(records@).take(i as int));
        assert(rows(records@).take(i + 1).last() == records@[i as int]@);
        let record = &records[i];
        if j < record.len() {
            out.push(record[j]);
        }
        i = i + 1;
    }
    assert(rows(records@).take(i as int) =~= rows(records@));
    out
}

/// Turns records of at most `nb_images` entries each into `nb_images`
/// columns: column `j` holds entry `j` of each record that has one, in the
/// order of the records.
pub fn transpose_records<T: Copy>(records: &Vec<Vec<T>>, nb_images: usize) -> (transposed: Vec<
    Vec<T>,
>)
    requires
        forall|i: int| 0 <= i < records@.len() ==> (#[trigger] records@[i])@.len() <= nb_images,
    ensures
        transposed@.len() == nb_images,
        forall|j: int|
            0 <= j < nb_images ==> (#[trigger] transposed@[j])@ == column(rows(records@), j),
{
    let mut transposed: Vec<Vec<T>> = Vec::new();
    let mut j: usize = 0;
    while j < nb_images
        invariant
            j <= nb_images,
            transposed@.len() == j,
            forall|k: int|
                0 <= k < j ==> (#[trigger] transposed@[k])@ == column(rows(records@), k),
        decreases nb_images - j,
    {
        let col = gather(records, j);
        transposed.push(col);
        j = j + 1;
    }
    transposed
}

} // verus!
