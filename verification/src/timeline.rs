//! Chronological arrangement of dated records.

use vstd::prelude::*;
use crate::date::Date;

verus! {

/// A record that carries the date it was taken on.
pub trait Dated: Sized {
    /// The record's date.
    spec fn date(&self) -> Date;

    fn day(&self) -> (day: Date)
        ensures
            day == self.date(),
    ;
}

/// Every record is dated no later than the records behind it.
pub open spec fn is_chronological<T: Dated>(rows: Seq<T>) -> bool {
    forall|i: int, j: int|
        0 <= i <= j < rows.len() ==> rows[i].date().ordinal() <= rows[j].date().ordinal()
}

/// `rows` with `row` placed behind the last record that is not dated later
/// than `row`.
pub open spec fn slot_in<T: Dated>(rows: Seq<T>, row: T) -> Seq<T>
    decreases rows.len(),
{
    if rows.len() == 0 || rows.last().date().ordinal() <= row.date().ordinal() {
        rows.push(row)
    } else {
        slot_in(rows.drop_last(), row).push(rows.last())
    }
}

/// The records of `rows` by date, records of one date in the order in which
/// `rows` holds them.
pub open spec fn chronological<T: Dated>(rows: Seq<T>) -> Seq<T>
    decreases rows.len(),
{
    if rows.len() == 0 {
        rows
    } else {
        slot_in(chronological(rows.drop_last()), rows.last())
    }
}

/// Holds of the records dated `day`.
pub open spec fn dated_on<T: Dated>(day: Date) -> spec_fn(T) -> bool {
    |row: T| row.date() == day
}

/// Placing a record adds it and nothing else, wherever it lands.
pub proof fn lemma_slot_in_adds<T: Dated>(rows: Seq<T>, row: T)
    ensures
        slot_in(rows, row).len() == rows.len() + 1,
        slot_in(rows, row).to_multiset() == rows.to_multiset().insert(row),
    decreases rows.len(),
{
    broadcast use vstd::seq_lib::group_to_multiset_ensures;

    if rows.len() == 0 || rows.last().date().ordinal() <= row.date().ordinal() {
    } else {
        let front = rows.drop_last();
        lemma_slot_in_adds(front, row);
        assert(front.push(rows.last()) =~= rows);
        assert(slot_in(rows, row).to_multiset() =~= rows.to_multiset().insert(row));
    }
}

/// Placing a record into a chronological sequence leaves it chronological.
pub proof fn lemma_slot_in_keeps_order<T: Dated>(rows: Seq<T>, row: T)
    requires
        is_chronological(rows),
    ensures
        is_chronological(slot_in(rows, row)),
        forall|i: int|
            0 <= i < slot_in(rows, row).len() ==> slot_in(rows, row)[i] == row || rows.contains(
                #[trigger] slot_in(rows, row)[i],
            ),
    decreases rows.len(),
{
    let out = slot_in(rows, row);
    if rows.len() == 0 || rows.last().date().ordinal() <= row.date().ordinal() {
        assert forall|i: int| 0 <= i < out.len() implies out[i] == row || rows.contains(
            #[trigger] out[i],
        ) by {
            if i < rows.len() {
                assert(rows[i] == out[i]);
            }
        }
    } else {
        let front = rows.drop_last();
        let inner = slot_in(front, row);
        lemma_slot_in_keeps_order(front, row);
        assert forall|i: int| 0 <= i < out.len() implies out[i] == row || rows.contains(
            #[trigger] out[i],
        ) by {
            if i < inner.len() {
                if inner[i] != row {
                    assert(front.contains(inner[i]));
                    let j = choose|j: int| 0 <= j < front.len() && front[j] == inner[i];
                    assert(rows[j] == out[i]);
                }
            } else {
                assert(rows[rows.len() - 1] == out[i]);
            }
        }
        assert forall|i: int, j: int| 0 <= i <= j < out.len() implies out[i].date().ordinal()
            <= out[j].date().ordinal() by {
            if j == out.len() - 1 && i < j {
                if inner[i] != row {
                    assert(front.contains(inner[i]));
                    let k = choose|k: int| 0 <= k < front.len() && front[k] == inner[i];
                    assert(rows[k].date().ordinal() <= rows[rows.len() - 1].date().ordinal());
                }
            }
        }
    }
}

/// The records dated `day` come out of a placement in the order they had, the
/// placed record last among them.
pub proof fn lemma_slot_in_is_stable<T: Dated>(rows: Seq<T>, row: T, day: Date)
    ensures
        slot_in(rows, row).filter(dated_on(day)) == if row.date() == day {
            rows.filter(dated_on(day)).push(row)
        } else {
            rows.filter(dated_on(day))
        },
    decreases rows.len(),
{
    broadcast use Seq::lemma_filter_push;

    if rows.len() == 0 || rows.last().date().ordinal() <= row.date().ordinal() {
    } else {
        let front = rows.drop_last();
        lemma_slot_in_is_stable(front, row, day);
        assert(front.push(rows.last()) =~= rows);
        rows.last().date().lemma_ordinal_identifies(row.date());
    }
}

/// The arrangement is chronological and as long as what was arranged.
pub proof fn lemma_chronological_order<T: Dated>(rows: Seq<T>)
    ensures
        is_chronological(chronological(rows)),
        chronological(rows).len() == rows.len(),
    decreases rows.len(),
{
    if rows.len() > 0 {
        lemma_chronological_order(rows.drop_last());
        lemma_slot_in_keeps_order(chronological(rows.drop_last()), rows.last());
        lemma_slot_in_adds(chronological(rows.drop_last()), rows.last());
    }
}

/// The arrangement holds the records that were arranged, each as often.
pub proof fn lemma_chronological_items<T: Dated>(rows: Seq<T>)
    ensures
        chronological(rows).to_multiset() == rows.to_multiset(),
    decreases rows.len(),
{
    broadcast use vstd::seq_lib::group_to_multiset_ensures;

    if rows.len() > 0 {
        lemma_chronological_items(rows.drop_last());
        lemma_slot_in_adds(chronological(rows.drop_last()), rows.last());
        assert(rows.drop_last().push(rows.last()) =~= rows);
    }
}

/// Records that share a date keep the order in which they were given.
pub proof fn lemma_chronological_stable<T: Dated>(rows: Seq<T>, day: Date)
    ensures
        chronological(rows).filter(dated_on(day)) == rows.filter(dated_on(day)),
    decreases rows.len(),
{
    broadcast use Seq::lemma_filter_push;

    if rows.len() > 0 {
        lemma_chronological_stable(rows.drop_last(), day);
        lemma_slot_in_is_stable(chronological(rows.drop_last()), rows.last(), day);
        assert(rows.drop_last().push(rows.last()) =~= rows);
    }
}

/// Records that are chronological already stay as they are.
pub proof fn lemma_chronological_fixes<T: Dated>(rows: Seq<T>)
    requires
        is_chronological(rows),
    ensures
        chronological(rows) == rows,
    decreases rows.len(),
{
    if rows.len() > 0 {
        let front = rows.drop_last();
        lemma_chronological_fixes(front);
        if front.len() > 0 {
            assert(front.last() == rows[rows.len() - 2]);
        }
        assert(front.push(rows.last()) =~= rows);
    }
}

/// Arranges `rows` by date. Records that share a date keep their order.
pub fn arrange<T: Dated>(rows: Vec<T>) -> (out: Vec<T>)
    ensures
        out@ == chronological(rows@),
        is_chronological(out@),
        out@.to_multiset() == rows@.to_multiset(),
        forall|day: Date| #[trigger] out@.filter(dated_on(day)) == rows@.filter(dated_on(day)),
{
    let ghost given = rows@;
    let mut out = rows;
    let mut i: usize = 0;
    while i < out.len()
        invariant
            i <= out.len(),
            out.len() == given.len(),
            out@.take(i as int) == chronological(given.take(i as int)),
            out@.skip(i as int) == given.skip(i as int),
        decreases out.len() - i,
    {
        let ghost placed = out@.take(i as int);
        let ghost rest = out@.skip(i as int + 1);
        proof {
            assert(rest =~= out@.skip(i as int).skip(1));
            assert(given.skip(i as int + 1) =~= given.skip(i as int).skip(1));
        }
        let row = out.remove(i);
        let day = row.day();
        let mut k: usize = i;
        proof {
            assert(row == given[i as int]) by {
                assert(given.skip(i as int)[0] == given[i as int]);
            }
            assert(out@ =~= placed + rest);
            assert(placed.take(k as int) =~= placed);
            assert(slot_in(placed, row) =~= slot_in(placed.take(k as int), row) + placed.skip(k as int));
        }
        while k > 0 && day.is_before(&out[k - 1].day())
            invariant
                k <= i,
                i == placed.len(),
                out@ == placed + rest,
                day == row.date(),
                slot_in(placed, row) == slot_in(placed.take(k as int), row) + placed.skip(k as int),
            decreases k,
        {
            proof {
                let head = placed.take(k as int);
                assert(head.last() == placed[k - 1]);
                assert(head.drop_last() =~= placed.take(k - 1));
                assert(slot_in(head, row) == slot_in(placed.take(k - 1), row).push(placed[k - 1]));
                assert(slot_in(placed.take(k - 1), row).push(placed[k - 1]) + placed.skip(k as int)
                    =~= slot_in(placed.take(k - 1), row) + placed.skip(k - 1));
            }
            k -= 1;
        }
        proof {
            let head = placed.take(k as int);
            if k > 0 {
                assert(head.last() == placed[k - 1]);
            }
            assert(slot_in(head, row) == head.push(row));
            assert(head.push(row) + placed.skip(k as int) =~= placed.insert(k as int, row));
        }
        out.insert(k, row);
        proof {
            assert(out@ =~= placed.insert(k as int, row) + rest);
            assert(out@.take(i + 1) =~= placed.insert(k as int, row));
            assert(out@.skip(i + 1) =~= rest);
            let upto = given.take(i + 1);
            assert(upto.drop_last() =~= given.take(i as int));
            assert(upto.last() == given[i as int]);
        }
        i += 1;
    }
    proof {
        assert(out@.take(i as int) =~= out@);
        assert(given.take(i as int) =~= given);
        lemma_chronological_order(given);
        lemma_chronological_items(given);
        assert forall|day: Date| #[trigger]
            out@.filter(dated_on(day)) == given.filter(dated_on(day)) by {
            lemma_chronological_stable(given, day);
        }
    }
    out
}

} // verus!
