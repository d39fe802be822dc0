//! Replaying a whole input text: rows split by the csv reader, decoded, and
//! applied in order; rows that do not decode are skipped.

use crate::decode::{decode_fields, decode_row};
use crate::ledger::{ledger_step, AccountView, Ledger, Transaction};
use crate::report::{ascii_chars, report_text};
use vstd::prelude::*;

verus! {

/// The records that the csv reader finds in `input` after its header row,
/// each as its trimmed fields, or `None` for a record it reports as an error.
pub uninterp spec fn csv_records(input: Seq<u8>) -> Seq<Option<Seq<Seq<u8>>>>;

/// Relies on csv's `Reader::byte_records`, on a reader built with a header
/// row and every field trimmed: the records in input order, each one's fields,
/// or `None` where the reader yields an error for it.
#[verifier::external_body]
fn read_records(input: &[u8]) -> (r: Vec<Option<Vec<Vec<u8>>>>)
    ensures
        r.deep_view() == csv_records(input@),
{
    let mut reader = csv::ReaderBuilder::new().trim(csv::Trim::All).from_reader(input);
    reader.byte_records().map(|r| r.ok().map(|rec| rec.iter().map(|f| f.to_vec()).collect())).collect()
}

/// The record that a row stands for: `None` for a row the reader rejected or
/// one that does not decode.
pub open spec fn decode_record(row: Option<Seq<Seq<u8>>>) -> Option<Transaction> {
    match row {
        Some(f) => decode_fields(f),
        None => None,
    }
}

/// Table `m` after the rows of `rows` in order, skipping those that do not
/// decode.
pub open spec fn replay_rows(m: Map<u16, AccountView>, rows: Seq<Option<Seq<Seq<u8>>>>) -> Map<
    u16,
    AccountView,
>
    decreases rows.len(),
{
    if rows.len() == 0 {
        m
    } else {
        let before = replay_rows(m, rows.drop_last());
        match decode_record(rows.last()) {
            Some(t) => ledger_step(before, t),
            None => before,
        }
    }
}

/// A row that does not decode, wherever it stands in a stream, leaves the
/// final table as it would be without that row.
pub proof fn lemma_malformed_row_skipped(
    m: Map<u16, AccountView>,
    before: Seq<Option<Seq<Seq<u8>>>>,
    row: Option<Seq<Seq<u8>>>,
    after: Seq<Option<Seq<Seq<u8>>>>,
)
    requires
        decode_record(row) is None,
    ensures
        replay_rows(m, before + seq![row] + after) == replay_rows(m, before + after),
    decreases after.len(),
{
    if after.len() == 0 {
        assert((before + seq![row] + after).drop_last() =~= before);
        assert(before + after =~= before);
    } else {
        lemma_malformed_row_skipped(m, before, row, after.drop_last());
        assert((before + seq![row] + after).drop_last() =~= before + seq![row] + after.drop_last());
        assert((before + after).drop_last() =~= before + after.drop_last());
    }
}

impl Ledger {
    /// Applies the rows in order, skipping those that do not decode.
    pub fn apply_rows(&mut self, rows: &Vec<Option<Vec<Vec<u8>>>>)
        ensures
            final(self)@ == replay_rows(old(self)@, rows.deep_view()),
    {
        let ghost start = self@;
        let ghost all = rows.deep_view();
        let mut i: usize = 0;
        while i < rows.len()
            invariant
                i <= rows@.len(),
                all == rows.deep_view(),
                self@ == replay_rows(start, all.subrange(0, i as int)),
            decreases rows@.len() - i,
        {
            assert(all.subrange(0, i + 1).drop_last() =~= all.subrange(0, i as int));
            match &rows[i] {
                Some(fields) => {
                    assert(all[i as int] == Some(fields.deep_view()));
                    if let Some(t) = decode_row(fields) {
                        self.apply(&t);
                    }
                },
                None => {},
            }
            i = i + 1;
        }
        assert(all.subrange(0, i as int) =~= all);
    }
}

/// The table left by replaying the csv text `input` on an empty table.
pub fn replay_text(input: &[u8]) -> (r: Ledger)
    ensures
        r@ == replay_rows(Map::empty(), csv_records(input@)),
{
    let rows = read_records(input);
    let mut ledger = Ledger::new();
    ledger.apply_rows(&rows);
    ledger
}

/// The positions, among the records after the header, of the rows of `input`
/// that are skipped because they do not decode, in increasing order.
pub fn malformed_rows(input: &[u8]) -> (r: Vec<usize>)
    ensures
        forall|i: int, j: int| 0 <= i < j < r@.len() ==> r@[i] < r@[j],
        forall|i: int| 0 <= i < r@.len() ==> #[trigger] r@[i] < csv_records(input@).len()
            && decode_record(csv_records(input@)[r@[i] as int]) is None,
        forall|k: int|
            0 <= k < csv_records(input@).len() && decode_record(csv_records(input@)[k]) is None
                ==> r@.contains(k as usize),
{
    let rows = read_records(input);
    let ghost all = rows.deep_view();
    let mut r: Vec<usize> = Vec::new();
    let mut i: usize = 0;
    while i < rows.len()
        invariant
            i <= rows@.len(),
            all == rows.deep_view(),
            all == csv_records(input@),
            forall|a: int, b: int| 0 <= a < b < r@.len() ==> r@[a] < r@[b],
            forall|a: int| 0 <= a < r@.len() ==> #[trigger] r@[a] < i && decode_record(
                all[r@[a] as int],
            ) is None,
            forall|k: int| 0 <= k < i && decode_record(all[k]) is None ==> r@.contains(k as usize),
        decreases rows@.len() - i,
    {
        let skipped = match &rows[i] {
            Some(fields) => {
                assert(all[i as int] == Some(fields.deep_view()));
                decode_row(fields).is_none()
            },
            None => true,
        };
        let ghost old_r = r@;
        if skipped {
            r.push(i);
            assert(r@[old_r.len() as int] == i);
        }
        assert forall|k: int| 0 <= k < i + 1 && decode_record(all[k]) is None implies r@.contains(
            k as usize,
        ) by {
            if k < i {
                assert(old_r.contains(k as usize));
                let w = choose|w: int| 0 <= w < old_r.len() && old_r[w] == k as usize;
                assert(r@[w] == k as usize);
            } else {
                assert(r@[r@.len() - 1] == k as usize);
            }
        }
        i = i + 1;
    }
    r
}

/// The account table, as csv text, that replaying the csv text `input` on an
/// empty table leaves.
pub fn process_transactions(input: &[u8]) -> (r: String)
    ensures
        r@ == ascii_chars(report_text(replay_rows(Map::empty(), csv_records(input@)))),
{
    replay_text(input).report()
}

} // verus!
