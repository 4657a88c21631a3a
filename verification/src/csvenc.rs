use vstd::prelude::*;

verus! {

/// The CSV encoding of one row: the fields comma-separated, quoted only
/// where needed, and a terminating newline, as the `csv` crate's default
/// writer produces it.
pub uninterp spec fn csv_line_of(fields: Seq<Seq<char>>) -> Seq<u8>;

/// Relies on csv's `Writer` over an in-memory buffer, in its default
/// configuration: writing one record and flushing yields that record's
/// line, a function of the fields alone.
#[verifier::external_body]
fn encode_csv_row(fields: &Vec<String>) -> (r: Vec<u8>)
    ensures
        r@ == csv_line_of(fields.deep_view()),
{
    let mut w = csv::Writer::from_writer(Vec::new());
    w.write_record(fields).unwrap();
    w.into_inner().unwrap()
}

/// The CSV encoding of a whole table, row lines in order.
pub open spec fn csv_concat(rows: Seq<Seq<Seq<char>>>) -> Seq<u8>
    decreases rows.len(),
{
    if rows.len() == 0 {
        Seq::empty()
    } else {
        csv_concat(rows.drop_last()) + csv_line_of(rows.last())
    }
}

/// Encode the output rows as one CSV byte stream.
#[verifier::loop_isolation(false)]
pub fn rows_to_csv(rows: &Vec<Vec<String>>) -> (r: Vec<u8>)
    ensures
        r@ == csv_concat(rows.deep_view()),
{
    let mut out: Vec<u8> = Vec::new();
    let mut i: usize = 0;
    while i < rows.len()
        invariant
            0 <= i <= rows@.len(),
            out@ == csv_concat(rows.deep_view().subrange(0, i as int)),
        decreases rows@.len() - i,
    {
        let line = encode_csv_row(&rows[i]);
        let mut t: usize = 0;
        while t < line.len()
            invariant
                0 <= t <= line@.len(),
                out@ == csv_concat(rows.deep_view().subrange(0, i as int)) + line@.subrange(
                    0,
                    t as int,
                ),
            decreases line@.len() - t,
        {
            out.push(line[t]);
            assert(out@ =~= csv_concat(rows.deep_view().subrange(0, i as int)) + line@.subrange(
                0,
                t + 1,
            ));
            t = t + 1;
        }
        proof {
            assert(rows.deep_view().subrange(0, i + 1).drop_last() =~= rows.deep_view().subrange(
                0,
                i as int,
            ));
            assert(rows.deep_view().subrange(0, i + 1).last() == rows.deep_view()[i as int]);
            assert(rows.deep_view()[i as int] == rows@[i as int].deep_view());
            assert(line@ =~= line@.subrange(0, line@.len() as int));
            assert(out@ =~= csv_concat(rows.deep_view().subrange(0, i + 1)));
        }
        i = i + 1;
    }
    proof {
        assert(rows.deep_view().subrange(0, rows@.len() as int) =~= rows.deep_view());
    }
    out
}

} // verus!
