//! Updates, column by column.

use vstd::prelude::*;

verus! {

/// Something is wrong with a batch, in words.
#[derive(Debug, PartialEq, Eq)]
pub struct BatchError {
    pub message: String,
}

impl View for BatchError {
    type V = Seq<char>;

    open spec fn view(&self) -> Seq<char> {
        self.message@
    }
}

/// An error, by what it says.
pub fn error(message: &str) -> (err: BatchError)
    ensures
        err@ == message@,
{
    BatchError { message: message.to_owned() }
}

/// How many bytes the keys, or the values, of updates may have together.
pub const KEY_VAL_DATA_MAX_LEN: usize = 0x7fff_ffff;

/// The contents of rows of bytes.
pub open spec fn rows(data: Seq<Vec<u8>>) -> Seq<Seq<u8>> {
    Seq::new(data.len(), |i: int| data[i]@)
}

/// How many bytes rows have together.
pub open spec fn rows_len(data: Seq<Seq<u8>>) -> nat
    decreases data.len(),
{
    if data.len() == 0 {
        0
    } else {
        rows_len(data.drop_last()) + data.last().len()
    }
}

/// Updates, column by column: an update has a key, a value, a time and a diff.
#[derive(Debug, PartialEq, Eq)]
pub struct ColumnarRecords {
    keys: Vec<Vec<u8>>,
    vals: Vec<Vec<u8>>,
    timestamps: Vec<i64>,
    diffs: Vec<i64>,
}

/// The contents of [`ColumnarRecords`].
#[verifier::ext_equal]
pub struct ColumnarRecordsView {
    pub keys: Seq<Seq<u8>>,
    pub vals: Seq<Seq<u8>>,
    pub timestamps: Seq<i64>,
    pub diffs: Seq<i64>,
}

impl View for ColumnarRecords {
    type V = ColumnarRecordsView;

    closed spec fn view(&self) -> ColumnarRecordsView {
        ColumnarRecordsView {
            keys: rows(self.keys@),
            vals: rows(self.vals@),
            timestamps: self.timestamps@,
            diffs: self.diffs@,
        }
    }
}

/// Whether columns fit together: there are as many keys as values, times and diffs, and neither
/// the keys nor the values have too many bytes.
pub open spec fn columns_fit(records: ColumnarRecordsView) -> bool {
    &&& records.vals.len() == records.keys.len()
    &&& records.timestamps.len() == records.keys.len()
    &&& records.diffs.len() == records.keys.len()
    &&& rows_len(records.keys) <= KEY_VAL_DATA_MAX_LEN
    &&& rows_len(records.vals) <= KEY_VAL_DATA_MAX_LEN
}

proof fn lemma_rows_len_take(data: Seq<Seq<u8>>, i: int)
    requires
        0 <= i < data.len(),
    ensures
        rows_len(data.take(i)) + data[i].len() == rows_len(data.take(i + 1)),
        rows_len(data.take(i + 1)) <= rows_len(data),
    decreases data.len(),
{
    assert(data.take(i + 1).drop_last() =~= data.take(i));
    if i + 1 == data.len() {
        assert(data.take(i + 1) =~= data);
    } else {
        lemma_rows_len_take(data.drop_last(), i);
        assert(data.drop_last().take(i + 1) =~= data.take(i + 1));
        assert(data.drop_last().take(i) =~= data.take(i));
    }
}

fn rows_fit(data: &Vec<Vec<u8>>) -> (fit: bool)
    ensures
        fit == (rows_len(rows(data@)) <= KEY_VAL_DATA_MAX_LEN),
{
    let mut left: usize = KEY_VAL_DATA_MAX_LEN;
    let mut i: usize = 0;
    while i < data.len()
        invariant
            i <= data.len(),
            left + rows_len(rows(data@).take(i as int)) == KEY_VAL_DATA_MAX_LEN,
        decreases data.len() - i,
    {
        proof {
            lemma_rows_len_take(rows(data@), i as int);
        }
        if data[i].len() > left {
            return false;
        }
        left = left - data[i].len();
        i = i + 1;
    }
    assert(rows(data@).take(i as int) =~= rows(data@));
    true
}

impl ColumnarRecords {
    #[verifier::type_invariant]
    spec fn fit(self) -> bool {
        columns_fit(self@)
    }

    /// Updates, if the columns fit together.
    pub fn new(
        keys: Vec<Vec<u8>>,
        vals: Vec<Vec<u8>>,
        timestamps: Vec<i64>,
        diffs: Vec<i64>,
    ) -> (records: Option<ColumnarRecords>)
        ensures
            ({
                let columns = ColumnarRecordsView {
                    keys: rows(keys@),
                    vals: rows(vals@),
                    timestamps: timestamps@,
                    diffs: diffs@,
                };
                match records {
                    Some(records) => columns_fit(columns) && records@ == columns,
                    None => !columns_fit(columns),
                }
            }),
    {
        if vals.len() == keys.len() && timestamps.len() == keys.len() && diffs.len() == keys.len()
            && rows_fit(&keys) && rows_fit(&vals) {
            Some(ColumnarRecords { keys, vals, timestamps, diffs })
        } else {
            None
        }
    }

    /// The number of updates.
    pub fn len(&self) -> (len: usize)
        ensures
            len == self@.keys.len(),
            columns_fit(self@),
    {
        proof {
            use_type_invariant(self);
        }
        self.keys.len()
    }

    pub fn keys(&self) -> (keys: &Vec<Vec<u8>>)
        ensures
            rows(keys@) == self@.keys,
    {
        &self.keys
    }

    pub fn vals(&self) -> (vals: &Vec<Vec<u8>>)
        ensures
            rows(vals@) == self@.vals,
    {
        &self.vals
    }

    pub fn timestamps(&self) -> (timestamps: &Vec<i64>)
        ensures
            timestamps@ == self@.timestamps,
    {
        &self.timestamps
    }

    pub fn diffs(&self) -> (diffs: &Vec<i64>)
        ensures
            diffs@ == self@.diffs,
    {
        &self.diffs
    }
}

} // verus!
