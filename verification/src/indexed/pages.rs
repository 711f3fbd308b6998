//! How the pages of a column of a Parquet file are laid out.

use vstd::prelude::*;
use vstd::slice::slice_subrange;

use crate::bytes::{le_value, read_le_32};
use crate::indexed::columnar::{rows, rows_len, KEY_VAL_DATA_MAX_LEN};

verus! {

/// What is known of a page of a column without its bytes.
#[derive(Debug, Clone, Copy, PartialEq, Eq)]
pub enum PageHead {
    /// The page has values that other pages refer to.
    Dictionary,
    /// The page is one of the first version: how many values it has, and how they are encoded.
    V1(i32, i32),
    /// The page is one of the second version: how many values it has, how they are encoded, and how
    /// many bytes the two kinds of levels before them take.
    V2(i32, i32, i32, i32),
}

/// The most pages that a column of a group may have.
pub const MAX_PAGES: usize = 512;

/// The number of an encoding that puts values one after another as they are.
pub const PLAIN: i32 = 0;

/// Whether bytes are the given number of values, each preceded by its length in four bytes.
pub open spec fn is_texts(data: Seq<u8>, count: nat) -> bool
    decreases count,
{
    if count == 0 {
        data.len() == 0
    } else {
        data.len() >= 4 && 4 + le_value(data.take(4)) <= data.len() && is_texts(
            data.skip((4 + le_value(data.take(4))) as int),
            (count - 1) as nat,
        )
    }
}

/// The number of values of a page.
pub open spec fn page_rows(head: PageHead) -> int {
    match head {
        PageHead::Dictionary => 0,
        PageHead::V1(num_values, _) => num_values as int,
        PageHead::V2(num_values, _, _, _) => num_values as int,
    }
}

/// Whether a page has nothing but plain values.
pub open spec fn is_plain(head: PageHead) -> bool {
    page_rows(head) >= 0 && match head {
        PageHead::Dictionary => false,
        PageHead::V1(_, encoding) => encoding == PLAIN,
        PageHead::V2(_, encoding, repetition, definition) => encoding == PLAIN && repetition == 0
            && definition == 0,
    }
}

/// Whether a page holds as many plain values as it says, and nothing else: texts, or numbers of
/// eight bytes each.
pub open spec fn page_fits(head: PageHead, data: Seq<u8>, texts: bool) -> bool {
    is_plain(head) && if texts {
        is_texts(data, page_rows(head) as nat)
    } else {
        data.len() == 8 * page_rows(head)
    }
}

/// The number of values of some pages.
pub open spec fn pages_rows(heads: Seq<PageHead>) -> int
    decreases heads.len(),
{
    if heads.len() == 0 {
        0
    } else {
        pages_rows(heads.drop_last()) + page_rows(heads.last())
    }
}

/// Whether the pages of a column hold a value for each row. There may not be too many of them, and
/// texts may not be too long in total.
pub open spec fn column_fits(
    heads: Seq<PageHead>,
    buffers: Seq<Seq<u8>>,
    rows: nat,
    texts: bool,
) -> bool {
    &&& buffers.len() == heads.len()
    &&& heads.len() <= MAX_PAGES
    &&& forall|i: int|
        0 <= i < heads.len() ==> page_fits(#[trigger] heads[i], buffers[i], texts)
    &&& pages_rows(heads) == rows
    &&& texts ==> rows_len(buffers) <= 4 * rows + KEY_VAL_DATA_MAX_LEN
}

fn are_texts(data: &[u8], count: u32) -> (b: bool)
    ensures
        b == is_texts(data@, count as nat),
{
    let mut rest: &[u8] = data;
    let mut left: u32 = count;
    while left > 0
        invariant
            is_texts(data@, count as nat) == is_texts(rest@, left as nat),
        decreases left,
    {
        if rest.len() < 4 {
            return false;
        }
        let len: u64 = read_le_32(rest);
        if len > (rest.len() - 4) as u64 {
            return false;
        }
        let next = slice_subrange(rest, 4 + len as usize, rest.len());
        assert(next@ =~= rest@.skip(4 + len));
        rest = next;
        left = left - 1;
    }
    rest.len() == 0
}

/// The number of values of a page, if it has nothing else, and if they are plain.
fn plain_rows(head: PageHead) -> (count: Option<u32>)
    ensures
        count is Some <==> is_plain(head),
        count matches Some(count) ==> count == page_rows(head),
{
    match head {
        PageHead::Dictionary => None,
        PageHead::V1(num_values, encoding) => if num_values >= 0 && encoding == PLAIN {
            Some(num_values as u32)
        } else {
            None
        },
        PageHead::V2(num_values, encoding, repetition, definition) => if num_values >= 0 && encoding
            == PLAIN && repetition == 0 && definition == 0 {
            Some(num_values as u32)
        } else {
            None
        },
    }
}

/// Tells whether the pages of a column hold a value for each row.
pub fn does_column_fit(
    heads: &Vec<PageHead>,
    buffers: &Vec<Vec<u8>>,
    count: u64,
    texts: bool,
) -> (fit: bool)
    ensures
        fit == column_fits(heads@, rows(buffers@), count as nat, texts),
{
    if buffers.len() != heads.len() || heads.len() > MAX_PAGES {
        return false;
    }
    let ghost all = rows(buffers@);
    let mut seen: u128 = 0;
    let mut len: u128 = 0;
    let mut i: usize = 0;
    while i < heads.len()
        invariant
            i <= heads.len(),
            buffers@.len() == heads@.len(),
            all == rows(buffers@),
            forall|j: int| 0 <= j < i ==> page_fits(#[trigger] heads@[j], all[j], texts),
            seen == pages_rows(heads@.take(i as int)),
            len == rows_len(all.take(i as int)),
            seen <= i * 0xffff_ffff,
            len <= i * 0xffff_ffff_ffff_ffff,
        decreases heads.len() - i,
    {
        assert(all[i as int] == buffers@[i as int]@);
        let num_values: u32 = match plain_rows(heads[i]) {
            Some(num_values) => num_values,
            None => {
                assert(!page_fits(heads@[i as int], all[i as int], texts));
                return false;
            },
        };
        let fits: bool = if texts {
            are_texts(buffers[i].as_slice(), num_values)
        } else {
            buffers[i].len() as u64 == 8 * num_values as u64
        };
        if !fits {
            assert(!page_fits(heads@[i as int], all[i as int], texts));
            return false;
        }
        proof {
            assert(heads@.take(i + 1).drop_last() =~= heads@.take(i as int));
            assert(heads@.take(i + 1).last() == heads@[i as int]);
            assert(all.take(i + 1).drop_last() =~= all.take(i as int));
            assert(all.take(i + 1).last() == all[i as int]);
        }
        seen = seen + num_values as u128;
        len = len + buffers[i].len() as u128;
        i = i + 1;
    }
    assert(heads@.take(i as int) =~= heads@);
    assert(all.take(i as int) =~= all);
    if seen != count as u128 {
        return false;
    }
    !texts || len <= 4 * count as u128 + KEY_VAL_DATA_MAX_LEN as u128
}

} // verus!
