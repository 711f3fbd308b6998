//! Differences between the fields of two states, packed one after the other.

use vstd::prelude::*;
use vstd::slice::slice_subrange;

use crate::persist::proto::diff::{ProtoStateFieldDiffs, ProtoStateFieldDiffsView};

verus! {

/// A field of a state.
#[derive(Debug, Clone, Copy, PartialEq, Eq, Structural)]
pub enum ProtoStateField {
    Hostname,
    LastGcReq,
    Rollups,
    LeasedReaders,
    CriticalReaders,
    Writers,
    Since,
    Spine,
}

/// The number that a field is written as.
pub open spec fn field_number(field: ProtoStateField) -> i32 {
    match field {
        ProtoStateField::Hostname => 0,
        ProtoStateField::LastGcReq => 1,
        ProtoStateField::Rollups => 2,
        ProtoStateField::LeasedReaders => 3,
        ProtoStateField::CriticalReaders => 4,
        ProtoStateField::Writers => 5,
        ProtoStateField::Since => 6,
        ProtoStateField::Spine => 7,
    }
}

/// The field that is written as a number.
pub open spec fn field_of(number: i32) -> Option<ProtoStateField> {
    if number == 0 {
        Some(ProtoStateField::Hostname)
    } else if number == 1 {
        Some(ProtoStateField::LastGcReq)
    } else if number == 2 {
        Some(ProtoStateField::Rollups)
    } else if number == 3 {
        Some(ProtoStateField::LeasedReaders)
    } else if number == 4 {
        Some(ProtoStateField::CriticalReaders)
    } else if number == 5 {
        Some(ProtoStateField::Writers)
    } else if number == 6 {
        Some(ProtoStateField::Since)
    } else if number == 7 {
        Some(ProtoStateField::Spine)
    } else {
        None
    }
}

impl ProtoStateField {
    /// The number that the field is written as.
    pub fn number(self) -> (number: i32)
        ensures
            number == field_number(self),
    {
        match self {
            ProtoStateField::Hostname => 0,
            ProtoStateField::LastGcReq => 1,
            ProtoStateField::Rollups => 2,
            ProtoStateField::LeasedReaders => 3,
            ProtoStateField::CriticalReaders => 4,
            ProtoStateField::Writers => 5,
            ProtoStateField::Since => 6,
            ProtoStateField::Spine => 7,
        }
    }

    /// The field that is written as a number.
    pub fn from_i32(number: i32) -> (field: Option<ProtoStateField>)
        ensures
            field == field_of(number),
    {
        match number {
            0 => Some(ProtoStateField::Hostname),
            1 => Some(ProtoStateField::LastGcReq),
            2 => Some(ProtoStateField::Rollups),
            3 => Some(ProtoStateField::LeasedReaders),
            4 => Some(ProtoStateField::CriticalReaders),
            5 => Some(ProtoStateField::Writers),
            6 => Some(ProtoStateField::Since),
            7 => Some(ProtoStateField::Spine),
            _ => None,
        }
    }
}

/// What has happened to an entry of a field.
#[derive(Debug, Clone, Copy, PartialEq, Eq, Structural)]
pub enum ProtoStateFieldDiffType {
    Insert,
    Update,
    Delete,
}

/// The number that a kind of difference is written as.
pub open spec fn diff_type_number(diff_type: ProtoStateFieldDiffType) -> i32 {
    match diff_type {
        ProtoStateFieldDiffType::Insert => 0,
        ProtoStateFieldDiffType::Update => 1,
        ProtoStateFieldDiffType::Delete => 2,
    }
}

/// The kind of difference that is written as a number.
pub open spec fn diff_type_of(number: i32) -> Option<ProtoStateFieldDiffType> {
    if number == 0 {
        Some(ProtoStateFieldDiffType::Insert)
    } else if number == 1 {
        Some(ProtoStateFieldDiffType::Update)
    } else if number == 2 {
        Some(ProtoStateFieldDiffType::Delete)
    } else {
        None
    }
}

impl ProtoStateFieldDiffType {
    /// The number that the kind of difference is written as.
    pub fn number(self) -> (number: i32)
        ensures
            number == diff_type_number(self),
    {
        match self {
            ProtoStateFieldDiffType::Insert => 0,
            ProtoStateFieldDiffType::Update => 1,
            ProtoStateFieldDiffType::Delete => 2,
        }
    }

    /// The kind of difference that is written as a number.
    pub fn from_i32(number: i32) -> (diff_type: Option<ProtoStateFieldDiffType>)
        ensures
            diff_type == diff_type_of(number),
    {
        match number {
            0 => Some(ProtoStateFieldDiffType::Insert),
            1 => Some(ProtoStateFieldDiffType::Update),
            2 => Some(ProtoStateFieldDiffType::Delete),
            _ => None,
        }
    }
}

/// A difference: what has happened to the entry with a key, and the value before and after. Where
/// there was no value before, or is none after, it is empty.
#[verifier::ext_equal]
pub struct RawDiff {
    pub field: i32,
    pub diff_type: ProtoStateFieldDiffType,
    pub key: Seq<u8>,
    pub from: Seq<u8>,
    pub to: Seq<u8>,
}

/// Packed differences with one more piece of data.
pub open spec fn with_data(
    diffs: ProtoStateFieldDiffsView,
    data: Seq<u8>,
) -> ProtoStateFieldDiffsView {
    ProtoStateFieldDiffsView {
        data_lens: diffs.data_lens.push(data.len() as u64),
        data_bytes: diffs.data_bytes + data,
        ..diffs
    }
}

/// Packed differences with one more difference: its key, and the values that there are.
pub open spec fn with_raw(
    diffs: ProtoStateFieldDiffsView,
    raw: RawDiff,
) -> ProtoStateFieldDiffsView {
    let keyed = with_data(
        ProtoStateFieldDiffsView {
            fields: diffs.fields.push(raw.field),
            diff_types: diffs.diff_types.push(diff_type_number(raw.diff_type)),
            ..diffs
        },
        raw.key,
    );
    match raw.diff_type {
        ProtoStateFieldDiffType::Insert => with_data(keyed, raw.to),
        ProtoStateFieldDiffType::Update => with_data(with_data(keyed, raw.from), raw.to),
        ProtoStateFieldDiffType::Delete => with_data(keyed, raw.from),
    }
}

/// Packed differences with some more differences.
pub open spec fn with_raws(
    diffs: ProtoStateFieldDiffsView,
    raws: Seq<RawDiff>,
) -> ProtoStateFieldDiffsView
    decreases raws.len(),
{
    if raws.len() == 0 {
        diffs
    } else {
        with_raw(with_raws(diffs, raws.drop_last()), raws.last())
    }
}

/// Differences can be packed in two steps.
pub proof fn lemma_with_raws_join(diffs: ProtoStateFieldDiffsView, a: Seq<RawDiff>, b: Seq<RawDiff>)
    ensures
        with_raws(diffs, a + b) == with_raws(with_raws(diffs, a), b),
    decreases b.len(),
{
    if b.len() == 0 {
        assert(a + b =~= a);
    } else {
        assert((a + b).drop_last() =~= a + b.drop_last());
        lemma_with_raws_join(diffs, a, b.drop_last());
    }
}

/// How many pieces of data a difference has, by the number of its kind.
pub open spec fn pieces(diff_type: i32) -> nat {
    if diff_type == 1 {
        3
    } else {
        2
    }
}

/// How many pieces of data differences have together.
pub open spec fn total_pieces(diff_types: Seq<i32>) -> nat
    decreases diff_types.len(),
{
    if diff_types.len() == 0 {
        0
    } else {
        total_pieces(diff_types.drop_last()) + pieces(diff_types.last())
    }
}

/// How long pieces of data are together.
pub open spec fn total_len(lens: Seq<u64>) -> nat
    decreases lens.len(),
{
    if lens.len() == 0 {
        0
    } else {
        total_len(lens.drop_last()) + lens.last() as nat
    }
}

/// Whether each number is one of a kind of difference.
pub open spec fn known_types(diff_types: Seq<i32>) -> bool {
    forall|i: int| 0 <= i < diff_types.len() ==> diff_type_of(#[trigger] diff_types[i]) is Some
}

/// Whether the parts of packed differences fit together.
pub open spec fn diffs_fit(diffs: ProtoStateFieldDiffsView) -> bool {
    &&& diffs.fields.len() == diffs.diff_types.len()
    &&& known_types(diffs.diff_types)
    &&& total_pieces(diffs.diff_types) == diffs.data_lens.len()
    &&& total_len(diffs.data_lens) == diffs.data_bytes.len()
}

/// What is said of packed differences whose parts do not fit together.
pub open spec fn misfit(diffs: ProtoStateFieldDiffsView) -> Seq<char> {
    if diffs.fields.len() != diffs.diff_types.len() {
        "fields and diff_types differ in length"@
    } else if !known_types(diffs.diff_types) {
        "unknown diff_type"@
    } else if total_pieces(diffs.diff_types) != diffs.data_lens.len() {
        "data slices and diff_types do not match"@
    } else {
        "data slices and data bytes do not match"@
    }
}

/// A piece of data.
pub open spec fn piece(diffs: ProtoStateFieldDiffsView, j: int) -> Seq<u8> {
    let start = total_len(diffs.data_lens.take(j)) as int;
    diffs.data_bytes.subrange(start, start + diffs.data_lens[j])
}

/// One of the packed differences.
pub open spec fn raw_diff(diffs: ProtoStateFieldDiffsView, i: int) -> RawDiff {
    let first = total_pieces(diffs.diff_types.take(i)) as int;
    let diff_type = diff_type_of(diffs.diff_types[i]).unwrap();
    RawDiff {
        field: diffs.fields[i],
        diff_type,
        key: piece(diffs, first),
        from: match diff_type {
            ProtoStateFieldDiffType::Insert => Seq::empty(),
            _ => piece(diffs, first + 1),
        },
        to: match diff_type {
            ProtoStateFieldDiffType::Insert => piece(diffs, first + 1),
            ProtoStateFieldDiffType::Update => piece(diffs, first + 2),
            ProtoStateFieldDiffType::Delete => Seq::empty(),
        },
    }
}

/// All packed differences.
pub open spec fn raw_diffs(diffs: ProtoStateFieldDiffsView) -> Seq<RawDiff> {
    Seq::new(diffs.fields.len(), |i: int| raw_diff(diffs, i))
}

proof fn lemma_total_len_take(lens: Seq<u64>, j: int)
    requires
        0 <= j < lens.len(),
    ensures
        total_len(lens.take(j)) + lens[j] == total_len(lens.take(j + 1)),
        total_len(lens.take(j + 1)) <= total_len(lens),
    decreases lens.len(),
{
    assert(lens.take(j + 1).drop_last() =~= lens.take(j));
    if j + 1 == lens.len() {
        assert(lens.take(j + 1) =~= lens);
    } else {
        lemma_total_len_take(lens.drop_last(), j);
        assert(lens.drop_last().take(j + 1) =~= lens.take(j + 1));
        assert(lens.drop_last().take(j) =~= lens.take(j));
    }
}

proof fn lemma_total_pieces_take(types: Seq<i32>, i: int)
    requires
        0 <= i < types.len(),
    ensures
        total_pieces(types.take(i)) + pieces(types[i]) == total_pieces(types.take(i + 1)),
        total_pieces(types.take(i + 1)) <= total_pieces(types),
    decreases types.len(),
{
    assert(types.take(i + 1).drop_last() =~= types.take(i));
    if i + 1 == types.len() {
        assert(types.take(i + 1) =~= types);
    } else {
        lemma_total_pieces_take(types.drop_last(), i);
        assert(types.drop_last().take(i + 1) =~= types.take(i + 1));
        assert(types.drop_last().take(i) =~= types.take(i));
    }
}

/// One more piece of data leaves the pieces before it as they are, and comes last.
proof fn lemma_with_data(diffs: ProtoStateFieldDiffsView, data: Seq<u8>)
    requires
        total_len(diffs.data_lens) == diffs.data_bytes.len(),
        data.len() <= u64::MAX,
    ensures
        ({
            let after = with_data(diffs, data);
            &&& total_len(after.data_lens) == after.data_bytes.len()
            &&& forall|j: int|
                0 <= j < diffs.data_lens.len() ==> #[trigger] piece(after, j) == piece(diffs, j)
            &&& piece(after, diffs.data_lens.len() as int) == data
        }),
{
    let after = with_data(diffs, data);
    let n = diffs.data_lens.len() as int;
    assert(after.data_lens.drop_last() =~= diffs.data_lens);
    assert(after.data_lens.take(n) =~= diffs.data_lens);
    assert(piece(after, n) =~= data);
    assert forall|j: int| 0 <= j < n implies #[trigger] piece(after, j) == piece(diffs, j) by {
        lemma_total_len_take(diffs.data_lens, j);
        assert(after.data_lens.take(j) =~= diffs.data_lens.take(j));
        assert(piece(after, j) =~= piece(diffs, j));
    }
}

/// Whether the pieces of a difference can be counted, and it holds no value that there is none of.
pub open spec fn raw_fits(raw: RawDiff) -> bool {
    &&& raw.key.len() <= u64::MAX
    &&& raw.from.len() <= u64::MAX
    &&& raw.to.len() <= u64::MAX
    &&& raw.diff_type is Insert ==> raw.from.len() == 0
    &&& raw.diff_type is Delete ==> raw.to.len() == 0
}

/// Differences are unpacked as they were packed: one more comes last.
pub proof fn lemma_with_raw(diffs: ProtoStateFieldDiffsView, raw: RawDiff)
    requires
        diffs_fit(diffs),
        raw_fits(raw),
    ensures
        diffs_fit(with_raw(diffs, raw)),
        raw_diffs(with_raw(diffs, raw)) == raw_diffs(diffs).push(raw),
{
    let n = diffs.fields.len() as int;
    let first = diffs.data_lens.len() as int;
    let started = ProtoStateFieldDiffsView {
        fields: diffs.fields.push(raw.field),
        diff_types: diffs.diff_types.push(diff_type_number(raw.diff_type)),
        ..diffs
    };
    assert forall|j: int| 0 <= j < first implies #[trigger] piece(started, j) == piece(
        diffs,
        j,
    ) by {}
    let keyed = with_data(started, raw.key);
    lemma_with_data(started, raw.key);
    let second = match raw.diff_type {
        ProtoStateFieldDiffType::Insert => raw.to,
        _ => raw.from,
    };
    let valued = with_data(keyed, second);
    lemma_with_data(keyed, second);
    let after = with_raw(diffs, raw);
    if raw.diff_type is Update {
        lemma_with_data(valued, raw.to);
    }
    assert(after.diff_types.drop_last() =~= diffs.diff_types);
    assert(after.diff_types.take(n) =~= diffs.diff_types);
    assert(after.diff_types.last() == diff_type_number(raw.diff_type));
    assert(known_types(after.diff_types)) by {
        assert forall|i: int| 0 <= i < after.diff_types.len() implies diff_type_of(
            #[trigger] after.diff_types[i],
        ) is Some by {
            if i < n {
                assert(after.diff_types[i] == diffs.diff_types[i]);
            }
        }
    }
    assert forall|j: int| 0 <= j < first implies #[trigger] piece(after, j) == piece(diffs, j) by {
        assert(piece(started, j) == piece(diffs, j));
        assert(piece(keyed, j) == piece(started, j));
        assert(piece(valued, j) == piece(keyed, j));
    }
    assert(piece(keyed, first) == raw.key);
    assert(piece(valued, first) == piece(keyed, first));
    assert(piece(valued, first + 1) == second);
    assert(raw.diff_type is Update ==> piece(after, first) == piece(valued, first));
    assert(raw.diff_type is Update ==> piece(after, first + 1) == piece(valued, first + 1));
    assert(raw_diff(after, n) =~= raw);
    assert forall|i: int| 0 <= i < n implies #[trigger] raw_diff(
        after,
        i,
    ) == raw_diff(diffs, i) by {
        assert(after.diff_types.take(i) =~= diffs.diff_types.take(i));
        lemma_total_pieces_take(diffs.diff_types, i);
    }
    assert(raw_diffs(after) =~= raw_diffs(diffs).push(raw));
}

/// Differences are unpacked as they were packed.
pub proof fn lemma_raw_diffs(diffs: ProtoStateFieldDiffsView, raws: Seq<RawDiff>)
    requires
        diffs_fit(diffs),
        forall|i: int| 0 <= i < raws.len() ==> raw_fits(#[trigger] raws[i]),
    ensures
        diffs_fit(with_raws(diffs, raws)),
        raw_diffs(with_raws(diffs, raws)) == raw_diffs(diffs) + raws,
    decreases raws.len(),
{
    if raws.len() == 0 {
        assert(raw_diffs(diffs) + raws =~= raw_diffs(diffs));
    } else {
        lemma_raw_diffs(diffs, raws.drop_last());
        lemma_with_raw(with_raws(diffs, raws.drop_last()), raws.last());
        assert((raw_diffs(diffs) + raws.drop_last()).push(raws.last()) =~= raw_diffs(diffs) + raws);
    }
}

/// One of some packed differences, in the buffers that hold them.
pub struct ProtoStateFieldDiff<'a> {
    /// The number of the field.
    pub field: i32,
    /// What has happened to the entry.
    pub diff_type: ProtoStateFieldDiffType,
    /// The key of the entry.
    pub key: &'a [u8],
    /// The value before, if there was one.
    pub from: &'a [u8],
    /// The value after, if there is one.
    pub to: &'a [u8],
}

impl View for ProtoStateFieldDiff<'_> {
    type V = RawDiff;

    open spec fn view(&self) -> RawDiff {
        RawDiff {
            field: self.field,
            diff_type: self.diff_type,
            key: self.key@,
            from: self.from@,
            to: self.to@,
        }
    }
}

/// The place in packed differences up to which they have been walked.
pub struct Cursor {
    /// The next difference.
    pub diff: usize,
    /// The next piece of data.
    pub piece: usize,
    /// Where the next piece of data starts.
    pub offset: usize,
}

impl Cursor {
    /// Whether this is a place between two differences.
    pub open spec fn at(&self, diffs: ProtoStateFieldDiffsView) -> bool {
        &&& self.diff <= diffs.fields.len()
        &&& self.piece == total_pieces(diffs.diff_types.take(self.diff as int))
        &&& self.offset == total_len(diffs.data_lens.take(self.piece as int))
    }
}

impl ProtoStateFieldDiffs {
    /// No differences.
    pub fn new() -> (diffs: ProtoStateFieldDiffs)
        ensures
            diffs@ == no_diffs(),
            diffs_fit(diffs@),
            raw_diffs(diffs@).len() == 0,
    {
        let diffs = ProtoStateFieldDiffs {
            fields: Vec::new(),
            diff_types: Vec::new(),
            data_lens: Vec::new(),
            data_bytes: Vec::new(),
        };
        assert(diffs@ =~= no_diffs());
        diffs
    }

    /// Adds a piece of data.
    pub fn push_data(&mut self, data: Vec<u8>)
        ensures
            final(self)@ == with_data(old(self)@, data@),
    {
        let mut bytes: Vec<u8> = data;
        self.data_lens.push(bytes.len() as u64);
        self.data_bytes.append(&mut bytes);
        assert(self@ =~= with_data(old(self)@, data@));
    }

    /// Checks that the parts of the differences fit together.
    pub fn validate(&self) -> (r: Result<(), String>)
        ensures
            match r {
                Ok(()) => diffs_fit(self@),
                Err(message) => !diffs_fit(self@) && message@ == misfit(self@),
            },
    {
        if self.fields.len() != self.diff_types.len() {
            return Err("fields and diff_types differ in length".to_owned());
        }
        let mut slices: u128 = 0;
        let mut i: usize = 0;
        while i < self.diff_types.len()
            invariant
                self.fields.len() == self.diff_types.len(),
                i <= self.diff_types.len(),
                slices == total_pieces(self@.diff_types.take(i as int)),
                slices <= 3 * i,
                forall|j: int|
                    0 <= j < i ==> diff_type_of(#[trigger] self@.diff_types[j]) is Some,
            decreases self.diff_types.len() - i,
        {
            proof {
                lemma_total_pieces_take(self@.diff_types, i as int);
            }
            match ProtoStateFieldDiffType::from_i32(self.diff_types[i]) {
                Some(ProtoStateFieldDiffType::Update) => {
                    slices = slices + 3;
                },
                Some(_) => {
                    slices = slices + 2;
                },
                None => {
                    assert(diff_type_of(self@.diff_types[i as int]) is None);
                    return Err("unknown diff_type".to_owned());
                },
            }
            i = i + 1;
        }
        assert(self@.diff_types.take(i as int) =~= self@.diff_types);
        if slices != self.data_lens.len() as u128 {
            return Err("data slices and diff_types do not match".to_owned());
        }
        let mut bytes: u128 = 0;
        let mut j: usize = 0;
        while j < self.data_lens.len()
            invariant
                j <= self.data_lens.len(),
                bytes == total_len(self@.data_lens.take(j as int)),
                bytes <= j * 0xffff_ffff_ffff_ffff,
            decreases self.data_lens.len() - j,
        {
            proof {
                lemma_total_len_take(self@.data_lens, j as int);
            }
            bytes = bytes + self.data_lens[j] as u128;
            j = j + 1;
        }
        assert(self@.data_lens.take(j as int) =~= self@.data_lens);
        if bytes != self.data_bytes.len() as u128 {
            return Err("data slices and data bytes do not match".to_owned());
        }
        Ok(())
    }

    fn next_piece(&self, cursor: &mut Cursor) -> (data: &[u8])
        requires
            old(cursor).piece < self@.data_lens.len(),
            old(cursor).offset == total_len(self@.data_lens.take(old(cursor).piece as int)),
            total_len(self@.data_lens) == self@.data_bytes.len(),
        ensures
            data@ == piece(self@, old(cursor).piece as int),
            final(cursor).piece == old(cursor).piece + 1,
            final(cursor).offset == total_len(self@.data_lens.take(final(cursor).piece as int)),
            final(cursor).diff == old(cursor).diff,
    {
        proof {
            lemma_total_len_take(self@.data_lens, cursor.piece as int);
            assert(self@.data_lens.len() == self.data_lens.len());
            assert(self@.data_bytes.len() == self.data_bytes.len());
        }
        let start: usize = cursor.offset;
        let end: usize = start + self.data_lens[cursor.piece] as usize;
        cursor.piece = cursor.piece + 1;
        cursor.offset = end;
        slice_subrange(self.data_bytes.as_slice(), start, end)
    }

    /// The next difference.
    pub fn next_diff(&self, cursor: &mut Cursor) -> (diff: ProtoStateFieldDiff<'_>)
        requires
            diffs_fit(self@),
            old(cursor).at(self@),
            old(cursor).diff < self@.fields.len(),
        ensures
            diff@ == raw_diffs(self@)[old(cursor).diff as int],
            final(cursor).at(self@),
            final(cursor).diff == old(cursor).diff + 1,
    {
        let i: usize = cursor.diff;
        proof {
            lemma_total_pieces_take(self@.diff_types, i as int);
            assert(diff_type_of(self@.diff_types[i as int]) is Some);
            assert(self@.fields.len() == self.fields.len());
        }
        let field: i32 = self.fields[i];
        let number: i32 = self.diff_types[i];
        let key = self.next_piece(cursor);
        let diff = match number {
            0 => {
                let to = self.next_piece(cursor);
                let from = slice_subrange(to, 0, 0);
                assert(from@ =~= Seq::empty());
                ProtoStateFieldDiff {
                    field,
                    diff_type: ProtoStateFieldDiffType::Insert,
                    key,
                    from,
                    to,
                }
            },
            1 => {
                let from = self.next_piece(cursor);
                let to = self.next_piece(cursor);
                ProtoStateFieldDiff {
                    field,
                    diff_type: ProtoStateFieldDiffType::Update,
                    key,
                    from,
                    to,
                }
            },
            _ => {
                let from = self.next_piece(cursor);
                let to = slice_subrange(from, 0, 0);
                assert(to@ =~= Seq::empty());
                ProtoStateFieldDiff {
                    field,
                    diff_type: ProtoStateFieldDiffType::Delete,
                    key,
                    from,
                    to,
                }
            },
        };
        cursor.diff = i + 1;
        diff
    }
}

/// No differences.
pub open spec fn no_diffs() -> ProtoStateFieldDiffsView {
    ProtoStateFieldDiffsView {
        fields: Seq::empty(),
        diff_types: Seq::empty(),
        data_lens: Seq::empty(),
        data_bytes: Seq::empty(),
    }
}

} // verus!
