//! The values that a change record holds.

use vstd::prelude::*;

verus! {

/// One value of a row.
///
/// The variants are the kinds of value that a change record is read for. A value of any
/// other kind is carried along in its encoded form.
#[derive(Debug, PartialEq, Eq, Hash)]
pub enum Datum {
    Null,
    True,
    False,
    Int16(i16),
    Int32(i32),
    Int64(i64),
    String(String),
    List(Vec<Datum>),
    Array(Vec<Datum>),
    Other(Vec<u8>),
}

/// The contents of a [`Datum`].
pub enum DatumView {
    Null,
    True,
    False,
    Int16(i16),
    Int32(i32),
    Int64(i64),
    String(Seq<char>),
    List(Seq<DatumView>),
    Array(Seq<DatumView>),
    Other(Seq<u8>),
}

impl View for Datum {
    type V = DatumView;

    open spec fn view(&self) -> DatumView
        decreases self,
    {
        match self {
            Datum::Null => DatumView::Null,
            Datum::True => DatumView::True,
            Datum::False => DatumView::False,
            Datum::Int16(i) => DatumView::Int16(*i),
            Datum::Int32(i) => DatumView::Int32(*i),
            Datum::Int64(i) => DatumView::Int64(*i),
            Datum::String(s) => DatumView::String(s@),
            Datum::List(l) => DatumView::List(
                Seq::new(
                    l@.len(),
                    |i: int|
                        if 0 <= i < l@.len() {
                            l@[i].view()
                        } else {
                            DatumView::Null
                        },
                ),
            ),
            Datum::Array(l) => DatumView::Array(
                Seq::new(
                    l@.len(),
                    |i: int|
                        if 0 <= i < l@.len() {
                            l@[i].view()
                        } else {
                            DatumView::Null
                        },
                ),
            ),
            Datum::Other(b) => DatumView::Other(b@),
        }
    }
}

/// The contents of a run of values.
pub open spec fn datums_view(datums: Seq<Datum>) -> Seq<DatumView> {
    Seq::new(
        datums.len(),
        |i: int|
            if 0 <= i < datums.len() {
                datums[i].view()
            } else {
                DatumView::Null
            },
    )
}

/// A list or array holds the contents of its values.
pub proof fn lemma_list_view(datums: Vec<Datum>)
    ensures
        Datum::List(datums)@ == DatumView::List(datums_view(datums@)),
        Datum::Array(datums)@ == DatumView::Array(datums_view(datums@)),
{
    reveal_with_fuel(<Datum as View>::view, 2);
    assert(Datum::List(datums)@->List_0 =~= datums_view(datums@));
    assert(Datum::Array(datums)@->Array_0 =~= datums_view(datums@));
}

/// The value at a position; `None` past the end.
pub open spec fn nth(datums: Seq<DatumView>, i: nat) -> Option<DatumView> {
    if i < datums.len() {
        Some(datums[i as int])
    } else {
        None
    }
}

impl Datum {
    /// A copy of this value.
    pub fn duplicate(&self) -> (copy: Datum)
        ensures
            copy@ == self@,
        decreases self,
    {
        match self {
            Datum::Null => Datum::Null,
            Datum::True => Datum::True,
            Datum::False => Datum::False,
            Datum::Int16(i) => Datum::Int16(*i),
            Datum::Int32(i) => Datum::Int32(*i),
            Datum::Int64(i) => Datum::Int64(*i),
            Datum::String(s) => Datum::String(s.clone()),
            Datum::List(l) => {
                let datums = duplicate_all(l);
                proof {
                    lemma_list_view(*l);
                    lemma_list_view(datums);
                }
                Datum::List(datums)
            },
            Datum::Array(l) => {
                let datums = duplicate_all(l);
                proof {
                    lemma_list_view(*l);
                    lemma_list_view(datums);
                }
                Datum::Array(datums)
            },
            Datum::Other(b) => {
                let copy: Datum = Datum::Other(b.clone());
                assert(copy@->Other_0 =~= self@->Other_0);
                copy
            },
        }
    }
}

/// A copy of a run of values.
pub fn duplicate_all(datums: &Vec<Datum>) -> (copy: Vec<Datum>)
    ensures
        datums_view(copy@) == datums_view(datums@),
    decreases datums,
{
    let mut copy: Vec<Datum> = Vec::new();
    let mut i: usize = 0;
    while i < datums.len()
        invariant
            i <= datums@.len(),
            copy@.len() == i,
            forall|j: int| 0 <= j < i ==> #[trigger] copy@[j]@ == datums@[j]@,
        decreases datums@.len() - i,
    {
        assert(decreases_to!(datums => datums@));
        copy.push(datums[i].duplicate());
        i = i + 1;
    }
    assert(datums_view(copy@) =~= datums_view(datums@));
    copy
}

/// A row: its values, and the bytes it is packed into.
#[derive(Debug, PartialEq, Eq, Hash)]
pub struct Row {
    /// The values of the row, in order.
    pub datums: Vec<Datum>,
    /// The packed form of the row.
    pub data: Vec<u8>,
}

/// The contents of a [`Row`].
pub struct RowView {
    pub datums: Seq<DatumView>,
    pub data: Seq<u8>,
}

impl View for Row {
    type V = RowView;

    open spec fn view(&self) -> RowView {
        RowView { datums: datums_view(self.datums@), data: self.data@ }
    }
}

impl Row {
    /// The value at a position; `None` past the end.
    pub fn nth(&self, i: usize) -> (datum: Option<&Datum>)
        ensures
            match datum {
                Some(datum) => nth(self@.datums, i as nat) == Some(datum@),
                None => nth(self@.datums, i as nat) is None,
            },
    {
        if i < self.datums.len() {
            Some(&self.datums[i])
        } else {
            None
        }
    }
}

/// The value at a position of a list; `None` past the end.
pub fn list_nth(datums: &Vec<Datum>, i: usize) -> (datum: Option<&Datum>)
    ensures
        match datum {
            Some(datum) => nth(datums_view(datums@), i as nat) == Some(datum@),
            None => nth(datums_view(datums@), i as nat) is None,
        },
{
    if i < datums.len() {
        Some(&datums[i])
    } else {
        None
    }
}

} // verus!
