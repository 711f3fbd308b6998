//! What holds of deduplication, whatever messages come one after another.

use vstd::prelude::*;

use crate::debezium::coordinates::{precedes, RowCoordinates};
use crate::debezium::datum::DatumView;
use crate::debezium::dedup::{
    extract, fresh_dedup, is_ahead, judge, DebeziumDedupProjection, DedupView,
};

verus! {

/// What messages do to the state, one after the other. `None` if one of them cannot be judged.
pub open spec fn judge_all(
    projection: DebeziumDedupProjection,
    dedup: DedupView,
    rows: Seq<Seq<DatumView>>,
) -> Option<DedupView>
    decreases rows.len(),
{
    if rows.len() == 0 {
        Some(dedup)
    } else {
        match judge_all(projection, dedup, rows.drop_last()) {
            Some(dedup) => match judge(projection, dedup, rows.last()) {
                Some((dedup, _)) => Some(dedup),
                None => None,
            },
            None => None,
        }
    }
}

/// Whether a message is used by its position.
pub open spec fn used_at(
    projection: DebeziumDedupProjection,
    dedup: DedupView,
    row: Seq<DatumView>,
    position: RowCoordinates,
) -> bool {
    &&& has_position(projection, dedup, row, position)
    &&& judge(projection, dedup, row) matches Some((_, Ok(used)))
    &&& used
}

/// Whether a message has a position.
pub open spec fn has_position(
    projection: DebeziumDedupProjection,
    dedup: DedupView,
    row: Seq<DatumView>,
    position: RowCoordinates,
) -> bool {
    &&& extract(projection, dedup.filenames, row) matches Some(extraction)
    &&& extraction.position matches Ok(Some(found))
    &&& found == position
}

/// Whether a message with a position has been seen: its position is not ahead of the last recorded
/// one, and its log file, if any, has a number.
pub open spec fn seen(
    projection: DebeziumDedupProjection,
    dedup: DedupView,
    row: Seq<DatumView>,
    position: RowCoordinates,
) -> bool {
    &&& has_position(projection, dedup, row, position)
    &&& extract(projection, dedup.filenames, row)->Some_0.filenames == dedup.filenames
    &&& !is_ahead(dedup.last_position, position)
}

/// A message with a position that has been judged has been seen.
pub proof fn lemma_judged_is_seen(
    projection: DebeziumDedupProjection,
    dedup: DedupView,
    row: Seq<DatumView>,
    position: RowCoordinates,
)
    requires
        judge(projection, dedup, row) is Some,
        has_position(projection, dedup, row, position),
    ensures
        seen(projection, judge(projection, dedup, row)->Some_0.0, row, position),
{
    let after = judge(projection, dedup, row)->Some_0.0;
    let again = extract(projection, after.filenames, row)->Some_0;
    assert(again.filenames =~= after.filenames);
}

/// A message that has been seen stays one that has been seen, whatever message comes next.
pub proof fn lemma_seen_stays_seen(
    projection: DebeziumDedupProjection,
    dedup: DedupView,
    row: Seq<DatumView>,
    position: RowCoordinates,
    next: Seq<DatumView>,
)
    requires
        seen(projection, dedup, row, position),
        judge(projection, dedup, next) is Some,
    ensures
        seen(projection, judge(projection, dedup, next)->Some_0.0, row, position),
{
    let after = judge(projection, dedup, next)->Some_0.0;
    let again = extract(projection, after.filenames, row)->Some_0;
    assert(extract(projection, dedup.filenames, row)->Some_0.filenames == dedup.filenames);
    assert(again.filenames =~= after.filenames);
}

/// A message that has been seen is not used, and leaves the last recorded position and the log
/// files as they are.
pub proof fn lemma_seen_is_refused(
    projection: DebeziumDedupProjection,
    dedup: DedupView,
    row: Seq<DatumView>,
    position: RowCoordinates,
)
    requires
        seen(projection, dedup, row, position),
        judge(projection, dedup, row) is Some,
    ensures
        judge(projection, dedup, row)->Some_0.1 == Ok::<bool, Seq<char>>(false),
        judge(projection, dedup, row)->Some_0.0 == (DedupView {
            messages_processed: (dedup.messages_processed + 1) as u64,
            ..dedup
        }),
{
}

proof fn lemma_seen_through(
    projection: DebeziumDedupProjection,
    dedup: DedupView,
    row: Seq<DatumView>,
    position: RowCoordinates,
    between: Seq<Seq<DatumView>>,
)
    requires
        seen(projection, dedup, row, position),
        judge_all(projection, dedup, between) is Some,
    ensures
        seen(projection, judge_all(projection, dedup, between)->Some_0, row, position),
    decreases between.len(),
{
    if between.len() > 0 {
        lemma_seen_through(projection, dedup, row, position, between.drop_last());
        lemma_seen_stays_seen(
            projection,
            judge_all(projection, dedup, between.drop_last())->Some_0,
            row,
            position,
            between.last(),
        );
    }
}

/// A message that is replayed is refused, whatever messages came in between.
pub proof fn lemma_replay_is_refused(
    projection: DebeziumDedupProjection,
    dedup: DedupView,
    row: Seq<DatumView>,
    position: RowCoordinates,
    between: Seq<Seq<DatumView>>,
)
    requires
        has_position(projection, dedup, row, position),
        judge_all(projection, dedup, (seq![row] + between).push(row)) is Some,
    ensures
        judge(
            projection,
            judge_all(projection, dedup, seq![row] + between)->Some_0,
            row,
        )->Some_0.1 == Ok::<bool, Seq<char>>(false),
{
    let rows = seq![row] + between;
    assert(rows.push(row).drop_last() =~= rows);
    lemma_judge_all_from(projection, dedup, row, between);
    lemma_judged_is_seen(projection, dedup, row, position);
    let after = judge(projection, dedup, row)->Some_0.0;
    lemma_seen_through(projection, after, row, position, between);
    lemma_seen_is_refused(
        projection,
        judge_all(projection, after, between)->Some_0,
        row,
        position,
    );
}

proof fn lemma_judge_all_from(
    projection: DebeziumDedupProjection,
    dedup: DedupView,
    first: Seq<DatumView>,
    rest: Seq<Seq<DatumView>>,
)
    ensures
        judge_all(projection, dedup, seq![first] + rest) == match judge(projection, dedup, first) {
            Some((after, _)) => judge_all(projection, after, rest),
            None => None,
        },
    decreases rest.len(),
{
    let rows = seq![first] + rest;
    if rest.len() == 0 {
        assert(rows.drop_last() =~= Seq::empty());
        assert(rows.last() == first);
        assert(judge_all(projection, dedup, rows.drop_last()) == Some(dedup));
    } else {
        lemma_judge_all_from(projection, dedup, first, rest.drop_last());
        assert(rows.drop_last() =~= seq![first] + rest.drop_last());
        assert(rows.last() == rest.last());
    }
}

/// Whether a position is the last recorded one, or comes before it.
spec fn reached(dedup: DedupView, position: RowCoordinates) -> bool {
    dedup.last_position matches Some(last) && (last == position || precedes(position, last))
}

proof fn lemma_stays_reached(
    projection: DebeziumDedupProjection,
    dedup: DedupView,
    position: RowCoordinates,
    between: Seq<Seq<DatumView>>,
)
    requires
        reached(dedup, position),
        judge_all(projection, dedup, between) is Some,
    ensures
        reached(judge_all(projection, dedup, between)->Some_0, position),
    decreases between.len(),
{
    if between.len() > 0 {
        lemma_stays_reached(projection, dedup, position, between.drop_last());
    }
}

/// The positions of messages that are used by them strictly increase, whatever messages come in
/// between.
pub proof fn lemma_used_positions_increase(
    projection: DebeziumDedupProjection,
    dedup: DedupView,
    first: Seq<DatumView>,
    first_position: RowCoordinates,
    between: Seq<Seq<DatumView>>,
    last: Seq<DatumView>,
    last_position: RowCoordinates,
)
    requires
        used_at(projection, dedup, first, first_position),
        judge_all(projection, dedup, seq![first] + between) is Some,
        used_at(
            projection,
            judge_all(projection, dedup, seq![first] + between)->Some_0,
            last,
            last_position,
        ),
    ensures
        precedes(first_position, last_position),
{
    lemma_judge_all_from(projection, dedup, first, between);
    lemma_stays_reached(
        projection,
        judge(projection, dedup, first)->Some_0.0,
        first_position,
        between,
    );
}

/// Whether log files are numbered from 0, without a gap, and no two share a number.
pub open spec fn numbered(filenames: Map<Seq<char>, i64>) -> bool {
    &&& filenames.dom().finite()
    &&& forall|name: Seq<char>| #[trigger]
        filenames.contains_key(name) ==> 0 <= filenames[name] < filenames.len()
    &&& forall|a: Seq<char>, b: Seq<char>|
        #![trigger filenames.contains_key(a), filenames.contains_key(b)]
        filenames.contains_key(a) && filenames.contains_key(b) && filenames[a] == filenames[b] ==> a
            == b
    &&& forall|i: int| 0 <= i < filenames.len() ==> #[trigger] is_number(filenames, i)
}

/// Whether some log file has a number.
pub open spec fn is_number(filenames: Map<Seq<char>, i64>, i: int) -> bool {
    exists|name: Seq<char>| #[trigger] filenames.contains_key(name) && filenames[name] == i
}

/// A message numbers at most one log file, with the count of those that had a number before.
pub proof fn lemma_new_file_gets_count(
    projection: DebeziumDedupProjection,
    dedup: DedupView,
    row: Seq<DatumView>,
    name: Seq<char>,
)
    requires
        judge(projection, dedup, row) is Some,
        judge(projection, dedup, row)->Some_0.0.filenames.contains_key(name),
        !dedup.filenames.contains_key(name),
    ensures
        judge(projection, dedup, row)->Some_0.0.filenames == dedup.filenames.insert(
            name,
            dedup.filenames.len() as i64,
        ),
{
}

proof fn lemma_stays_numbered(
    projection: DebeziumDedupProjection,
    dedup: DedupView,
    row: Seq<DatumView>,
)
    requires
        judge(projection, dedup, row) is Some,
        numbered(dedup.filenames),
        dedup.filenames.len() < i64::MAX,
    ensures
        numbered(judge(projection, dedup, row)->Some_0.0.filenames),
        judge(projection, dedup, row)->Some_0.0.filenames.len() <= dedup.filenames.len() + 1,
{
    let before = dedup.filenames;
    let after = judge(projection, dedup, row)->Some_0.0.filenames;
    if exists|name: Seq<char>| after.contains_key(name) && !before.contains_key(name) {
        let name = choose|name: Seq<char>| after.contains_key(name) && !before.contains_key(name);
        lemma_new_file_gets_count(projection, dedup, row, name);
        assert(after.dom() =~= before.dom().insert(name));
        assert forall|i: int| 0 <= i < after.len() implies #[trigger] is_number(after, i) by {
            if i < before.len() {
                assert(is_number(before, i));
                let other = choose|other: Seq<char>| #[trigger]
                    before.contains_key(other) && before[other] == i;
                assert(after.contains_key(other) && after[other] == i);
            } else {
                assert(after.contains_key(name) && after[name] == i);
            }
        }
    } else {
        assert(after =~= before);
    }
}

/// From the first message on, log files are numbered in the order of their first appearance: from
/// 0, without a gap, and no two share a number.
pub proof fn lemma_files_are_numbered(
    projection: DebeziumDedupProjection,
    rows: Seq<Seq<DatumView>>,
)
    requires
        judge_all(projection, fresh_dedup(), rows) is Some,
        rows.len() <= i64::MAX,
    ensures
        numbered(judge_all(projection, fresh_dedup(), rows)->Some_0.filenames),
        judge_all(projection, fresh_dedup(), rows)->Some_0.filenames.len() <= rows.len(),
    decreases rows.len(),
{
    if rows.len() > 0 {
        lemma_files_are_numbered(projection, rows.drop_last());
        lemma_stays_numbered(
            projection,
            judge_all(projection, fresh_dedup(), rows.drop_last())->Some_0,
            rows.last(),
        );
    }
}

} // verus!
