//! What holds of the statistics of queries.
use vstd::prelude::*;

use super::report::{first_field, no_stat, noted, QueryPerfStat};
use crate::query::item::{field_of, ItemView};

verus! {

/// No query took longer than the longest, and no more queries failed than there were.
pub open spec fn consistent(s: QueryPerfStat) -> bool {
    s.errors <= s.count && s.total_ms <= s.count * s.max_ms
}

/// Statistics begin consistent, and stay so with every query. The query is counted once, its time is
/// added, it is the longest where none was longer, and it counts as failed where it failed.
pub proof fn statistics_stay_consistent(s: QueryPerfStat, elapsed_ms: u64, is_error: bool)
    requires
        s.count < u64::MAX,
        s.total_ms + elapsed_ms <= u64::MAX,
        s.errors < u64::MAX,
    ensures
        consistent(no_stat()),
        consistent(s) ==> consistent(noted(s, elapsed_ms, is_error)),
        noted(s, elapsed_ms, is_error).count == s.count + 1,
        noted(s, elapsed_ms, is_error).total_ms - s.total_ms == elapsed_ms,
        noted(s, elapsed_ms, is_error).max_ms >= s.max_ms,
        noted(s, elapsed_ms, is_error).max_ms >= elapsed_ms,
        noted(s, elapsed_ms, is_error).max_ms == s.max_ms || noted(s, elapsed_ms, is_error).max_ms
            == elapsed_ms,
        noted(s, elapsed_ms, true).errors == s.errors + 1,
        noted(s, elapsed_ms, false).errors == s.errors,
{
    let r = noted(s, elapsed_ms, is_error);
    let count = s.count as int;
    let old_max = s.max_ms as int;
    let new_max = r.max_ms as int;
    assert(count * old_max + elapsed_ms <= (count + 1) * new_max) by (nonlinear_arith)
        requires
            0 <= count,
            old_max <= new_max,
            elapsed_ms <= new_max,
    ;
}

/// The field under the first name counts before those under the second and the third.
pub proof fn first_names_count_first(item: ItemView, a: Seq<char>, b: Seq<char>, c: Seq<char>)
    ensures
        field_of(item, a) is Some ==> first_field(item, a, b, c) == field_of(item, a),
        field_of(item, a) is None && field_of(item, b) is Some ==> first_field(item, a, b, c)
            == field_of(item, b),
        field_of(item, a) is None && field_of(item, b) is None ==> first_field(item, a, b, c)
            == field_of(item, c),
{
}

} // verus!
