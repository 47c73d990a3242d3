//! The key-value rows of the cells, and what a put, a delete and a listing are to
//! them.

use vstd::prelude::*;

use crate::storage::kv;
use crate::storage::kv::ListQuery;
use crate::storage::values;
use crate::storage::values::Column;
use crate::storage::values::StoredValue;
use crate::text;

verus! {

/// The row under a key of a scope.
pub open spec fn row(
    table: Map<(Seq<char>, Seq<char>), Column>,
    scope: Seq<char>,
    key: Seq<char>,
) -> Option<Column> {
    if table.dom().contains((scope, key)) {
        Some(table[(scope, key)])
    } else {
        None
    }
}

/// The rows after a put: an upsert by scope and key.
pub open spec fn after_put(
    table: Map<(Seq<char>, Seq<char>), Column>,
    scope: Seq<char>,
    key: Seq<char>,
    column: Column,
) -> Map<(Seq<char>, Seq<char>), Column> {
    table.insert((scope, key), column)
}

/// The rows after a delete.
pub open spec fn after_delete(
    table: Map<(Seq<char>, Seq<char>), Column>,
    scope: Seq<char>,
    key: Seq<char>,
) -> Map<(Seq<char>, Seq<char>), Column> {
    table.remove((scope, key))
}

/// A put is read back. A text that was put is the text of its key, and a structured
/// clone is its key's stored value, whatever was there before; no other key changes,
/// of this cell or another. A key that was deleted has no value.
pub proof fn law_put_is_read_back(
    table: Map<(Seq<char>, Seq<char>), Column>,
    scope: Seq<char>,
    key: Seq<char>,
    column: Column,
    real_text: Seq<char>,
)
    ensures
        ({
            let now = row(after_put(table, scope, key, column), scope, key);
            &&& now == Some(column)
            &&& forall|text: Seq<char>|
                column matches Column::Text(bytes) && bytes@ == #[trigger] vstd::utf8::encode_utf8(
                    text,
                ) ==> kv::text_of(now) == Some(text) && forall|value: StoredValue| #[trigger]
                    values::is_stored(column, real_text, value) ==> (
                    value matches StoredValue::LegacyJson(s) && s@ == text)
            &&& column matches Column::Blob(bytes) ==> kv::text_of(now) is None && forall|
                value: StoredValue,
            | #[trigger]
                values::is_stored(column, real_text, value) ==> value == StoredValue::V8(bytes)
        }),
        row(after_delete(table, scope, key), scope, key) is None,
        kv::text_of(None) is None,
        forall|s: Seq<char>, k: Seq<char>|
            (s, k) != (scope, key) ==> {
                &&& #[trigger] row(after_put(table, scope, key, column), s, k) == row(table, s, k)
                &&& row(after_delete(table, scope, key), s, k) == row(table, s, k)
            },
{
    broadcast use vstd::utf8::encode_utf8_decode_utf8;
    broadcast use vstd::utf8::encode_utf8_valid_utf8;

    assert forall|text: Seq<char>|
        column matches Column::Text(bytes) && bytes@ == #[trigger] vstd::utf8::encode_utf8(
            text,
        ) implies kv::text_of(Some(column)) == Some(text) && forall|value: StoredValue| #[trigger]
        values::is_stored(column, real_text, value) ==> (value matches StoredValue::LegacyJson(s)
            && s@ == text) by {
        assert forall|value: StoredValue| #[trigger]
            values::is_stored(column, real_text, value) implies (
        value matches StoredValue::LegacyJson(s) && s@ == text) by {
            let s = value->LegacyJson_0@;
            assert(vstd::utf8::encode_utf8(s) == vstd::utf8::encode_utf8(text));
            assert(vstd::utf8::decode_utf8(vstd::utf8::encode_utf8(s)) == s);
        }
    }
}

/// The entries that a listing gives of a cell's, which are in storage order: those
/// that meet its conditions, in its direction, up to its limit.
pub open spec fn listed(entries: Seq<(Seq<char>, Column)>, query: ListQuery) -> Seq<
    (Seq<char>, Column),
> {
    let met = entries.filter(|e: (Seq<char>, Column)| kv::meets_all(e.0, query.bounds@));
    let ordered = if query.reverse {
        met.reverse()
    } else {
        met
    };
    if query.limit < ordered.len() {
        ordered.take(query.limit as int)
    } else {
        ordered
    }
}

/// Whether a query is the listing of a half-open key range.
pub open spec fn lists_range(
    query: ListQuery,
    begin: Option<&str>,
    end: Option<&str>,
    limit: Option<usize>,
    reverse: bool,
) -> bool {
    &&& forall|key: Seq<char>| #[trigger]
        kv::meets_all(key, query.bounds@) == kv::selects(key, begin, end, None, None)
    &&& query.reverse == reverse
    &&& query.limit == kv::list_limit(limit)
}

/// The first entries, at most so many.
pub open spec fn first_entries(entries: Seq<(Seq<char>, Column)>, limit: Option<usize>) -> Seq<
    (Seq<char>, Column),
> {
    match limit {
        Some(n) => if n < entries.len() {
            entries.take(n as int)
        } else {
            entries
        },
        None => entries,
    }
}

/// A limited listing gives the first entries of the full one, and a reversed listing
/// those of the full one reversed. The full one gives exactly the stored keys of the
/// range: its begin where that is stored, and never its end.
pub proof fn law_listing_is_part_of_the_full_one(
    entries: Seq<(Seq<char>, Column)>,
    full: ListQuery,
    query: ListQuery,
    begin: Option<&str>,
    end: Option<&str>,
    limit: Option<usize>,
    reverse: bool,
)
    requires
        entries.len() <= kv::list_limit(None),
        lists_range(full, begin, end, None, false),
        lists_range(query, begin, end, limit, reverse),
    ensures
        listed(entries, query) == first_entries(
            if reverse {
                listed(entries, full).reverse()
            } else {
                listed(entries, full)
            },
            limit,
        ),
        forall|e: (Seq<char>, Column)| #[trigger]
            listed(entries, full).contains(e) <==> entries.contains(e) && kv::selects(
                e.0,
                begin,
                end,
                None,
                None,
            ),
        end matches Some(end) ==> forall|e: (Seq<char>, Column)| #[trigger]
            listed(entries, full).contains(e) ==> e.0 != end@,
        forall|e: (Seq<char>, Column)|
            #![trigger entries.contains(e)]
            entries.contains(e) && (begin matches Some(begin) && e.0 == begin@) && (
            end matches Some(end) ==> text::text_lt(e.0, end@)) ==> listed(
                entries,
                full,
            ).contains(e),
{
    let a = |e: (Seq<char>, Column)| kv::meets_all(e.0, full.bounds@);
    let b = |e: (Seq<char>, Column)| kv::meets_all(e.0, query.bounds@);
    assert forall|e: (Seq<char>, Column)| #[trigger] a(e) == b(e) by {
        assert(kv::meets_all(e.0, full.bounds@) == kv::selects(e.0, begin, end, None, None));
        assert(kv::meets_all(e.0, query.bounds@) == kv::selects(e.0, begin, end, None, None));
    }
    assert(a =~= b);
    let met = entries.filter(a);
    entries.lemma_filter_len(a);
    assert(listed(entries, full) == met);
    assert forall|e: (Seq<char>, Column)| #[trigger] met.contains(e) <==> entries.contains(e)
        && kv::selects(e.0, begin, end, None, None) by {
        assert(kv::meets_all(e.0, full.bounds@) == kv::selects(e.0, begin, end, None, None));
        if met.contains(e) {
            let i = choose|i: int| 0 <= i < met.len() && met[i] == e;
            entries.lemma_filter_pred(a, i);
            entries.lemma_filter_contains_rev(a, e);
        }
        if entries.contains(e) && a(e) {
            let i = choose|i: int| 0 <= i < entries.len() && entries[i] == e;
            entries.lemma_filter_contains(a, i);
        }
    }
    if end is Some {
        text::lemma_text_order_total(end->0@, end->0@);
    }
}

/// The rows that a listing gives come in the order that its SQL names: where the text
/// orders descending, each key is above the next, and where it orders ascending, below.
/// Of the rows that meet its conditions it gives the first ones in that order, as many
/// as the limit lets it.
pub proof fn law_rows_come_in_the_texts_order(
    entries: Seq<(Seq<char>, Column)>,
    query: ListQuery,
    e: (Seq<char>, Column),
)
    requires
        forall|i: int, j: int|
            0 <= i < j < entries.len() ==> text::text_lt(
                (#[trigger] entries[i]).0,
                (#[trigger] entries[j]).0,
            ),
        query.limit >= 0,
    ensures
        ({
            let rows = listed(entries, query);
            let descending = text::ends_in(query.text(), " ORDER BY k DESC LIMIT ?"@);
            let before = |a: Seq<char>, b: Seq<char>|
                if descending {
                    text::text_lt(b, a)
                } else {
                    text::text_lt(a, b)
                };
            &&& rows.len() <= query.limit
            &&& forall|i: int, j: int|
                0 <= i < j < rows.len() ==> before(
                    (#[trigger] rows[i]).0,
                    (#[trigger] rows[j]).0,
                )
            &&& rows.contains(e) ==> entries.contains(e) && kv::meets_all(e.0, query.bounds@)
            &&& entries.contains(e) && kv::meets_all(e.0, query.bounds@) && !rows.contains(e)
                ==> rows.len() == query.limit && forall|i: int|
                0 <= i < rows.len() ==> before((#[trigger] rows[i]).0, e.0)
        }),
{
    kv::law_listing_text_names_its_direction(query);
    let a = |e: (Seq<char>, Column)| kv::meets_all(e.0, query.bounds@);
    let met = entries.filter(a);
    lemma_filter_in_order(entries, a);
    let ordered = if query.reverse {
        met.reverse()
    } else {
        met
    };
    let rows = listed(entries, query);
    assert forall|i: int, j: int| 0 <= i < j < rows.len() implies if query.reverse {
        text::text_lt((#[trigger] rows[j]).0, (#[trigger] rows[i]).0)
    } else {
        text::text_lt(rows[i].0, rows[j].0)
    } by {
        assert(rows[i] == ordered[i] && rows[j] == ordered[j]);
        if query.reverse {
            assert(ordered[i] == met[met.len() - 1 - i]);
            assert(ordered[j] == met[met.len() - 1 - j]);
        }
    }
    if rows.contains(e) {
        let i = choose|i: int| 0 <= i < rows.len() && rows[i] == e;
        assert(ordered[i] == e);
        let k = if query.reverse {
            met.len() - 1 - i
        } else {
            i
        };
        assert(met[k] == e);
        entries.lemma_filter_pred(a, k);
        entries.lemma_filter_contains_rev(a, e);
    }
    if entries.contains(e) && kv::meets_all(e.0, query.bounds@) && !rows.contains(e) {
        let n = choose|n: int| 0 <= n < entries.len() && entries[n] == e;
        entries.lemma_filter_contains(a, n);
        let k = choose|k: int| 0 <= k < met.len() && met[k] == e;
        let place = if query.reverse {
            met.len() - 1 - k
        } else {
            k
        };
        assert(ordered[place] == e);
        if place < rows.len() {
            assert(rows[place] == e);
            assert(rows.contains(e));
        }
        assert forall|i: int| 0 <= i < rows.len() implies if query.reverse {
            text::text_lt(e.0, (#[trigger] rows[i]).0)
        } else {
            text::text_lt(rows[i].0, e.0)
        } by {
            assert(rows[i] == ordered[i]);
            if query.reverse {
                assert(ordered[i] == met[met.len() - 1 - i]);
            }
        }
    }
}

/// A part of entries that are in order is in order.
proof fn lemma_filter_in_order(
    entries: Seq<(Seq<char>, Column)>,
    a: spec_fn((Seq<char>, Column)) -> bool,
)
    requires
        forall|i: int, j: int|
            0 <= i < j < entries.len() ==> text::text_lt(
                (#[trigger] entries[i]).0,
                (#[trigger] entries[j]).0,
            ),
    ensures
        forall|i: int, j: int|
            0 <= i < j < entries.filter(a).len() ==> text::text_lt(
                (#[trigger] entries.filter(a)[i]).0,
                (#[trigger] entries.filter(a)[j]).0,
            ),
    decreases entries.len(),
{
    reveal(Seq::filter);
    if entries.len() > 0 {
        let front = entries.drop_last();
        assert forall|i: int, j: int| 0 <= i < j < front.len() implies text::text_lt(
            (#[trigger] front[i]).0,
            (#[trigger] front[j]).0,
        ) by {
            assert(front[i] == entries[i] && front[j] == entries[j]);
        }
        lemma_filter_in_order(front, a);
        let met = entries.filter(a);
        let met_front = front.filter(a);
        assert forall|i: int, j: int| 0 <= i < j < met.len() implies text::text_lt(
            (#[trigger] met[i]).0,
            (#[trigger] met[j]).0,
        ) by {
            assert(met[i] == met_front[i]);
            if j < met_front.len() {
                assert(met[j] == met_front[j]);
            } else {
                assert(met[j] == entries.last());
                front.lemma_filter_contains_rev(a, met_front[i]);
                let n = choose|n: int| 0 <= n < front.len() && front[n] == met_front[i];
                assert(entries[n] == met_front[i]);
                assert(entries[entries.len() - 1] == entries.last());
            }
        }
    }
}

} // verus!
