//! The key-value surface of a cell: key ranges, batches and reads.
//!
//! Keys sort by their UTF-8 bytes, which is the order of their characters.

use vstd::prelude::*;

use crate::storage::cells;
use crate::storage::cells::Cells;
use crate::storage::values;
use crate::storage::values::Column;
use crate::storage::values::SqlValue;
use crate::storage::values::StoredValue;
use crate::text;

verus! {

/// `char::from_u32` gives the character of every code point but the surrogates
/// and those above the last one.
pub assume_specification[ char::from_u32 ](code: u32) -> (c: Option<char>)
    ensures
        match c {
            Some(c) => c as u32 == code,
            None => 0xD800 <= code <= 0xDFFF || code > 0x10_FFFF,
        },
;

/// The last character of all.
pub open spec fn last_char() -> char {
    '\u{10FFFF}'
}

/// Whether `next` is the character right after `c`. The surrogates between
/// them, if any, are no characters.
pub open spec fn successor(c: char, next: char) -> bool {
    next as int == c as int + 1 || (c as int == 0xD7FF && next as int == 0xE000)
}

/// A character is a code point other than a surrogate.
proof fn lemma_char(c: char)
    ensures
        0 <= c as int <= 0x10_FFFF,
        !(0xD800 <= c as int <= 0xDFFF),
        c as u32 == c as int,
{
}

/// Whether a string is above every string with a prefix.
pub open spec fn above_prefix(s: Seq<char>, prefix: Seq<char>) -> bool {
    forall|t: Seq<char>| text::begins_with(t, prefix) ==> #[trigger] text::text_lt(t, s)
}

/// A string that agrees with `p` below `from`, where the rest of `p` is the last
/// character only, begins with `p` or is below it.
proof fn lemma_all_last(t: Seq<char>, p: Seq<char>, from: int)
    requires
        0 <= from <= p.len(),
        from <= t.len(),
        forall|j: int| 0 <= j < from ==> t[j] == p[j],
        forall|j: int| from <= j < p.len() ==> p[j] == last_char(),
    ensures
        text::begins_with(t, p) || text::text_lt(t, p),
    decreases p.len() - from,
{
    if from == p.len() {
        assert(t.subrange(0, p.len() as int) =~= p);
    } else if from == t.len() {
        assert(text::below_at(t, p, from));
    } else if t[from] == p[from] {
        lemma_all_last(t, p, from + 1);
    } else {
        lemma_char(t[from]);
        assert(text::below_at(t, p, from));
    }
}

/// The bound that replaces a prefix's character at `at` by its successor, where
/// only the last character follows, is the least one.
proof fn lemma_bound(prefix: Seq<char>, at: int, next: char)
    requires
        0 <= at < prefix.len(),
        forall|j: int| at < j < prefix.len() ==> prefix[j] == last_char(),
        successor(prefix[at], next),
    ensures
        above_prefix(prefix.take(at).push(next), prefix),
        forall|t: Seq<char>|
            above_prefix(t, prefix) ==> #[trigger] text::text_le(prefix.take(at).push(next), t),
{
    let bound = prefix.take(at).push(next);
    assert forall|t: Seq<char>| text::begins_with(t, prefix) implies #[trigger] text::text_lt(
        t,
        bound,
    ) by {
        assert forall|j: int| 0 <= j <= at implies t[j] == prefix[j] by {
            assert(t.subrange(0, prefix.len() as int)[j] == prefix[j]);
        }
        assert(text::below_at(t, bound, at));
    }
    assert forall|t: Seq<char>| above_prefix(t, prefix) implies #[trigger] text::text_le(bound, t) by {
        text::lemma_text_order_total(bound, t);
        if text::text_lt(t, bound) {
            assert(prefix.subrange(0, prefix.len() as int) =~= prefix);
            assert(text::begins_with(prefix, prefix));
            assert(text::text_lt(prefix, t));
            text::lemma_text_order_total(prefix, t);
            let i = choose|i: int| text::below_at(t, bound, i);
            if i < at {
                assert(text::below_at(t, prefix, i));
                assert(text::text_lt(t, prefix));
            } else {
                assert(i == at);
                if t.len() > at {
                    lemma_char(t[at]);
                }
                if t.len() == at || t[at] < prefix[at] {
                    assert(text::below_at(t, prefix, at));
                    assert(text::text_lt(t, prefix));
                } else {
                    assert(t[at] == prefix[at]);
                    lemma_all_last(t, prefix, at + 1);
                    if text::begins_with(t, prefix) {
                        assert(text::text_lt(t, t));
                        text::lemma_text_order_total(t, t);
                    }
                }
            }
        }
    }
}

/// Nothing is above every string whose prefix is the last character only.
proof fn lemma_no_bound(prefix: Seq<char>, t: Seq<char>)
    requires
        forall|j: int| 0 <= j < prefix.len() ==> prefix[j] == last_char(),
    ensures
        !above_prefix(t, prefix),
{
    lemma_all_last(t, prefix, 0);
    if above_prefix(t, prefix) {
        assert(prefix.subrange(0, prefix.len() as int) =~= prefix);
        assert(text::begins_with(prefix, prefix));
        assert(text::text_lt(prefix, t));
        text::lemma_text_order_total(prefix, t);
        if text::begins_with(t, prefix) {
            assert(text::text_lt(t, t));
            text::lemma_text_order_total(t, t);
        }
    }
}

/// The character after `c`; the last one has none.
fn next_char(c: char) -> (next: Option<char>)
    ensures
        match next {
            Some(next) => successor(c, next),
            None => c == last_char(),
        },
{
    proof {
        lemma_char(c);
    }
    let mut code: u32 = c as u32 + 1;
    while code <= 0x10_FFFF
        invariant
            c as u32 + 1 <= code <= 0x11_0000,
            code > c as u32 + 1 ==> c as u32 == 0xD7FF && code <= 0xE000,
        decreases 0x11_0000 - code,
    {
        match char::from_u32(code) {
            Some(next) => {
                proof {
                    lemma_char(next);
                    lemma_char(c);
                }
                return Some(next);
            },
            None => {
                proof {
                    lemma_char(c);
                }
            },
        }
        code = code + 1;
    }
    None
}

/// The smallest string strictly above every string that begins with `prefix`.
/// Where the prefix is the last character only, there is none.
pub fn prefix_upper_bound(prefix: &str) -> (bound: Option<String>)
    ensures
        match bound {
            Some(bound) => {
                &&& above_prefix(bound@, prefix@)
                &&& forall|t: Seq<char>|
                    above_prefix(t, prefix@) ==> #[trigger] text::text_le(bound@, t)
            },
            None => forall|t: Seq<char>| !#[trigger] above_prefix(t, prefix@),
        },
{
    let chars = text::chars_of(prefix);
    let mut i: usize = chars.len();
    while i > 0
        invariant
            i <= chars@.len(),
            chars@ == prefix@,
            forall|j: int| i <= j < chars@.len() ==> chars@[j] == last_char(),
        decreases i,
    {
        i = i - 1;
        match next_char(chars[i]) {
            Some(next) => {
                let mut bound = text::cut(&chars, 0, i);
                bound.push(next);
                proof {
                    lemma_bound(prefix@, i as int, next);
                    assert(bound@ =~= prefix@.take(i as int).push(next));
                }
                return Some(text::string_of(&bound));
            },
            None => {},
        }
    }
    proof {
        assert forall|t: Seq<char>| !#[trigger] above_prefix(t, prefix@) by {
            lemma_no_bound(prefix@, t);
        }
    }
    None
}

/// A condition on a key.
#[derive(PartialEq, Eq, Structural, Clone, Copy)]
pub enum Bound {
    AtLeast,
    Above,
    Below,
}

/// Whether a key meets a condition.
pub open spec fn meets(key: Seq<char>, bound: Bound, value: Seq<char>) -> bool {
    match bound {
        Bound::AtLeast => text::text_le(value, key),
        Bound::Above => text::text_lt(value, key),
        Bound::Below => text::text_lt(key, value),
    }
}

/// The SQL of a condition.
pub open spec fn bound_sql(bound: Bound) -> Seq<char> {
    match bound {
        Bound::AtLeast => " AND k>=?"@,
        Bound::Above => " AND k>?"@,
        Bound::Below => " AND k<?"@,
    }
}

/// A listing: its conditions, its direction and its limit.
pub struct ListQuery {
    pub bounds: Vec<(Bound, String)>,
    pub reverse: bool,
    pub limit: i64,
}

/// Whether a key meets every condition.
pub open spec fn meets_all(key: Seq<char>, bounds: Seq<(Bound, String)>) -> bool {
    forall|i: int|
        0 <= i < bounds.len() ==> meets(key, (#[trigger] bounds[i]).0, bounds[i].1@)
}

/// Whether an application's listing selects a key.
pub open spec fn selects(
    key: Seq<char>,
    begin: Option<&str>,
    end: Option<&str>,
    start_after: Option<&str>,
    prefix: Option<&str>,
) -> bool {
    &&& begin matches Some(begin) ==> text::text_le(begin@, key)
    &&& start_after matches Some(start_after) ==> text::text_lt(start_after@, key)
    &&& end matches Some(end) ==> text::text_lt(key, end@)
    &&& prefix matches Some(prefix) ==> text::begins_with(key, prefix@)
}

/// A string that does not begin with `prefix`, and is not below it, is above
/// every string that does.
proof fn lemma_above_or_prefix(key: Seq<char>, prefix: Seq<char>)
    ensures
        text::begins_with(key, prefix) ==> text::text_le(prefix, key),
        text::text_le(prefix, key) && !text::begins_with(key, prefix) ==> above_prefix(key, prefix),
{
    if text::begins_with(key, prefix) {
        if key.len() > prefix.len() {
            assert forall|j: int| 0 <= j < prefix.len() implies prefix[j] == key[j] by {
                assert(key.subrange(0, prefix.len() as int)[j] == prefix[j]);
            }
            assert(text::below_at(prefix, key, prefix.len() as int));
        } else {
            assert(key.subrange(0, prefix.len() as int) =~= key);
        }
    } else if text::text_le(prefix, key) {
        if key == prefix {
            assert(key.subrange(0, prefix.len() as int) =~= prefix);
        } else {
            let i = choose|i: int| text::below_at(prefix, key, i);
            if i == prefix.len() {
                assert(key.subrange(0, prefix.len() as int) =~= prefix);
            } else {
                assert forall|t: Seq<char>|
                    text::begins_with(t, prefix) implies #[trigger] text::text_lt(t, key) by {
                    assert forall|j: int| 0 <= j <= i implies t[j] == prefix[j] by {
                        assert(t.subrange(0, prefix.len() as int)[j] == prefix[j]);
                    }
                    assert(text::below_at(t, key, i));
                }
            }
        }
    }
}

/// The limit of a listing: what is asked for, as far as SQLite counts; without
/// a limit, as much as a machine word holds.
pub open spec fn list_limit(limit: Option<usize>) -> int {
    let wanted = match limit {
        Some(limit) => limit as int,
        None => usize::MAX as int,
    };
    if wanted > i64::MAX {
        i64::MAX as int
    } else {
        wanted
    }
}

/// The conditions of a listing. A prefix is a range: from the prefix itself up
/// to the smallest string above all that begin with it, if there is one.
pub fn list_query(
    begin: Option<&str>,
    end: Option<&str>,
    start_after: Option<&str>,
    prefix: Option<&str>,
    limit: Option<usize>,
    reverse: bool,
) -> (query: ListQuery)
    ensures
        forall|key: Seq<char>| #[trigger]
            meets_all(key, query.bounds@) == selects(key, begin, end, start_after, prefix),
        query.reverse == reverse,
        query.limit == list_limit(limit),
{
    let mut bounds: Vec<(Bound, String)> = Vec::new();
    match begin {
        Some(begin) => {
            bounds.push((Bound::AtLeast, begin.to_owned()));
        },
        None => {},
    }
    let ghost b1 = bounds@;
    assert(forall|key: Seq<char>| #[trigger]
        meets_all(key, b1) == selects(key, begin, None, None, None)) by {
        assert forall|key: Seq<char>| #[trigger]
            meets_all(key, b1) == selects(key, begin, None, None, None) by {
            if begin is Some {
                assert(b1[0].1@ == begin->0@);
            }
        }
    }
    match start_after {
        Some(start_after) => {
            bounds.push((Bound::Above, start_after.to_owned()));
        },
        None => {},
    }
    let ghost b2 = bounds@;
    proof {
        if start_after is Some {
            lemma_push(b1, b2.last());
        }
        assert forall|key: Seq<char>| #[trigger]
            meets_all(key, b2) == selects(key, begin, None, start_after, None) by {
            assert(meets_all(key, b1) == selects(key, begin, None, None, None));
        }
    }
    match end {
        Some(end) => {
            bounds.push((Bound::Below, end.to_owned()));
        },
        None => {},
    }
    let ghost b3 = bounds@;
    proof {
        if end is Some {
            lemma_push(b2, b3.last());
        }
        assert forall|key: Seq<char>| #[trigger]
            meets_all(key, b3) == selects(key, begin, end, start_after, None) by {
            assert(meets_all(key, b2) == selects(key, begin, None, start_after, None));
        }
    }
    match prefix {
        Some(prefix) => {
            bounds.push((Bound::AtLeast, prefix.to_owned()));
            let ghost b4 = bounds@;
            proof {
                lemma_push(b3, b4.last());
            }
            match prefix_upper_bound(prefix) {
                Some(upper) => {
                    bounds.push((Bound::Below, upper));
                    proof {
                        lemma_push(b4, bounds@.last());
                        assert forall|key: Seq<char>|
                            #![trigger text::begins_with(key, prefix@)]
                            text::begins_with(key, prefix@) == (text::text_le(prefix@, key)
                                && text::text_lt(key, upper@)) by {
                            lemma_above_or_prefix(key, prefix@);
                            text::lemma_text_order_total(key, upper@);
                            if above_prefix(key, prefix@) {
                                assert(text::text_le(upper@, key));
                            }
                        }
                    }
                },
                None => {
                    proof {
                        assert forall|key: Seq<char>|
                            #![trigger text::begins_with(key, prefix@)]
                            text::begins_with(key, prefix@) == text::text_le(prefix@, key) by {
                            lemma_above_or_prefix(key, prefix@);
                        }
                    }
                },
            }
            proof {
                let b5 = bounds@;
                assert forall|key: Seq<char>| #[trigger]
                    meets_all(key, b5) == selects(key, begin, end, start_after, Some(prefix)) by {
                    assert(meets_all(key, b3) == selects(key, begin, end, start_after, None));
                    assert(meets_all(key, b4) == (meets_all(key, b3) && text::text_le(
                        prefix@,
                        key,
                    )));
                    assert(text::begins_with(key, prefix@) || !text::begins_with(key, prefix@));
                }
            }
        },
        None => {},
    }
    let wanted: usize = match limit {
        Some(limit) => limit,
        None => usize::MAX,
    };
    let most: u64 = 0x7FFF_FFFF_FFFF_FFFF;
    let capped: i64 = if wanted as u64 > most {
        0x7FFF_FFFF_FFFF_FFFF
    } else {
        wanted as i64
    };
    ListQuery { bounds, reverse, limit: capped }
}

/// A listing of a half-open key range.
pub fn list(
    begin: Option<&str>,
    end: Option<&str>,
    limit: Option<usize>,
    reverse: bool,
) -> (query: ListQuery)
    ensures
        forall|key: Seq<char>| #[trigger]
            meets_all(key, query.bounds@) == selects(key, begin, end, None, None),
        query.reverse == reverse,
        query.limit == list_limit(limit),
{
    list_query(begin, end, None, None, limit, reverse)
}

proof fn lemma_push(bounds: Seq<(Bound, String)>, last: (Bound, String))
    ensures
        forall|key: Seq<char>| #[trigger]
            meets_all(key, bounds.push(last)) == (meets_all(key, bounds) && meets(
                key,
                last.0,
                last.1@,
            )),
{
    assert forall|key: Seq<char>| #[trigger]
        meets_all(key, bounds.push(last)) == (meets_all(key, bounds) && meets(
            key,
            last.0,
            last.1@,
        )) by {
        let all = bounds.push(last);
        if meets_all(key, all) {
            assert forall|i: int| 0 <= i < bounds.len() implies meets(
                key,
                (#[trigger] bounds[i]).0,
                bounds[i].1@,
            ) by {
                assert(all[i] == bounds[i]);
            }
            assert(all[bounds.len() as int] == last);
        }
    }
}

/// The conditions of a listing in SQL.
pub open spec fn bounds_sql(bounds: Seq<(Bound, String)>) -> Seq<char>
    decreases bounds.len(),
{
    if bounds.len() == 0 {
        Seq::empty()
    } else {
        bounds_sql(bounds.drop_last()) + bound_sql(bounds.last().0)
    }
}

impl ListQuery {
    /// The text of a listing: its conditions in order, then its order and limit.
    pub open spec fn text(self) -> Seq<char> {
        "SELECT k,v FROM _cf_KV WHERE scope=?"@ + bounds_sql(self.bounds@) + (if self.reverse {
            " ORDER BY k DESC LIMIT ?"@
        } else {
            " ORDER BY k ASC LIMIT ?"@
        })
    }

    /// The SQL text.
    pub fn sql(&self) -> (sql: String)
        ensures
            sql@ == self.text(),
    {
        let mut sql = "SELECT k,v FROM _cf_KV WHERE scope=?".to_owned();
        let mut i: usize = 0;
        assert(bounds_sql(self.bounds@.take(0)) =~= Seq::<char>::empty());
        assert(sql@ =~= "SELECT k,v FROM _cf_KV WHERE scope=?"@ + bounds_sql(
            self.bounds@.take(0),
        ));
        while i < self.bounds.len()
            invariant
                i <= self.bounds@.len(),
                sql@ == "SELECT k,v FROM _cf_KV WHERE scope=?"@ + bounds_sql(
                    self.bounds@.take(i as int),
                ),
            decreases self.bounds@.len() - i,
        {
            let clause: &'static str = match self.bounds[i].0 {
                Bound::AtLeast => " AND k>=?",
                Bound::Above => " AND k>?",
                Bound::Below => " AND k<?",
            };
            sql = text::concat(&sql, clause);
            i = i + 1;
            assert(self.bounds@.take(i as int).drop_last() =~= self.bounds@.take(i - 1));
            assert(sql@ =~= "SELECT k,v FROM _cf_KV WHERE scope=?"@ + bounds_sql(
                self.bounds@.take(i as int),
            ));
        }
        assert(self.bounds@.take(i as int) =~= self.bounds@);
        text::concat(
            &sql,
            if self.reverse {
                " ORDER BY k DESC LIMIT ?"
            } else {
                " ORDER BY k ASC LIMIT ?"
            },
        )
    }

    /// The values to bind: the scope, the conditions' values in order, the limit.
    pub fn parameters(&self, scope: &str) -> (parameters: Vec<SqlValue>)
        ensures
            parameters@.len() == self.bounds@.len() + 2,
            parameters@[0] matches SqlValue::Text(s) && s@ == scope@,
            forall|i: int|
                0 <= i < self.bounds@.len() ==> (#[trigger] parameters@[i + 1] matches SqlValue::Text(
                    s,
                ) && s@ == self.bounds@[i].1@),
            parameters@.last() == SqlValue::Integer(self.limit),
    {
        let mut parameters: Vec<SqlValue> = Vec::new();
        parameters.push(SqlValue::Text(scope.to_owned()));
        let mut i: usize = 0;
        while i < self.bounds.len()
            invariant
                i <= self.bounds@.len(),
                parameters@.len() == i + 1,
                parameters@[0] matches SqlValue::Text(s) && s@ == scope@,
                forall|j: int|
                    0 <= j < i ==> (#[trigger] parameters@[j + 1] matches SqlValue::Text(s) && s@
                        == self.bounds@[j].1@),
            decreases self.bounds@.len() - i,
        {
            parameters.push(SqlValue::Text(self.bounds[i].1.clone()));
            i = i + 1;
        }
        parameters.push(SqlValue::Integer(self.limit));
        parameters
    }
}

/// A prefix listing selects exactly the keys with that prefix, whatever the
/// prefix ends in.
pub proof fn law_prefix_range_is_exact(key: Seq<char>, prefix: &str, bounds: Seq<(Bound, String)>)
    requires
        forall|k: Seq<char>| #[trigger]
            meets_all(k, bounds) == selects(k, None, None, None, Some(prefix)),
    ensures
        meets_all(key, bounds) <==> text::begins_with(key, prefix@),
{
}

/// Whether keys are in storage order, each once.
pub open spec fn in_order(keys: Seq<String>) -> bool {
    forall|i: int, j: int|
        0 <= i < j < keys.len() ==> text::text_lt((#[trigger] keys[i])@, (#[trigger] keys[j])@)
}

/// Whether two lists hold the same keys.
pub open spec fn same_keys(a: Seq<String>, b: Seq<String>) -> bool {
    forall|key: Seq<char>| #[trigger]
        text::views(a).contains(key) <==> text::views(b).contains(key)
}

fn is_key_before(a: &String, b: &String) -> (answer: bool)
    ensures
        answer == text::text_lt(a@, b@),
{
    text::is_before(&text::chars_of(a), &text::chars_of(b))
}

/// Put a key into a list that is in order; a key that is there already is not
/// put twice.
fn insert_key(keys: &mut Vec<String>, key: &String)
    requires
        in_order(old(keys)@),
    ensures
        in_order(final(keys)@),
        forall|k: Seq<char>| #[trigger]
            text::views(final(keys)@).contains(k) <==> (text::views(old(keys)@).contains(k) || k
                == key@),
{
    let ghost before = keys@;
    let mut at: usize = 0;
    while at < keys.len() && is_key_before(&keys[at], key)
        invariant
            at <= keys@.len(),
            keys@ == before,
            in_order(before),
            forall|j: int| 0 <= j < at ==> text::text_lt((#[trigger] before[j])@, key@),
        decreases keys@.len() - at,
    {
        at = at + 1;
    }
    if at < keys.len() && text::same_text(&keys[at], key) {
        proof {
            assert(text::views(before)[at as int] == key@);
        }
        return ;
    }
    keys.insert(at, key.clone());
    proof {
        let after = keys@;
        if at < before.len() {
            text::lemma_text_order_total(key@, before[at as int]@);
        }
        assert forall|i: int, j: int| 0 <= i < j < after.len() implies text::text_lt(
            (#[trigger] after[i])@,
            (#[trigger] after[j])@,
        ) by {
            if j < at {
                assert(after[i] == before[i] && after[j] == before[j]);
            } else if j == at {
                assert(after[i] == before[i]);
            } else if i < at {
                assert(after[i] == before[i] && after[j] == before[j - 1]);
            } else if i == at {
                assert(after[j] == before[j - 1]);
                if j - 1 > at {
                    text::lemma_text_order_transitive(
                        key@,
                        before[at as int]@,
                        before[j - 1]@,
                    );
                }
            } else {
                assert(after[i] == before[i - 1] && after[j] == before[j - 1]);
            }
        }
        assert forall|k: Seq<char>| #[trigger] text::views(after).contains(k) <==> (text::views(
            before,
        ).contains(k) || k == key@) by {
            if text::views(after).contains(k) {
                let i = choose|i: int| 0 <= i < after.len() && text::views(after)[i] == k;
                if i < at {
                    assert(text::views(before)[i] == k);
                } else if i > at {
                    assert(text::views(before)[i - 1] == k);
                }
            }
            if text::views(before).contains(k) {
                let i = choose|i: int| 0 <= i < before.len() && text::views(before)[i] == k;
                if i < at {
                    assert(text::views(after)[i] == k);
                } else {
                    assert(text::views(after)[i + 1] == k);
                }
            }
            if k == key@ {
                assert(text::views(after)[at as int] == k);
            }
        }
    }
}

/// The keys to fetch for a multi-key read: in storage order, each once.
pub fn wanted_keys(keys: &Vec<String>) -> (sorted: Vec<String>)
    ensures
        in_order(sorted@),
        same_keys(keys@, sorted@),
{
    let mut sorted: Vec<String> = Vec::new();
    let mut i: usize = 0;
    while i < keys.len()
        invariant
            i <= keys@.len(),
            in_order(sorted@),
            same_keys(keys@.take(i as int), sorted@),
        decreases keys@.len() - i,
    {
        let ghost before = sorted@;
        insert_key(&mut sorted, &keys[i]);
        proof {
            let now = keys@.take(i + 1);
            let was = keys@.take(i as int);
            assert(text::views(now) =~= text::views(was).push(keys@[i as int]@));
            assert forall|k: Seq<char>| #[trigger] text::views(now).contains(k) <==> text::views(
                sorted@,
            ).contains(k) by {
                assert(text::views(was).contains(k) <==> text::views(before).contains(k));
                if text::views(now).contains(k) {
                    let m = choose|m: int| 0 <= m < now.len() && text::views(now)[m] == k;
                    if m < i {
                        assert(text::views(was)[m] == k);
                    }
                }
                if text::views(was).contains(k) {
                    let m = choose|m: int| 0 <= m < was.len() && text::views(was)[m] == k;
                    assert(text::views(now)[m] == k);
                }
                assert(text::views(now)[i as int] == keys@[i as int]@);
            }
        }
        i = i + 1;
    }
    assert(keys@.take(i as int) =~= keys@);
    sorted
}

/// The refusal to read a structured-clone value as JSON.
pub const NOT_LEGACY_JSON: &'static str = "structured-clone value cannot be read as legacy JSON";

/// The JSON texts of stored values, in their order; a structured-clone value
/// refuses them all.
pub fn list_with_options(values: Vec<(String, StoredValue)>) -> (result: Result<
    Vec<(String, String)>,
    &'static str,
>)
    ensures
        match result {
            Ok(texts) => {
                &&& texts@.len() == values@.len()
                &&& forall|i: int|
                    #![trigger texts@[i]]
                    0 <= i < values@.len() ==> texts@[i].0@ == values@[i].0@ && (
                    values@[i].1 matches StoredValue::LegacyJson(s) && texts@[i].1@ == s@)
            },
            Err(message) => message@ == NOT_LEGACY_JSON@ && exists|i: int|
                0 <= i < values@.len() && (#[trigger] values@[i]).1 is V8,
        },
{
    let mut texts: Vec<(String, String)> = Vec::new();
    let mut i: usize = 0;
    while i < values.len()
        invariant
            i <= values@.len(),
            texts@.len() == i,
            forall|j: int|
                #![trigger texts@[j]]
                0 <= j < i ==> texts@[j].0@ == values@[j].0@ && (
                values@[j].1 matches StoredValue::LegacyJson(s) && texts@[j].1@ == s@),
        decreases values@.len() - i,
    {
        match &values[i].1 {
            StoredValue::LegacyJson(s) => {
                texts.push((values[i].0.clone(), s.clone()));
            },
            StoredValue::V8(_) => {
                return Err(NOT_LEGACY_JSON);
            },
        }
        i = i + 1;
    }
    Ok(texts)
}

/// The keys that were found, with what they hold, in the order of the keys.
pub open spec fn found(keys: Seq<String>, rows: Seq<Option<StoredValue>>) -> Seq<
    (Seq<char>, StoredValue),
>
    decreases keys.len(),
{
    if keys.len() == 0 || rows.len() != keys.len() {
        Seq::empty()
    } else {
        let before = found(keys.drop_last(), rows.drop_last());
        match rows.last() {
            Some(value) => before.push((keys.last()@, value)),
            None => before,
        }
    }
}

fn copy_value(value: &StoredValue) -> (copy: StoredValue)
    ensures
        same_value(copy, *value),
{
    match value {
        StoredValue::LegacyJson(s) => StoredValue::LegacyJson(s.clone()),
        StoredValue::V8(bytes) => {
            let mut copy: Vec<u8> = Vec::new();
            copy.extend_from_slice(bytes.as_slice());
            assert(copy@ =~= bytes@);
            StoredValue::V8(copy)
        },
    }
}

/// Whether two stored values are the same.
pub open spec fn same_value(a: StoredValue, b: StoredValue) -> bool {
    match (a, b) {
        (StoredValue::LegacyJson(a), StoredValue::LegacyJson(b)) => a@ == b@,
        (StoredValue::V8(a), StoredValue::V8(b)) => a@ == b@,
        _ => false,
    }
}

/// A multi-key read, given what each wanted key holds: the absent keys are left
/// out.
pub fn get_many_stored(keys: Vec<String>, rows: Vec<Option<StoredValue>>) -> (entries: Vec<
    (String, StoredValue),
>)
    requires
        rows@.len() == keys@.len(),
    ensures
        entries@.len() == found(keys@, rows@).len(),
        forall|i: int|
            #![trigger entries@[i]]
            0 <= i < entries@.len() ==> entries@[i].0@ == found(keys@, rows@)[i].0 && same_value(
                entries@[i].1,
                found(keys@, rows@)[i].1,
            ),
{
    let mut entries: Vec<(String, StoredValue)> = Vec::new();
    let mut i: usize = 0;
    while i < keys.len()
        invariant
            i <= keys@.len(),
            rows@.len() == keys@.len(),
            entries@.len() == found(keys@.take(i as int), rows@.take(i as int)).len(),
            forall|k: int|
                #![trigger entries@[k]]
                0 <= k < entries@.len() ==> entries@[k].0@ == found(
                    keys@.take(i as int),
                    rows@.take(i as int),
                )[k].0 && same_value(
                    entries@[k].1,
                    found(keys@.take(i as int), rows@.take(i as int))[k].1,
                ),
        decreases keys@.len() - i,
    {
        assert(keys@.take(i + 1).drop_last() =~= keys@.take(i as int));
        assert(rows@.take(i + 1).drop_last() =~= rows@.take(i as int));
        match &rows[i] {
            Some(value) => {
                entries.push((keys[i].clone(), copy_value(value)));
            },
            None => {},
        }
        i = i + 1;
    }
    assert(keys@.take(i as int) =~= keys@);
    assert(rows@.take(i as int) =~= rows@);
    entries
}

/// A multi-key read of JSON texts, given what each wanted key holds: a
/// structured-clone value refuses them all.
pub fn get_many(keys: Vec<String>, rows: Vec<Option<StoredValue>>) -> (result: Result<
    Vec<(String, String)>,
    &'static str,
>)
    requires
        rows@.len() == keys@.len(),
    ensures
        ({
            let found = found(keys@, rows@);
            match result {
                Ok(texts) => {
                    &&& texts@.len() == found.len()
                    &&& forall|i: int|
                        #![trigger texts@[i]]
                        0 <= i < found.len() ==> texts@[i].0@ == found[i].0 && (
                        found[i].1 matches StoredValue::LegacyJson(s) && texts@[i].1@ == s@)
                },
                Err(message) => message@ == NOT_LEGACY_JSON@ && exists|i: int|
                    0 <= i < found.len() && (#[trigger] found[i]).1 is V8,
            }
        }),
{
    let ghost found = found(keys@, rows@);
    let entries = get_many_stored(keys, rows);
    let ghost held = entries@;
    let result = list_with_options(entries);
    proof {
        if result is Err {
            let i = choose|i: int| 0 <= i < held.len() && (#[trigger] held[i]).1 is V8;
            assert(found[i].1 is V8);
        } else {
            assert forall|i: int|
                #![trigger result->Ok_0@[i]]
                0 <= i < found.len() implies result->Ok_0@[i].0@ == found[i].0 && (
            found[i].1 matches StoredValue::LegacyJson(s) && result->Ok_0@[i].1@ == s@) by {
                assert(held[i].0@ == found[i].0);
            }
        }
    }
    result
}

/// How many keys a batch of deletes found.
pub open spec fn total(counts: Seq<usize>) -> nat
    decreases counts.len(),
{
    if counts.len() == 0 {
        0
    } else {
        total(counts.drop_last()) + counts.last() as nat
    }
}

proof fn lemma_total_grows(counts: Seq<usize>, n: int)
    requires
        0 <= n <= counts.len(),
    ensures
        total(counts.take(n)) <= total(counts),
    decreases counts.len(),
{
    if n == counts.len() {
        assert(counts.take(n) =~= counts);
    } else {
        lemma_total_grows(counts.drop_last(), n);
        assert(counts.drop_last().take(n) =~= counts.take(n));
    }
}

/// How many keys a batch of deletes found, given how many rows each deleted.
pub fn delete_many(counts: &Vec<usize>) -> (deleted: usize)
    requires
        total(counts@) <= usize::MAX,
    ensures
        deleted == total(counts@),
{
    let mut deleted: usize = 0;
    let mut i: usize = 0;
    assert(counts@.take(0).len() == 0);
    while i < counts.len()
        invariant
            i <= counts@.len(),
            total(counts@) <= usize::MAX,
            deleted == total(counts@.take(i as int)),
        decreases counts@.len() - i,
    {
        proof {
            assert(counts@.take(i + 1).drop_last() =~= counts@.take(i as int));
            lemma_total_grows(counts@, i + 1);
        }
        deleted = deleted + counts[i];
        i = i + 1;
    }
    assert(counts@.take(i as int) =~= counts@);
    deleted
}

/// The text of a row, where it is TEXT in UTF-8.
pub open spec fn text_of(row: Option<Column>) -> Option<Seq<char>> {
    match row {
        Some(Column::Text(bytes)) => if vstd::utf8::valid_utf8(bytes@) {
            Some(vstd::utf8::decode_utf8(bytes@))
        } else {
            None
        },
        _ => None,
    }
}

/// The text under a key, where its row is text.
pub fn get(row: Option<Column>) -> (value: Option<String>)
    ensures
        match value {
            Some(s) => text_of(row) == Some(s@),
            None => text_of(row) is None,
        },
{
    match row {
        Some(Column::Text(bytes)) => match values::sql_text(bytes) {
            Ok(s) => {
                proof {
                    vstd::utf8::encode_utf8_decode_utf8(s@);
                }
                Some(s)
            },
            Err(_) => None,
        },
        _ => None,
    }
}

/// The stored value under a key, given the row and the text of its REAL. A cell
/// that is not open is an error.
pub fn get_stored(state: &Cells, scope: &str, row: Option<Column>, real_text: &str) -> (result: Result<
    Option<StoredValue>,
    String,
>)
    requires
        state.wf(),
    ensures
        match result {
            Err(error) => !state.open_cells@.dom().contains(scope@) && error@ == "no db for "@
                + scope@,
            Ok(None) => state.open_cells@.dom().contains(scope@) && row is None,
            Ok(Some(value)) => state.open_cells@.dom().contains(scope@) && (row matches Some(
                column,
            ) && values::is_stored(column, real_text@, value)),
        },
{
    if !state.open_cells.contains_key(scope) {
        return Err(text::concat("no db for ", scope));
    }
    match row {
        None => Ok(None),
        Some(column) => Ok(Some(values::stored_value(column, real_text))),
    }
}

/// Whether a delete found its key.
pub fn delete(rows: usize) -> (found: bool)
    ensures
        found == (rows > 0),
{
    rows > 0
}

/// How a batch of writes is made atomic.
pub enum BatchPlan {
    /// There is nothing to write.
    Nothing,
    /// A transaction of its own.
    Transaction,
    /// Inside the open transaction, a savepoint with this name.
    Savepoint { name: String },
}

/// The name of a batch's savepoint.
pub open spec fn batch_savepoint(sequence: Seq<char>) -> Seq<char> {
    "cells_batch_"@ + sequence
}

/// How a batch of writes is made atomic: inside an open transaction by a
/// savepoint, else by a transaction of its own.
pub fn batch_plan(entries: usize, autocommit: bool, sequence: &str) -> (plan: BatchPlan)
    ensures
        match plan {
            BatchPlan::Nothing => entries == 0,
            BatchPlan::Transaction => entries > 0 && autocommit,
            BatchPlan::Savepoint { name } => entries > 0 && !autocommit && name@
                == batch_savepoint(sequence@),
        },
{
    if entries == 0 {
        BatchPlan::Nothing
    } else if autocommit {
        BatchPlan::Transaction
    } else {
        BatchPlan::Savepoint { name: text::concat("cells_batch_", sequence) }
    }
}

/// The SQL that begins a batch's savepoint, and the SQL that ends it: a batch
/// that failed is undone whole.
pub fn batch_savepoint_sql(name: &str, ran: Option<bool>) -> (sql: String)
    ensures
        sql@ == (match ran {
            None => "SAVEPOINT "@ + name@ + ";"@,
            Some(true) => "RELEASE "@ + name@ + ";"@,
            Some(false) => "ROLLBACK TO "@ + name@ + "; RELEASE "@ + name@ + ";"@,
        }),
{
    match ran {
        None => text::concat3("SAVEPOINT ", name, ";"),
        Some(ran) => if ran {
            text::concat3("RELEASE ", name, ";")
        } else {
            let back = text::concat3("ROLLBACK TO ", name, "; RELEASE ");
            text::concat3(&back, name, ";")
        },
    }
}

/// Admit a storage write: a poisoned cell and one that is not open refuse.
pub fn storage_write_admitted(state: &Cells, scope: &str) -> (result: Result<(), String>)
    requires
        state.wf(),
    ensures
        match result {
            Ok(()) => cells::critical_text(*state, scope@) is None
                && state.open_cells@.dom().contains(scope@),
            Err(error) => match cells::critical_text(*state, scope@) {
                Some(critical) => error@ == critical,
                None => !state.open_cells@.dom().contains(scope@) && error@ == "no db for "@
                    + scope@,
            },
        },
{
    match cells::require_sql_healthy(state, scope) {
        Err(error) => {
            return Err(error);
        },
        Ok(()) => {},
    }
    if !state.open_cells.contains_key(scope) {
        return Err(text::concat("no db for ", scope));
    }
    Ok(())
}

/// A storage write failed. A failure with a SQLite result code is classified,
/// and one that poisons the cell is kept, so that a later write cannot run after
/// the transaction has disappeared.
pub fn storage_write_failed(state: &mut Cells, scope: &str, poisons: Option<bool>, error: &str)
    requires
        old(state).wf(),
    ensures
        final(state).wf(),
        if poisons == Some(true) {
            cells::poisoned_by(*old(state), *final(state), scope@, error@)
        } else {
            *final(state) == *old(state)
        },
{
    match poisons {
        Some(poisons) => cells::record_sqlite_operation_failure(state, scope, poisons, error),
        None => {},
    }
}

/// Once a storage write has poisoned its cell, no further write is admitted.
pub proof fn law_poisoned_cell_writes_no_more(
    before: Cells,
    after: Cells,
    scope: Seq<char>,
    error: Seq<char>,
)
    requires
        cells::poisoned_by(before, after, scope, error),
    ensures
        cells::critical_text(after, scope) is Some,
{
}

proof fn lemma_ends(head: Seq<char>, tail: Seq<char>)
    ensures
        text::ends_in(head + tail, tail),
{
    let all = head + tail;
    assert(all.subrange(all.len() - tail.len(), all.len() as int) =~= tail);
}

proof fn lemma_order_tails_differ(sql: Seq<char>)
    ensures
        !(text::ends_in(sql, " ORDER BY k DESC LIMIT ?"@) && text::ends_in(
            sql,
            " ORDER BY k ASC LIMIT ?"@,
        )),
{
    reveal_strlit(" ORDER BY k DESC LIMIT ?");
    reveal_strlit(" ORDER BY k ASC LIMIT ?");
    let desc = " ORDER BY k DESC LIMIT ?"@;
    let asc = " ORDER BY k ASC LIMIT ?"@;
    if text::ends_in(sql, desc) && text::ends_in(sql, asc) {
        let n = sql.len();
        assert(sql.subrange(n - desc.len(), n as int)[12] == sql[n - desc.len() + 12]);
        assert(sql.subrange(n - asc.len(), n as int)[11] == sql[n - asc.len() + 11]);
        assert(desc.len() == 24 && asc.len() == 23);
        assert(desc[12] == 'D' || desc[13] == 'E');
        assert(sql.subrange(n - desc.len(), n as int)[14] == sql[n - 10]);
        assert(sql.subrange(n - asc.len(), n as int)[13] == sql[n - 10]);
        assert(sql.subrange(n - desc.len(), n as int)[13] == sql[n - 11]);
        assert(sql.subrange(n - asc.len(), n as int)[12] == sql[n - 11]);
        assert(desc[13] == 'E');
        assert(asc[12] == 'A' || asc[12] == 'S');
    }
}

/// The SQL of a listing names its direction, whatever its conditions: descending
/// exactly where the listing is reversed, and ascending otherwise, up to a limit that
/// is bound last. It always reads keys and values of one scope, which is bound first.
pub proof fn law_listing_text_names_its_direction(query: ListQuery)
    ensures
        text::begins_with(query.text(), "SELECT k,v FROM _cf_KV WHERE scope=?"@),
        text::ends_in(query.text(), " ORDER BY k DESC LIMIT ?"@) <==> query.reverse,
        text::ends_in(query.text(), " ORDER BY k ASC LIMIT ?"@) <==> !query.reverse,
{
    let head = "SELECT k,v FROM _cf_KV WHERE scope=?"@;
    let body = head + bounds_sql(query.bounds@);
    let tail = if query.reverse {
        " ORDER BY k DESC LIMIT ?"@
    } else {
        " ORDER BY k ASC LIMIT ?"@
    };
    lemma_ends(body, tail);
    assert(query.text() =~= body + tail);
    lemma_order_tails_differ(query.text());
    assert(query.text().subrange(0, head.len() as int) =~= head);
}

/// What the SQL of a listing says of its conditions: without any it is the plain
/// listing, and each one adds its comparison with the next bound value, behind those
/// before it and before the order.
pub proof fn law_listing_text_adds_each_condition(
    shorter: ListQuery,
    longer: ListQuery,
    bound: Bound,
    value: String,
)
    requires
        longer.bounds@ == shorter.bounds@.push((bound, value)),
        longer.reverse == shorter.reverse,
    ensures
        ({
            let tail = if shorter.reverse {
                " ORDER BY k DESC LIMIT ?"@
            } else {
                " ORDER BY k ASC LIMIT ?"@
            };
            let comparison = match bound {
                Bound::AtLeast => " AND k>=?"@,
                Bound::Above => " AND k>?"@,
                Bound::Below => " AND k<?"@,
            };
            &&& shorter.bounds@.len() == 0 ==> shorter.text()
                == "SELECT k,v FROM _cf_KV WHERE scope=?"@ + tail
            &&& longer.text() == shorter.text().take(shorter.text().len() - tail.len())
                + comparison + tail
        }),
{
    let tail = if shorter.reverse {
        " ORDER BY k DESC LIMIT ?"@
    } else {
        " ORDER BY k ASC LIMIT ?"@
    };
    let head = "SELECT k,v FROM _cf_KV WHERE scope=?"@ + bounds_sql(shorter.bounds@);
    assert(longer.bounds@.drop_last() =~= shorter.bounds@);
    assert(longer.bounds@.last() == (bound, value));
    assert(shorter.text() =~= head + tail);
    assert(longer.text() =~= head + bound_sql(bound) + tail);
    assert(shorter.text().take(shorter.text().len() - tail.len()) =~= head);
    assert("SELECT k,v FROM _cf_KV WHERE scope=?"@ + Seq::<char>::empty()
        =~= "SELECT k,v FROM _cf_KV WHERE scope=?"@);
}

/// What a listing selects: without conditions every key; a begin the keys from it on,
/// itself among them; an end the keys before it; a start-after what a begin selects but
/// for that key; a prefix the keys that go on from it; and together the keys that each
/// of them selects.
pub proof fn law_listing_selects_its_range(
    key: Seq<char>,
    begin: Option<&str>,
    end: Option<&str>,
    start_after: Option<&str>,
    prefix: Option<&str>,
    bound: &str,
)
    ensures
        selects(key, None, None, None, None),
        selects(key, begin, end, start_after, prefix) <==> selects(key, begin, None, None, None)
            && selects(key, None, end, None, None) && selects(key, None, None, start_after, None)
            && selects(key, None, None, None, prefix),
        selects(key, Some(bound), None, None, None) <==> !selects(key, None, Some(bound), None, None),
        text::text_lt(key, bound@) ==> selects(key, None, Some(bound), None, None),
        text::text_lt(bound@, key) || key == bound@ ==> selects(key, Some(bound), None, None, None),
        selects(key, None, None, Some(bound), None) <==> selects(key, Some(bound), None, None, None)
            && key != bound@,
        selects(key, None, None, None, Some(bound)) <==> exists|rest: Seq<char>|
            key == #[trigger] (bound@ + rest),
{
    text::lemma_text_order_total(key, bound@);
    text::lemma_text_order_total(bound@, bound@);
    if text::begins_with(key, bound@) {
        assert(key =~= bound@ + key.skip(bound@.len() as int));
    }
    if exists|rest: Seq<char>| key == #[trigger] (bound@ + rest) {
        let rest = choose|rest: Seq<char>| key == #[trigger] (bound@ + rest);
        assert(key.subrange(0, bound@.len() as int) =~= bound@);
    }
}

/// The limit of a listing: what is asked for, where SQLite can count so far, and never
/// more; without one, no limit that is asked for goes further.
pub proof fn law_listing_limit(limit: usize)
    ensures
        limit <= i64::MAX ==> list_limit(Some(limit)) == limit,
        0 <= list_limit(Some(limit)) <= limit,
        list_limit(Some(limit)) <= list_limit(None) <= i64::MAX,
        list_limit(None) >= 0x7FFF_FFFF,
{
}

/// A multi-key read of two lists of keys gives the entries of the one, then those of
/// the other; of one key, its value where there is one, and nothing where there is
/// none.
pub proof fn law_multi_key_read_is_key_by_key(
    a: Seq<String>,
    rows_a: Seq<Option<StoredValue>>,
    b: Seq<String>,
    rows_b: Seq<Option<StoredValue>>,
    key: String,
    value: StoredValue,
)
    requires
        a.len() == rows_a.len(),
        b.len() == rows_b.len(),
    ensures
        found(a + b, rows_a + rows_b) == found(a, rows_a) + found(b, rows_b),
        found(seq![key], seq![Some(value)]) == seq![(key@, value)],
        found(seq![key], seq![None]).len() == 0,
        found(Seq::<String>::empty(), Seq::<Option<StoredValue>>::empty()).len() == 0,
    decreases b.len(),
{
    reveal_with_fuel(found, 2);
    let one: Seq<String> = seq![key];
    let some: Seq<Option<StoredValue>> = seq![Some(value)];
    let none: Seq<Option<StoredValue>> = seq![None];
    assert(found(one.drop_last(), some.drop_last()) =~= Seq::<(Seq<char>, StoredValue)>::empty());
    assert(found(one, some) =~= seq![(key@, value)]);
    assert(found(one.drop_last(), none.drop_last()) =~= Seq::<(Seq<char>, StoredValue)>::empty());
    assert(found(one, none).len() == 0);
    if b.len() == 0 {
        assert(a + b =~= a);
        assert(rows_a + rows_b =~= rows_a);
        assert(found(a, rows_a) + found(b, rows_b) =~= found(a, rows_a));
    } else {
        law_multi_key_read_is_key_by_key(a, rows_a, b.drop_last(), rows_b.drop_last(), key, value);
        assert((a + b).drop_last() =~= a + b.drop_last());
        assert((rows_a + rows_b).drop_last() =~= rows_a + rows_b.drop_last());
        assert(found(a + b, rows_a + rows_b) =~= found(a, rows_a) + found(b, rows_b));
    }
}

/// The count of a batch of deletes is the sum of its deletes' counts.
pub proof fn law_deletes_add_up(a: Seq<usize>, b: Seq<usize>, count: usize)
    ensures
        total(a + b) == total(a) + total(b),
        total(seq![count]) == count,
        total(Seq::<usize>::empty()) == 0,
    decreases b.len(),
{
    reveal_with_fuel(total, 2);
    let one: Seq<usize> = seq![count];
    assert(one.drop_last().len() == 0);
    assert(one.last() == count);
    if b.len() == 0 {
        assert(a + b =~= a);
    } else {
        law_deletes_add_up(a, b.drop_last(), count);
        assert((a + b).drop_last() =~= a + b.drop_last());
    }
}

/// What is above a prefix is above every text that goes on from it, and nothing else is asked.
pub proof fn law_above_a_prefix(s: Seq<char>, prefix: Seq<char>)
    ensures
        above_prefix(s, prefix) <==> forall|rest: Seq<char>|
            text::text_lt(#[trigger] (prefix + rest), s),
{
    if above_prefix(s, prefix) {
        assert forall|rest: Seq<char>| text::text_lt(#[trigger] (prefix + rest), s) by {
            let t = prefix + rest;
            assert(t.subrange(0, prefix.len() as int) =~= prefix);
            assert(text::begins_with(t, prefix));
        }
    }
    if forall|rest: Seq<char>| text::text_lt(#[trigger] (prefix + rest), s) {
        assert forall|t: Seq<char>| text::begins_with(t, prefix) implies #[trigger] text::text_lt(
            t,
            s,
        ) by {
            assert(t =~= prefix + t.skip(prefix.len() as int));
        }
    }
}

/// The keys of a multi-key read are those that were asked for, each once and in order.
pub proof fn law_wanted_keys(asked: Seq<String>, sorted: Seq<String>, i: int, j: int)
    requires
        in_order(sorted),
        same_keys(asked, sorted),
        0 <= i < j < sorted.len(),
    ensures
        text::text_lt(sorted[i]@, sorted[j]@),
        exists|k: int| 0 <= k < asked.len() && (#[trigger] asked[k])@ == sorted[i]@,
        forall|k: int|
            0 <= k < asked.len() ==> exists|m: int|
                0 <= m < sorted.len() && (#[trigger] sorted[m])@ == (#[trigger] asked[k])@,
{
    assert(text::views(sorted)[i] == sorted[i]@);
    assert(text::views(sorted).contains(sorted[i]@));
    assert(text::views(asked).contains(sorted[i]@));
    let k = choose|k: int| 0 <= k < asked.len() && text::views(asked)[k] == sorted[i]@;
    assert(asked[k]@ == sorted[i]@);
    assert forall|k: int| 0 <= k < asked.len() implies exists|m: int|
        0 <= m < sorted.len() && (#[trigger] sorted[m])@ == (#[trigger] asked[k])@ by {
        assert(text::views(asked)[k] == asked[k]@);
        assert(text::views(asked).contains(asked[k]@));
        assert(text::views(sorted).contains(asked[k]@));
        let m = choose|m: int| 0 <= m < sorted.len() && text::views(sorted)[m] == asked[k]@;
        assert(sorted[m]@ == asked[k]@);
    }
}

/// Two stored values are the same where both are texts with the same characters, or both are
/// clones with the same bytes; and a batch's savepoint is named by its number.
pub proof fn law_same_values(a: StoredValue, b: StoredValue, sequence: Seq<char>)
    ensures
        same_value(a, b) <==> (a matches StoredValue::LegacyJson(x) && (
        b matches StoredValue::LegacyJson(y) && x@ == y@)) || (a matches StoredValue::V8(x) && (
        b matches StoredValue::V8(y) && x@ == y@)),
        batch_savepoint(sequence) == "cells_batch_"@ + sequence,
{
}

} // verus!
