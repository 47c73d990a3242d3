//! What a D1 result set may carry: the values it holds, what each of them is
//! charged, and where a result is refused.

use vstd::prelude::*;

use crate::storage::values;
use crate::storage::values::Column;
use crate::storage::values::Json;
use crate::storage::values::JsonNumber;
use crate::storage::values::SqlValue;
use crate::text;

verus! {

/// Rows one D1 result set can carry across the binding.
pub const D1_MAX_ROWS: usize = 100_000;

/// Bytes one D1 result set can carry across the binding.
pub const D1_MAX_RESULT_BYTES: usize = 33_554_432;

/// The refusal of a result with too many rows.
pub const TOO_MANY_ROWS: &'static str =
    "query returned more than 100000 rows, which is more than one D1 result set can carry across a binding; narrow the query, or iterate inside a Durable Object where the cursor streams";

/// The refusal of a result with too many bytes.
pub const TOO_MANY_BYTES: &'static str =
    "query result exceeds 33554432 bytes, which is more than one D1 result set can carry across a binding; narrow the query, or iterate inside a Durable Object where the cursor streams";

/// A value that a D1 statement cannot bind.
#[derive(PartialEq, Eq, Structural, Clone, Copy)]
pub enum BadBind {
    /// The value itself has no SQL type.
    Value,
    /// The array item at this index is not a byte.
    Item(usize),
}

/// Whether a JSON value is a byte.
pub open spec fn is_byte(item: Json) -> bool {
    item matches Json::Number(n) && (values::natural(n) matches Some(value) && value < 256)
}

/// Whether `sql` is what a D1 value binds as. An array is the bytes of a BLOB.
pub open spec fn d1_binds(value: Json, sql: SqlValue) -> bool {
    match value {
        Json::Array(items) => sql matches SqlValue::Blob(bytes) && bytes@ == values::array_bytes(
            items@,
        ),
        _ => values::binds_as(value, sql),
    }
}

/// Encode one bind value, refusing what it cannot represent.
pub fn d1_bind_value(value: &Json) -> (result: Result<SqlValue, BadBind>)
    ensures
        match result {
            Ok(sql) => {
                &&& !(value is Object)
                &&& value matches Json::Array(items) ==> forall|i: int|
                    0 <= i < items@.len() ==> is_byte(#[trigger] items@[i])
                &&& d1_binds(*value, sql)
            },
            Err(BadBind::Value) => value is Object,
            Err(BadBind::Item(at)) => {
                &&& value matches Json::Array(items)
                &&& at < items@.len()
                &&& !is_byte(items@[at as int])
                &&& forall|i: int| 0 <= i < at ==> is_byte(#[trigger] items@[i])
            },
        },
{
    match value {
        Json::Array(items) => bind_bytes(items),
        Json::Object(_) => Err(BadBind::Value),
        _ => Ok(values::json_to_sql(value)),
    }
}

fn bind_bytes(items: &Vec<Json>) -> (result: Result<SqlValue, BadBind>)
    ensures
        match result {
            Ok(sql) => {
                &&& forall|i: int| 0 <= i < items@.len() ==> is_byte(#[trigger] items@[i])
                &&& sql matches SqlValue::Blob(bytes) && bytes@ == values::array_bytes(items@)
            },
            Err(BadBind::Value) => false,
            Err(BadBind::Item(at)) => {
                &&& at < items@.len()
                &&& !is_byte(items@[at as int])
                &&& forall|i: int| 0 <= i < at ==> is_byte(#[trigger] items@[i])
            },
        },
{
    let mut bytes: Vec<u8> = Vec::new();
    let mut i: usize = 0;
    while i < items.len()
        invariant
            i <= items@.len(),
            bytes@ == values::array_bytes(items@.take(i as int)),
            forall|j: int| 0 <= j < i ==> is_byte(#[trigger] items@[j]),
        decreases items@.len() - i,
    {
        let byte: Option<u64> = match &items[i] {
            Json::Number(n) => values::natural_of(*n),
            _ => None,
        };
        match byte {
            Some(byte) => {
                if byte >= 256 {
                    return Err(BadBind::Item(i));
                }
                bytes.push(byte as u8);
            },
            None => {
                return Err(BadBind::Item(i));
            },
        }
        i = i + 1;
        assert(items@.take(i as int).drop_last() =~= items@.take(i - 1));
    }
    assert(items@.take(i as int) =~= items@);
    Ok(SqlValue::Blob(bytes))
}

/// The width of a character in UTF-8.
pub open spec fn utf8_width(c: char) -> nat {
    if (c as u32) < 0x80 {
        1
    } else if (c as u32) < 0x800 {
        2
    } else if (c as u32) < 0x1_0000 {
        3
    } else {
        4
    }
}

/// The width of a character inside a JSON string: a quote, a backslash and the
/// named controls take two bytes, and any other control takes six.
pub open spec fn json_width(c: char) -> nat {
    if c == '"' || c == '\\' || c as u32 == 0x8 || c as u32 == 0x9 || c as u32 == 0xA || c as u32
        == 0xC || c as u32 == 0xD {
        2
    } else if c as u32 <= 0x1F {
        6
    } else {
        utf8_width(c)
    }
}

/// The bytes that a string takes inside a JSON string.
pub open spec fn json_widths(s: Seq<char>) -> nat
    decreases s.len(),
{
    if s.len() == 0 {
        0
    } else {
        json_widths(s.drop_last()) + json_width(s.last())
    }
}

/// The bytes of a JSON string, with its two quotes.
pub open spec fn json_string_len(s: Seq<char>) -> nat {
    2 + json_widths(s)
}

/// A natural number, or the largest `usize` where it is larger.
pub open spec fn capped(n: nat) -> usize {
    if n > usize::MAX {
        usize::MAX
    } else {
        n as usize
    }
}

/// The bytes of a JSON string, as far as a `usize` counts.
pub fn d1_json_string_len(value: &str) -> (length: usize)
    ensures
        length == capped(json_string_len(value@)),
{
    let chars = text::chars_of(value);
    let mut length: usize = 2;
    let mut i: usize = 0;
    while i < chars.len()
        invariant
            i <= chars@.len(),
            length == capped(2 + json_widths(chars@.take(i as int))),
        decreases chars@.len() - i,
    {
        let c: char = chars[i];
        let code: u32 = c as u32;
        let width: usize = if c == '"' || c == '\\' || code == 0x8 || code == 0x9 || code == 0xA
            || code == 0xC || code == 0xD {
            2
        } else if code <= 0x1F {
            6
        } else if code < 0x80 {
            1
        } else if code < 0x800 {
            2
        } else if code < 0x1_0000 {
            3
        } else {
            4
        };
        length = length.saturating_add(width);
        i = i + 1;
        assert(chars@.take(i as int).drop_last() =~= chars@.take(i - 1));
        assert(chars@.take(i as int).last() == c);
    }
    assert(chars@.take(i as int) =~= chars@);
    length
}

/// The approximate bytes that one result value occupies in the caller's heap,
/// where a JSON value takes `scalar` bytes by itself. A BLOB is one JSON value
/// per byte, and TEXT is charged as it is escaped.
pub open spec fn charge(column: Column, scalar: nat) -> nat {
    match column {
        Column::Text(bytes) => scalar + json_string_len(vstd::utf8::decode_utf8(bytes@)),
        Column::Blob(bytes) => bytes@.len() * scalar + scalar + 2,
        _ => scalar,
    }
}

/// Whether `json` is a result value as it crosses the binding: a BLOB is an
/// array of bytes.
pub open spec fn d1_reads(column: Column, json: Json) -> bool {
    match column {
        Column::Blob(bytes) => {
            &&& json matches Json::Array(items)
            &&& items@.len() == bytes@.len()
            &&& forall|i: int|
                0 <= i < bytes@.len() ==> #[trigger] items@[i] == Json::Number(
                    JsonNumber::Integer(bytes@[i] as i64),
                )
        },
        _ => values::json_reads(column, json),
    }
}

/// Why a result value is refused.
#[derive(PartialEq, Eq, Structural, Clone, Copy)]
pub enum D1RowValueError {
    ResultLimit,
    InvalidUtf8Text,
}

/// One result value with its charge, or why it is refused.
pub fn d1_row_value(column: &Column, available: usize, scalar: usize) -> (result: Result<
    (Json, usize),
    D1RowValueError,
>)
    requires
        available < usize::MAX,
    ensures
        match result {
            Ok((json, size)) => {
                &&& !values::bad_text(*column)
                &&& size == charge(*column, scalar as nat)
                &&& size <= available
                &&& d1_reads(*column, json)
            },
            Err(D1RowValueError::InvalidUtf8Text) => values::bad_text(*column),
            Err(D1RowValueError::ResultLimit) => !values::bad_text(*column) && charge(
                *column,
                scalar as nat,
            ) > available,
        },
{
    match column {
        Column::Text(bytes) => {
            match values::sql_text(bytes.clone()) {
                Err(_) => Err(D1RowValueError::InvalidUtf8Text),
                Ok(value) => {
                    proof {
                        vstd::utf8::encode_utf8_decode_utf8(value@);
                    }
                    let expanded: usize = scalar.saturating_add(d1_json_string_len(&value));
                    if expanded > available {
                        Err(D1RowValueError::ResultLimit)
                    } else {
                        Ok((Json::Text(value), expanded))
                    }
                },
            }
        },
        Column::Blob(bytes) => {
            let each: usize = match bytes.len().checked_mul(scalar) {
                Some(product) => product,
                None => usize::MAX,
            };
            let expanded: usize = each.saturating_add(scalar).saturating_add(2);
            if expanded > available {
                Err(D1RowValueError::ResultLimit)
            } else {
                Ok((Json::Array(values::byte_items(bytes)), expanded))
            }
        },
        Column::Null => if scalar > available {
            Err(D1RowValueError::ResultLimit)
        } else {
            Ok((Json::Null, scalar))
        },
        Column::Integer(i) => if scalar > available {
            Err(D1RowValueError::ResultLimit)
        } else {
            Ok((Json::Number(JsonNumber::Integer(*i)), scalar))
        },
        Column::Real(r) => if scalar > available {
            Err(D1RowValueError::ResultLimit)
        } else if (*r / 0x10_0000_0000_0000) % 2048 != 2047 {
            Ok((Json::Number(JsonNumber::Real(*r)), scalar))
        } else {
            Ok((Json::Null, scalar))
        },
    }
}

/// What a row is charged.
pub open spec fn row_charge(columns: Seq<Column>, scalar: nat) -> nat
    decreases columns.len(),
{
    if columns.len() == 0 {
        0
    } else {
        charge(columns[0], scalar) + row_charge(columns.skip(1), scalar)
    }
}

/// The refusal of a row within a budget: that of the first value, from the
/// left, that is not text or does not fit behind those before it.
pub open spec fn row_refusal(columns: Seq<Column>, scalar: nat, budget: int) -> Option<
    D1RowValueError,
>
    decreases columns.len(),
{
    if columns.len() == 0 {
        None
    } else if values::bad_text(columns[0]) {
        Some(D1RowValueError::InvalidUtf8Text)
    } else if charge(columns[0], scalar) > budget {
        Some(D1RowValueError::ResultLimit)
    } else {
        row_refusal(columns.skip(1), scalar, budget - charge(columns[0], scalar))
    }
}

/// A row of JSON values is a row of columns.
pub open spec fn row_reads(columns: Seq<Column>, row: Seq<Json>) -> bool {
    &&& row.len() == columns.len()
    &&& forall|i: int| 0 <= i < columns.len() ==> d1_reads(#[trigger] columns[i], row[i])
}

/// One result row with its charge, or why it is refused.
pub fn d1_row(columns: &Vec<Column>, budget: usize, scalar: usize) -> (result: Result<
    (Vec<Json>, usize),
    D1RowValueError,
>)
    requires
        budget < usize::MAX,
    ensures
        match result {
            Ok((row, size)) => {
                &&& row_refusal(columns@, scalar as nat, budget as int) is None
                &&& size == row_charge(columns@, scalar as nat)
                &&& size <= budget
                &&& row_reads(columns@, row@)
            },
            Err(refusal) => row_refusal(columns@, scalar as nat, budget as int) == Some(refusal),
        },
{
    let mut row: Vec<Json> = Vec::new();
    let mut used: usize = 0;
    let mut i: usize = 0;
    assert(columns@.skip(0) =~= columns@);
    while i < columns.len()
        invariant
            i <= columns@.len(),
            row@.len() == i,
            used <= budget,
            budget < usize::MAX,
            used + row_charge(columns@.skip(i as int), scalar as nat) == row_charge(
                columns@,
                scalar as nat,
            ),
            row_refusal(columns@.skip(i as int), scalar as nat, budget - used) == row_refusal(
                columns@,
                scalar as nat,
                budget as int,
            ),
            forall|j: int| 0 <= j < i ==> d1_reads(#[trigger] columns@[j], row@[j]),
        decreases columns@.len() - i,
    {
        assert(columns@.skip(i as int)[0] == columns@[i as int]);
        assert(columns@.skip(i as int).skip(1) =~= columns@.skip(i + 1));
        match d1_row_value(&columns[i], budget - used, scalar) {
            Err(refusal) => {
                return Err(refusal);
            },
            Ok((value, size)) => {
                used = used + size;
                row.push(value);
            },
        }
        i = i + 1;
    }
    Ok((row, used))
}

/// Why a result set is refused.
#[derive(PartialEq, Eq, Structural, Clone, Copy)]
pub enum D1Over {
    Rows,
    Bytes,
    Text,
}

/// The message of a refused result set.
pub open spec fn over_text(over: D1Over) -> Seq<char> {
    match over {
        D1Over::Rows => TOO_MANY_ROWS@,
        D1Over::Bytes => TOO_MANY_BYTES@,
        D1Over::Text => crate::storage::sql_cursor::INVALID_UTF8_TEXT@,
    }
}

/// The message of a refused result set.
pub fn d1_over_message(over: D1Over) -> (message: String)
    ensures
        message@ == over_text(over),
{
    match over {
        D1Over::Rows => TOO_MANY_ROWS.to_owned(),
        D1Over::Bytes => TOO_MANY_BYTES.to_owned(),
        D1Over::Text => crate::storage::sql_cursor::INVALID_UTF8_TEXT.to_owned(),
    }
}

/// What stepping one statement to completion left behind.
pub struct D1Stepped {
    pub rows: Vec<Vec<Json>>,
    pub rows_read: u64,
    /// The refusal of the result, when one came. The statement still ran to
    /// completion: its effects happen as its steps do.
    pub over: Option<D1Over>,
}

impl D1Stepped {
    pub fn new() -> (stepped: Self)
        ensures
            stepped.rows@.len() == 0,
            stepped.rows_read == 0,
            stepped.over is None,
    {
        D1Stepped { rows: Vec::new(), rows_read: 0, over: None }
    }

    /// One more row came. At most `keep` rows are kept and charged to `budget`.
    /// Below the row cap further rows are dropped; at the cap the next row
    /// refuses the result. A refused result keeps what it had and only counts.
    pub fn row(&mut self, columns: &Vec<Column>, keep: usize, budget: &mut usize, scalar: usize)
        requires
            old(self).rows_read < u64::MAX,
            *old(budget) < usize::MAX,
        ensures
            final(self).rows_read == old(self).rows_read + 1,
            ({
                let refusal = row_refusal(columns@, scalar as nat, *old(budget) as int);
                if old(self).over is Some || keep == 0 {
                    &&& final(self).over == old(self).over
                    &&& final(self).rows@ == old(self).rows@
                    &&& *final(budget) == *old(budget)
                } else if old(self).rows@.len() >= keep {
                    &&& final(self).over == (if keep >= D1_MAX_ROWS {
                        Some(D1Over::Rows)
                    } else {
                        None
                    })
                    &&& final(self).rows@ == old(self).rows@
                    &&& *final(budget) == *old(budget)
                } else {
                    match refusal {
                        Some(refusal) => {
                            &&& final(self).over == Some(
                                match refusal {
                                    D1RowValueError::ResultLimit => D1Over::Bytes,
                                    D1RowValueError::InvalidUtf8Text => D1Over::Text,
                                },
                            )
                            &&& final(self).rows@ == old(self).rows@
                            &&& *final(budget) == *old(budget)
                        },
                        None => {
                            &&& final(self).over is None
                            &&& final(self).rows@.len() == old(self).rows@.len() + 1
                            &&& final(self).rows@.drop_last() == old(self).rows@
                            &&& row_reads(columns@, final(self).rows@.last()@)
                            &&& *final(budget) + row_charge(columns@, scalar as nat) == *old(budget)
                        },
                    }
                }
            }),
    {
        self.rows_read = self.rows_read + 1;
        if self.over.is_some() || keep == 0 {
            return ;
        }
        if self.rows.len() >= keep {
            if keep >= D1_MAX_ROWS {
                self.over = Some(D1Over::Rows);
            }
            return ;
        }
        match d1_row(columns, *budget, scalar) {
            Err(D1RowValueError::ResultLimit) => {
                self.over = Some(D1Over::Bytes);
            },
            Err(D1RowValueError::InvalidUtf8Text) => {
                self.over = Some(D1Over::Text);
            },
            Ok((row, size)) => {
                *budget = *budget - size;
                self.rows.push(row);
                assert(self.rows@.drop_last() =~= old(self).rows@);
            },
        }
    }
}

/// The rows that a statement read: what it emitted, or what it scanned where
/// that is more. A full scan reads one row more than it steps.
pub open spec fn rows_read(full_scan_steps: u64, emitted: u64) -> int {
    let scanned = if full_scan_steps == 0 {
        0int
    } else if full_scan_steps == u64::MAX {
        u64::MAX as int
    } else {
        full_scan_steps + 1
    };
    if scanned > emitted {
        scanned
    } else {
        emitted as int
    }
}

/// The rows that a statement read.
pub fn d1_rows_read(full_scan_steps: u64, emitted: u64) -> (n: u64)
    ensures
        n == rows_read(full_scan_steps, emitted),
{
    let scanned: u64 = full_scan_steps.saturating_add(
        if full_scan_steps > 0 {
            1
        } else {
            0
        },
    );
    if scanned > emitted {
        scanned
    } else {
        emitted
    }
}

proof fn lemma_charge_of_refused(columns: Seq<Column>, scalar: nat, budget: int)
    ensures
        row_refusal(columns, scalar, budget) is None ==> row_charge(columns, scalar) <= budget
            || columns.len() == 0,
        row_refusal(columns, scalar, budget) is None && budget >= 0 ==> row_charge(columns, scalar)
            <= budget,
    decreases columns.len(),
{
    if columns.len() > 0 && !values::bad_text(columns[0]) && charge(columns[0], scalar) <= budget {
        lemma_charge_of_refused(columns.skip(1), scalar, budget - charge(columns[0], scalar));
    }
}

/// A row that is kept never costs more than the budget it was kept within.
pub proof fn law_kept_row_fits(columns: Seq<Column>, scalar: nat, budget: nat)
    requires
        row_refusal(columns, scalar, budget as int) is None,
    ensures
        row_charge(columns, scalar) <= budget,
{
    lemma_charge_of_refused(columns, scalar, budget as int);
}

/// How many bytes a character takes in UTF-8, and in a JSON string: two where JSON has a short
/// escape for it, six for any other control character, and otherwise as many as in UTF-8.
pub proof fn law_character_widths(c: char)
    ensures
        utf8_width(c) == vstd::utf8::encode_utf8(seq![c]).len(),
        ({
            let code = c as int;
            let short = code == 0x22 || code == 0x5C || code == 8 || code == 9 || code == 10 || code
                == 12 || code == 13;
            &&& short ==> json_width(c) == 2
            &&& !short && code < 0x20 ==> json_width(c) == 6
            &&& !short && code >= 0x20 ==> json_width(c) == utf8_width(c)
        }),
{
    reveal_with_fuel(vstd::utf8::encode_utf8, 2);
    let one = seq![c];
    assert(one.drop_first() =~= Seq::<char>::empty());
    assert(vstd::utf8::encode_utf8(one.drop_first()).len() == 0);
    assert(vstd::utf8::encode_utf8(one) =~= vstd::utf8::encode_scalar(c as u32));
    vstd::utf8::char_is_scalar(c);
}

/// A JSON string's length is that of its characters, one after the other, and its two quotes.
pub proof fn law_json_string_length(a: Seq<char>, b: Seq<char>, c: char)
    ensures
        json_string_len(Seq::<char>::empty()) == 2,
        json_string_len(seq![c]) == 2 + json_width(c),
        json_string_len(a + b) == json_string_len(a) + json_string_len(b) - 2,
    decreases b.len(),
{
    reveal_with_fuel(json_widths, 2);
    assert(seq![c].drop_last().len() == 0);
    if b.len() == 0 {
        assert(a + b =~= a);
    } else {
        law_json_string_length(a, b.drop_last(), c);
        assert((a + b).drop_last() =~= a + b.drop_last());
    }
}

/// What a column is charged: a scalar for each, a text its length as a JSON string besides, and
/// a BLOB a scalar for each byte and its brackets.
pub proof fn law_charges(column: Column, scalar: nat)
    ensures
        column matches Column::Text(bytes) ==> charge(column, scalar) == scalar + json_string_len(
            vstd::utf8::decode_utf8(bytes@),
        ),
        column matches Column::Blob(bytes) ==> charge(column, scalar) == (bytes@.len() + 1) * scalar
            + 2,
        !(column is Text || column is Blob) ==> charge(column, scalar) == scalar,
{
    if let Column::Blob(bytes) = column {
        let n = bytes@.len();
        assert((n + 1) * scalar == n * scalar + scalar) by (nonlinear_arith);
    }
}

/// A row's charge is the sum of its columns'.
pub proof fn law_row_charge_adds_up(a: Seq<Column>, b: Seq<Column>, column: Column, scalar: nat)
    ensures
        row_charge(Seq::<Column>::empty(), scalar) == 0,
        row_charge(seq![column], scalar) == charge(column, scalar),
        row_charge(a + b, scalar) == row_charge(a, scalar) + row_charge(b, scalar),
    decreases a.len(),
{
    reveal_with_fuel(row_charge, 2);
    assert(seq![column].skip(1).len() == 0);
    if a.len() == 0 {
        assert(a + b =~= b);
    } else {
        law_row_charge_adds_up(a.skip(1), b, column, scalar);
        assert((a + b).skip(1) =~= a.skip(1) + b);
    }
}

/// A row is kept exactly where each of its texts is UTF-8 and its charge is within the budget.
pub proof fn law_row_is_kept(columns: Seq<Column>, scalar: nat, budget: int)
    requires
        budget >= 0,
    ensures
        row_refusal(columns, scalar, budget) is None <==> row_charge(columns, scalar) <= budget && (
        forall|i: int| 0 <= i < columns.len() ==> !values::bad_text(#[trigger] columns[i])),
    decreases columns.len(),
{
    if columns.len() > 0 {
        let rest = columns.skip(1);
        let first = charge(columns[0], scalar);
        let clean = forall|i: int| 0 <= i < columns.len() ==> !values::bad_text(
            #[trigger] columns[i],
        );
        let clean_rest = forall|i: int| 0 <= i < rest.len() ==> !values::bad_text(
            #[trigger] rest[i],
        );
        assert(clean == (!values::bad_text(columns[0]) && clean_rest)) by {
            if clean {
                assert forall|i: int| 0 <= i < rest.len() implies !values::bad_text(
                    #[trigger] rest[i],
                ) by {
                    assert(!values::bad_text(columns[i + 1]));
                }
            }
            if !values::bad_text(columns[0]) && clean_rest {
                assert forall|i: int| 0 <= i < columns.len() implies !values::bad_text(
                    #[trigger] columns[i],
                ) by {
                    if i > 0 {
                        assert(!values::bad_text(rest[i - 1]));
                    }
                }
            }
        }
        if first <= budget {
            law_row_is_kept(rest, scalar, budget - first);
        }
    }
}

/// Why a row is not kept: by the first column that spoils it, a text that is not UTF-8 or a
/// charge past what the columns before it left.
pub proof fn law_first_column_spoils(columns: Seq<Column>, scalar: nat, budget: int, i: int)
    requires
        0 <= i < columns.len(),
        row_refusal(columns.take(i), scalar, budget) is None,
        values::bad_text(columns[i]) || row_charge(columns.take(i), scalar) + charge(
            columns[i],
            scalar,
        ) > budget,
    ensures
        row_refusal(columns, scalar, budget) == Some(
            if values::bad_text(columns[i]) {
                D1RowValueError::InvalidUtf8Text
            } else {
                D1RowValueError::ResultLimit
            },
        ),
    decreases i,
{
    if i == 0 {
        assert(columns.take(0).len() == 0);
    } else {
        let rest = columns.skip(1);
        assert(columns.take(i)[0] == columns[0]);
        assert(columns.take(i).skip(1) =~= rest.take(i - 1));
        law_first_column_spoils(rest, scalar, budget - charge(columns[0], scalar), i - 1);
    }
}

/// How many rows were read: those that came out, or one more than the steps of a full scan where
/// that is more.
pub proof fn law_rows_read(full_scan_steps: u64, emitted: u64)
    ensures
        rows_read(full_scan_steps, emitted) >= emitted,
        full_scan_steps == 0 ==> rows_read(full_scan_steps, emitted) == emitted,
        0 < full_scan_steps < u64::MAX && full_scan_steps >= emitted ==> rows_read(
            full_scan_steps,
            emitted,
        ) == full_scan_steps + 1,
        full_scan_steps < emitted ==> rows_read(full_scan_steps, emitted) == emitted,
        rows_read(full_scan_steps, emitted) <= u64::MAX,
{
}

/// What binds in a request and reads out of one: an array of bytes as a BLOB of them, and a
/// BLOB as such an array; anything else as it does elsewhere. What reads out binds again as the
/// same bytes.
pub proof fn law_arrays_are_bytes(column: Column, json: Json, sql: SqlValue)
    requires
        d1_reads(column, json),
        d1_binds(json, sql),
        !values::bad_text(column),
        column matches Column::Real(r) ==> values::finite_real(r),
    ensures
        values::reads_as(column, sql),
        column is Blob ==> json is Array,
{
    match column {
        Column::Blob(bytes) => {
            if let Json::Array(items) = json {
                lemma_bytes_of_items(items@, bytes@);
            }
        },
        _ => {
            values::law_json_round_trip(column, json, sql);
        },
    }
}

proof fn lemma_bytes_of_items(items: Seq<Json>, bytes: Seq<u8>)
    requires
        items.len() == bytes.len(),
        forall|i: int|
            0 <= i < bytes.len() ==> #[trigger] items[i] == Json::Number(
                JsonNumber::Integer(bytes[i] as i64),
            ),
    ensures
        values::array_bytes(items) == bytes,
    decreases items.len(),
{
    if items.len() > 0 {
        let n = items.len() - 1;
        assert(items[n] == items.last());
        assert forall|i: int| 0 <= i < n implies #[trigger] items.drop_last()[i] == Json::Number(
            JsonNumber::Integer(bytes.drop_last()[i] as i64),
        ) by {
            assert(items[i] == Json::Number(JsonNumber::Integer(bytes[i] as i64)));
        }
        lemma_bytes_of_items(items.drop_last(), bytes.drop_last());
        assert(values::array_bytes(items) =~= bytes);
    } else {
        assert(values::array_bytes(items) =~= bytes);
    }
}

/// A length past the largest machine word counts as that, and any other as itself.
pub proof fn law_capped_length(n: nat)
    ensures
        n <= usize::MAX ==> capped(n) == n,
        n > usize::MAX ==> capped(n) == usize::MAX,
{
}

/// Which numbers are bytes: the integers from nought to 255.
pub proof fn law_bytes(item: Json)
    ensures
        item matches Json::Number(JsonNumber::Integer(n)) ==> is_byte(item) == (0 <= n <= 255),
        item matches Json::Number(JsonNumber::Natural { value, .. }) ==> is_byte(item) == (value
            <= 255),
        item matches Json::Number(JsonNumber::Real(_)) ==> !is_byte(item),
        !(item is Number) ==> !is_byte(item),
{
}

/// What is said of a result that is too large, or not text: which limit it passed.
pub proof fn law_limits_are_told(over: D1Over)
    ensures
        over is Rows ==> over_text(over) == TOO_MANY_ROWS@,
        over is Bytes ==> over_text(over) == TOO_MANY_BYTES@,
        over is Text ==> over_text(over)
            == "TEXT result is not valid UTF-8; store arbitrary bytes as a BLOB"@,
{
}

} // verus!
