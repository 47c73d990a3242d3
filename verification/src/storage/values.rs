//! SQL and JSON values, and the mappings between them.
//!
//! A double is carried as its bit pattern: nothing here computes with one.

use vstd::prelude::*;

use crate::numbers;
use crate::storage::sql_cursor::INVALID_UTF8_TEXT;
use crate::text;

verus! {

/// One SQL value, in SQLite's own five types.
pub enum SqlValue {
    Null,
    Integer(i64),
    /// The bit pattern of a double.
    Real(u64),
    Text(String),
    Blob(Vec<u8>),
}

/// One column of a result row as SQLite hands it out: TEXT is bytes that claim
/// to be UTF-8.
pub enum Column {
    Null,
    Integer(i64),
    /// The bit pattern of a double.
    Real(u64),
    Text(Vec<u8>),
    Blob(Vec<u8>),
}

/// A JSON number.
#[derive(Clone, Copy)]
pub enum JsonNumber {
    Integer(i64),
    /// A natural number above every `i64`, and the bit pattern of the nearest
    /// double.
    Natural { value: u64, bits: u64 },
    /// The bit pattern of a double.
    Real(u64),
}

/// The natural number that a JSON number is.
pub open spec fn natural(n: JsonNumber) -> Option<nat> {
    match n {
        JsonNumber::Integer(i) => if i >= 0 {
            Some(i as nat)
        } else {
            None
        },
        JsonNumber::Natural { value, .. } => Some(value as nat),
        JsonNumber::Real(_) => None,
    }
}

/// A JSON value.
pub enum Json {
    Null,
    Bool(bool),
    Number(JsonNumber),
    Text(String),
    Array(Vec<Json>),
    Object(Vec<(String, Json)>),
}

/// The member under which a BLOB travels in JSON.
pub const BYTES_MEMBER: &'static str = "__celld_bytes";

/// Whether `i` is the member of an object that a name selects: the first one.
pub open spec fn member_at(members: Seq<(String, Json)>, name: Seq<char>, i: int) -> bool {
    &&& 0 <= i < members.len()
    &&& members[i].0@ == name
    &&& forall|j: int| 0 <= j < i ==> (#[trigger] members[j]).0@ != name
}

/// The bytes of a JSON array: its natural numbers, each cut to its low byte.
/// What is no natural number is left out.
pub open spec fn array_bytes(items: Seq<Json>) -> Seq<u8>
    decreases items.len(),
{
    if items.len() == 0 {
        Seq::empty()
    } else {
        let head = array_bytes(items.drop_last());
        match items.last() {
            Json::Number(n) => match natural(n) {
                Some(value) => head.push((value % 256) as u8),
                None => head,
            },
            _ => head,
        }
    }
}

/// The bytes of the value that a bytes member holds: none where it is no array.
pub open spec fn member_bytes(value: Json) -> Seq<u8> {
    match value {
        Json::Array(items) => array_bytes(items@),
        _ => Seq::empty(),
    }
}

/// The SQL value of a JSON number: an integer where it fits, else a double.
pub open spec fn sql_number(n: JsonNumber) -> SqlValue {
    match n {
        JsonNumber::Integer(i) => SqlValue::Integer(i),
        JsonNumber::Natural { bits, .. } => SqlValue::Real(bits),
        JsonNumber::Real(bits) => SqlValue::Real(bits),
    }
}

/// Whether `sql` is what a JSON value binds as: a boolean is an integer, an
/// object with a bytes member is a BLOB, and what SQL cannot hold is NULL.
pub open spec fn binds_as(v: Json, sql: SqlValue) -> bool {
    match v {
        Json::Null => sql is Null,
        Json::Bool(b) => sql == SqlValue::Integer(
            if b {
                1
            } else {
                0
            },
        ),
        Json::Number(n) => sql == sql_number(n),
        Json::Text(s) => sql matches SqlValue::Text(t) && t@ == s@,
        Json::Array(_) => sql is Null,
        Json::Object(members) => if exists|i: int| member_at(members@, BYTES_MEMBER@, i) {
            exists|i: int|
                #[trigger] member_at(members@, BYTES_MEMBER@, i) && (sql matches SqlValue::Blob(
                    bytes,
                ) && bytes@ == member_bytes(members@[i].1))
        } else {
            sql is Null
        },
    }
}

/// The natural number that a JSON number is.
pub fn natural_of(n: JsonNumber) -> (value: Option<u64>)
    ensures
        match value {
            Some(value) => natural(n) == Some(value as nat),
            None => natural(n) is None,
        },
{
    match n {
        JsonNumber::Integer(i) => if i >= 0 {
            Some(i as u64)
        } else {
            None
        },
        JsonNumber::Natural { value, .. } => Some(value),
        JsonNumber::Real(_) => None,
    }
}

/// The SQL value of a JSON number.
pub fn number_to_sql(n: JsonNumber) -> (sql: SqlValue)
    ensures
        sql == sql_number(n),
{
    match n {
        JsonNumber::Integer(i) => SqlValue::Integer(i),
        JsonNumber::Natural { bits, .. } => SqlValue::Real(bits),
        JsonNumber::Real(bits) => SqlValue::Real(bits),
    }
}

fn bytes_of_array(items: &Vec<Json>) -> (bytes: Vec<u8>)
    ensures
        bytes@ == array_bytes(items@),
{
    let mut bytes: Vec<u8> = Vec::new();
    let mut i: usize = 0;
    while i < items.len()
        invariant
            i <= items@.len(),
            bytes@ == array_bytes(items@.take(i as int)),
        decreases items@.len() - i,
    {
        match &items[i] {
            Json::Number(n) => match natural_of(*n) {
                Some(value) => {
                    bytes.push((value % 256) as u8);
                },
                None => {},
            },
            _ => {},
        }
        i = i + 1;
        assert(items@.take(i as int).drop_last() =~= items@.take(i - 1));
    }
    assert(items@.take(i as int) =~= items@);
    bytes
}

fn find_member(members: &Vec<(String, Json)>, name: &str) -> (at: Option<usize>)
    ensures
        match at {
            Some(i) => member_at(members@, name@, i as int),
            None => forall|i: int| !member_at(members@, name@, i),
        },
{
    let mut i: usize = 0;
    while i < members.len()
        invariant
            i <= members@.len(),
            forall|j: int| 0 <= j < i ==> (#[trigger] members@[j]).0@ != name@,
        decreases members@.len() - i,
    {
        if text::same_text(&members[i].0, name) {
            return Some(i);
        }
        i = i + 1;
    }
    None
}

/// The SQL value that a JSON value binds as.
pub fn json_to_sql(v: &Json) -> (sql: SqlValue)
    ensures
        binds_as(*v, sql),
{
    match v {
        Json::Null => SqlValue::Null,
        Json::Bool(b) => SqlValue::Integer(
            if *b {
                1
            } else {
                0
            },
        ),
        Json::Number(n) => number_to_sql(*n),
        Json::Text(s) => SqlValue::Text(s.clone()),
        Json::Array(_) => SqlValue::Null,
        Json::Object(members) => {
            match find_member(members, BYTES_MEMBER) {
                Some(i) => match &members[i].1 {
                    Json::Array(items) => SqlValue::Blob(bytes_of_array(items)),
                    _ => SqlValue::Blob(Vec::new()),
                },
                None => SqlValue::Null,
            }
        },
    }
}

/// `String::from_utf8` accepts exactly valid UTF-8, and the string it returns
/// has those bytes.
#[verifier::external_body]
fn utf8_text(bytes: Vec<u8>) -> (out: Option<String>)
    ensures
        match out {
            Some(s) => vstd::utf8::valid_utf8(bytes@) && vstd::utf8::encode_utf8(s@) == bytes@,
            None => !vstd::utf8::valid_utf8(bytes@),
        },
{
    String::from_utf8(bytes).ok()
}

/// The text of a TEXT value. Bytes that are not UTF-8 are refused.
pub fn sql_text(bytes: Vec<u8>) -> (result: Result<String, &'static str>)
    ensures
        match result {
            Ok(s) => vstd::utf8::valid_utf8(bytes@) && vstd::utf8::encode_utf8(s@) == bytes@,
            Err(message) => !vstd::utf8::valid_utf8(bytes@) && message@ == INVALID_UTF8_TEXT@,
        },
{
    match utf8_text(bytes) {
        Some(s) => Ok(s),
        None => Err(INVALID_UTF8_TEXT),
    }
}

/// Whether a column is TEXT that is not UTF-8.
pub open spec fn bad_text(column: Column) -> bool {
    column matches Column::Text(bytes) && !vstd::utf8::valid_utf8(bytes@)
}

/// Whether `value` is what a column holds.
pub open spec fn reads_as(column: Column, value: SqlValue) -> bool {
    match column {
        Column::Null => value is Null,
        Column::Integer(i) => value == SqlValue::Integer(i),
        Column::Real(r) => value == SqlValue::Real(r),
        Column::Text(bytes) => value matches SqlValue::Text(s) && vstd::utf8::encode_utf8(s@)
            == bytes@,
        Column::Blob(bytes) => value matches SqlValue::Blob(b) && b@ == bytes@,
    }
}

/// The value of one column.
pub fn column_value(column: Column) -> (result: Result<SqlValue, &'static str>)
    ensures
        match result {
            Ok(value) => !bad_text(column) && reads_as(column, value),
            Err(message) => bad_text(column) && message@ == INVALID_UTF8_TEXT@,
        },
{
    match column {
        Column::Null => Ok(SqlValue::Null),
        Column::Integer(i) => Ok(SqlValue::Integer(i)),
        Column::Real(r) => Ok(SqlValue::Real(r)),
        Column::Text(bytes) => match sql_text(bytes) {
            Ok(s) => Ok(SqlValue::Text(s)),
            Err(message) => Err(message),
        },
        Column::Blob(bytes) => Ok(SqlValue::Blob(bytes)),
    }
}

/// The values of one row. The first TEXT that is not UTF-8 refuses the row.
pub fn sql_cursor_row(columns: Vec<Column>) -> (result: Result<Vec<SqlValue>, &'static str>)
    ensures
        match result {
            Ok(row) => row@.len() == columns@.len() && forall|i: int|
                0 <= i < columns@.len() ==> reads_as(#[trigger] columns@[i], row@[i]),
            Err(message) => message@ == INVALID_UTF8_TEXT@ && exists|i: int|
                0 <= i < columns@.len() && bad_text(#[trigger] columns@[i]),
        },
        result is Ok ==> forall|i: int|
            0 <= i < columns@.len() ==> !bad_text(#[trigger] columns@[i]),
{
    let ghost all = columns@;
    let mut rest = columns;
    let mut reversed: Vec<SqlValue> = Vec::new();
    while rest.len() > 0
        invariant
            all == columns@,
            rest@.len() + reversed@.len() == all.len(),
            forall|i: int| 0 <= i < rest@.len() ==> #[trigger] rest@[i] == all[i],
            forall|i: int|
                rest@.len() <= i < all.len() ==> reads_as(
                    #[trigger] all[i],
                    reversed@[all.len() - 1 - i],
                ) && !bad_text(all[i]),
        decreases rest@.len(),
    {
        let ghost n = rest@.len();
        match rest.pop() {
            None => {},
            Some(column) => {
                assert(column == all[n - 1]);
                match column_value(column) {
                    Err(message) => {
                        assert(bad_text(all[n - 1]));
                        return Err(message);
                    },
                    Ok(value) => {
                        reversed.push(value);
                    },
                }
            },
        }
    }
    let mut row: Vec<SqlValue> = Vec::new();
    while reversed.len() > 0
        invariant
            row@.len() + reversed@.len() == all.len(),
            forall|i: int|
                0 <= i < row@.len() ==> reads_as(#[trigger] all[i], row@[i]) && !bad_text(all[i]),
            forall|i: int|
                row@.len() <= i < all.len() ==> reads_as(
                    #[trigger] all[i],
                    reversed@[all.len() - 1 - i],
                ) && !bad_text(all[i]),
        decreases reversed@.len(),
    {
        match reversed.pop() {
            None => {},
            Some(value) => {
                row.push(value);
            },
        }
    }
    Ok(row)
}

/// What a stored value is: the JSON text of an older cell, or V8's own format.
pub enum StoredValue {
    LegacyJson(String),
    V8(Vec<u8>),
}

/// Whether a bit pattern is a finite double: its exponent is not all ones.
pub open spec fn finite_real(bits: u64) -> bool {
    (bits / 0x10_0000_0000_0000) % 2048 != 2047
}

/// Whether `json` is what a column reads as in JSON: a BLOB is an object with a
/// bytes member, and a double that JSON cannot write is null.
pub open spec fn json_reads(column: Column, json: Json) -> bool {
    match column {
        Column::Null => json is Null,
        Column::Integer(i) => json == Json::Number(JsonNumber::Integer(i)),
        Column::Real(r) => if finite_real(r) {
            json == Json::Number(JsonNumber::Real(r))
        } else {
            json is Null
        },
        Column::Text(bytes) => json matches Json::Text(s) && vstd::utf8::encode_utf8(s@) == bytes@,
        Column::Blob(bytes) => {
            &&& json matches Json::Object(members)
            &&& members@.len() == 1
            &&& members@[0].0@ == BYTES_MEMBER@
            &&& members@[0].1 matches Json::Array(items)
            &&& items@.len() == bytes@.len()
            &&& forall|i: int|
                0 <= i < bytes@.len() ==> #[trigger] items@[i] == Json::Number(
                    JsonNumber::Integer(bytes@[i] as i64),
                )
        },
    }
}

/// The bytes of a BLOB as JSON numbers.
pub fn byte_items(bytes: &Vec<u8>) -> (items: Vec<Json>)
    ensures
        items@.len() == bytes@.len(),
        forall|i: int|
            0 <= i < bytes@.len() ==> #[trigger] items@[i] == Json::Number(
                JsonNumber::Integer(bytes@[i] as i64),
            ),
{
    let mut items: Vec<Json> = Vec::new();
    let mut i: usize = 0;
    while i < bytes.len()
        invariant
            i <= bytes@.len(),
            items@.len() == i,
            forall|j: int|
                0 <= j < i ==> #[trigger] items@[j] == Json::Number(
                    JsonNumber::Integer(bytes@[j] as i64),
                ),
        decreases bytes@.len() - i,
    {
        items.push(Json::Number(JsonNumber::Integer(bytes[i] as i64)));
        i = i + 1;
    }
    items
}

/// A column in JSON.
pub fn vref_to_json(column: Column) -> (result: Result<Json, &'static str>)
    ensures
        match result {
            Ok(json) => !bad_text(column) && json_reads(column, json),
            Err(message) => bad_text(column) && message@ == INVALID_UTF8_TEXT@,
        },
{
    match column {
        Column::Null => Ok(Json::Null),
        Column::Integer(i) => Ok(Json::Number(JsonNumber::Integer(i))),
        Column::Real(r) => if (r / 0x10_0000_0000_0000) % 2048 != 2047 {
            Ok(Json::Number(JsonNumber::Real(r)))
        } else {
            Ok(Json::Null)
        },
        Column::Text(bytes) => match sql_text(bytes) {
            Ok(s) => Ok(Json::Text(s)),
            Err(message) => Err(message),
        },
        Column::Blob(bytes) => {
            let items = byte_items(&bytes);
            let mut members: Vec<(String, Json)> = Vec::new();
            members.push((BYTES_MEMBER.to_owned(), Json::Array(items)));
            Ok(Json::Object(members))
        },
    }
}

proof fn lemma_byte_items(items: Seq<Json>, bytes: Seq<u8>)
    requires
        items.len() == bytes.len(),
        forall|i: int|
            0 <= i < bytes.len() ==> #[trigger] items[i] == Json::Number(
                JsonNumber::Integer(bytes[i] as i64),
            ),
    ensures
        array_bytes(items) == bytes,
    decreases items.len(),
{
    if items.len() > 0 {
        let n = items.len() - 1;
        assert forall|i: int|
            0 <= i < bytes.drop_last().len() implies #[trigger] items.drop_last()[i]
            == Json::Number(JsonNumber::Integer(bytes.drop_last()[i] as i64)) by {
            assert(items[i] == Json::Number(JsonNumber::Integer(bytes[i] as i64)));
        }
        lemma_byte_items(items.drop_last(), bytes.drop_last());
        assert(items[n] == Json::Number(JsonNumber::Integer(bytes[n] as i64)));
        assert(bytes.drop_last().push(bytes[n]) =~= bytes);
    } else {
        assert(bytes =~= Seq::<u8>::empty());
    }
}

/// A value that is read out as JSON and bound back is the same value. A double
/// that JSON cannot write is the exception: it comes back as NULL.
pub proof fn law_json_round_trip(column: Column, json: Json, sql: SqlValue)
    requires
        !bad_text(column),
        json_reads(column, json),
        binds_as(json, sql),
        column matches Column::Real(r) ==> finite_real(r),
    ensures
        reads_as(column, sql),
{
    match column {
        Column::Blob(bytes) => {
            match json {
                Json::Object(members) => {
                    assert(member_at(members@, BYTES_MEMBER@, 0));
                    let i = choose|i: int|
                        #[trigger] member_at(members@, BYTES_MEMBER@, i) && (sql matches SqlValue::Blob(
                            b,
                        ) && b@ == member_bytes(members@[i].1));
                    assert(i == 0);
                    match members@[0].1 {
                        Json::Array(items) => {
                            lemma_byte_items(items@, bytes@);
                        },
                        _ => {},
                    }
                },
                _ => {},
            }
        },
        _ => {},
    }
}

/// The text that replaces every part that is not UTF-8.
pub uninterp spec fn lossy_text(bytes: Seq<u8>) -> Seq<char>;

/// `String::from_utf8_lossy` keeps valid UTF-8 as it is; what it makes of other
/// bytes depends on the bytes alone.
#[verifier::external_body]
pub(crate) fn text_lossy(bytes: &[u8]) -> (out: String)
    ensures
        out@ == lossy_text(bytes@),
        vstd::utf8::valid_utf8(bytes@) ==> vstd::utf8::encode_utf8(out@) == bytes@,
{
    String::from_utf8_lossy(bytes).into_owned()
}

/// Whether a key-value row holds a value: a BLOB is V8's own format, TEXT is JSON,
/// and any other value is the JSON text that stands for it. `real_text` is the text of
/// the row's REAL.
pub open spec fn is_stored(column: Column, real_text: Seq<char>, value: StoredValue) -> bool {
    match (column, value) {
        (Column::Blob(bytes), StoredValue::V8(held)) => held == bytes,
        (Column::Text(bytes), StoredValue::LegacyJson(s)) => s@ == lossy_text(bytes@) && (
        vstd::utf8::valid_utf8(bytes@) ==> vstd::utf8::encode_utf8(s@) == bytes@),
        (Column::Null, StoredValue::LegacyJson(s)) => s@ == "null"@,
        (Column::Integer(n), StoredValue::LegacyJson(s)) => s@ == numbers::signed_text(n as int),
        (Column::Real(_), StoredValue::LegacyJson(s)) => s@ == real_text,
        _ => false,
    }
}

/// What a key-value row holds, given the text of its REAL.
pub fn stored_value(column: Column, real_text: &str) -> (value: StoredValue)
    ensures
        is_stored(column, real_text@, value),
{
    match column {
        Column::Blob(bytes) => StoredValue::V8(bytes),
        Column::Text(bytes) => StoredValue::LegacyJson(text_lossy(&bytes)),
        Column::Null => StoredValue::LegacyJson("null".to_string()),
        Column::Integer(n) => StoredValue::LegacyJson(numbers::signed_decimal(n)),
        Column::Real(_) => StoredValue::LegacyJson(real_text.to_owned()),
    }
}

/// What a JSON value binds as: null as NULL, a boolean as one or nought, an integer as itself,
/// any other number as a REAL of its bits, a text as itself; an array, and an object without
/// the member for bytes, as NULL, and an object with it as a BLOB of the bytes under it.
pub proof fn law_json_binds(value: Json, sql: SqlValue, i: int)
    requires
        binds_as(value, sql),
    ensures
        value is Null || value is Array ==> sql is Null,
        value matches Json::Bool(b) ==> sql == SqlValue::Integer(
            if b {
                1
            } else {
                0
            },
        ),
        value matches Json::Number(JsonNumber::Integer(n)) ==> sql == SqlValue::Integer(n),
        value matches Json::Number(JsonNumber::Real(bits)) ==> sql == SqlValue::Real(bits),
        value matches Json::Number(JsonNumber::Natural { bits, .. }) ==> sql == SqlValue::Real(bits),
        value matches Json::Text(s) ==> (sql matches SqlValue::Text(t) && t@ == s@),
        value matches Json::Object(members) ==> (forall|j: int|
            0 <= j < members@.len() ==> (#[trigger] members@[j]).0@ != "__celld_bytes"@) ==> sql
            is Null,
        value matches Json::Object(members) ==> 0 <= i < members@.len() && members@[i].0@
            == "__celld_bytes"@ && (forall|j: int|
            0 <= j < i ==> (#[trigger] members@[j]).0@ != "__celld_bytes"@) ==> (
        sql matches SqlValue::Blob(bytes) && bytes@ == (match members@[i].1 {
            Json::Array(items) => array_bytes(items@),
            _ => Seq::<u8>::empty(),
        })),
{
    if let Json::Object(members) = value {
        if 0 <= i < members@.len() && members@[i].0@ == "__celld_bytes"@ && (forall|j: int|
            0 <= j < i ==> (#[trigger] members@[j]).0@ != "__celld_bytes"@) {
            assert(member_at(members@, BYTES_MEMBER@, i));
            let k = choose|k: int|
                #[trigger] member_at(members@, BYTES_MEMBER@, k) && (sql matches SqlValue::Blob(
                    bytes,
                ) && bytes@ == member_bytes(members@[k].1));
            if k < i {
                assert(members@[k].0@ != "__celld_bytes"@);
            } else if i < k {
                assert(members@[i].0@ != BYTES_MEMBER@);
            }
        }
    }
}

/// The bytes of an array, item by item: a natural number gives its lowest byte, and anything
/// else gives none.
pub proof fn law_array_bytes(items: Seq<Json>, item: Json)
    ensures
        array_bytes(Seq::<Json>::empty()).len() == 0,
        item matches Json::Number(JsonNumber::Integer(n)) ==> n >= 0 ==> array_bytes(
            items.push(item),
        ) == array_bytes(items).push((n as int % 256) as u8),
        item matches Json::Number(JsonNumber::Natural { value, .. }) ==> array_bytes(
            items.push(item),
        ) == array_bytes(items).push((value as int % 256) as u8),
        item matches Json::Number(JsonNumber::Integer(n)) ==> n < 0 ==> array_bytes(
            items.push(item),
        ) == array_bytes(items),
        !(item is Number) ==> array_bytes(items.push(item)) == array_bytes(items),
        item matches Json::Number(JsonNumber::Real(_)) ==> array_bytes(items.push(item))
            == array_bytes(items),
{
    assert(items.push(item).drop_last() =~= items);
}

/// What a column reads as, in SQL and in JSON: an integer, a real, a text and the bytes of a
/// BLOB each as themselves; a real that JSON cannot write is null there.
pub proof fn law_column_reads(column: Column, value: SqlValue, json: Json)
    ensures
        reads_as(column, value) ==> (column is Null <==> value is Null) && (column is Integer
            <==> value is Integer) && (column is Real <==> value is Real) && (column is Text
            <==> value is Text) && (column is Blob <==> value is Blob),
        reads_as(column, value) ==> (column matches Column::Integer(n) ==> value
            == SqlValue::Integer(n)),
        reads_as(column, value) ==> (column matches Column::Real(r) ==> value == SqlValue::Real(r)),
        reads_as(column, value) ==> (column matches Column::Blob(bytes) ==> (
        value matches SqlValue::Blob(b) && b@ == bytes@)),
        reads_as(column, value) ==> (column matches Column::Text(bytes) ==> (
        value matches SqlValue::Text(s) && vstd::utf8::encode_utf8(s@) == bytes@)),
        json_reads(column, json) ==> (column is Null ==> json is Null),
        json_reads(column, json) ==> (column matches Column::Integer(n) ==> json == Json::Number(
            JsonNumber::Integer(n),
        )),
        json_reads(column, json) ==> (column matches Column::Real(r) ==> if finite_real(r) {
            json == Json::Number(JsonNumber::Real(r))
        } else {
            json is Null
        }),
        json_reads(column, json) ==> (column matches Column::Text(bytes) ==> (
        json matches Json::Text(s) && vstd::utf8::encode_utf8(s@) == bytes@)),
        json_reads(column, json) ==> (column matches Column::Blob(bytes) ==> json is Object),
        bad_text(column) <==> (column matches Column::Text(bytes) && !vstd::utf8::valid_utf8(
            bytes@,
        )),
{
}

/// A real is finite unless the eleven bits of its exponent are all set; its sign and its
/// fraction do not matter.
pub proof fn law_finite_real(sign: u64, exponent: u64, fraction: u64)
    requires
        sign < 2,
        exponent < 2048,
        fraction < 0x10_0000_0000_0000,
    ensures
        ({
            let bits = sign * 0x8000_0000_0000_0000 + exponent * 0x10_0000_0000_0000 + fraction;
            bits <= u64::MAX && (finite_real(bits as u64) <==> exponent != 2047)
        }),
{
    let bits = sign * 0x8000_0000_0000_0000 + exponent * 0x10_0000_0000_0000 + fraction;
    let high = sign * 2048 + exponent;
    assert(bits == high * 0x10_0000_0000_0000 + fraction);
    assert(bits / 0x10_0000_0000_0000 == high);
    assert(high % 2048 == exponent);
}

/// A stored value: a BLOB is a structured clone of its bytes; anything else is the JSON text of
/// an older cell: a text as it is, `null`, an integer in decimal, or the real's own text.
pub proof fn law_stored_value(column: Column, real_text: Seq<char>, value: StoredValue)
    requires
        is_stored(column, real_text, value),
    ensures
        value is V8 <==> column is Blob,
        column matches Column::Blob(bytes) ==> value == StoredValue::V8(bytes),
        value matches StoredValue::LegacyJson(s) ==> {
            &&& column is Null ==> s@ == "null"@
            &&& column matches Column::Integer(n) ==> numbers::integer_text(s@) == Some(n as int)
            &&& column is Real ==> s@ == real_text
            &&& column matches Column::Text(bytes) ==> vstd::utf8::valid_utf8(bytes@)
                ==> vstd::utf8::encode_utf8(s@) == bytes@
        },
{
    if let Column::Integer(n) = column {
        if n >= 0 {
            numbers::law_decimal_reads_back(n as nat);
        } else {
            numbers::law_decimal_reads_back((-(n as int)) as nat);
        }
    }
}

} // verus!
