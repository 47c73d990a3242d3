//! The development store: one database of objects on one machine.
//!
//! A conditional write holds its tag against the stored one and installs the new
//! object in one transaction. Every write takes the next tag of one sequence, so
//! no tag ever comes twice.

use vstd::prelude::*;

use crate::bucket::backend::PutMode;
use crate::numbers;
use crate::text;

verus! {

broadcast use vstd::string::group_string_axioms;

/// Why a write is refused.
#[derive(Clone, Copy, Debug, PartialEq, Eq, Structural)]
pub enum PutRefusal {
    /// A create found an object.
    AlreadyExists,
    /// An update did not find the version that it names.
    Precondition,
}

/// A tag as a client sees it.
pub open spec fn tag_text(etag: i64) -> Seq<char> {
    numbers::signed_text(etag as int)
}

/// Whether a write is refused, given the stored tag.
pub open spec fn refusal_of(mode: PutMode, current: Option<i64>) -> Option<PutRefusal> {
    match mode {
        PutMode::Overwrite => None,
        PutMode::Create => if current is Some {
            Some(PutRefusal::AlreadyExists)
        } else {
            None
        },
        PutMode::Update(version) => match (current, version.e_tag) {
            (Some(current), Some(tag)) => if tag@ == tag_text(current) {
                None
            } else {
                Some(PutRefusal::Precondition)
            },
            _ => Some(PutRefusal::Precondition),
        },
    }
}

/// Whether a write is refused, given the tag of the object that is stored.
pub fn put_refusal(mode: &PutMode, current: Option<i64>) -> (refusal: Option<PutRefusal>)
    ensures
        refusal == refusal_of(*mode, current),
{
    match mode {
        PutMode::Overwrite => None,
        PutMode::Create => if current.is_some() {
            Some(PutRefusal::AlreadyExists)
        } else {
            None
        },
        PutMode::Update(version) => {
            let tag: &String = match &version.e_tag {
                Some(tag) => tag,
                None => {
                    return Some(PutRefusal::Precondition);
                },
            };
            match current {
                None => Some(PutRefusal::Precondition),
                Some(current) => {
                    let stored = numbers::signed_decimal(current);
                    if text::same_text(tag.as_str(), stored.as_str()) {
                        None
                    } else {
                        Some(PutRefusal::Precondition)
                    }
                },
            }
        },
    }
}

/// How an object is copied: over whatever is there, or only where nothing is.
pub fn copy_mode(create: bool) -> (mode: PutMode)
    ensures
        create ==> mode is Create,
        !create ==> mode is Overwrite,
{
    if create {
        PutMode::Create
    } else {
        PutMode::Overwrite
    }
}

/// The row of an object, but for its key.
pub struct ObjectRow {
    pub body: Vec<u8>,
    pub etag: i64,
    /// Milliseconds since 1970.
    pub modified_ms: i64,
    /// The attributes as they are stored.
    pub attributes: String,
}

/// The same, as a mathematical value.
pub struct RowView {
    pub body: Seq<u8>,
    pub etag: i64,
    pub modified_ms: i64,
    pub attributes: Seq<char>,
}

impl View for ObjectRow {
    type V = RowView;

    open spec fn view(&self) -> RowView {
        RowView {
            body: self.body@,
            etag: self.etag,
            modified_ms: self.modified_ms,
            attributes: self.attributes@,
        }
    }
}

/// What a write that is not refused does: the row that replaces the object's, the
/// sequence's next tag, and the tag that the client is told.
pub struct Put {
    pub row: ObjectRow,
    pub next_etag: i64,
    pub e_tag: String,
}

/// Write an object, given the tag of the one that is stored and the next tag of the
/// sequence.
pub fn put_sync(
    mode: &PutMode,
    current: Option<i64>,
    next_etag: i64,
    body: Vec<u8>,
    modified_ms: i64,
    attributes: String,
) -> (put: Result<Put, PutRefusal>)
    requires
        next_etag < i64::MAX,
    ensures
        match put {
            Ok(put) => {
                &&& refusal_of(*mode, current) is None
                &&& put.row@ == (RowView {
                    body: body@,
                    etag: next_etag,
                    modified_ms,
                    attributes: attributes@,
                })
                &&& put.next_etag == next_etag + 1
                &&& put.e_tag@ == tag_text(next_etag)
            },
            Err(refusal) => refusal_of(*mode, current) == Some(refusal),
        },
{
    match put_refusal(mode, current) {
        Some(refusal) => Err(refusal),
        None => Ok(
            Put {
                row: ObjectRow { body, etag: next_etag, modified_ms, attributes },
                next_etag: next_etag + 1,
                e_tag: numbers::signed_decimal(next_etag),
            },
        ),
    }
}

/// The store: the row of each object, and the next tag.
pub struct Store {
    pub rows: Map<Seq<char>, RowView>,
    pub next: i64,
}

/// Whether every stored tag was given out before the next one.
pub open spec fn store_wf(store: Store) -> bool {
    forall|key: Seq<char>| #[trigger]
        store.rows.dom().contains(key) ==> store.rows[key].etag < store.next
}

/// What a read of a key gives.
pub open spec fn read(store: Store, key: Seq<char>) -> Option<RowView> {
    if store.rows.dom().contains(key) {
        Some(store.rows[key])
    } else {
        None
    }
}

/// The tag that is stored for a key.
pub open spec fn stored_tag(store: Store, key: Seq<char>) -> Option<i64> {
    match read(store, key) {
        Some(row) => Some(row.etag),
        None => None,
    }
}

/// The store after a write: unchanged where it is refused, and else with what
/// `put_sync` writes.
pub open spec fn after_put(
    store: Store,
    key: Seq<char>,
    mode: PutMode,
    body: Seq<u8>,
    modified_ms: i64,
    attributes: Seq<char>,
) -> Store {
    if refusal_of(mode, stored_tag(store, key)) is Some {
        store
    } else {
        Store {
            rows: store.rows.insert(
                key,
                RowView { body, etag: store.next, modified_ms, attributes },
            ),
            next: (store.next + 1) as i64,
        }
    }
}

/// The store after a deletion.
pub open spec fn after_delete(store: Store, key: Seq<char>) -> Store {
    Store { rows: store.rows.remove(key), ..store }
}

/// A write is read back. An overwrite is always applied, a create where there is no
/// object, and an update where the object has the tag that it names. What is applied
/// is what a read of the key gives then, and no other object changes; what is refused
/// changes nothing.
pub proof fn law_put_is_read_back(
    store: Store,
    key: Seq<char>,
    mode: PutMode,
    body: Seq<u8>,
    modified_ms: i64,
    attributes: Seq<char>,
)
    ensures
        ({
            let after = after_put(store, key, mode, body, modified_ms, attributes);
            let current = stored_tag(store, key);
            let applied = match mode {
                PutMode::Overwrite => true,
                PutMode::Create => current is None,
                PutMode::Update(version) => current is Some && version.e_tag is Some
                    && version.e_tag->0@ == tag_text(current->0),
            };
            &&& applied <==> refusal_of(mode, current) is None
            &&& !applied ==> after == store && refusal_of(mode, current) == Some(
                if mode is Create {
                    PutRefusal::AlreadyExists
                } else {
                    PutRefusal::Precondition
                },
            )
            &&& applied ==> read(after, key) == Some(
                RowView { body, etag: store.next, modified_ms, attributes },
            )
            &&& forall|other: Seq<char>|
                other != key ==> #[trigger] read(after, other) == read(store, other)
        }),
{
}

/// No tag comes twice: a write takes one that is above every stored one, and each
/// later one is above it, whatever is deleted in between.
pub proof fn law_tags_are_fresh(
    store: Store,
    key: Seq<char>,
    mode: PutMode,
    body: Seq<u8>,
    modified_ms: i64,
    attributes: Seq<char>,
    other: Seq<char>,
)
    requires
        store_wf(store),
        store.next < i64::MAX,
    ensures
        ({
            let after = after_put(store, key, mode, body, modified_ms, attributes);
            &&& store_wf(after)
            &&& store_wf(after_delete(store, key))
            &&& after_delete(store, key).next == store.next
            &&& after.next >= store.next
            &&& refusal_of(mode, stored_tag(store, key)) is None ==> {
                &&& stored_tag(after, key) == Some(store.next)
                &&& after.next > store.next
                &&& stored_tag(store, other) matches Some(tag) ==> tag < store.next
            }
        }),
{
}

/// A tag fences: once the object was written again, an update with the tag that it
/// had before is refused, and leaves the store as it is.
pub proof fn law_stale_update_is_refused(
    store: Store,
    key: Seq<char>,
    first: PutMode,
    second: PutMode,
    body: Seq<u8>,
    modified_ms: i64,
    attributes: Seq<char>,
    held: i64,
)
    requires
        store_wf(store),
        store.next < i64::MAX,
        stored_tag(store, key) == Some(held),
        refusal_of(first, Some(held)) is None,
        second matches PutMode::Update(version) && version.e_tag matches Some(tag) && tag@
            == tag_text(held),
    ensures
        ({
            let after = after_put(store, key, first, body, modified_ms, attributes);
            &&& refusal_of(second, stored_tag(after, key)) == Some(PutRefusal::Precondition)
            &&& forall|again: Seq<u8>|
                #[trigger] after_put(after, key, second, again, modified_ms, attributes) == after
        }),
{
    lemma_tag_texts_differ(held, store.next);
}

/// A current tag is accepted, and a create is refused as long as there is an
/// object.
pub proof fn law_current_update_is_applied(store: Store, key: Seq<char>, held: i64, mode: PutMode)
    requires
        stored_tag(store, key) == Some(held),
        mode matches PutMode::Update(version) && version.e_tag matches Some(tag) && tag@
            == tag_text(held),
    ensures
        refusal_of(mode, stored_tag(store, key)) is None,
        refusal_of(PutMode::Create, stored_tag(store, key)) == Some(PutRefusal::AlreadyExists),
{
}

/// The digits of two numbers are the same only where the numbers are.
proof fn lemma_decimal_differs(a: nat, b: nat)
    requires
        a != b,
    ensures
        numbers::decimal_text(a) != numbers::decimal_text(b),
    decreases a,
{
    let x = numbers::decimal_text(a);
    let y = numbers::decimal_text(b);
    lemma_decimal_shape(a);
    lemma_decimal_shape(b);
    if a % 10 != b % 10 {
        assert(x.last() != y.last());
    } else if a >= 10 && b >= 10 {
        lemma_decimal_differs(a / 10, b / 10);
        assert(x.drop_last() =~= numbers::decimal_text(a / 10));
        assert(y.drop_last() =~= numbers::decimal_text(b / 10));
    } else if a < 10 && b < 10 {
    } else {
        assert(x.len() != y.len());
    }
}

proof fn lemma_decimal_shape(n: nat)
    ensures
        numbers::decimal_text(n).len() >= 1,
        n >= 10 ==> numbers::decimal_text(n).len() >= 2,
        numbers::decimal_text(n).last() as u32 == 48 + n % 10,
        numbers::decimal_text(n)[0] as u32 != 45,
        forall|i: int|
            0 <= i < numbers::decimal_text(n).len() ==> 48 <= (#[trigger] numbers::decimal_text(
                n,
            )[i]) as u32 <= 57,
    decreases n,
{
    if n >= 10 {
        lemma_decimal_shape(n / 10);
    }
}

proof fn lemma_tag_texts_differ(a: i64, b: i64)
    requires
        a != b,
    ensures
        tag_text(a) != tag_text(b),
{
    let x: nat = (if a < 0 {
        -a
    } else {
        a as int
    }) as nat;
    let y: nat = (if b < 0 {
        -b
    } else {
        b as int
    }) as nat;
    lemma_decimal_shape(x);
    lemma_decimal_shape(y);
    if (a < 0) == (b < 0) {
        lemma_decimal_differs(x, y);
        if a < 0 {
            assert(tag_text(a).skip(1) =~= numbers::decimal_text(x));
            assert(tag_text(b).skip(1) =~= numbers::decimal_text(y));
        }
    } else {
        assert(tag_text(a)[0] != tag_text(b)[0]);
    }
}

/// A version's tag is its number in decimal, which reads back as that number.
pub proof fn law_tags_are_numbers(etag: i64)
    ensures
        numbers::integer_text(tag_text(etag)) == Some(etag as int),
{
    if etag >= 0 {
        numbers::law_decimal_reads_back(etag as nat);
    } else {
        numbers::law_decimal_reads_back((-(etag as int)) as nat);
    }
}

} // verus!
