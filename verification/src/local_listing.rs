//! The development store's listings.

use vstd::prelude::*;

use crate::numbers;
use crate::text;

verus! {

broadcast use vstd::string::group_string_axioms;

/// An object's row, without its body.
pub struct StoredObject {
    pub key: String,
    pub size: u64,
    pub etag: i64,
    pub modified_ms: i64,
}

/// What a listing says of an object.
pub struct LocalMeta {
    pub location: String,
    /// Milliseconds since 1970.
    pub last_modified_ms: u64,
    pub size: u64,
    pub e_tag: String,
}

/// A path as an object store has it: what `object_store::path::Path` makes of a
/// text.
pub uninterp spec fn path_of(s: Seq<char>) -> Seq<char>;

/// `object_store::path::Path::from`: a text as a path, with its parts encoded and
/// the empty ones left out.
#[verifier::external_body]
pub(crate) fn object_path(s: &str) -> (path: String)
    ensures
        path@ == path_of(s@),
{
    object_store::path::Path::from(s).into()
}

/// Whether a listing says this of an object.
pub open spec fn is_meta(meta: LocalMeta, object: StoredObject) -> bool {
    &&& meta.location@ == path_of(object.key@)
    &&& meta.last_modified_ms == if object.modified_ms > 0 {
        object.modified_ms as int
    } else {
        0
    }
    &&& meta.size == object.size
    &&& meta.e_tag@ == numbers::signed_text(object.etag as int)
}

/// What a listing says of an object; a moment before 1970 counts as its start.
pub fn object_meta(object: &StoredObject) -> (meta: LocalMeta)
    ensures
        is_meta(meta, *object),
{
    let modified: u64 = if object.modified_ms > 0 {
        object.modified_ms as u64
    } else {
        0
    };
    LocalMeta {
        location: object_path(object.key.as_str()),
        last_modified_ms: modified,
        size: object.size,
        e_tag: numbers::signed_decimal(object.etag),
    }
}

/// What stands behind a prefix of a path, and the separator: nothing where the
/// prefix does not end with a part of the path.
pub open spec fn below(path: Seq<char>, prefix: Seq<char>) -> Option<Seq<char>> {
    if !text::begins_with(path, prefix) {
        None
    } else {
        let rest = path.skip(prefix.len() as int);
        if rest.len() == 0 || prefix.len() == 0 {
            Some(rest)
        } else if rest[0] == '/' {
            Some(rest.skip(1))
        } else {
            None
        }
    }
}

/// The first part of a path, and whether more follows.
pub open spec fn first_part(rest: Seq<char>) -> (Seq<char>, bool) {
    match rest.index_of_first('/') {
        Some(i) => (rest.take(i), i + 1 < rest.len()),
        None => (rest, false),
    }
}

/// A part below a path.
pub open spec fn child_of(prefix: Seq<char>, part: Seq<char>) -> Seq<char> {
    if prefix.len() == 0 {
        part
    } else {
        prefix + "/"@ + part
    }
}

fn remainder(path: &[char], prefix: &[char]) -> (rest: Option<Vec<char>>)
    ensures
        match rest {
            Some(rest) => below(path@, prefix@) == Some(rest@),
            None => below(path@, prefix@) is None,
        },
{
    if !text::starts_with(path, prefix) {
        return None;
    }
    let length: usize = path.len();
    let from: usize = prefix.len();
    let rest = text::cut(path, from, length);
    assert(rest@ =~= path@.skip(prefix@.len() as int));
    if rest.len() == 0 || from == 0 {
        return Some(rest);
    }
    if rest[0] == '/' {
        let tail = text::cut(&rest, 1, rest.len());
        assert(tail@ =~= rest@.skip(1));
        Some(tail)
    } else {
        None
    }
}

/// Whether an object is listed below a prefix.
pub open spec fn listed(object: StoredObject, prefix: Option<Seq<char>>) -> bool {
    match prefix {
        None => true,
        Some(prefix) => below(path_of(object.key@), prefix) matches Some(rest) && rest.len() > 0,
    }
}

/// The objects that are listed below a prefix.
pub open spec fn listed_objects(objects: Seq<StoredObject>, prefix: Option<Seq<char>>) -> Seq<
    StoredObject,
>
    decreases objects.len(),
{
    if objects.len() == 0 {
        Seq::empty()
    } else {
        let before = listed_objects(objects.drop_last(), prefix);
        if listed(objects.last(), prefix) {
            before.push(objects.last())
        } else {
            before
        }
    }
}

/// Whether metadata is that of these objects, one for one.
pub open spec fn metas_of(metas: Seq<LocalMeta>, objects: Seq<StoredObject>) -> bool {
    &&& metas.len() == objects.len()
    &&& forall|i: int| 0 <= i < metas.len() ==> is_meta(#[trigger] metas[i], objects[i])
}

fn is_listed(object: &StoredObject, prefix: Option<&str>) -> (answer: bool)
    ensures
        answer == listed(
            *object,
            match prefix {
                Some(prefix) => Some(prefix@),
                None => None,
            },
        ),
{
    match prefix {
        None => true,
        Some(prefix) => {
            let path = object_path(object.key.as_str());
            let path = text::chars_of(path.as_str());
            let prefix = text::chars_of(prefix);
            match remainder(&path, &prefix) {
                Some(rest) => rest.len() > 0,
                None => false,
            }
        },
    }
}

/// Every object below a prefix, in the order of the keys.
pub fn list(objects: &Vec<StoredObject>, prefix: Option<&str>) -> (metas: Vec<LocalMeta>)
    ensures
        metas_of(
            metas@,
            listed_objects(
                objects@,
                match prefix {
                    Some(prefix) => Some(prefix@),
                    None => None,
                },
            ),
        ),
{
    let ghost scope: Option<Seq<char>> = match prefix {
        Some(prefix) => Some(prefix@),
        None => None,
    };
    let mut metas: Vec<LocalMeta> = Vec::new();
    let mut i: usize = 0;
    assert(objects@.take(0).len() == 0);
    while i < objects.len()
        invariant
            i <= objects@.len(),
            scope == match prefix {
                Some(prefix) => Some(prefix@),
                None => None,
            },
            metas_of(metas@, listed_objects(objects@.take(i as int), scope)),
        decreases objects@.len() - i,
    {
        proof {
            assert(objects@.take(i + 1).drop_last() =~= objects@.take(i as int));
            assert(objects@.take(i + 1).last() == objects@[i as int]);
        }
        if is_listed(&objects[i], prefix) {
            metas.push(object_meta(&objects[i]));
        }
        i = i + 1;
    }
    assert(objects@.take(objects@.len() as int) =~= objects@);
    metas
}

/// What a listing of one level shows of an object: nothing, itself, or the child
/// that it lies below.
pub enum Shown {
    Nothing,
    Itself,
    Child(Seq<char>),
}

/// What a listing of one level shows of a path.
pub open spec fn shown(path: Seq<char>, prefix: Seq<char>) -> Shown {
    match below(path, prefix) {
        None => Shown::Nothing,
        Some(rest) => if rest.len() == 0 {
            Shown::Nothing
        } else {
            let (part, more) = first_part(rest);
            if more {
                Shown::Child(child_of(prefix, part))
            } else {
                Shown::Itself
            }
        },
    }
}

/// The objects of one level.
pub open spec fn level_objects(objects: Seq<StoredObject>, prefix: Seq<char>) -> Seq<StoredObject>
    decreases objects.len(),
{
    if objects.len() == 0 {
        Seq::empty()
    } else {
        let before = level_objects(objects.drop_last(), prefix);
        if shown(path_of(objects.last().key@), prefix) is Itself {
            before.push(objects.last())
        } else {
            before
        }
    }
}

/// Whether some object lies below a child.
pub open spec fn has_child(objects: Seq<StoredObject>, prefix: Seq<char>, child: Seq<char>) -> bool {
    exists|i: int|
        0 <= i < objects.len() && shown(path_of((#[trigger] objects[i]).key@), prefix)
            == Shown::Child(child)
}

/// Whether texts ascend strictly.
pub open spec fn ascending(s: Seq<String>) -> bool {
    forall|i: int, j: int|
        0 <= i < j < s.len() ==> text::text_lt((#[trigger] s[i])@, (#[trigger] s[j])@)
}

/// One level of the store: its children, each once and in order, and its objects.
pub struct LevelListing {
    pub common_prefixes: Vec<String>,
    pub objects: Vec<LocalMeta>,
}

enum Step {
    Nothing,
    Itself,
    Child(Vec<char>),
}

fn show(path: &[char], prefix: &[char]) -> (step: Step)
    ensures
        match step {
            Step::Nothing => shown(path@, prefix@) is Nothing,
            Step::Itself => shown(path@, prefix@) is Itself,
            Step::Child(child) => shown(path@, prefix@) == Shown::Child(child@),
        },
{
    let rest = match remainder(path, prefix) {
        Some(rest) => rest,
        None => {
            return Step::Nothing;
        },
    };
    if rest.len() == 0 {
        return Step::Nothing;
    }
    proof {
        rest@.index_of_first_ensures('/');
    }
    match text::find_char(&rest, '/') {
        None => Step::Itself,
        Some(i) => {
            assert(rest@.contains(rest@[i as int]));
            let length: usize = rest.len();
            if i + 1 >= length {
                return Step::Itself;
            }
            let part = text::cut(&rest, 0, i);
            assert(part@ =~= rest@.take(i as int));
            if prefix.len() == 0 {
                return Step::Child(part);
            }
            let slash = text::chars_of("/");
            let head = text::joined(prefix, &slash);
            Step::Child(text::joined(&head, &part))
        },
    }
}

/// Add a text to an ascending list, unless it is there.
fn add_child(children: &mut Vec<String>, child: Vec<char>)
    requires
        ascending(old(children)@),
    ensures
        ascending(final(children)@),
        forall|c: Seq<char>| #[trigger]
            text::views(final(children)@).contains(c) <==> text::views(old(children)@).contains(c)
                || c == child@,
{
    let ghost before = children@;
    let mut at: usize = children.len();
    while at > 0 && text::is_before(&child, &text::chars_of(children[at - 1].as_str()))
        invariant
            children@ == before,
            at <= before.len(),
            forall|k: int| at <= k < before.len() ==> text::text_lt(child@, (#[trigger] before[k])@),
        ensures
            children@ == before,
            at <= before.len(),
            forall|k: int| at <= k < before.len() ==> text::text_lt(child@, (#[trigger] before[k])@),
            at > 0 ==> !text::text_lt(child@, before[at - 1]@),
        decreases at,
    {
        at = at - 1;
    }
    if at > 0 {
        let last = text::chars_of(children[at - 1].as_str());
        if text::same(&last, &child) {
            assert(text::views(before)[at - 1] == child@);
            return;
        }
    }
    let added = text::string_of(&child);
    children.insert(at, added);
    proof {
        let after = children@;
        assert(after =~= before.insert(at as int, added));
        if at > 0 {
            text::lemma_text_order_total(child@, before[at - 1]@);
        }
        assert forall|i: int, j: int| 0 <= i < j < after.len() implies text::text_lt(
            (#[trigger] after[i])@,
            (#[trigger] after[j])@,
        ) by {
            if i < at && j == at {
                if i < at - 1 {
                    assert(text::text_lt(before[i]@, before[at - 1]@));
                    text::lemma_text_order_transitive(before[i]@, before[at - 1]@, child@);
                }
            } else if i == at {
                assert(text::text_lt(child@, before[j - 1]@));
            } else {
                let a = if i < at {
                    i
                } else {
                    i - 1
                };
                let b = if j < at {
                    j
                } else {
                    j - 1
                };
                assert(text::text_lt(before[a]@, before[b]@));
            }
        }
        assert forall|c: Seq<char>| #[trigger] text::views(after).contains(c) <==> text::views(
            before,
        ).contains(c) || c == child@ by {
            if text::views(after).contains(c) {
                let k = choose|k: int| 0 <= k < after.len() && text::views(after)[k] == c;
                if k < at {
                    assert(text::views(before)[k] == c);
                } else if k > at {
                    assert(text::views(before)[k - 1] == c);
                }
            }
            if text::views(before).contains(c) {
                let k = choose|k: int| 0 <= k < before.len() && text::views(before)[k] == c;
                if k < at {
                    assert(text::views(after)[k] == c);
                } else {
                    assert(text::views(after)[k + 1] == c);
                }
            }
            if c == child@ {
                assert(text::views(after)[at as int] == c);
            }
        }
    }
}

/// One level of the store below a prefix.
pub fn list_with_delimiter(objects: &Vec<StoredObject>, prefix: &str) -> (level: LevelListing)
    ensures
        metas_of(level.objects@, level_objects(objects@, prefix@)),
        ascending(level.common_prefixes@),
        forall|child: Seq<char>| #[trigger]
            text::views(level.common_prefixes@).contains(child) <==> has_child(
                objects@,
                prefix@,
                child,
            ),
{
    let scope = text::chars_of(prefix);
    let mut common_prefixes: Vec<String> = Vec::new();
    let mut metas: Vec<LocalMeta> = Vec::new();
    let mut i: usize = 0;
    proof {
        assert(objects@.take(0).len() == 0);
        assert(text::views(common_prefixes@).len() == 0);
    }
    while i < objects.len()
        invariant
            i <= objects@.len(),
            scope@ == prefix@,
            metas_of(metas@, level_objects(objects@.take(i as int), prefix@)),
            ascending(common_prefixes@),
            forall|child: Seq<char>| #[trigger]
                text::views(common_prefixes@).contains(child) <==> has_child(
                    objects@.take(i as int),
                    prefix@,
                    child,
                ),
        decreases objects@.len() - i,
    {
        let ghost seen = objects@.take(i as int);
        let ghost now = objects@.take(i + 1);
        let ghost before = common_prefixes@;
        proof {
            assert(now.drop_last() =~= seen);
            assert(now.last() == objects@[i as int]);
        }
        let path = object_path(objects[i].key.as_str());
        let path = text::chars_of(path.as_str());
        let ghost what = shown(path@, prefix@);
        match show(&path, &scope) {
            Step::Nothing => {},
            Step::Itself => {
                metas.push(object_meta(&objects[i]));
            },
            Step::Child(child) => {
                add_child(&mut common_prefixes, child);
            },
        }
        proof {
            assert forall|child: Seq<char>| #[trigger]
                text::views(common_prefixes@).contains(child) <==> has_child(
                    now,
                    prefix@,
                    child,
                ) by {
                assert(text::views(before).contains(child) <==> has_child(seen, prefix@, child));
                if has_child(seen, prefix@, child) {
                    let k = choose|k: int|
                        0 <= k < seen.len() && shown(path_of((#[trigger] seen[k]).key@), prefix@)
                            == Shown::Child(child);
                    assert(now[k] == seen[k]);
                }
                if has_child(now, prefix@, child) {
                    let k = choose|k: int|
                        0 <= k < now.len() && shown(path_of((#[trigger] now[k]).key@), prefix@)
                            == Shown::Child(child);
                    if k < i {
                        assert(seen[k] == now[k]);
                    }
                }
                if what == Shown::Child(child) {
                    assert(shown(path_of(now[i as int].key@), prefix@) == Shown::Child(child));
                }
            }
        }
        i = i + 1;
    }
    assert(objects@.take(objects@.len() as int) =~= objects@);
    LevelListing { common_prefixes, objects: metas }
}

/// What lies below a prefix: of a path that goes on from it behind a slash, what stands behind
/// the slash; of the prefix itself, nothing; below the empty prefix, the path. A path that
/// only shares the prefix's characters does not lie below it.
pub proof fn law_what_lies_below(prefix: Seq<char>, rest: Seq<char>, path: Seq<char>)
    requires
        prefix.len() > 0,
    ensures
        below(prefix + seq!['/'] + rest, prefix) == Some(rest),
        below(prefix, prefix) == Some(Seq::<char>::empty()),
        below(path, Seq::empty()) == Some(path),
        rest.len() > 0 && rest[0] != '/' ==> below(prefix + rest, prefix) is None,
        !text::begins_with(path, prefix) ==> below(path, prefix) is None,
{
    let s = prefix + seq!['/'] + rest;
    let n = prefix.len() as int;
    assert(s.subrange(0, n) =~= prefix);
    assert(s.skip(n) =~= seq!['/'] + rest);
    assert((seq!['/'] + rest).skip(1) =~= rest);
    assert(prefix.subrange(0, n) =~= prefix);
    assert(prefix.skip(n) =~= Seq::<char>::empty());
    assert(path.subrange(0, 0) =~= Seq::<char>::empty());
    assert(path.skip(0) =~= path);
    let t = prefix + rest;
    assert(t.subrange(0, n) =~= prefix);
    assert(t.skip(n) =~= rest);
}

/// How a listing by levels shows a path below its prefix: one without a further slash as
/// itself, one with more behind a slash as the child up to there, and the prefix itself and
/// what does not lie below it not at all.
pub proof fn law_levels(
    prefix: Seq<char>,
    part: Seq<char>,
    more: Seq<char>,
    path: Seq<char>,
)
    requires
        prefix.len() > 0,
        part.len() > 0 && !part.contains('/'),
        more.len() > 0,
    ensures
        shown(prefix + seq!['/'] + part, prefix) == Shown::Itself,
        shown(prefix + seq!['/'] + part + seq!['/'] + more, prefix) == Shown::Child(
            prefix + seq!['/'] + part,
        ),
        shown(prefix, prefix) == Shown::Nothing,
        shown(part, Seq::empty()) == Shown::Itself,
        shown(part + seq!['/'] + more, Seq::empty()) == Shown::Child(part),
        !text::begins_with(path, prefix) ==> shown(path, prefix) == Shown::Nothing,
{
    reveal_strlit("/");
    let deep = part + seq!['/'] + more;
    assert(prefix + seq!['/'] + part + seq!['/'] + more =~= prefix + seq!['/'] + deep);
    law_what_lies_below(prefix, part, part);
    law_what_lies_below(prefix, deep, deep);
    law_what_lies_below(prefix, part, path);
    part.index_of_first_ensures('/');
    deep.index_of_first_ensures('/');
    let n = part.len() as int;
    assert(deep[n] == '/');
    assert(deep.contains('/'));
    assert forall|k: int| 0 <= k < n implies deep[k] != '/' by {
        assert(deep[k] == part[k]);
    }
    assert(deep.take(n) =~= part);
    assert(prefix + "/"@ + part =~= prefix + seq!['/'] + part);
}

/// A listing goes through the objects in order: it takes one that lies below the prefix, and
/// leaves any other out; without a prefix it takes them all. A listing of a level takes those
/// that it shows as themselves, and each child is that of some object.
pub proof fn law_listing_is_object_by_object(
    objects: Seq<StoredObject>,
    object: StoredObject,
    prefix: Seq<char>,
    child: Seq<char>,
)
    ensures
        listed_objects(Seq::<StoredObject>::empty(), Some(prefix)).len() == 0,
        listed_objects(objects.push(object), None) == listed_objects(objects, None).push(object),
        listed_objects(objects.push(object), Some(prefix)) == (if below(
            path_of(object.key@),
            prefix,
        ) matches Some(rest) && rest.len() > 0 {
            listed_objects(objects, Some(prefix)).push(object)
        } else {
            listed_objects(objects, Some(prefix))
        }),
        level_objects(objects.push(object), prefix) == (if shown(path_of(object.key@), prefix)
            == Shown::Itself {
            level_objects(objects, prefix).push(object)
        } else {
            level_objects(objects, prefix)
        }),
        has_child(objects.push(object), prefix, child) <==> has_child(objects, prefix, child)
            || shown(path_of(object.key@), prefix) == Shown::Child(child),
        !has_child(Seq::<StoredObject>::empty(), prefix, child),
{
    let all = objects.push(object);
    assert(all.drop_last() =~= objects);
    assert(all[objects.len() as int] == object);
    if has_child(objects, prefix, child) {
        let i = choose|i: int|
            0 <= i < objects.len() && shown(path_of((#[trigger] objects[i]).key@), prefix)
                == Shown::Child(child);
        assert(all[i] == objects[i]);
    }
    if has_child(all, prefix, child) {
        let i = choose|i: int|
            0 <= i < all.len() && shown(path_of((#[trigger] all[i]).key@), prefix)
                == Shown::Child(child);
        if i < objects.len() {
            assert(all[i] == objects[i]);
        }
    }
}

/// What a listing tells of an object: where it lies, its size, when it was written, no earlier
/// than the epoch, and its tag in decimal, which reads back as that tag.
pub proof fn law_what_is_told_of_an_object(meta: LocalMeta, object: StoredObject)
    requires
        is_meta(meta, object),
    ensures
        meta.size == object.size,
        meta.location@ == path_of(object.key@),
        object.modified_ms >= 0 ==> meta.last_modified_ms == object.modified_ms,
        object.modified_ms < 0 ==> meta.last_modified_ms == 0,
        numbers::integer_text(meta.e_tag@) == Some(object.etag as int),
{
    if object.etag >= 0 {
        numbers::law_decimal_reads_back(object.etag as nat);
    } else {
        numbers::law_decimal_reads_back((-(object.etag as int)) as nat);
    }
}

/// A listing tells of each object that it takes, in order, and of no other; the children that it
/// names ascend.
pub proof fn law_listing_tells_of_each(
    metas: Seq<LocalMeta>,
    objects: Seq<StoredObject>,
    i: int,
    names: Seq<String>,
    j: int,
    k: int,
)
    requires
        metas_of(metas, objects),
        ascending(names),
        0 <= i < metas.len(),
        0 <= j < k < names.len(),
    ensures
        metas.len() == objects.len(),
        metas[i].location@ == path_of(objects[i].key@) && metas[i].size == objects[i].size,
        text::text_lt(names[j]@, names[k]@),
{
    assert(is_meta(metas[i], objects[i]));
}

} // verus!
