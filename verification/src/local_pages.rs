//! The development store's pages.

use vstd::prelude::*;

use crate::local_listing;
use crate::local_listing::LocalMeta;
use crate::local_listing::StoredObject;
use crate::text;

verus! {

broadcast use vstd::string::group_string_axioms;

/// What a page is asked for.
pub struct PageRequest {
    /// What the keys begin with.
    pub prefix: Option<String>,
    /// What continues an earlier page; it goes before the offset.
    pub page_token: Option<String>,
    /// A key behind which the listing begins.
    pub offset: Option<String>,
    pub delimiter: Option<String>,
    pub max_keys: Option<usize>,
}

/// A place of a page: the last key that it stands for, and what it shows: a common
/// prefix, or an object.
pub struct Place {
    pub last: Seq<char>,
    pub common: Option<Seq<char>>,
    pub object: Option<StoredObject>,
}

/// Whether a page is about an object.
pub open spec fn asked(object: StoredObject, prefix: Seq<char>, after: Option<Seq<char>>) -> bool {
    text::begins_with(object.key@, prefix) && match after {
        Some(after) => !text::text_le(object.key@, after),
        None => true,
    }
}

/// The objects that a page is about.
pub open spec fn asked_objects(
    objects: Seq<StoredObject>,
    prefix: Seq<char>,
    after: Option<Seq<char>>,
) -> Seq<StoredObject>
    decreases objects.len(),
{
    if objects.len() == 0 {
        Seq::empty()
    } else {
        let before = asked_objects(objects.drop_last(), prefix, after);
        if asked(objects.last(), prefix, after) {
            before.push(objects.last())
        } else {
            before
        }
    }
}

/// Whether a common prefix is that of a key: the key up to and with the
/// delimiter's first place behind the prefix, as a path.
pub open spec fn rolls_up_to(
    key: Seq<char>,
    prefix: Seq<char>,
    delimiter: Option<Seq<char>>,
    common: Option<Seq<char>>,
) -> bool {
    let rest = key.skip(prefix.len() as int);
    match delimiter {
        None => common is None,
        Some(delimiter) => if !text::occurs_in(rest, delimiter) {
            common is None
        } else {
            exists|at: int| #[trigger]
                first_at(rest, delimiter, at) && common == Some(
                    local_listing::path_of(prefix + rest.take(at) + delimiter),
                )
        },
    }
}

/// The first position of a pattern in a text.
pub open spec fn first_at(s: Seq<char>, p: Seq<char>, at: int) -> bool {
    text::stands_at(s, p, at) && forall|j: int| 0 <= j < at ==> !text::stands_at(s, p, j)
}

/// The common prefix of a key, where it has one.
pub open spec fn common_of(
    key: Seq<char>,
    prefix: Seq<char>,
    delimiter: Option<Seq<char>>,
) -> Option<Seq<char>> {
    choose|common: Option<Seq<char>>| rolls_up_to(key, prefix, delimiter, common)
}

/// The places with one more object: a key with the common prefix of the last place
/// joins it.
pub open spec fn with_object(
    places: Seq<Place>,
    object: StoredObject,
    prefix: Seq<char>,
    delimiter: Option<Seq<char>>,
) -> Seq<Place> {
    match common_of(object.key@, prefix, delimiter) {
        Some(common) => if places.len() > 0 && places.last().common == Some(common) {
            places.drop_last().push(Place { last: object.key@, ..places.last() })
        } else {
            places.push(Place { last: object.key@, common: Some(common), object: None })
        },
        None => places.push(Place { last: object.key@, common: None, object: Some(object) }),
    }
}

/// The places of some objects.
pub open spec fn places_of(
    objects: Seq<StoredObject>,
    prefix: Seq<char>,
    delimiter: Option<Seq<char>>,
) -> Seq<Place>
    decreases objects.len(),
{
    if objects.len() == 0 {
        Seq::empty()
    } else {
        with_object(
            places_of(objects.drop_last(), prefix, delimiter),
            objects.last(),
            prefix,
            delimiter,
        )
    }
}

impl PageRequest {
    /// What the keys begin with.
    pub open spec fn wanted(self) -> Seq<char> {
        match self.prefix {
            Some(prefix) => prefix@,
            None => Seq::empty(),
        }
    }

    /// The key behind which the page begins.
    pub open spec fn after(self) -> Option<Seq<char>> {
        if self.page_token is Some {
            local_view(self.page_token)
        } else {
            local_view(self.offset)
        }
    }
}

/// The places of all that a request asks for.
pub open spec fn all_places(objects: Seq<StoredObject>, request: PageRequest) -> Seq<Place> {
    places_of(
        asked_objects(objects, request.wanted(), request.after()),
        request.wanted(),
        local_view(request.delimiter),
    )
}

/// A text that may be missing.
pub open spec fn local_view(s: Option<String>) -> Option<Seq<char>> {
    match s {
        Some(s) => Some(s@),
        None => None,
    }
}

/// The places that a page has room for.
pub open spec fn page_places(places: Seq<Place>, max_keys: Option<usize>) -> Seq<Place> {
    match max_keys {
        Some(limit) => if places.len() > limit {
            places.take(limit as int)
        } else {
            places
        },
        None => places,
    }
}

/// What continues a page: the last key that it stands for, where it was cut short.
pub open spec fn token_of(places: Seq<Place>, max_keys: Option<usize>) -> Option<Seq<char>> {
    let page = page_places(places, max_keys);
    if page.len() < places.len() && page.len() > 0 {
        Some(page.last().last)
    } else {
        None
    }
}

/// The common prefixes of places.
pub open spec fn commons(places: Seq<Place>) -> Seq<Seq<char>>
    decreases places.len(),
{
    if places.len() == 0 {
        Seq::empty()
    } else {
        let before = commons(places.drop_last());
        match places.last().common {
            Some(common) => before.push(common),
            None => before,
        }
    }
}

/// The objects of places.
pub open spec fn place_objects(places: Seq<Place>) -> Seq<StoredObject>
    decreases places.len(),
{
    if places.len() == 0 {
        Seq::empty()
    } else {
        let before = place_objects(places.drop_last());
        match places.last().object {
            Some(object) => before.push(object),
            None => before,
        }
    }
}

/// One page.
pub struct LocalPage {
    pub common_prefixes: Vec<String>,
    pub objects: Vec<LocalMeta>,
    pub page_token: Option<String>,
}

/// A place while a page is made.
struct Held {
    last: String,
    common: Option<String>,
    at: usize,
}

spec fn place_of(held: Held, objects: Seq<StoredObject>) -> Place {
    Place {
        last: held.last@,
        common: local_view(held.common),
        object: match held.common {
            Some(_) => None,
            None => Some(objects[held.at as int]),
        },
    }
}

spec fn places_held(held: Seq<Held>, objects: Seq<StoredObject>) -> Seq<Place> {
    held.map_values(|h: Held| place_of(h, objects))
}

proof fn lemma_common(
    key: Seq<char>,
    prefix: Seq<char>,
    delimiter: Option<Seq<char>>,
    common: Option<Seq<char>>,
)
    requires
        rolls_up_to(key, prefix, delimiter, common),
    ensures
        common_of(key, prefix, delimiter) == common,
{
    let other = common_of(key, prefix, delimiter);
    assert(rolls_up_to(key, prefix, delimiter, other));
    let rest = key.skip(prefix.len() as int);
    if let Some(delimiter) = delimiter {
        if text::occurs_in(rest, delimiter) {
            let a = choose|at: int| #[trigger]
                first_at(rest, delimiter, at) && common == Some(
                    local_listing::path_of(prefix + rest.take(at) + delimiter),
                );
            let b = choose|at: int| #[trigger]
                first_at(rest, delimiter, at) && other == Some(
                    local_listing::path_of(prefix + rest.take(at) + delimiter),
                );
            assert(text::stands_at(rest, delimiter, a));
            assert(text::stands_at(rest, delimiter, b));
            assert(a == b);
        }
    }
}

fn common_prefix(key: &[char], prefix: &[char], delimiter: &Option<String>) -> (common: Option<
    String,
>)
    requires
        text::begins_with(key@, prefix@),
    ensures
        local_view(common) == common_of(key@, prefix@, local_view(*delimiter)),
{
    let wanted = match delimiter {
        Some(delimiter) => text::chars_of(delimiter.as_str()),
        None => {
            proof {
                lemma_common(key@, prefix@, None, None);
            }
            return None;
        },
    };
    let rest = text::cut(key, prefix.len(), key.len());
    assert(rest@ =~= key@.skip(prefix@.len() as int));
    match text::find(&rest, &wanted) {
        None => {
            proof {
                lemma_common(key@, prefix@, local_view(*delimiter), None);
            }
            None
        },
        Some(at) => {
            assert(text::stands_at(rest@, wanted@, at as int));
            let head = text::cut(&rest, 0, at);
            assert(head@ =~= rest@.take(at as int));
            let whole = text::joined(&text::joined(prefix, &head), &wanted);
            let common = local_listing::object_path(text::string_of(&whole).as_str());
            proof {
                assert(first_at(rest@, wanted@, at as int));
                lemma_common(key@, prefix@, local_view(*delimiter), Some(common@));
            }
            Some(common)
        },
    }
}

fn is_asked(key: &[char], prefix: &[char], after: &Option<String>) -> (answer: bool)
    ensures
        answer == (text::begins_with(key@, prefix@) && match local_view(*after) {
            Some(after) => !text::text_le(key@, after),
            None => true,
        }),
{
    if !text::starts_with(key, prefix) {
        return false;
    }
    match after {
        None => true,
        Some(after) => {
            let after = text::chars_of(after.as_str());
            proof {
                text::lemma_text_order_total(after@, key@);
            }
            text::is_before(&after, key)
        },
    }
}

/// One page of the store: the objects and common prefixes in the order of the
/// keys, at most so many, and what continues it.
pub fn list_paginated(objects: &Vec<StoredObject>, request: &PageRequest) -> (page: LocalPage)
    ensures
        ({
            let places = all_places(objects@, *request);
            let shown = page_places(places, request.max_keys);
            &&& text::views(page.common_prefixes@) == commons(shown)
            &&& local_listing::metas_of(page.objects@, place_objects(shown))
            &&& local_view(page.page_token) == token_of(places, request.max_keys)
        }),
{
    let prefix: Vec<char> = match &request.prefix {
        Some(prefix) => text::chars_of(prefix.as_str()),
        None => Vec::new(),
    };
    let begin: &Option<String> = if request.page_token.is_some() {
        &request.page_token
    } else {
        &request.offset
    };
    let ghost wanted = request.wanted();
    let ghost after = request.after();
    assert(prefix@ =~= wanted);
    let ghost delimiter = local_view(request.delimiter);
    let mut held: Vec<Held> = Vec::new();
    let mut i: usize = 0;
    proof {
        assert(objects@.take(0).len() == 0);
        assert(asked_objects(objects@.take(0), wanted, after).len() == 0);
        assert(places_held(held@, objects@) =~= Seq::<Place>::empty());
    }
    while i < objects.len()
        invariant
            i <= objects@.len(),
            prefix@ == wanted,
            wanted == request.wanted(),
            after == local_view(*begin),
            delimiter == local_view(request.delimiter),
            forall|k: int| 0 <= k < held@.len() ==> (#[trigger] held@[k]).at < i,
            places_held(held@, objects@) == places_of(
                asked_objects(objects@.take(i as int), wanted, after),
                wanted,
                delimiter,
            ),
        decreases objects@.len() - i,
    {
        let ghost before = held@;
        let ghost seen = asked_objects(objects@.take(i as int), wanted, after);
        proof {
            assert(objects@.take(i + 1).drop_last() =~= objects@.take(i as int));
            assert(objects@.take(i + 1).last() == objects@[i as int]);
        }
        let key = text::chars_of(objects[i].key.as_str());
        if is_asked(&key, &prefix, begin) {
            let ghost now = seen.push(objects@[i as int]);
            assert(now.drop_last() =~= seen);
            let common = common_prefix(&key, &prefix, &request.delimiter);
            let mut joins = false;
            if held.len() > 0 {
                let last = held.len() - 1;
                match (&common, &held[last].common) {
                    (Some(a), Some(b)) => {
                        joins = text::same_text(a.as_str(), b.as_str());
                    },
                    _ => {},
                }
            }
            if joins {
                let last: usize = held.len() - 1;
                let entry = Held { last: objects[i].key.clone(), common, at: i };
                held.set(last, entry);
                proof {
                    let p = places_held(before, objects@);
                    assert(places_held(held@, objects@) =~= p.drop_last().push(
                        Place { last: objects@[i as int].key@, ..p.last() },
                    ));
                }
            } else {
                let entry = Held { last: objects[i].key.clone(), common, at: i };
                held.push(entry);
                proof {
                    let p = places_held(before, objects@);
                    assert(places_held(held@, objects@) =~= p.push(place_of(entry, objects@)));
                    if p.len() > 0 {
                        assert(p.last() == place_of(before.last(), objects@));
                    }
                }
            }
        }
        i = i + 1;
    }
    proof {
        assert(objects@.take(objects@.len() as int) =~= objects@);
    }
    let ghost places = all_places(objects@, *request);
    assert(places_held(held@, objects@) == places);
    let count: usize = match request.max_keys {
        Some(limit) => if held.len() > limit {
            limit
        } else {
            held.len()
        },
        None => held.len(),
    };
    let ghost shown = page_places(places, request.max_keys);
    assert(shown =~= places.take(count as int));
    let page_token: Option<String> = if count < held.len() && count > 0 {
        assert(shown.last() == place_of(held@[count - 1], objects@));
        Some(held[count - 1].last.clone())
    } else {
        None
    };
    let mut common_prefixes: Vec<String> = Vec::new();
    let mut metas: Vec<LocalMeta> = Vec::new();
    let mut n: usize = 0;
    proof {
        assert(places.take(0).len() == 0);
        assert(text::views(common_prefixes@) =~= commons(places.take(0)));
    }
    while n < count
        invariant
            n <= count <= held@.len(),
            places == places_held(held@, objects@),
            forall|k: int| 0 <= k < held@.len() ==> (#[trigger] held@[k]).at < objects@.len(),
            text::views(common_prefixes@) == commons(places.take(n as int)),
            local_listing::metas_of(metas@, place_objects(places.take(n as int))),
        decreases count - n,
    {
        let ghost before = common_prefixes@;
        proof {
            assert(places.take(n + 1).drop_last() =~= places.take(n as int));
            assert(places.take(n + 1).last() == place_of(held@[n as int], objects@));
        }
        match &held[n].common {
            Some(common) => {
                common_prefixes.push(common.clone());
                assert(text::views(common_prefixes@) =~= text::views(before).push(common@));
            },
            None => {
                metas.push(local_listing::object_meta(&objects[held[n].at]));
            },
        }
        n = n + 1;
    }
    LocalPage { common_prefixes, objects: metas, page_token }
}

/// Whether objects stand in the strict order of their keys, as the store lists
/// them.
pub open spec fn in_order(objects: Seq<StoredObject>) -> bool {
    forall|i: int, j: int|
        #![trigger objects[i], objects[j]]
        0 <= i < j < objects.len() ==> text::text_lt(objects[i].key@, objects[j].key@)
}

/// Where the first places of some objects end.
spec fn splits_at(
    objects: Seq<StoredObject>,
    prefix: Seq<char>,
    delimiter: Option<Seq<char>>,
    count: int,
    at: int,
) -> bool {
    let places = places_of(objects, prefix, delimiter);
    &&& 0 < at <= objects.len()
    &&& places[count - 1].last == objects[at - 1].key@
    &&& places_of(objects.skip(at), prefix, delimiter) == places.skip(count)
}

proof fn lemma_last_place(objects: Seq<StoredObject>, prefix: Seq<char>, delimiter: Option<Seq<char>>)
    requires
        objects.len() > 0,
    ensures
        places_of(objects, prefix, delimiter).len() > 0,
        places_of(objects, prefix, delimiter).last().last == objects.last().key@,
{
}

proof fn lemma_splits(
    objects: Seq<StoredObject>,
    prefix: Seq<char>,
    delimiter: Option<Seq<char>>,
    count: int,
) -> (at: int)
    requires
        0 < count < places_of(objects, prefix, delimiter).len(),
    ensures
        splits_at(objects, prefix, delimiter, count, at),
    decreases objects.len(),
{
    let before = objects.drop_last();
    let places = places_of(objects, prefix, delimiter);
    let earlier = places_of(before, prefix, delimiter);
    if count < earlier.len() {
        let at = lemma_splits(before, prefix, delimiter, count);
        assert(objects.skip(at).drop_last() =~= before.skip(at));
        let rest = places_of(before.skip(at), prefix, delimiter);
        assert(rest == earlier.skip(count));
        assert(rest.last() == earlier.last());
        if objects.skip(at).len() > 0 {
            assert(objects.skip(at).last() == objects.last());
        }
        assert(with_object(rest, objects.last(), prefix, delimiter) =~= places.skip(count));
        at
    } else {
        assert(count == earlier.len());
        lemma_last_place(before, prefix, delimiter);
        let at = before.len() as int;
        assert(objects.skip(at) =~= seq![objects.last()]);
        assert(objects.skip(at).drop_last() =~= Seq::empty());
        assert(places_of(objects.skip(at).drop_last(), prefix, delimiter) =~= Seq::empty());
        assert(places_of(objects.skip(at), prefix, delimiter) =~= places.skip(count));
        at
    }
}

proof fn lemma_asked_in_order(
    objects: Seq<StoredObject>,
    prefix: Seq<char>,
    after: Option<Seq<char>>,
)
    requires
        in_order(objects),
    ensures
        in_order(asked_objects(objects, prefix, after)),
        forall|i: int|
            0 <= i < asked_objects(objects, prefix, after).len() ==> objects.contains(
                #[trigger] asked_objects(objects, prefix, after)[i],
            ) && asked(asked_objects(objects, prefix, after)[i], prefix, after),
    decreases objects.len(),
{
    if objects.len() > 0 {
        let before = objects.drop_last();
        lemma_asked_in_order(before, prefix, after);
        let kept = asked_objects(before, prefix, after);
        let now = asked_objects(objects, prefix, after);
        assert forall|i: int| 0 <= i < now.len() implies objects.contains(#[trigger] now[i])
            && asked(now[i], prefix, after) by {
            if i < kept.len() {
                let k = choose|k: int| 0 <= k < before.len() && before[k] == kept[i];
                assert(objects[k] == now[i]);
            } else {
                assert(objects[objects.len() - 1] == now[i]);
            }
        }
        assert forall|i: int, j: int|
            #![trigger now[i], now[j]]
            0 <= i < j < now.len() implies text::text_lt(now[i].key@, now[j].key@) by {
            if j == kept.len() {
                assert(before.contains(kept[i]));
                let k = choose|k: int| 0 <= k < before.len() && before[k] == kept[i];
                assert(objects[k] == now[i]);
                assert(objects[objects.len() - 1] == now[j]);
            } else {
                assert(kept[i] == now[i]);
                assert(kept[j] == now[j]);
            }
        }
    }
}

/// What is asked for behind a later key is what is asked for behind an earlier
/// one, from there on.
proof fn lemma_asked_later(
    objects: Seq<StoredObject>,
    prefix: Seq<char>,
    after: Option<Seq<char>>,
    at: int,
)
    requires
        in_order(objects),
        0 < at <= asked_objects(objects, prefix, after).len(),
    ensures
        asked_objects(
            objects,
            prefix,
            Some(asked_objects(objects, prefix, after)[at - 1].key@),
        ) == asked_objects(objects, prefix, after).skip(at),
    decreases objects.len(),
{
    let all = asked_objects(objects, prefix, after);
    let token = all[at - 1].key@;
    let before = objects.drop_last();
    let last = objects.last();
    lemma_asked_in_order(objects, prefix, after);
    lemma_asked_in_order(before, prefix, after);
    let kept = asked_objects(before, prefix, after);
    if at <= kept.len() {
        assert(kept[at - 1] == all[at - 1]);
        lemma_asked_later(before, prefix, after, at);
        if asked(last, prefix, after) {
            assert(all[kept.len() as int] == last);
            assert(text::text_lt(token, last.key@));
            text::lemma_text_order_total(token, last.key@);
            assert(asked(last, prefix, Some(token)));
            assert(kept.skip(at).push(last) =~= all.skip(at));
        } else {
            assert(text::begins_with(last.key@, prefix) ==> {
                &&& after is Some
                &&& text::text_le(last.key@, after->0)
            });
            if text::begins_with(last.key@, prefix) {
                let k = choose|k: int| 0 <= k < objects.len() && objects[k] == all[at - 1];
                assert(asked(all[at - 1], prefix, after));
                lemma_order_total(last.key@, after->0, token);
            }
            assert(!asked(last, prefix, Some(token)));
            assert(kept =~= all);
        }
    } else {
        assert(all[at - 1] == last);
        assert(all.skip(at) =~= Seq::empty());
        lemma_none_later(objects, prefix, token, objects.len() as int);
        assert(objects.take(objects.len() as int) =~= objects);
    }
}

/// What is no later than a text is no later than what is later than that text.
proof fn lemma_order_total(a: Seq<char>, b: Seq<char>, c: Seq<char>)
    requires
        text::text_le(a, b),
        !text::text_le(c, b),
    ensures
        text::text_le(a, c),
{
    text::lemma_text_order_total(b, c);
    if text::text_lt(a, b) {
        text::lemma_text_order_transitive(a, b, c);
    }
}

/// No object comes behind the last one.
proof fn lemma_none_later(
    objects: Seq<StoredObject>,
    prefix: Seq<char>,
    token: Seq<char>,
    count: int,
)
    requires
        in_order(objects),
        0 <= count <= objects.len(),
        objects.len() > 0,
        token == objects.last().key@,
    ensures
        asked_objects(objects.take(count), prefix, Some(token)) == Seq::<StoredObject>::empty(),
    decreases count,
{
    if count > 0 {
        lemma_none_later(objects, prefix, token, count - 1);
        assert(objects.take(count).drop_last() =~= objects.take(count - 1));
        let object = objects[count - 1];
        assert(objects.take(count).last() == object);
        if count < objects.len() {
            assert(text::text_lt(object.key@, objects[objects.len() - 1].key@));
        }
    }
}

/// Pages neither repeat nor miss anything: a page that was cut short, and all that
/// its token asks for, are together all that was asked for.
pub proof fn law_pages_join_up(
    objects: Seq<StoredObject>,
    request: PageRequest,
    next: PageRequest,
)
    requires
        in_order(objects),
        next.prefix == request.prefix,
        next.delimiter == request.delimiter,
        local_view(next.page_token) is Some,
        local_view(next.page_token) == token_of(all_places(objects, request), request.max_keys),
    ensures
        page_places(all_places(objects, request), request.max_keys) + all_places(objects, next)
            == all_places(objects, request),
{
    let prefix = request.wanted();
    let delimiter = local_view(request.delimiter);
    let wanted = asked_objects(objects, prefix, request.after());
    let places = all_places(objects, request);
    let page = page_places(places, request.max_keys);
    let count = page.len() as int;
    let at = lemma_splits(wanted, prefix, delimiter, count);
    assert(page.last() == places[count - 1]);
    lemma_asked_later(objects, prefix, request.after(), at);
    assert(places.take(count) + places.skip(count) =~= places);
}

/// Which objects a page is made of, in order: those whose key has the prefix and is above the
/// key to go on from, where there is one. A page's token counts before an offset.
pub proof fn law_page_is_made_of(
    objects: Seq<StoredObject>,
    object: StoredObject,
    prefix: Seq<char>,
    after: Option<Seq<char>>,
    request: PageRequest,
)
    ensures
        asked_objects(Seq::<StoredObject>::empty(), prefix, after).len() == 0,
        asked_objects(objects.push(object), prefix, after) == (if text::begins_with(
            object.key@,
            prefix,
        ) && (after is Some ==> text::text_lt(after->0, object.key@)) {
            asked_objects(objects, prefix, after).push(object)
        } else {
            asked_objects(objects, prefix, after)
        }),
        request.page_token is Some ==> request.after() == Some(request.page_token->0@),
        request.page_token is None && request.offset is Some ==> request.after() == Some(
            request.offset->0@,
        ),
        request.page_token is None && request.offset is None ==> request.after() is None,
        request.prefix is Some ==> request.wanted() == request.prefix->0@,
        request.prefix is None ==> request.wanted().len() == 0,
{
    assert(objects.push(object).drop_last() =~= objects);
    if after is Some {
        text::lemma_text_order_total(object.key@, after->0);
    }
}

/// How objects fill a page's places: one that rolls up to the last place's prefix is passed
/// there; any other takes a place of its own, as its prefix or as itself.
pub proof fn law_places_are_filled(
    objects: Seq<StoredObject>,
    object: StoredObject,
    prefix: Seq<char>,
    delimiter: Option<Seq<char>>,
)
    ensures
        ({
            let before = places_of(objects, prefix, delimiter);
            let after = places_of(objects.push(object), prefix, delimiter);
            let common = common_of(object.key@, prefix, delimiter);
            &&& after.len() > 0 && after.last().last == object.key@
            &&& after.last().common == common
            &&& common is Some && before.len() > 0 && before.last().common == common ==> after.len()
                == before.len() && after.drop_last() == before.drop_last() && after.last().object
                == before.last().object
            &&& !(common is Some && before.len() > 0 && before.last().common == common)
                ==> after.len() == before.len() + 1 && after.drop_last() == before
                && after.last().object == (if common is Some {
                None
            } else {
                Some(object)
            })
        }),
        places_of(Seq::<StoredObject>::empty(), prefix, delimiter).len() == 0,
{
    assert(objects.push(object).drop_last() =~= objects);
    let before = places_of(objects, prefix, delimiter);
    let after = places_of(objects.push(object), prefix, delimiter);
    if after.len() == before.len() {
        assert(after.drop_last() =~= before.drop_last());
    } else {
        assert(after.drop_last() =~= before);
    }
}

/// The prefix that a key rolls up to: behind the prefix that was asked for, up to the first
/// delimiter and with it; without one, or where none is asked for, there is none.
pub proof fn law_common_prefix(
    prefix: Seq<char>,
    head: Seq<char>,
    delimiter: Seq<char>,
    tail: Seq<char>,
    key: Seq<char>,
)
    requires
        delimiter.len() > 0,
        !text::occurs_in(head + delimiter.drop_last(), delimiter),
        !text::occurs_in(key, delimiter),
    ensures
        common_of(prefix + head + delimiter + tail, prefix, Some(delimiter)) == Some(
            local_listing::path_of(prefix + head + delimiter),
        ),
        common_of(prefix + key, prefix, Some(delimiter)) is None,
        common_of(prefix + key, prefix, None) is None,
{
    let whole = prefix + head + delimiter + tail;
    let rest = whole.skip(prefix.len() as int);
    let n = head.len() as int;
    assert(rest =~= head + delimiter + tail);
    text::lemma_occurs(head, delimiter, tail);
    assert(rest.subrange(n, n + delimiter.len()) =~= delimiter);
    assert(text::stands_at(rest, delimiter, n));
    assert forall|j: int| 0 <= j < n implies !text::stands_at(rest, delimiter, j) by {
        if text::stands_at(rest, delimiter, j) {
            let front = head + delimiter.drop_last();
            assert(front.subrange(j, j + delimiter.len()) =~= rest.subrange(
                j,
                j + delimiter.len(),
            ));
            assert(text::stands_at(front, delimiter, j));
        }
    }
    assert(first_at(rest, delimiter, n));
    assert(rest.take(n) =~= head);
    let common = Some(local_listing::path_of(prefix + head + delimiter));
    assert(rolls_up_to(whole, prefix, Some(delimiter), common));
    let found = common_of(whole, prefix, Some(delimiter));
    assert(rolls_up_to(whole, prefix, Some(delimiter), found));
    let at = choose|at: int| #[trigger]
        first_at(rest, delimiter, at) && found == Some(
            local_listing::path_of(prefix + rest.take(at) + delimiter),
        );
    assert(at == n) by {
        assert(text::stands_at(rest, delimiter, at));
        if at > n {
            assert(!text::stands_at(rest, delimiter, n));
        }
    }
    let plain = prefix + key;
    assert(plain.skip(prefix.len() as int) =~= key);
    let none: Option<Seq<char>> = None;
    assert(rolls_up_to(plain, prefix, Some(delimiter), none));
    assert(rolls_up_to(plain, prefix, None, none));
    assert(rolls_up_to(plain, prefix, Some(delimiter), common_of(plain, prefix, Some(delimiter))));
    assert(rolls_up_to(plain, prefix, None, common_of(plain, prefix, None)));
}

/// A page holds the first places, as many as it may, and names where to go on exactly where
/// it was cut behind some place: the last key of its last place.
pub proof fn law_page_is_cut(places: Seq<Place>, limit: usize)
    ensures
        page_places(places, None) == places,
        token_of(places, None) is None,
        page_places(places, Some(limit)).len() <= limit,
        places.len() <= limit ==> page_places(places, Some(limit)) == places && token_of(
            places,
            Some(limit),
        ) is None,
        places.len() > limit ==> page_places(places, Some(limit)).len() == limit && page_places(
            places,
            Some(limit),
        ) == places.subrange(0, limit as int),
        places.len() > limit && limit > 0 ==> token_of(places, Some(limit)) == Some(
            places[limit - 1].last,
        ),
        limit == 0 ==> token_of(places, Some(limit)) is None,
{
    if places.len() > limit {
        assert(places.take(limit as int) =~= places.subrange(0, limit as int));
        if limit > 0 {
            assert(places.take(limit as int).last() == places[limit - 1]);
        }
    }
}

/// What a page shows of its places, in order: a place with a prefix adds the prefix, one with
/// an object the object.
pub proof fn law_places_are_shown(places: Seq<Place>, place: Place)
    ensures
        commons(Seq::<Place>::empty()).len() == 0,
        place_objects(Seq::<Place>::empty()).len() == 0,
        commons(places.push(place)) == (match place.common {
            Some(common) => commons(places).push(common),
            None => commons(places),
        }),
        place_objects(places.push(place)) == (match place.object {
            Some(object) => place_objects(places).push(object),
            None => place_objects(places),
        }),
{
    assert(places.push(place).drop_last() =~= places);
}

} // verus!
