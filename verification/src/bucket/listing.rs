//! Listings: their scope, and one page of a listing with keys rolled up.

use vstd::prelude::*;

use crate::bucket::backend;
use crate::bucket::backend::Bucket;
use crate::bucket::backend::StorageBackend;
use crate::text;

verus! {

broadcast use vstd::string::group_string_axioms;

/// The refusal to resume a walk by name on Azure.
pub const NO_START_AFTER: &'static str = "az:// cannot resume a listing by name, because Azure listing has no start-after; drop --after and list the whole container";

/// One page of the children of a prefix.
pub struct CommonPrefixPage {
    pub prefixes: Vec<String>,
    /// Where the store cut the page short, what continues it.
    pub page_token: Option<String>,
}

/// An object as a store lists it, by its key below the bucket's prefix.
pub struct ListedBlob {
    pub location: String,
    pub size: u64,
    pub etag: Option<String>,
    pub version: Option<String>,
    pub uploaded_ms: i64,
}

/// One object of a page.
pub struct BlobEntry {
    pub key: String,
    pub size: u64,
    pub etag: Option<String>,
    pub version: Option<String>,
    pub uploaded_ms: i64,
}

/// One page of a listing.
pub struct BlobPage {
    pub objects: Vec<BlobEntry>,
    /// The keys that a delimiter rolled up, each once.
    pub prefixes: Vec<String>,
    pub truncated: bool,
    /// The last key that the page consumed; the next page goes on behind it.
    pub cursor: Option<String>,
}

/// What a page says of an object.
pub struct EntryView {
    pub key: Seq<char>,
    pub size: u64,
    pub etag: Option<Seq<char>>,
    pub version: Option<Seq<char>>,
    pub uploaded_ms: i64,
}

/// A page's view.
pub struct PageView {
    pub objects: Seq<EntryView>,
    pub prefixes: Seq<Seq<char>>,
    pub truncated: bool,
    pub cursor: Option<Seq<char>>,
}

/// A text that may be missing.
pub open spec fn view_of(s: Option<String>) -> Option<Seq<char>> {
    match s {
        Some(s) => Some(s@),
        None => None,
    }
}

impl View for BlobEntry {
    type V = EntryView;

    open spec fn view(&self) -> EntryView {
        EntryView {
            key: self.key@,
            size: self.size,
            etag: view_of(self.etag),
            version: view_of(self.version),
            uploaded_ms: self.uploaded_ms,
        }
    }
}

/// The views of a page's objects.
pub open spec fn entry_views(entries: Seq<BlobEntry>) -> Seq<EntryView> {
    entries.map_values(|e: BlobEntry| e@)
}

impl View for BlobPage {
    type V = PageView;

    open spec fn view(&self) -> PageView {
        PageView {
            objects: entry_views(self.objects@),
            prefixes: text::views(self.prefixes@),
            truncated: self.truncated,
            cursor: view_of(self.cursor),
        }
    }
}

/// What a page is asked for: the keys that begin with a text, at most so many, and
/// those with a delimiter behind it rolled up.
pub struct PageQuery {
    pub prefix: String,
    pub limit: usize,
    pub delimiter: Option<String>,
}

/// The first position of a pattern in a text.
pub open spec fn first_at(s: Seq<char>, p: Seq<char>, at: int) -> bool {
    text::stands_at(s, p, at) && forall|j: int| 0 <= j < at ==> !text::stands_at(s, p, j)
}

/// Whether a key is rolled up: up to and with the delimiter's first place behind
/// the prefix.
pub open spec fn rolls_up_to(
    prefix: Seq<char>,
    delimiter: Option<Seq<char>>,
    key: Seq<char>,
    group: Option<Seq<char>>,
) -> bool {
    let remainder = key.skip(prefix.len() as int);
    match delimiter {
        None => group is None,
        Some(delimiter) => if delimiter.len() == 0 || !text::occurs_in(remainder, delimiter) {
            group is None
        } else {
            exists|at: int| #[trigger]
                first_at(remainder, delimiter, at) && group == Some(
                    prefix + remainder.take(at + delimiter.len()),
                )
        },
    }
}

/// What a key is rolled up to, where it is.
pub open spec fn group_of(
    prefix: Seq<char>,
    delimiter: Option<Seq<char>>,
    key: Seq<char>,
) -> Option<Seq<char>> {
    choose|group: Option<Seq<char>>| rolls_up_to(prefix, delimiter, key, group)
}

pub(crate) proof fn lemma_group(
    prefix: Seq<char>,
    delimiter: Option<Seq<char>>,
    key: Seq<char>,
    group: Option<Seq<char>>,
)
    requires
        rolls_up_to(prefix, delimiter, key, group),
    ensures
        group_of(prefix, delimiter, key) == group,
{
    let other = group_of(prefix, delimiter, key);
    assert(rolls_up_to(prefix, delimiter, key, other));
    let remainder = key.skip(prefix.len() as int);
    if let Some(delimiter) = delimiter {
        if delimiter.len() > 0 && text::occurs_in(remainder, delimiter) {
            let a = choose|at: int| #[trigger]
                first_at(remainder, delimiter, at) && group == Some(
                    prefix + remainder.take(at + delimiter.len()),
                );
            let b = choose|at: int| #[trigger]
                first_at(remainder, delimiter, at) && other == Some(
                    prefix + remainder.take(at + delimiter.len()),
                );
            assert(text::stands_at(remainder, delimiter, a));
            assert(text::stands_at(remainder, delimiter, b));
            assert(a == b);
        }
    }
}

/// A page with one more object of the listing. A key outside the prefix changes
/// nothing. One whose group is there already is only passed. Any other fills a
/// place of the page; where none is left, the page ends before it.
pub open spec fn page_step(
    page: PageView,
    query: PageQuery,
    scope: Seq<char>,
    blob: ListedBlob,
) -> PageView {
    let key = backend::unscoped(scope, blob.location@);
    let group = group_of(query.prefix@, view_of(query.delimiter), key);
    if page.truncated || !text::begins_with(key, query.prefix@) {
        page
    } else if group matches Some(g) && page.prefixes.contains(g) {
        PageView { cursor: Some(key), ..page }
    } else if page.objects.len() + page.prefixes.len() >= query.limit {
        PageView { truncated: true, ..page }
    } else {
        match group {
            Some(g) => PageView { prefixes: page.prefixes.push(g), cursor: Some(key), ..page },
            None => PageView {
                objects: page.objects.push(
                    EntryView {
                        key,
                        size: blob.size,
                        etag: view_of(blob.etag),
                        version: view_of(blob.version),
                        uploaded_ms: blob.uploaded_ms,
                    },
                ),
                cursor: Some(key),
                ..page
            },
        }
    }
}

/// A page of nothing.
pub open spec fn empty_page() -> PageView {
    PageView {
        objects: Seq::empty(),
        prefixes: Seq::empty(),
        truncated: false,
        cursor: None,
    }
}

/// The page of a listing, before it is ended.
pub open spec fn page_of(query: PageQuery, scope: Seq<char>, blobs: Seq<ListedBlob>) -> PageView
    decreases blobs.len(),
{
    if blobs.len() == 0 {
        empty_page()
    } else {
        page_step(page_of(query, scope, blobs.drop_last()), query, scope, blobs.last())
    }
}

/// A page at its end: one that holds all has no cursor.
pub open spec fn ended(page: PageView) -> PageView {
    if page.truncated {
        page
    } else {
        PageView { cursor: None, ..page }
    }
}

fn copy_of(s: &Option<String>) -> (out: Option<String>)
    ensures
        view_of(out) == view_of(*s),
{
    match s {
        Some(s) => Some(s.clone()),
        None => None,
    }
}

fn group(prefix: &[char], delimiter: &Option<String>, key: &[char]) -> (out: Option<String>)
    requires
        text::begins_with(key@, prefix@),
    ensures
        view_of(out) == group_of(prefix@, view_of(*delimiter), key@),
{
    let ghost remainder = key@.skip(prefix@.len() as int);
    let wanted = match delimiter {
        Some(delimiter) => text::chars_of(delimiter.as_str()),
        None => {
            proof {
                lemma_group(prefix@, None, key@, None);
            }
            return None;
        },
    };
    if wanted.len() == 0 {
        proof {
            lemma_group(prefix@, view_of(*delimiter), key@, None);
        }
        return None;
    }
    let rest = text::cut(key, prefix.len(), key.len());
    assert(rest@ =~= remainder);
    match text::find(&rest, &wanted) {
        None => {
            proof {
                lemma_group(prefix@, view_of(*delimiter), key@, None);
            }
            None
        },
        Some(at) => {
            assert(text::stands_at(remainder, wanted@, at as int));
            let head = text::cut(&rest, 0, at + wanted.len());
            assert(head@ =~= remainder.take(at + wanted@.len()));
            let group = text::joined(prefix, &head);
            proof {
                assert(first_at(remainder, wanted@, at as int));
                lemma_group(prefix@, view_of(*delimiter), key@, Some(group@));
            }
            Some(text::string_of(&group))
        },
    }
}

fn holds(prefixes: &Vec<String>, wanted: &str) -> (answer: bool)
    ensures
        answer == text::views(prefixes@).contains(wanted@),
{
    let mut i: usize = 0;
    while i < prefixes.len()
        invariant
            i <= prefixes@.len(),
            forall|k: int| 0 <= k < i ==> (#[trigger] prefixes@[k])@ != wanted@,
        decreases prefixes@.len() - i,
    {
        if text::same_text(prefixes[i].as_str(), wanted) {
            assert(text::views(prefixes@)[i as int] == wanted@);
            return true;
        }
        i = i + 1;
    }
    proof {
        if text::views(prefixes@).contains(wanted@) {
            let k = choose|k: int|
                0 <= k < prefixes@.len() && text::views(prefixes@)[k] == wanted@;
            assert(prefixes@[k]@ == wanted@);
        }
    }
    false
}

impl BlobPage {
    /// A page of nothing.
    pub fn new() -> (page: Self)
        ensures
            page@ == empty_page(),
    {
        let page = BlobPage {
            objects: Vec::new(),
            prefixes: Vec::new(),
            truncated: false,
            cursor: None,
        };
        assert(page@.objects =~= Seq::<EntryView>::empty());
        assert(page@.prefixes =~= Seq::<Seq<char>>::empty());
        page
    }

    /// Take one more object of the listing.
    pub fn take_blob(&mut self, query: &PageQuery, bucket: &Bucket, blob: &ListedBlob)
        requires
            old(self).objects@.len() + old(self).prefixes@.len() <= usize::MAX,
        ensures
            final(self)@ == page_step(old(self)@, *query, bucket.prefix@, *blob),
    {
        if self.truncated {
            return;
        }
        let key = bucket.unkey(blob.location.as_str());
        let chars = text::chars_of(key.as_str());
        let prefix = text::chars_of(query.prefix.as_str());
        if !text::starts_with(&chars, &prefix) {
            return;
        }
        let group = group(&prefix, &query.delimiter, &chars);
        match &group {
            Some(group) => {
                if holds(&self.prefixes, group.as_str()) {
                    self.cursor = Some(key);
                    return;
                }
            },
            None => {},
        }
        if self.objects.len() + self.prefixes.len() >= query.limit {
            self.truncated = true;
            return;
        }
        let ghost before = *self;
        match group {
            Some(group) => {
                let ghost g = group@;
                self.prefixes.push(group);
                assert(text::views(self.prefixes@) =~= text::views(before.prefixes@).push(g));
            },
            None => {
                let entry = BlobEntry {
                    key: key.clone(),
                    size: blob.size,
                    etag: copy_of(&blob.etag),
                    version: copy_of(&blob.version),
                    uploaded_ms: blob.uploaded_ms,
                };
                let ghost e = entry@;
                self.objects.push(entry);
                assert(entry_views(self.objects@) =~= entry_views(before.objects@).push(e));
            },
        }
        self.cursor = Some(key);
    }

    /// End the page: one that holds all has no cursor.
    pub fn end(&mut self)
        ensures
            final(self)@ == ended(old(self)@),
    {
        if !self.truncated {
            self.cursor = None;
        }
    }
}

impl Bucket {
    /// One page of a listing: the keys that begin with the query's prefix, in the
    /// order of the store.
    pub fn list_page(&self, query: &PageQuery, blobs: &Vec<ListedBlob>) -> (page: BlobPage)
        ensures
            page@ == ended(page_of(*query, self.prefix@, blobs@)),
    {
        let mut page = BlobPage::new();
        let mut i: usize = 0;
        assert(blobs@.take(0).len() == 0);
        while i < blobs.len()
            invariant
                i <= blobs@.len(),
                page@ == page_of(*query, self.prefix@, blobs@.take(i as int)),
                page@.objects.len() + page@.prefixes.len() <= i,
            decreases blobs@.len() - i,
        {
            proof {
                assert(blobs@.take(i + 1).drop_last() =~= blobs@.take(i as int));
                assert(blobs@.take(i + 1).last() == blobs@[i as int]);
            }
            page.take_blob(query, self, &blobs[i]);
            i = i + 1;
        }
        assert(blobs@.take(blobs@.len() as int) =~= blobs@);
        page.end();
        page
    }

    /// The directory that a listing of a prefix goes through, below the bucket's
    /// own prefix: what stands before the last slash.
    pub fn page_directory(&self, prefix: &str) -> (directory: String)
        ensures
            directory@ == self.prefix@ + match prefix@.index_of_last('/') {
                Some(i) => prefix@.take(i),
                None => Seq::empty(),
            },
    {
        let chars = text::chars_of(prefix);
        proof {
            prefix@.index_of_last_ensures('/');
        }
        let head = match text::rfind_char(&chars, '/') {
            Some(i) => {
                assert(prefix@.contains(prefix@[i as int]));
                let head = text::cut(&chars, 0, i);
                assert(head@ =~= prefix@.take(i as int));
                head
            },
            None => {
                let none: Vec<char> = Vec::new();
                assert(none@ =~= Seq::<char>::empty());
                none
            },
        };
        let head = text::string_of(&head);
        self.key(head.as_str())
    }

    /// What the listing of a directory is asked for: the bucket's prefix, and the
    /// directory without the slashes at its end.
    pub fn list_scope(&self, prefix: &str) -> (scope: String)
        ensures
            scope@ == self.prefix@ + text::without_trailing(prefix@, '/'),
    {
        let chars = text::chars_of(prefix);
        let trimmed = text::string_of(&text::trim_end_char(&chars, '/'));
        self.key(trimmed.as_str())
    }

    /// What a page of a directory's objects is asked for: with one slash at its
    /// end, or the bucket's whole prefix.
    pub fn objects_scope(&self, prefix: &str) -> (scope: String)
        ensures
            scope@ == if prefix@.len() == 0 {
                self.prefix@
            } else {
                self.prefix@ + text::without_trailing(prefix@, '/') + "/"@
            },
    {
        let chars = text::chars_of(prefix);
        if chars.len() == 0 {
            return self.prefix.clone();
        }
        let scope = self.list_scope(prefix);
        text::concat(scope.as_str(), "/")
    }

    /// Where a page of children begins: right before those of the child that a
    /// walk resumes from, so that this child comes again and none is skipped. On
    /// Azure a walk does not resume by name.
    pub fn children_offset(&self, start_after: Option<&str>) -> (offset: Result<
        Option<String>,
        &'static str,
    >)
        ensures
            match (offset, start_after) {
                (Ok(None), None) => true,
                (Ok(Some(offset)), Some(child)) => !(self.backend is Azure) && offset@
                    == self.prefix@ + (child@ + "/"@),
                (Err(message), Some(_)) => self.backend is Azure && message@ == NO_START_AFTER@,
                _ => false,
            },
    {
        match start_after {
            None => Ok(None),
            Some(child) => match self.backend {
                StorageBackend::Azure => Err(NO_START_AFTER),
                _ => {
                    let child = text::concat(child, "/");
                    Ok(Some(self.key(child.as_str())))
                },
            },
        }
    }

    /// The children that a page lists, as the caller writes them.
    pub fn common_prefixes(&self, children: &Vec<String>) -> (prefixes: Vec<String>)
        ensures
            prefixes@.len() == children@.len(),
            forall|i: int|
                0 <= i < children@.len() ==> (#[trigger] prefixes@[i])@ == backend::unscoped(
                    self.prefix@,
                    children@[i]@,
                ),
    {
        let mut prefixes: Vec<String> = Vec::new();
        let mut i: usize = 0;
        while i < children.len()
            invariant
                i <= children@.len(),
                prefixes@.len() == i,
                forall|k: int|
                    0 <= k < i ==> (#[trigger] prefixes@[k])@ == backend::unscoped(
                        self.prefix@,
                        children@[k]@,
                    ),
            decreases children@.len() - i,
        {
            prefixes.push(self.unkey(children[i].as_str()));
            i = i + 1;
        }
        prefixes
    }
}

/// A page holds no more than its limit, and no group twice.
pub proof fn law_page_is_bounded(query: PageQuery, scope: Seq<char>, blobs: Seq<ListedBlob>)
    ensures
        ({
            let page = page_of(query, scope, blobs);
            &&& page.objects.len() + page.prefixes.len() <= query.limit
            &&& page.prefixes.no_duplicates()
            &&& page.truncated ==> page.objects.len() + page.prefixes.len() == query.limit
        }),
    decreases blobs.len(),
{
    if blobs.len() > 0 {
        law_page_is_bounded(query, scope, blobs.drop_last());
    }
}

/// Every key of the listing that begins with the prefix is on a page that is not
/// cut short: by itself, or through the group that it is rolled up to.
pub proof fn law_whole_page_holds_every_key(
    query: PageQuery,
    scope: Seq<char>,
    blobs: Seq<ListedBlob>,
    i: int,
)
    requires
        0 <= i < blobs.len(),
        !page_of(query, scope, blobs).truncated,
        text::begins_with(backend::unscoped(scope, blobs[i].location@), query.prefix@),
    ensures
        ({
            let page = page_of(query, scope, blobs);
            let key = backend::unscoped(scope, blobs[i].location@);
            match group_of(query.prefix@, view_of(query.delimiter), key) {
                Some(group) => page.prefixes.contains(group),
                None => exists|k: int| 0 <= k < page.objects.len() && page.objects[k].key == key,
            }
        }),
    decreases blobs.len(),
{
    let page = page_of(query, scope, blobs);
    let before = page_of(query, scope, blobs.drop_last());
    let key = backend::unscoped(scope, blobs[i].location@);
    if i == blobs.len() - 1 {
        match group_of(query.prefix@, view_of(query.delimiter), key) {
            Some(group) => {
                if !before.prefixes.contains(group) {
                    assert(page.prefixes[before.prefixes.len() as int] == group);
                }
            },
            None => {
                assert(page.objects[before.objects.len() as int].key == key);
            },
        }
    } else {
        assert(blobs.drop_last()[i] == blobs[i]);
        law_whole_page_holds_every_key(query, scope, blobs.drop_last(), i);
        match group_of(query.prefix@, view_of(query.delimiter), key) {
            Some(group) => {
                let k = choose|k: int|
                    0 <= k < before.prefixes.len() && before.prefixes[k] == group;
                assert(page.prefixes[k] == group);
            },
            None => {
                let k = choose|k: int|
                    0 <= k < before.objects.len() && before.objects[k].key == key;
                assert(page.objects[k].key == key);
            },
        }
    }
}

/// A key is rolled up to its group: with a delimiter, everything up to its first occurrence
/// behind the prefix and with it; without one behind the prefix, or without any, the key
/// stands for itself.
pub proof fn law_keys_roll_up(
    prefix: Seq<char>,
    head: Seq<char>,
    delimiter: Seq<char>,
    tail: Seq<char>,
    key: Seq<char>,
)
    requires
        delimiter.len() > 0,
        !text::occurs_in(head + delimiter.drop_last(), delimiter),
        !text::occurs_in(key, delimiter),
    ensures
        group_of(prefix, Some(delimiter), prefix + head + delimiter + tail) == Some(
            prefix + head + delimiter,
        ),
        group_of(prefix, Some(delimiter), prefix + key) is None,
        group_of(prefix, None, prefix + key) is None,
        group_of(prefix, Some(Seq::empty()), prefix + key) is None,
{
    let whole = prefix + head + delimiter + tail;
    let rest = whole.skip(prefix.len() as int);
    let n = head.len() as int;
    assert(rest =~= head + delimiter + tail);
    text::lemma_occurs(head, delimiter, tail);
    assert(rest.subrange(n, n + delimiter.len()) =~= delimiter);
    assert(text::stands_at(rest, delimiter, n));
    assert forall|j: int| 0 <= j < n implies !text::stands_at(rest, delimiter, j) by {
        if text::stands_at(rest, delimiter, j) {
            let front = head + delimiter.drop_last();
            assert(front.subrange(j, j + delimiter.len()) =~= rest.subrange(
                j,
                j + delimiter.len(),
            ));
            assert(text::stands_at(front, delimiter, j));
        }
    }
    assert(first_at(rest, delimiter, n));
    assert(rest.take(n + delimiter.len()) =~= head + delimiter);
    assert(prefix + (head + delimiter) =~= prefix + head + delimiter);
    let group = Some(prefix + head + delimiter);
    assert(rolls_up_to(prefix, Some(delimiter), whole, group));
    let found = group_of(prefix, Some(delimiter), whole);
    assert(rolls_up_to(prefix, Some(delimiter), whole, found));
    let at = choose|at: int| #[trigger]
        first_at(rest, delimiter, at) && found == Some(
            prefix + rest.take(at + delimiter.len()),
        );
    assert(at == n) by {
        assert(text::stands_at(rest, delimiter, at));
        if at > n {
            assert(!text::stands_at(rest, delimiter, n));
        }
    }
    let plain = prefix + key;
    assert(plain.skip(prefix.len() as int) =~= key);
    let none: Option<Seq<char>> = None;
    assert(rolls_up_to(prefix, Some(delimiter), plain, none));
    assert(rolls_up_to(prefix, None, plain, none));
    assert(rolls_up_to(prefix, Some(Seq::empty()), plain, none));
    assert(rolls_up_to(prefix, Some(delimiter), plain, group_of(prefix, Some(delimiter), plain)));
    assert(rolls_up_to(prefix, None, plain, group_of(prefix, None, plain)));
    assert(rolls_up_to(
        prefix,
        Some(Seq::empty()),
        plain,
        group_of(prefix, Some(Seq::empty()), plain),
    ));
}

/// Every object of a page is one of those listed, told as it was listed: its key without the
/// bucket's prefix, its size, its tags and its time. It has the prefix that was asked for, and
/// belongs to no group. Every prefix of a page is the group of one that was listed.
pub proof fn law_page_tells_what_was_listed(
    query: PageQuery,
    scope: Seq<char>,
    blobs: Seq<ListedBlob>,
    k: int,
)
    ensures
        0 <= k < page_of(query, scope, blobs).objects.len() ==> exists|i: int|
            {
                let entry = page_of(query, scope, blobs).objects[k];
                &&& 0 <= i < blobs.len()
                &&& entry.key == backend::unscoped(scope, (#[trigger] blobs[i]).location@)
                &&& entry.size == blobs[i].size && entry.uploaded_ms == blobs[i].uploaded_ms
                &&& entry.etag == view_of(blobs[i].etag) && entry.version == view_of(
                    blobs[i].version,
                )
                &&& text::begins_with(entry.key, query.prefix@)
                &&& group_of(query.prefix@, view_of(query.delimiter), entry.key) is None
            },
        0 <= k < page_of(query, scope, blobs).prefixes.len() ==> exists|i: int|
            {
                let key = backend::unscoped(scope, (#[trigger] blobs[i]).location@);
                &&& 0 <= i < blobs.len()
                &&& text::begins_with(key, query.prefix@)
                &&& group_of(query.prefix@, view_of(query.delimiter), key) == Some(
                    page_of(query, scope, blobs).prefixes[k],
                )
            },
    decreases blobs.len(),
{
    if blobs.len() > 0 {
        let front = blobs.drop_last();
        let before = page_of(query, scope, front);
        let page = page_of(query, scope, blobs);
        law_page_tells_what_was_listed(query, scope, front, k);
        assert(blobs[blobs.len() - 1] == blobs.last());
        assert forall|i: int| 0 <= i < front.len() implies #[trigger] front[i] == blobs[i] by {}
        if 0 <= k < page.objects.len() {
            if k < before.objects.len() {
                assert(page.objects[k] == before.objects[k]);
                let entry = before.objects[k];
                let i = choose|i: int|
                    {
                        &&& 0 <= i < front.len()
                        &&& entry.key == backend::unscoped(scope, (#[trigger] front[i]).location@)
                        &&& entry.size == front[i].size && entry.uploaded_ms
                            == front[i].uploaded_ms
                        &&& entry.etag == view_of(front[i].etag) && entry.version == view_of(
                            front[i].version,
                        )
                        &&& text::begins_with(entry.key, query.prefix@)
                        &&& group_of(query.prefix@, view_of(query.delimiter), entry.key) is None
                    };
                assert(blobs[i] == front[i]);
            } else {
                let i = blobs.len() - 1;
                assert(page.objects[k].key == backend::unscoped(scope, blobs[i].location@));
            }
        }
        if 0 <= k < page.prefixes.len() {
            if k < before.prefixes.len() {
                assert(page.prefixes[k] == before.prefixes[k]);
                let i = choose|i: int|
                    {
                        let key = backend::unscoped(scope, (#[trigger] front[i]).location@);
                        &&& 0 <= i < front.len()
                        &&& text::begins_with(key, query.prefix@)
                        &&& group_of(query.prefix@, view_of(query.delimiter), key) == Some(
                            before.prefixes[k],
                        )
                    };
                assert(blobs[i] == front[i]);
            } else {
                let i = blobs.len() - 1;
                assert(text::begins_with(
                    backend::unscoped(scope, blobs[i].location@),
                    query.prefix@,
                ));
            }
        }
    }
}

/// A page that has ended says where to go on only where it was cut.
pub proof fn law_page_ends(page: PageView)
    ensures
        ended(page).objects == page.objects && ended(page).prefixes == page.prefixes,
        ended(page).truncated == page.truncated,
        page.truncated ==> ended(page).cursor == page.cursor,
        !page.truncated ==> ended(page).cursor is None,
{
}

} // verus!
