//! Facet database images that wait for their root transaction.
//!
//! While a root transaction is open, the image of a facet that it called cannot
//! be written to the root database. It is held in a layer of the transaction
//! instead: a commit keeps it, and a rollback drops it and names the image that
//! the facet has to go back to.

use vstd::prelude::*;

use crate::text;
use crate::text_map::TextMap;

verus! {

broadcast use vstd::std_specs::hash::group_hash_axioms;

/// A facet's database image that waits for a commit.
pub struct DeferredFacetImage {
    pub facet_scope: String,
    pub image: Vec<u8>,
}

/// One open transaction or savepoint, with the images by facet path.
pub struct RootTransactionLayer {
    pub savepoint: String,
    pub facets: TextMap<DeferredFacetImage>,
}

/// A waiting image, as a model.
pub struct FacetImage {
    pub scope: Seq<char>,
    pub image: Seq<u8>,
}

/// A layer, as a model.
pub struct Layer {
    pub savepoint: Seq<char>,
    pub facets: Map<Seq<char>, FacetImage>,
}

impl DeferredFacetImage {
    pub open spec fn view(&self) -> FacetImage {
        FacetImage { scope: self.facet_scope@, image: self.image@ }
    }
}

/// The images of a layer, as a model.
pub open spec fn images(facets: Map<Seq<char>, DeferredFacetImage>) -> Map<
    Seq<char>,
    FacetImage,
> {
    facets.map_values(|f: DeferredFacetImage| f@)
}

impl RootTransactionLayer {
    pub open spec fn view(&self) -> Layer {
        Layer { savepoint: self.savepoint@, facets: images(self.facets@) }
    }
}

/// The layers of one root transaction, the innermost last.
pub struct Journal {
    layers: Vec<RootTransactionLayer>,
}

/// The image of a path that the innermost layer with one holds.
pub open spec fn pending(layers: Seq<Layer>, path: Seq<char>) -> Option<FacetImage>
    decreases layers.len(),
{
    if layers.len() == 0 {
        None
    } else if layers.last().facets.dom().contains(path) {
        Some(layers.last().facets[path])
    } else {
        pending(layers.drop_last(), path)
    }
}

/// The images that facets have to go back to, by facet scope; none for the
/// durable image.
pub open spec fn restore_view(restores: TextMap<Option<Vec<u8>>>) -> Map<
    Seq<char>,
    Option<Seq<u8>>,
> {
    restores@.map_values(
        |image: Option<Vec<u8>>|
            match image {
                Some(bytes) => Some(bytes@),
                None => None,
            },
    )
}

/// The image of a waiting facet.
pub open spec fn image_of(facet: Option<FacetImage>) -> Option<Seq<u8>> {
    match facet {
        Some(facet) => Some(facet.image),
        None => None,
    }
}

/// Whether `path` is a dropped image of the facet `scope`.
pub open spec fn dropped_for(
    dropped: Map<Seq<char>, FacetImage>,
    scope: Seq<char>,
    path: Seq<char>,
) -> bool {
    dropped.dom().contains(path) && dropped[path].scope == scope
}

/// Whether `after` sends every facet of `dropped` back to the image that the
/// layers below still hold, and leaves every other facet alone.
pub open spec fn sends_back(
    before: Map<Seq<char>, Option<Seq<u8>>>,
    after: Map<Seq<char>, Option<Seq<u8>>>,
    below: Seq<Layer>,
    dropped: Map<Seq<char>, FacetImage>,
) -> bool {
    forall|scope: Seq<char>|
        #![trigger after.dom().contains(scope)]
        #![trigger after[scope]]
        if exists|path: Seq<char>| dropped_for(dropped, scope, path) {
            &&& after.dom().contains(scope)
            &&& exists|path: Seq<char>| #[trigger]
                dropped_for(dropped, scope, path) && after[scope] == image_of(pending(below, path))
        } else {
            &&& after.dom().contains(scope) == before.dom().contains(scope)
            &&& after.dom().contains(scope) ==> after[scope] == before[scope]
        }
}

/// Find the waiting image of a path.
fn find_pending(layers: &Vec<RootTransactionLayer>, path: &str) -> (found: Option<Vec<u8>>)
    requires
        forall|i: int| 0 <= i < layers@.len() ==> (#[trigger] layers@[i]).facets.wf(),
    ensures
        match found {
            Some(image) => image_of(pending(layers_view(layers@), path@)) == Some(image@),
            None => pending(layers_view(layers@), path@) is None,
        },
{
    let mut i: usize = layers.len();
    assert(layers_view(layers@).take(i as int) =~= layers_view(layers@));
    while i > 0
        invariant
            i <= layers@.len(),
            forall|j: int| 0 <= j < layers@.len() ==> (#[trigger] layers@[j]).facets.wf(),
            pending(layers_view(layers@), path@) == pending(
                layers_view(layers@).take(i as int),
                path@,
            ),
        decreases i,
    {
        let ghost here = layers_view(layers@).take(i as int);
        assert(here.last() == layers@[i - 1]@);
        assert(here.drop_last() =~= layers_view(layers@).take(i - 1));
        i = i - 1;
        match layers[i].facets.get(path) {
            Some(facet) => {
                return Some(facet.image.clone());
            },
            None => {},
        }
    }
    None
}

/// The model of a list of layers.
pub open spec fn layers_view(layers: Seq<RootTransactionLayer>) -> Seq<Layer> {
    layers.map_values(|layer: RootTransactionLayer| layer@)
}

/// Move every image of `from` into `into`, where it replaces one of the same
/// path.
fn merge_facets(into: &mut TextMap<DeferredFacetImage>, from: TextMap<DeferredFacetImage>)
    requires
        old(into).wf(),
        from.wf(),
    ensures
        final(into).wf(),
        images(final(into)@) == images(old(into)@).union_prefer_right(images(from@)),
{
    let mut from = from;
    let ghost whole = images(into@).union_prefer_right(images(from@));
    while from.len() > 0
        invariant
            into.wf(),
            from.wf(),
            images(into@).union_prefer_right(images(from@)) == whole,
        decreases from.keys().len(),
    {
        let key = from.key(0).clone();
        let ghost before = images(into@).union_prefer_right(images(from@));
        match from.remove(&key) {
            Some(facet) => {
                let _ = into.insert(&key, facet);
            },
            None => {},
        }
        assert(images(into@).union_prefer_right(images(from@)) =~= before);
    }
    proof {
        from.lemma_keys();
        assert(images(from@) =~= Map::<Seq<char>, FacetImage>::empty()) by {
            assert forall|k: Seq<char>| !images(from@).dom().contains(k) by {
                if from@.dom().contains(k) {
                    assert(from.keys().contains(k));
                }
            }
        }
        assert(images(into@).union_prefer_right(images(from@)) =~= images(into@));
    }
}

/// Send every facet with a dropped image back to the image that `remaining`
/// still holds for it, or to the durable one.
pub fn restore_discarded_facets(
    restores: &mut TextMap<Option<Vec<u8>>>,
    remaining: &Vec<RootTransactionLayer>,
    discarded: TextMap<DeferredFacetImage>,
)
    requires
        old(restores).wf(),
        discarded.wf(),
        forall|i: int| 0 <= i < remaining@.len() ==> (#[trigger] remaining@[i]).facets.wf(),
    ensures
        final(restores).wf(),
        sends_back(
            restore_view(*old(restores)),
            restore_view(*final(restores)),
            layers_view(remaining@),
            images(discarded@),
        ),
{
    let ghost all = images(discarded@);
    let ghost below = layers_view(remaining@);
    let ghost start = restore_view(*restores);
    let mut rest = discarded;
    let ghost mut done = Map::<Seq<char>, FacetImage>::empty();
    while rest.len() > 0
        invariant
            restores.wf(),
            rest.wf(),
            below == layers_view(remaining@),
            forall|i: int| 0 <= i < remaining@.len() ==> (#[trigger] remaining@[i]).facets.wf(),
            done.union_prefer_right(images(rest@)) == all,
            forall|p: Seq<char>| #[trigger] done.dom().contains(p) ==> !rest@.dom().contains(p),
            sends_back(start, restore_view(*restores), below, done),
        decreases rest.keys().len(),
    {
        let key = rest.key(0).clone();
        let ghost before = restore_view(*restores);
        let ghost held = rest@;
        let ghost done_before = done;
        match rest.remove(&key) {
            None => {},
            Some(facet) => {
                let image = find_pending(remaining, &key);
                let _ = restores.insert(&facet.facet_scope, image);
                proof {
                    done = done.insert(key@, facet@);
                    let after = restore_view(*restores);
                    let target = facet.facet_scope@;
                    assert(after =~= before.insert(target, image_of(pending(below, key@))));
                    assert(done.union_prefer_right(images(rest@)) =~= all) by {
                        assert(done_before.union_prefer_right(images(held)) == all);
                    }
                    assert forall|scope: Seq<char>|
                        #![trigger after.dom().contains(scope)]
                        #![trigger after[scope]]
                        if exists|path: Seq<char>| dropped_for(done, scope, path) {
                            &&& after.dom().contains(scope)
                            &&& exists|path: Seq<char>| #[trigger]
                                dropped_for(done, scope, path) && after[scope] == image_of(
                                    pending(below, path),
                                )
                        } else {
                            &&& after.dom().contains(scope) == start.dom().contains(scope)
                            &&& after.dom().contains(scope) ==> after[scope] == start[scope]
                        } by {
                        if scope == target {
                            assert(dropped_for(done, scope, key@));
                        } else {
                            assert(before.dom().contains(scope) == after.dom().contains(scope));
                            if exists|path: Seq<char>| dropped_for(done, scope, path) {
                                let path = choose|path: Seq<char>| dropped_for(done, scope, path);
                                assert(path != key@);
                                assert(dropped_for(done_before, scope, path));
                                let q = choose|path: Seq<char>| #[trigger]
                                    dropped_for(done_before, scope, path) && before[scope]
                                        == image_of(pending(below, path));
                                assert(dropped_for(done, scope, q));
                            } else {
                                assert forall|path: Seq<char>|
                                    !dropped_for(done_before, scope, path) by {
                                    if dropped_for(done_before, scope, path) {
                                        assert(dropped_for(done, scope, path));
                                    }
                                }
                            }
                        }
                    }
                }
            },
        }
    }
    proof {
        rest.lemma_keys();
        assert forall|k: Seq<char>| !images(rest@).dom().contains(k) by {
            if rest@.dom().contains(k) {
                assert(rest.keys().contains(k));
            }
        }
        assert(done =~= all);
    }
}

impl Journal {
    pub closed spec fn view(&self) -> Seq<Layer> {
        layers_view(self.layers@)
    }

    pub closed spec fn wf(&self) -> bool {
        forall|i: int| 0 <= i < self.layers@.len() ==> (#[trigger] self.layers@[i]).facets.wf()
    }

    pub fn new() -> (journal: Self)
        ensures
            journal.wf(),
            journal@ == Seq::<Layer>::empty(),
    {
        let journal = Journal { layers: Vec::new() };
        assert(journal@ =~= Seq::<Layer>::empty());
        journal
    }

    /// Whether no transaction is open.
    pub fn is_empty(&self) -> (answer: bool)
        ensures
            answer == (self@.len() == 0),
    {
        self.layers.len() == 0
    }

    /// Whether a savepoint names the innermost layer, if there is one.
    pub fn is_innermost(&self, savepoint: &str) -> (answer: bool)
        ensures
            answer == (self@.len() > 0 ==> self@.last().savepoint == savepoint@),
    {
        let n: usize = self.layers.len();
        if n == 0 {
            return true;
        }
        text::same_text(&self.layers[n - 1].savepoint, savepoint)
    }

    /// Open a layer. An outermost one replaces whatever was left.
    pub fn begin(&mut self, nested: bool, savepoint: &str)
        requires
            old(self).wf(),
        ensures
            final(self).wf(),
            final(self)@ == (if nested {
                old(self)@
            } else {
                Seq::empty()
            }).push(Layer { savepoint: savepoint@, facets: Map::empty() }),
    {
        if !nested {
            self.layers.clear();
        }
        let layer = RootTransactionLayer {
            savepoint: savepoint.to_owned(),
            facets: TextMap::new(),
        };
        self.layers.push(layer);
        assert(images(layer.facets@) =~= Map::<Seq<char>, FacetImage>::empty());
        assert(self@ =~= (if nested {
            old(self)@
        } else {
            Seq::empty()
        }).push(Layer { savepoint: savepoint@, facets: Map::empty() }));
    }

    /// Hold an image in the innermost layer. Answers whether there is one.
    pub fn defer(&mut self, facet_scope: &str, path: &str, image: Vec<u8>) -> (held: bool)
        requires
            old(self).wf(),
        ensures
            final(self).wf(),
            held == (old(self)@.len() > 0),
            held ==> final(self)@ == old(self)@.drop_last().push(
                Layer {
                    facets: old(self)@.last().facets.insert(
                        path@,
                        FacetImage { scope: facet_scope@, image: image@ },
                    ),
                    ..old(self)@.last()
                },
            ),
            !held ==> final(self)@ == old(self)@,
    {
        let ghost before = self.layers@;
        match self.layers.pop() {
            None => {
                assert(self.layers@ =~= before);
                false
            },
            Some(layer) => {
                let RootTransactionLayer { savepoint, facets } = layer;
                let mut facets = facets;
                let ghost held = facets@;
                let facet = DeferredFacetImage { facet_scope: facet_scope.to_owned(), image };
                let ghost put = facet;
                let _ = facets.insert(path, facet);
                assert(images(facets@) =~= images(held).insert(path@, put@));
                self.layers.push(RootTransactionLayer { savepoint, facets });
                assert(self@ =~= old(self)@.drop_last().push(
                    Layer {
                        facets: old(self)@.last().facets.insert(
                            path@,
                            FacetImage { scope: facet_scope@, image: image@ },
                        ),
                        ..old(self)@.last()
                    },
                ));
                true
            },
        }
    }

    /// The waiting image of a path, the innermost first.
    pub fn pending_image(&self, path: &str) -> (image: Option<Vec<u8>>)
        requires
            self.wf(),
        ensures
            match image {
                Some(image) => image_of(pending(self@, path@)) == Some(image@),
                None => pending(self@, path@) is None,
            },
    {
        find_pending(&self.layers, path)
    }

    /// Close the innermost layer, which `savepoint` names. A nested commit hands
    /// its images to the layer around it; an outermost commit has written them;
    /// a rollback drops them and sends their facets back.
    pub fn finish(
        &mut self,
        restores: &mut TextMap<Option<Vec<u8>>>,
        nested: bool,
        savepoint: &str,
        committed: bool,
    )
        requires
            old(self).wf(),
            old(restores).wf(),
            old(self)@.len() > 0,
            old(self)@.last().savepoint == savepoint@,
        ensures
            final(self).wf(),
            final(restores).wf(),
            ({
                let below = old(self)@.drop_last();
                let top = old(self)@.last();
                if committed {
                    &&& *final(restores) == *old(restores)
                    &&& final(self)@ == (if nested && below.len() > 0 {
                        below.drop_last().push(
                            Layer {
                                facets: below.last().facets.union_prefer_right(top.facets),
                                ..below.last()
                            },
                        )
                    } else {
                        below
                    })
                } else {
                    &&& final(self)@ == below
                    &&& sends_back(
                        restore_view(*old(restores)),
                        restore_view(*final(restores)),
                        below,
                        top.facets,
                    )
                }
            }),
    {
        match self.layers.pop() {
            None => {},
            Some(layer) => {
                let RootTransactionLayer { savepoint: _, facets } = layer;
                assert(self@ =~= old(self)@.drop_last());
                if committed {
                    if nested {
                        match self.layers.pop() {
                            None => {
                                assert(self@ =~= old(self)@.drop_last());
                            },
                            Some(parent) => {
                                let RootTransactionLayer { savepoint, facets: into } = parent;
                                let mut into = into;
                                merge_facets(&mut into, facets);
                                self.layers.push(
                                    RootTransactionLayer { savepoint, facets: into },
                                );
                                assert(self@ =~= old(self)@.drop_last().drop_last().push(
                                    Layer {
                                        facets: old(self)@.drop_last().last().facets.union_prefer_right(
                                            old(self)@.last().facets,
                                        ),
                                        ..old(self)@.drop_last().last()
                                    },
                                ));
                            },
                        }
                    }
                } else {
                    restore_discarded_facets(restores, &self.layers, facets);
                }
            },
        }
    }
}

/// Whether an image of the facet `scope` waits in some layer.
pub open spec fn waits_for(layers: Seq<Layer>, scope: Seq<char>) -> bool {
    exists|i: int, path: Seq<char>| waits_at(layers, scope, i, path)
}

/// Whether layer `i` holds an image of the facet `scope` under `path`.
pub open spec fn waits_at(layers: Seq<Layer>, scope: Seq<char>, i: int, path: Seq<char>) -> bool {
    0 <= i < layers.len() && dropped_for(layers[i].facets, scope, path)
}

/// The image that a list of writes leaves under a path: that of the last one.
pub open spec fn last_write(writes: Seq<(String, Vec<u8>)>, path: Seq<char>) -> Option<Seq<u8>>
    decreases writes.len(),
{
    if writes.len() == 0 {
        None
    } else if writes.last().0@ == path {
        Some(writes.last().1@)
    } else {
        last_write(writes.drop_last(), path)
    }
}

/// The images of all layers, a later layer's in place of an earlier one's.
pub open spec fn all_images(layers: Seq<Layer>) -> Map<Seq<char>, FacetImage>
    decreases layers.len(),
{
    if layers.len() == 0 {
        Map::empty()
    } else {
        all_images(layers.drop_last()).union_prefer_right(layers.last().facets)
    }
}

proof fn lemma_all_images(layers: Seq<Layer>, path: Seq<char>)
    ensures
        pending(layers, path) == (if all_images(layers).dom().contains(path) {
            Some(all_images(layers)[path])
        } else {
            None
        }),
    decreases layers.len(),
{
    if layers.len() > 0 {
        lemma_all_images(layers.drop_last(), path);
    }
}

impl Journal {
    /// Whether an image of this facet waits.
    pub fn holds_facet(&self, facet_scope: &str) -> (answer: bool)
        requires
            self.wf(),
        ensures
            answer == waits_for(self@, facet_scope@),
    {
        let mut i: usize = 0;
        while i < self.layers.len()
            invariant
                self.wf(),
                i <= self.layers@.len(),
                forall|k: int, path: Seq<char>|
                    0 <= k < i ==> !#[trigger] waits_at(self@, facet_scope@, k, path),
            decreases self.layers@.len() - i,
        {
            let facets = &self.layers[i].facets;
            let mut j: usize = 0;
            while j < facets.len()
                invariant
                    self.wf(),
                    i < self.layers@.len(),
                    *facets == self.layers@[i as int].facets,
                    j <= facets.keys().len(),
                    forall|m: int|
                        0 <= m < j ==> !#[trigger] waits_at(
                            self@,
                            facet_scope@,
                            i as int,
                            facets.keys()[m],
                        ),
                decreases facets.keys().len() - j,
            {
                let key = facets.key(j);
                match facets.get(key) {
                    Some(facet) => {
                        if text::same_text(&facet.facet_scope, facet_scope) {
                            assert(waits_at(self@, facet_scope@, i as int, key@));
                            return true;
                        }
                    },
                    None => {},
                }
                j = j + 1;
            }
            proof {
                facets.lemma_keys();
                assert forall|path: Seq<char>|
                    !#[trigger] waits_at(self@, facet_scope@, i as int, path) by {
                    if waits_at(self@, facet_scope@, i as int, path) {
                        assert(facets@.dom().contains(path));
                        assert(facets.keys().contains(path));
                        let m = choose|m: int|
                            0 <= m < facets.keys().len() && facets.keys()[m] == path;
                        assert(!waits_at(self@, facet_scope@, i as int, facets.keys()[m]));
                    }
                }
            }
            i = i + 1;
        }
        false
    }

    /// The writes that put every waiting image into the root database, the
    /// outermost layer's first.
    pub fn writes(&self) -> (writes: Vec<(String, Vec<u8>)>)
        requires
            self.wf(),
        ensures
            forall|path: Seq<char>| #[trigger]
                last_write(writes@, path) == image_of(pending(self@, path)),
    {
        let mut writes: Vec<(String, Vec<u8>)> = Vec::new();
        let mut i: usize = 0;
        while i < self.layers.len()
            invariant
                self.wf(),
                i <= self.layers@.len(),
                forall|path: Seq<char>| #[trigger]
                    last_write(writes@, path) == image_of(pending(self@.take(i as int), path)),
            decreases self.layers@.len() - i,
        {
            let facets = &self.layers[i].facets;
            let ghost earlier = writes@;
            let mut j: usize = 0;
            while j < facets.len()
                invariant
                    self.wf(),
                    i < self.layers@.len(),
                    *facets == self.layers@[i as int].facets,
                    j <= facets.keys().len(),
                    forall|path: Seq<char>| #[trigger]
                        last_write(writes@, path) == (if facets.keys().take(j as int).contains(
                            path,
                        ) && facets@.dom().contains(path) {
                            Some(facets@[path].image@)
                        } else {
                            last_write(earlier, path)
                        }),
                decreases facets.keys().len() - j,
            {
                let key = facets.key(j);
                let ghost before = writes@;
                match facets.get(key) {
                    Some(facet) => {
                        writes.push((key.clone(), facet.image.clone()));
                        proof {
                            let now = facets.keys().take(j + 1);
                            let was = facets.keys().take(j as int);
                            assert(now =~= was.push(key@));
                            assert(writes@.drop_last() =~= before);
                            assert forall|path: Seq<char>| #[trigger]
                                last_write(writes@, path) == (if now.contains(path)
                                    && facets@.dom().contains(path) {
                                    Some(facets@[path].image@)
                                } else {
                                    last_write(earlier, path)
                                }) by {
                                assert(writes@.last().0@ == key@);
                                if path == key@ {
                                    assert(now[j as int] == path);
                                    assert(now.contains(path));
                                } else {
                                    assert(last_write(before, path) == last_write(writes@, path));
                                    if now.contains(path) {
                                        let m = choose|m: int| 0 <= m < now.len() && now[m] == path;
                                        assert(was[m] == path);
                                    }
                                    if was.contains(path) {
                                        let m = choose|m: int| 0 <= m < was.len() && was[m] == path;
                                        assert(now[m] == path);
                                    }
                                }
                            }
                        }
                    },
                    None => {},
                }
                j = j + 1;
            }
            proof {
                facets.lemma_keys();
                assert(facets.keys().take(j as int) =~= facets.keys());
                let now = self@.take(i + 1);
                assert(now.last() == self.layers@[i as int]@);
                assert(now.drop_last() =~= self@.take(i as int));
                assert forall|path: Seq<char>| #[trigger]
                    last_write(writes@, path) == image_of(pending(now, path)) by {
                    assert(facets@.dom().contains(path) <==> facets.keys().contains(path));
                    assert(last_write(earlier, path) == image_of(
                        pending(self@.take(i as int), path),
                    ));
                }
            }
            i = i + 1;
        }
        assert(self@.take(i as int) =~= self@);
        writes
    }

    /// Drop every layer and send all their facets back to the durable images.
    pub fn abandon(self, restores: &mut TextMap<Option<Vec<u8>>>)
        requires
            self.wf(),
            old(restores).wf(),
        ensures
            final(restores).wf(),
            sends_back(
                restore_view(*old(restores)),
                restore_view(*final(restores)),
                Seq::empty(),
                all_images(self@),
            ),
    {
        let ghost all = self@;
        let Journal { layers } = self;
        let mut layers = layers;
        let mut discarded: TextMap<DeferredFacetImage> = TextMap::new();
        assert(images(discarded@) =~= Map::<Seq<char>, FacetImage>::empty());
        assert(all.take(all.len() as int) =~= all);
        assert(all_images(all).union_prefer_right(images(discarded@)) =~= all_images(all));
        while layers.len() > 0
            invariant
                discarded.wf(),
                forall|i: int| 0 <= i < layers@.len() ==> (#[trigger] layers@[i]).facets.wf(),
                all_images(layers_view(layers@)).union_prefer_right(images(discarded@))
                    == all_images(all),
            decreases layers@.len(),
        {
            let ghost before = layers_view(layers@);
            let ghost later = images(discarded@);
            match layers.pop() {
                None => {},
                Some(layer) => {
                    let RootTransactionLayer { savepoint: _, facets } = layer;
                    let mut merged = facets;
                    let ghost own = images(merged@);
                    let mut newer: TextMap<DeferredFacetImage> = TextMap::new();
                    std::mem::swap(&mut newer, &mut discarded);
                    merge_facets(&mut merged, newer);
                    discarded = merged;
                    proof {
                        assert(layers_view(layers@) =~= before.drop_last());
                        let inner = all_images(before.drop_last());
                        assert(inner.union_prefer_right(own.union_prefer_right(later))
                            =~= inner.union_prefer_right(own).union_prefer_right(later));
                    }
                },
            }
        }
        assert(all_images(layers_view(layers@)) =~= Map::<Seq<char>, FacetImage>::empty());
        assert(images(discarded@) =~= all_images(all));
        let none: Vec<RootTransactionLayer> = Vec::new();
        assert(layers_view(none@) =~= Seq::<Layer>::empty());
        restore_discarded_facets(restores, &none, discarded);
    }
}

/// Committing the outermost transaction writes, for every path, the image that
/// was waiting for it.
pub proof fn law_commit_writes_pending(layers: Seq<Layer>, path: Seq<char>)
    ensures
        pending(layers, path) == (if all_images(layers).dom().contains(path) {
            Some(all_images(layers)[path])
        } else {
            None
        }),
{
    lemma_all_images(layers, path);
}

/// What a nested transaction that is rolled back leaves of the images: those
/// that were waiting before it began, and nothing of its own.
pub proof fn law_rollback_restores_pending(layers: Seq<Layer>, savepoint: Seq<char>, path: Seq<
    char,
>)
    ensures
        pending(
            layers.push(Layer { savepoint, facets: Map::empty() }).drop_last(),
            path,
        ) == pending(layers, path),
{
    assert(layers.push(Layer { savepoint, facets: Map::empty() }).drop_last() =~= layers);
}

/// A nested transaction that commits changes no waiting image: what its layers
/// answered before the commit, the merged layers answer after it.
pub proof fn law_nested_commit_keeps_pending(layers: Seq<Layer>, path: Seq<char>)
    requires
        layers.len() >= 2,
    ensures
        ({
            let below = layers.drop_last();
            let merged = below.drop_last().push(
                Layer {
                    facets: below.last().facets.union_prefer_right(layers.last().facets),
                    ..below.last()
                },
            );
            pending(merged, path) == pending(layers, path)
        }),
{
    let below = layers.drop_last();
    let merged = below.drop_last().push(
        Layer {
            facets: below.last().facets.union_prefer_right(layers.last().facets),
            ..below.last()
        },
    );
    assert(merged.drop_last() =~= below.drop_last());
    reveal_with_fuel(pending, 3);
}

/// An image that was just deferred is the one that is waiting.
pub proof fn law_deferred_image_is_pending(
    layers: Seq<Layer>,
    path: Seq<char>,
    facet: FacetImage,
)
    requires
        layers.len() > 0,
    ensures
        pending(
            layers.drop_last().push(
                Layer { facets: layers.last().facets.insert(path, facet), ..layers.last() },
            ),
            path,
        ) == Some(facet),
{
    assert(layers.drop_last().push(
        Layer { facets: layers.last().facets.insert(path, facet), ..layers.last() },
    ).last().facets == layers.last().facets.insert(path, facet));
}

/// The image that is pending for a path is that of the innermost transaction that holds one;
/// where none does, none is.
pub proof fn law_innermost_image_is_pending(layers: Seq<Layer>, path: Seq<char>, i: int)
    requires
        forall|j: int| i < j < layers.len() ==> !(#[trigger] layers[j]).facets.dom().contains(path),
        i == -1 || (0 <= i < layers.len() && layers[i].facets.dom().contains(path)),
    ensures
        i >= 0 ==> pending(layers, path) == Some(layers[i].facets[path]),
        i == -1 ==> pending(layers, path) is None,
    decreases layers.len(),
{
    if layers.len() > 0 && i < layers.len() - 1 {
        assert(!layers[layers.len() - 1].facets.dom().contains(path));
        assert forall|j: int| i < j < layers.drop_last().len() implies !(
        #[trigger] layers.drop_last()[j]).facets.dom().contains(path) by {
            assert(!layers[j].facets.dom().contains(path));
        }
        law_innermost_image_is_pending(layers.drop_last(), path, i);
    }
}

/// Of the writes to a path the last one counts.
pub proof fn law_last_write_counts(
    writes: Seq<(String, Vec<u8>)>,
    write: (String, Vec<u8>),
    path: Seq<char>,
)
    ensures
        last_write(Seq::<(String, Vec<u8>)>::empty(), path) is None,
        write.0@ == path ==> last_write(writes.push(write), path) == Some(write.1@),
        write.0@ != path ==> last_write(writes.push(write), path) == last_write(writes, path),
{
    assert(writes.push(write).drop_last() =~= writes);
}

/// A facet waits for its root's commit exactly where some open transaction holds an image of
/// its scope.
pub proof fn law_facet_waits(layers: Seq<Layer>, layer: Layer, scope: Seq<char>)
    ensures
        !waits_for(Seq::<Layer>::empty(), scope),
        waits_for(layers.push(layer), scope) <==> waits_for(layers, scope) || exists|
            path: Seq<char>,
        | #[trigger]
            layer.facets.dom().contains(path) && layer.facets[path].scope == scope,
{
    let all = layers.push(layer);
    let n = layers.len() as int;
    assert(all[n] == layer);
    if waits_for(layers, scope) {
        let (i, path) = choose|i: int, path: Seq<char>| waits_at(layers, scope, i, path);
        assert(all[i] == layers[i]);
        assert(waits_at(all, scope, i, path));
    }
    if exists|path: Seq<char>| #[trigger]
        layer.facets.dom().contains(path) && layer.facets[path].scope == scope {
        let path = choose|path: Seq<char>| #[trigger]
            layer.facets.dom().contains(path) && layer.facets[path].scope == scope;
        assert(waits_at(all, scope, n, path));
    }
    if waits_for(all, scope) {
        let (i, path) = choose|i: int, path: Seq<char>| waits_at(all, scope, i, path);
        if i < n {
            assert(all[i] == layers[i]);
            assert(waits_at(layers, scope, i, path));
        } else {
            assert(layer.facets.dom().contains(path));
        }
    }
}

/// A rollback sends each facet whose image it dropped back to what is pending without it, and
/// leaves every other facet's restore as it is. A scope has one image in a transaction here.
pub proof fn law_rollback_sends_back(
    before: Map<Seq<char>, Option<Seq<u8>>>,
    after: Map<Seq<char>, Option<Seq<u8>>>,
    below: Seq<Layer>,
    dropped: Map<Seq<char>, FacetImage>,
    path: Seq<char>,
    other: Seq<char>,
)
    requires
        sends_back(before, after, below, dropped),
        dropped.dom().contains(path),
        forall|p: Seq<char>| #[trigger]
            dropped.dom().contains(p) && dropped[p].scope == dropped[path].scope ==> p == path,
        forall|p: Seq<char>| #[trigger]
            dropped.dom().contains(p) ==> dropped[p].scope != other,
    ensures
        after.dom().contains(dropped[path].scope),
        after[dropped[path].scope] == (match pending(below, path) {
            Some(facet) => Some(facet.image),
            None => None,
        }),
        after.dom().contains(other) == before.dom().contains(other),
        before.dom().contains(other) ==> after[other] == before[other],
{
    let scope = dropped[path].scope;
    assert(dropped_for(dropped, scope, path));
    assert(after.dom().contains(scope));
    let p = choose|p: Seq<char>| #[trigger]
        dropped_for(dropped, scope, p) && after[scope] == image_of(pending(below, p));
    assert(dropped.dom().contains(p));
    assert(p == path);
    assert(after.dom().contains(other) == before.dom().contains(other)) by {
        if exists|q: Seq<char>| dropped_for(dropped, other, q) {
            let q = choose|q: Seq<char>| dropped_for(dropped, other, q);
            assert(dropped.dom().contains(q));
        }
    }
    if before.dom().contains(other) {
        if exists|q: Seq<char>| dropped_for(dropped, other, q) {
            let q = choose|q: Seq<char>| dropped_for(dropped, other, q);
            assert(dropped.dom().contains(q));
        }
        assert(after[other] == before[other]);
    }
}

} // verus!
