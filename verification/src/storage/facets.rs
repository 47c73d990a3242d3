//! Facets: databases embedded as images in their root cell's database.

use std::collections::HashMap;

use vstd::prelude::*;

use crate::storage::cells;
use crate::storage::cells::Cells;
use crate::storage::cells::OpenCell;
use crate::storage::cells::StorageBacking;
use crate::storage::journal;
use crate::storage::journal::Journal;
use crate::text;
use crate::text_map::TextMap;

verus! {

broadcast use vstd::std_specs::hash::group_hash_axioms;

/// The open root transactions, by root scope and epoch.
pub struct RootTransactions {
    by_scope: TextMap<HashMap<u64, Journal>>,
}

impl RootTransactions {
    /// The layers of one root transaction, the innermost last.
    pub closed spec fn layers(&self, scope: Seq<char>, epoch: u64) -> Seq<journal::Layer> {
        if self.by_scope@.dom().contains(scope) && self.by_scope@[scope]@.dom().contains(epoch) {
            self.by_scope@[scope]@[epoch]@
        } else {
            Seq::empty()
        }
    }

    pub closed spec fn wf(&self) -> bool {
        &&& self.by_scope.wf()
        &&& forall|scope: Seq<char>, epoch: u64|
            self.by_scope@.dom().contains(scope) && #[trigger] self.by_scope@[scope]@.dom().contains(
                epoch,
            ) ==> self.by_scope@[scope]@[epoch].wf()
    }

    /// Every other root transaction is as it was.
    pub open spec fn only(&self, before: &Self, scope: Seq<char>, epoch: u64) -> bool {
        forall|s: Seq<char>, e: u64|
            (s != scope || e != epoch) ==> #[trigger] self.layers(s, e) == before.layers(s, e)
    }

    pub fn new() -> (all: Self)
        ensures
            all.wf(),
            forall|s: Seq<char>, e: u64| #[trigger] all.layers(s, e).len() == 0,
    {
        RootTransactions { by_scope: TextMap::new() }
    }

    /// Take one root transaction out.
    fn take(&mut self, scope: &str, epoch: u64) -> (out: Journal)
        requires
            old(self).wf(),
        ensures
            final(self).wf(),
            out.wf(),
            out@ == old(self).layers(scope@, epoch),
            final(self).layers(scope@, epoch).len() == 0,
            final(self).only(old(self), scope@, epoch),
    {
        match self.by_scope.remove(scope) {
            None => Journal::new(),
            Some(epochs) => {
                let mut epochs = epochs;
                let found = epochs.remove(&epoch);
                let _ = self.by_scope.insert(scope, epochs);
                match found {
                    Some(out) => out,
                    None => Journal::new(),
                }
            },
        }
    }

    /// Put one root transaction back.
    fn put(&mut self, scope: &str, epoch: u64, journal: Journal)
        requires
            old(self).wf(),
            journal.wf(),
            old(self).layers(scope@, epoch).len() == 0,
        ensures
            final(self).wf(),
            final(self).layers(scope@, epoch) == journal@,
            final(self).only(old(self), scope@, epoch),
    {
        if journal.is_empty() {
            assert(self.layers(scope@, epoch) =~= journal@);
            return ;
        }
        let mut epochs = match self.by_scope.remove(scope) {
            Some(epochs) => epochs,
            None => HashMap::new(),
        };
        epochs.insert(epoch, journal);
        let _ = self.by_scope.insert(scope, epochs);
    }
}

/// Hold a facet's image in its root transaction. Answers whether one is open.
pub fn defer_facet_image(
    all: &mut RootTransactions,
    root_scope: &str,
    epoch: u64,
    facet_scope: &str,
    path: &str,
    image: Vec<u8>,
) -> (held: bool)
    requires
        old(all).wf(),
    ensures
        final(all).wf(),
        final(all).only(old(all), root_scope@, epoch),
        ({
            let before = old(all).layers(root_scope@, epoch);
            let after = final(all).layers(root_scope@, epoch);
            &&& held == (before.len() > 0)
            &&& !held ==> after == before
            &&& held ==> after == before.drop_last().push(
                journal::Layer {
                    facets: before.last().facets.insert(
                        path@,
                        journal::FacetImage { scope: facet_scope@, image: image@ },
                    ),
                    ..before.last()
                },
            )
        }),
{
    let mut layers = all.take(root_scope, epoch);
    let held = layers.defer(facet_scope, path, image);
    all.put(root_scope, epoch, layers);
    held
}

/// The image of a path that waits in its root transaction.
pub fn pending_facet_image(
    all: &RootTransactions,
    root_scope: &str,
    epoch: u64,
    path: &str,
) -> (image: Option<Vec<u8>>)
    requires
        all.wf(),
    ensures
        match image {
            Some(image) => journal::image_of(
                journal::pending(all.layers(root_scope@, epoch), path@),
            ) == Some(image@),
            None => journal::pending(all.layers(root_scope@, epoch), path@) is None,
        },
{
    match all.by_scope.get(root_scope) {
        None => None,
        Some(epochs) => match epochs.get(&epoch) {
            None => None,
            Some(layers) => layers.pending_image(path),
        },
    }
}

/// Whether an image of a facet waits in its root transaction.
pub fn facet_image_is_deferred(
    all: &RootTransactions,
    root_scope: &str,
    epoch: u64,
    facet_scope: &str,
) -> (answer: bool)
    requires
        all.wf(),
    ensures
        answer == journal::waits_for(all.layers(root_scope@, epoch), facet_scope@),
{
    match all.by_scope.get(root_scope) {
        None => false,
        Some(epochs) => match epochs.get(&epoch) {
            None => false,
            Some(layers) => layers.holds_facet(facet_scope),
        },
    }
}

/// Open a layer of a root transaction.
pub fn begin_root_transaction(
    all: &mut RootTransactions,
    scope: &str,
    epoch: u64,
    nested: bool,
    savepoint: &str,
)
    requires
        old(all).wf(),
    ensures
        final(all).wf(),
        final(all).only(old(all), scope@, epoch),
        final(all).layers(scope@, epoch) == (if nested {
            old(all).layers(scope@, epoch)
        } else {
            Seq::empty()
        }).push(journal::Layer { savepoint: savepoint@, facets: Map::empty() }),
{
    let mut layers = all.take(scope, epoch);
    layers.begin(nested, savepoint);
    all.put(scope, epoch, layers);
}

/// The layers that a finished layer leaves.
pub open spec fn finished(
    layers: Seq<journal::Layer>,
    nested: bool,
    committed: bool,
) -> Seq<journal::Layer> {
    let below = layers.drop_last();
    if committed && nested && below.len() > 0 {
        below.drop_last().push(
            journal::Layer {
                facets: below.last().facets.union_prefer_right(layers.last().facets),
                ..below.last()
            },
        )
    } else {
        below
    }
}

/// Close the innermost layer of a root transaction, which `savepoint` names: a
/// different layer would detach its images from the SQLite boundary that owns
/// them. A transaction without layers stays without.
pub fn finish_root_transaction(
    all: &mut RootTransactions,
    restores: &mut TextMap<Option<Vec<u8>>>,
    scope: &str,
    epoch: u64,
    nested: bool,
    savepoint: &str,
    committed: bool,
)
    requires
        old(all).wf(),
        old(restores).wf(),
        old(all).layers(scope@, epoch).len() > 0 ==> old(all).layers(
            scope@,
            epoch,
        ).last().savepoint == savepoint@,
    ensures
        final(all).wf(),
        final(restores).wf(),
        final(all).only(old(all), scope@, epoch),
        ({
            let before = old(all).layers(scope@, epoch);
            let after = final(all).layers(scope@, epoch);
            if before.len() == 0 {
                after == before && *final(restores) == *old(restores)
            } else {
                &&& after == finished(before, nested, committed)
                &&& if committed {
                    *final(restores) == *old(restores)
                } else {
                    journal::sends_back(
                        journal::restore_view(*old(restores)),
                        journal::restore_view(*final(restores)),
                        before.drop_last(),
                        before.last().facets,
                    )
                }
            }
        }),
{
    let mut layers = all.take(scope, epoch);
    if !layers.is_empty() {
        layers.finish(restores, nested, savepoint, committed);
    }
    all.put(scope, epoch, layers);
}

/// Whether the innermost layer is of this savepoint. Where no transaction is open
/// there is no layer, and nothing to be of another.
pub fn innermost_savepoint_is(
    all: &RootTransactions,
    scope: &str,
    epoch: u64,
    savepoint: &str,
) -> (answer: bool)
    requires
        all.wf(),
    ensures
        answer == (all.layers(scope@, epoch).len() > 0 ==> all.layers(
            scope@,
            epoch,
        ).last().savepoint == savepoint@),
{
    match all.by_scope.get(scope) {
        None => true,
        Some(epochs) => match epochs.get(&epoch) {
            None => true,
            Some(layers) => layers.is_innermost(savepoint),
        },
    }
}

/// The writes that an outermost commit makes before it: every waiting image.
pub fn apply_deferred_facets(all: &RootTransactions, scope: &str, epoch: u64) -> (writes: Vec<
    (String, Vec<u8>),
>)
    requires
        all.wf(),
    ensures
        forall|path: Seq<char>| #[trigger]
            journal::last_write(writes@, path) == journal::image_of(
                journal::pending(all.layers(scope@, epoch), path),
            ),
{
    match all.by_scope.get(scope) {
        None => Vec::new(),
        Some(epochs) => match epochs.get(&epoch) {
            None => Vec::new(),
            Some(layers) => layers.writes(),
        },
    }
}

/// Drop a root transaction with all its layers; their facets go back to the
/// durable images.
pub fn abandon_root_transaction(
    all: &mut RootTransactions,
    restores: &mut TextMap<Option<Vec<u8>>>,
    scope: &str,
    epoch: u64,
)
    requires
        old(all).wf(),
        old(restores).wf(),
    ensures
        final(all).wf(),
        final(restores).wf(),
        final(all).only(old(all), scope@, epoch),
        final(all).layers(scope@, epoch).len() == 0,
        journal::sends_back(
            journal::restore_view(*old(restores)),
            journal::restore_view(*final(restores)),
            Seq::empty(),
            journal::all_images(old(all).layers(scope@, epoch)),
        ),
{
    let layers = all.take(scope, epoch);
    layers.abandon(restores);
}

/// Take the restore that a rolled-back root transaction left for a facet: the
/// flag says that there is one, and no image means the durable one.
pub fn take_facet_restore(restores: &mut TextMap<Option<Vec<u8>>>, scope: &str) -> (answer: (
    bool,
    Option<Vec<u8>>,
))
    requires
        old(restores).wf(),
    ensures
        final(restores).wf(),
        final(restores)@ == old(restores)@.remove(scope@),
        answer == (if old(restores)@.dom().contains(scope@) {
            (true, old(restores)@[scope@])
        } else {
            (false, None)
        }),
{
    match restores.remove(scope) {
        Some(image) => (true, image),
        None => (false, None),
    }
}

/// What a facet inherits from its parent.
pub struct StorageIdentity {
    pub root_path: String,
    pub root_scope: String,
    pub facet_path: Vec<String>,
    pub epoch: u64,
    /// A write position of the root cell, a lower bound of what it committed.
    pub root_position: u64,
    /// What a read-only answer of the root cell reported at the same moment.
    pub root_observed: Option<u64>,
}

/// The root cell that an embedded facet's effects gate against.
pub struct RootGate {
    pub cell: String,
    pub epoch: u64,
    pub position: u64,
    pub observed: Option<u64>,
}

/// Whether a cell's database is an image in another one.
pub fn is_embedded(state: &Cells, scope: &str) -> (answer: bool)
    requires
        state.wf(),
    ensures
        answer == (state.open_cells@.dom().contains(scope@)
            && state.open_cells@[scope@].backing is Embedded),
{
    match state.open_cells.get(scope) {
        None => false,
        Some(cell) => match &cell.backing {
            StorageBacking::Embedded { .. } => true,
            _ => false,
        },
    }
}

/// The identity that a facet of this cell inherits. A cell with a file of its
/// own gives the sample that was taken on its own connection; an embedded one
/// passes on the sample that it was given.
pub fn storage_identity(
    state: &Cells,
    scope: &str,
    sample: Option<u64>,
    observed: Option<u64>,
) -> (identity: Option<StorageIdentity>)
    requires
        state.wf(),
    ensures
        match identity {
            None => !state.open_cells@.dom().contains(scope@),
            Some(identity) => {
                &&& state.open_cells@.dom().contains(scope@)
                &&& identity.epoch == state.open_cells@[scope@].epoch
                &&& match state.open_cells@[scope@].backing {
                    StorageBacking::File { path, root_scope, facet_path } => {
                        &&& identity.root_path@ == path@
                        &&& identity.root_scope@ == root_scope@
                        &&& identity.facet_path@ == facet_path@
                        &&& identity.root_position == (match sample {
                            Some(position) => position,
                            None => 0,
                        })
                        &&& identity.root_observed == observed
                    },
                    StorageBacking::Embedded {
                        root_path,
                        root_scope,
                        facet_path,
                        root_position,
                        root_observed,
                    } => {
                        &&& identity.root_path@ == root_path@
                        &&& identity.root_scope@ == root_scope@
                        &&& identity.facet_path@ == facet_path@
                        &&& identity.root_position == root_position
                        &&& identity.root_observed == root_observed
                    },
                }
            },
        },
{
    match state.open_cells.get(scope) {
        None => None,
        Some(cell) => match &cell.backing {
            StorageBacking::File { path, root_scope, facet_path } => Some(
                StorageIdentity {
                    root_path: path.clone(),
                    root_scope: root_scope.clone(),
                    facet_path: text::clone_texts(facet_path),
                    epoch: cell.epoch,
                    root_position: match sample {
                        Some(position) => position,
                        None => 0,
                    },
                    root_observed: observed,
                },
            ),
            StorageBacking::Embedded {
                root_path,
                root_scope,
                facet_path,
                root_position,
                root_observed,
            } => Some(
                StorageIdentity {
                    root_path: root_path.clone(),
                    root_scope: root_scope.clone(),
                    facet_path: text::clone_texts(facet_path),
                    epoch: cell.epoch,
                    root_position: *root_position,
                    root_observed: *root_observed,
                },
            ),
        },
    }
}

/// What the effects of an embedded facet wait on; a cell waits on itself.
pub fn embedded_root_gate(state: &Cells, scope: &str) -> (gate: Option<RootGate>)
    requires
        state.wf(),
    ensures
        match gate {
            None => !state.open_cells@.dom().contains(scope@)
                || state.open_cells@[scope@].backing is File,
            Some(gate) => {
                &&& state.open_cells@.dom().contains(scope@)
                &&& gate.epoch == state.open_cells@[scope@].epoch
                &&& state.open_cells@[scope@].backing matches StorageBacking::Embedded {
                    root_scope,
                    root_position,
                    root_observed,
                    ..
                } && gate.cell@ == root_scope@ && gate.position == root_position && gate.observed
                    == root_observed
            },
        },
{
    match state.open_cells.get(scope) {
        None => None,
        Some(cell) => match &cell.backing {
            StorageBacking::File { .. } => None,
            StorageBacking::Embedded { root_scope, root_position, root_observed, .. } => Some(
                RootGate {
                    cell: root_scope.clone(),
                    epoch: cell.epoch,
                    position: *root_position,
                    observed: *root_observed,
                },
            ),
        },
    }
}

/// The cell with its parent's gate sample, where it is embedded and at the
/// parent's epoch.
pub open spec fn refreshed(cell: OpenCell, parent: StorageIdentity) -> OpenCell {
    if cell.epoch != parent.epoch {
        cell
    } else {
        match cell.backing {
            StorageBacking::File { .. } => cell,
            StorageBacking::Embedded { root_path, root_scope, facet_path, .. } => OpenCell {
                backing: StorageBacking::Embedded {
                    root_path,
                    root_scope,
                    facet_path,
                    root_position: parent.root_position,
                    root_observed: parent.root_observed,
                },
                ..cell
            },
        }
    }
}

/// Take the root cell's gate sample of a facet that is already open. A parent
/// at another epoch is not taken: the facet's image belongs to the epoch that
/// it was loaded at.
pub fn refresh_embedded_root(state: &mut Cells, scope: &str, parent: &StorageIdentity)
    requires
        old(state).wf(),
    ensures
        final(state).wf(),
        *final(state) == (Cells { open_cells: final(state).open_cells, ..*old(state) }),
        final(state).open_cells@ == (if old(state).open_cells@.dom().contains(scope@) {
            old(state).open_cells@.insert(
                scope@,
                refreshed(old(state).open_cells@[scope@], *parent),
            )
        } else {
            old(state).open_cells@
        }),
{
    match state.open_cells.remove(scope) {
        None => {
            assert(state.open_cells@ =~= old(state).open_cells@);
        },
        Some(cell) => {
            let OpenCell {
                epoch,
                replicated_wake,
                backing,
                persisted_position,
                published_position,
            } = cell;
            let backing = if epoch != parent.epoch {
                backing
            } else {
                match backing {
                    StorageBacking::Embedded { root_path, root_scope, facet_path, .. } => {
                        StorageBacking::Embedded {
                            root_path,
                            root_scope,
                            facet_path,
                            root_position: parent.root_position,
                            root_observed: parent.root_observed,
                        }
                    },
                    StorageBacking::File { path, root_scope, facet_path } => {
                        StorageBacking::File { path, root_scope, facet_path }
                    },
                }
            };
            let cell = OpenCell {
                epoch,
                replicated_wake,
                backing,
                persisted_position,
                published_position,
            };
            let _ = state.open_cells.insert(scope, cell);
            assert(state.open_cells@ =~= old(state).open_cells@.insert(
                scope@,
                refreshed(old(state).open_cells@[scope@], *parent),
            ));
        },
    }
}

/// The JSON text of a facet path.
pub uninterp spec fn path_text(path: Seq<Seq<char>>) -> Option<Seq<char>>;

/// The facet path that a JSON text holds.
pub uninterp spec fn path_of(text: Seq<char>) -> Option<Seq<Seq<char>>>;

/// `serde_json::to_string` of a list of strings is its JSON text, which parses
/// back to the same list.
#[verifier::external_body]
fn write_path(path: &Vec<String>) -> (out: Option<String>)
    ensures
        match out {
            Some(s) => path_text(text::views(path@)) == Some(s@) && path_of(s@) == Some(
                text::views(path@),
            ),
            None => path_text(text::views(path@)) is None,
        },
{
    serde_json::to_string(path).ok()
}

/// `serde_json::from_str` of a list of strings depends on the text alone.
#[verifier::external_body]
fn read_path(shown: &str) -> (out: Option<Vec<String>>)
    ensures
        match out {
            Some(path) => path_of(shown@) == Some(text::views(path@)),
            None => path_of(shown@) is None,
        },
{
    serde_json::from_str::<Vec<String>>(shown).ok()
}

/// The image that a facet starts from when it is opened again: one that a rollback
/// sent it back to, else one that waits for its root's commit, else the stored one. The
/// stored row is older than an image that waits, and none of them is an empty facet.
pub fn embedded_image(
    restored: Option<Vec<u8>>,
    pending: Option<Vec<u8>>,
    stored: Option<Vec<u8>>,
) -> (image: Option<Vec<u8>>)
    ensures
        image == (if restored is Some {
            restored
        } else if pending is Some {
            pending
        } else {
            stored
        }),
{
    match restored {
        Some(image) => Some(image),
        None => match pending {
            Some(image) => Some(image),
            None => stored,
        },
    }
}

/// The refusal of a facet below the deepest level.
pub const TOO_DEEP: &'static str =
    "Facet nesting depth limit exceeded. The maximum depth including the root Durable Object is 4.";

/// The refusal of a path that has no JSON text.
pub const NO_PATH_TEXT: &'static str = "the facet path has no JSON text";

/// The path of a facet below its parent, and its text, or the refusal. A path
/// has three names at most, so the deepest facet is the fourth level with the
/// root.
pub fn open_embedded(parent: &Vec<String>, name: &str) -> (result: Result<
    (Vec<String>, String),
    &'static str,
>)
    ensures
        match result {
            Ok((path, shown)) => {
                &&& parent@.len() < 3
                &&& text::views(path@) == text::views(parent@).push(name@)
                &&& path_text(text::views(path@)) == Some(shown@)
                &&& path_of(shown@) == Some(text::views(path@))
            },
            Err(message) => if parent@.len() < 3 {
                &&& message@ == NO_PATH_TEXT@
                &&& path_text(text::views(parent@).push(name@)) is None
            } else {
                message@ == TOO_DEEP@
            },
        },
{
    if parent.len() >= 3 {
        return Err(TOO_DEEP);
    }
    let mut path = text::clone_texts(parent);
    path.push(name.to_owned());
    assert(text::views(path@) =~= text::views(parent@).push(name@));
    match write_path(&path) {
        Some(shown) => Ok((path, shown)),
        None => Err(NO_PATH_TEXT),
    }
}

/// What copying a facet's image to its root came to.
#[derive(PartialEq, Eq, Structural, Clone, Copy)]
pub enum EmbeddedFlush {
    Unchanged,
    Persisted,
    Deferred,
}

/// What to do about a facet's image.
#[derive(PartialEq, Eq, Structural, Clone, Copy)]
pub enum FlushStep {
    Done(EmbeddedFlush),
    /// Serialize the facet's database and offer the image.
    Serialize,
}

/// Whether a facet's image has to be copied. A cell that is not embedded has
/// none; an image with an open write transaction could not be taken back; one
/// that was copied at this very position is up to date, or waits.
pub fn flush_embedded(
    state: &Cells,
    all: &RootTransactions,
    scope: &str,
    uncommitted_write: bool,
    position: u64,
) -> (step: FlushStep)
    requires
        state.wf(),
        all.wf(),
    ensures
        step == (if !state.open_cells@.dom().contains(scope@) {
            FlushStep::Done(EmbeddedFlush::Unchanged)
        } else {
            let cell = state.open_cells@[scope@];
            match cell.backing {
                StorageBacking::File { .. } => FlushStep::Done(EmbeddedFlush::Unchanged),
                StorageBacking::Embedded { root_scope, .. } => if uncommitted_write {
                    FlushStep::Done(EmbeddedFlush::Unchanged)
                } else if position != cell.persisted_position {
                    FlushStep::Serialize
                } else if journal::waits_for(all.layers(root_scope@, cell.epoch), scope@) {
                    FlushStep::Done(EmbeddedFlush::Deferred)
                } else {
                    FlushStep::Done(EmbeddedFlush::Unchanged)
                },
            }
        }),
{
    match state.open_cells.get(scope) {
        None => FlushStep::Done(EmbeddedFlush::Unchanged),
        Some(cell) => match &cell.backing {
            StorageBacking::File { .. } => FlushStep::Done(EmbeddedFlush::Unchanged),
            StorageBacking::Embedded { root_scope, .. } => {
                if uncommitted_write {
                    return FlushStep::Done(EmbeddedFlush::Unchanged);
                }
                if position != cell.persisted_position {
                    return FlushStep::Serialize;
                }
                if facet_image_is_deferred(all, root_scope, cell.epoch, scope) {
                    FlushStep::Done(EmbeddedFlush::Deferred)
                } else {
                    FlushStep::Done(EmbeddedFlush::Unchanged)
                }
            },
        },
    }
}

/// The image of this position was deferred or written.
pub fn flush_done(state: &mut Cells, scope: &str, position: u64)
    requires
        old(state).wf(),
    ensures
        final(state).wf(),
        *final(state) == (Cells { open_cells: final(state).open_cells, ..*old(state) }),
        final(state).open_cells@ == (if old(state).open_cells@.dom().contains(scope@) {
            old(state).open_cells@.insert(
                scope@,
                (OpenCell {
                    persisted_position: position,
                    ..old(state).open_cells@[scope@]
                }),
            )
        } else {
            old(state).open_cells@
        }),
{
    match state.open_cells.remove(scope) {
        None => {
            assert(state.open_cells@ =~= old(state).open_cells@);
        },
        Some(cell) => {
            let mut cell = cell;
            cell.persisted_position = position;
            let _ = state.open_cells.insert(scope, cell);
            assert(state.open_cells@ =~= old(state).open_cells@.insert(
                scope@,
                (OpenCell {
                    persisted_position: position,
                    ..old(state).open_cells@[scope@]
                }),
            ));
        },
    }
}

/// Copying a facet's image failed: the facet's scope is poisoned.
pub fn flush_failed(state: &mut Cells, scope: &str, error: &str) -> (flush: EmbeddedFlush)
    requires
        old(state).wf(),
    ensures
        final(state).wf(),
        cells::poisoned_by(
            *old(state),
            *final(state),
            scope@,
            "persist facet storage: "@ + error@,
        ),
        flush == EmbeddedFlush::Unchanged,
{
    let message = text::concat("persist facet storage: ", error);
    cells::poison_scope(state, scope, &message);
    EmbeddedFlush::Unchanged
}

/// Whether a stored path text names a facet at or below `path`.
pub open spec fn below_path(shown: Seq<char>, path: Seq<Seq<char>>) -> bool {
    path_of(shown) matches Some(candidate) && path.is_prefix_of(candidate)
}

fn starts_with_path(candidate: &Vec<String>, path: &Vec<String>) -> (answer: bool)
    ensures
        answer == text::views(path@).is_prefix_of(text::views(candidate@)),
{
    if path.len() > candidate.len() {
        return false;
    }
    let mut i: usize = 0;
    while i < path.len()
        invariant
            i <= path@.len(),
            path@.len() <= candidate@.len(),
            forall|j: int| 0 <= j < i ==> (#[trigger] path@[j])@ == candidate@[j]@,
        decreases path@.len() - i,
    {
        if !text::same_text(&path[i], &candidate[i]) {
            proof {
                let p = text::views(path@);
                let c = text::views(candidate@);
                if p.is_prefix_of(c) {
                    assert(c.subrange(0, p.len() as int)[i as int] == p[i as int]);
                }
            }
            return false;
        }
        i = i + 1;
    }
    assert(text::views(path@) =~= text::views(candidate@).subrange(
        0,
        text::views(path@).len() as int,
    ));
    true
}

/// The stored paths that deleting a facet removes: its own and those below it.
/// A stored text that is no path stops the deletion; its index is the error.
pub fn delete_embedded(parent: &Vec<String>, name: &str, stored: &Vec<String>) -> (result: Result<
    Vec<String>,
    usize,
>)
    ensures
        match result {
            Ok(doomed) => {
                &&& forall|i: int|
                    0 <= i < stored@.len() ==> path_of((#[trigger] stored@[i])@) is Some
                &&& text::views(doomed@) == text::views(stored@).filter(
                    |shown: Seq<char>| below_path(shown, text::views(parent@).push(name@)),
                )
            },
            Err(at) => {
                &&& at < stored@.len()
                &&& path_of(stored@[at as int]@) is None
                &&& forall|i: int| 0 <= i < at ==> path_of((#[trigger] stored@[i])@) is Some
            },
        },
{
    let mut path = text::clone_texts(parent);
    path.push(name.to_owned());
    assert(text::views(path@) =~= text::views(parent@).push(name@));
    let ghost keep = |shown: Seq<char>| below_path(shown, text::views(path@));
    let mut doomed: Vec<String> = Vec::new();
    let mut i: usize = 0;
    assert(text::views(doomed@) =~= text::views(stored@).take(0).filter(keep)) by {
        reveal(Seq::filter);
    }
    while i < stored.len()
        invariant
            i <= stored@.len(),
            keep == (|shown: Seq<char>| below_path(shown, text::views(path@))),
            forall|j: int| 0 <= j < i ==> path_of((#[trigger] stored@[j])@) is Some,
            text::views(doomed@) == text::views(stored@).take(i as int).filter(keep),
        decreases stored@.len() - i,
    {
        let ghost before = doomed@;
        match read_path(&stored[i]) {
            None => {
                return Err(i);
            },
            Some(candidate) => {
                if starts_with_path(&candidate, &path) {
                    doomed.push(stored[i].clone());
                }
            },
        }
        proof {
            let now = text::views(stored@).take(i + 1);
            assert(now.drop_last() =~= text::views(stored@).take(i as int));
            assert(now.last() == stored@[i as int]@);
            reveal(Seq::filter);
            assert(text::views(doomed@) =~= now.filter(keep));
        }
        i = i + 1;
    }
    assert(text::views(stored@).take(i as int) =~= text::views(stored@));
    Ok(doomed)
}

/// Deleting a facet deletes every facet below it: the path that opening one
/// stored is found by the deletion of each of its ancestors.
pub proof fn law_delete_covers_descendants(
    parent: Seq<Seq<char>>,
    name: Seq<char>,
    rest: Seq<Seq<char>>,
    shown: Seq<char>,
)
    requires
        path_of(shown) == Some(parent.push(name) + rest),
    ensures
        below_path(shown, parent.push(name)),
{
    let path = parent.push(name);
    assert((path + rest).subrange(0, path.len() as int) =~= path);
}

/// How a transaction ends for the images that it holds back. A rollback, and the end of the
/// outermost one, leave what was below it; the commit of a nested one leaves what is pending
/// as it is, one level less.
pub proof fn law_transaction_ends(
    layers: Seq<journal::Layer>,
    nested: bool,
    committed: bool,
    path: Seq<char>,
)
    requires
        layers.len() > 0,
    ensures
        finished(layers, nested, committed).len() == layers.len() - 1,
        !committed ==> finished(layers, nested, committed) == layers.drop_last(),
        !nested ==> finished(layers, nested, committed) == layers.drop_last(),
        committed && nested && layers.len() >= 2 ==> journal::pending(
            finished(layers, nested, committed),
            path,
        ) == journal::pending(layers, path),
{
    if committed && nested && layers.len() >= 2 {
        journal::law_nested_commit_keeps_pending(layers, path);
    }
}

/// An embedded cell follows its root's position within the same epoch; a cell of another
/// epoch, and one with a file of its own, does not, and nothing else of it changes.
pub proof fn law_embedded_cell_follows_its_root(cell: OpenCell, parent: StorageIdentity)
    ensures
        ({
            let after = refreshed(cell, parent);
            &&& after.epoch == cell.epoch && after.persisted_position == cell.persisted_position
                && after.published_position == cell.published_position && after.replicated_wake
                == cell.replicated_wake
            &&& cell.epoch != parent.epoch || cell.backing is File ==> after == cell
            &&& cell.epoch == parent.epoch ==> (cell.backing matches StorageBacking::Embedded {
                root_path,
                root_scope,
                facet_path,
                ..
            } ==> after.backing == (StorageBacking::Embedded {
                root_path,
                root_scope,
                facet_path,
                root_position: parent.root_position,
                root_observed: parent.root_observed,
            }))
        }),
{
}

/// A delete covers the facet and what lies below it, and no facet beside it: one whose path
/// parts from it, or that ends before it.
pub proof fn law_delete_spares_the_rest(
    path: Seq<Seq<char>>,
    candidate: Seq<Seq<char>>,
    shown: Seq<char>,
    i: int,
)
    requires
        path_of(shown) == Some(candidate),
        candidate.len() < path.len() || (0 <= i < path.len() && candidate[i] != path[i]),
    ensures
        !below_path(shown, path),
{
    if path.is_prefix_of(candidate) {
        assert(candidate.subrange(0, path.len() as int) =~= path);
        assert(candidate[i] == path[i] || candidate.len() < path.len());
    }
}

/// An operation on one cell's epoch leaves the transactions of every other cell and epoch as
/// they are.
pub proof fn law_transactions_are_apart(
    before: RootTransactions,
    after: RootTransactions,
    scope: Seq<char>,
    epoch: u64,
    other: Seq<char>,
    other_epoch: u64,
)
    requires
        after.only(&before, scope, epoch),
        other != scope || other_epoch != epoch,
    ensures
        after.layers(other, other_epoch) == before.layers(other, other_epoch),
{
}

} // verus!
