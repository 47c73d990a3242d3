//! Which files of a replica restore a database.

use vstd::prelude::*;

use crate::ltx::db::FileInfo;

verus! {

/// The level at which full snapshots are held.
pub const SNAPSHOT_LEVEL: i32 = 9;

/// Why there is no plan.
#[derive(Clone, Copy, Debug, PartialEq, Eq, Structural)]
pub enum PlanError {
    /// The replica holds no state, or not the one that was asked for.
    TxNotAvailable,
    /// Behind the last transaction that can be reached, a file begins later than
    /// the next one.
    NonContiguous { have: u64, next: u64 },
}

/// Whether `next` is the better of two files: it reaches further, else it begins
/// earlier, else it is more compacted, else it is known to be older.
pub open spec fn better(curr: FileInfo, next: FileInfo) -> bool {
    if next.max_txid != curr.max_txid {
        next.max_txid > curr.max_txid
    } else if next.min_txid != curr.min_txid {
        next.min_txid < curr.min_txid
    } else if next.level != curr.level {
        next.level > curr.level
    } else {
        match (next.created_at, curr.created_at) {
            (Some(n), Some(c)) => n < c,
            _ => false,
        }
    }
}

/// Whether `next` is strictly the better of two files for a restore.
pub fn restore_candidate_better(curr: &FileInfo, next: &FileInfo) -> (answer: bool)
    ensures
        answer == better(*curr, *next),
{
    if next.max_txid != curr.max_txid {
        return next.max_txid > curr.max_txid;
    }
    if next.min_txid != curr.min_txid {
        return next.min_txid < curr.min_txid;
    }
    if next.level != curr.level {
        return next.level > curr.level;
    }
    match (next.created_at, curr.created_at) {
        (Some(n), Some(c)) => n < c,
        _ => false,
    }
}

/// Whether a file may be part of a plan to this target; zero asks for the latest
/// state.
pub open spec fn within(info: FileInfo, txid: u64) -> bool {
    txid == 0 || info.max_txid <= txid
}

/// Whether a file extends a plan that reaches `reached`: it leaves no gap, adds
/// something, and does not pass the target.
pub open spec fn extends(info: FileInfo, reached: u64, txid: u64) -> bool {
    info.min_txid <= reached + 1 && info.max_txid > reached && within(info, txid)
}

/// Whether files ascend by where they begin.
pub open spec fn ascending(files: Seq<FileInfo>) -> bool {
    forall|i: int, j: int|
        0 <= i <= j < files.len() ==> (#[trigger] files[i]).min_txid <= (
        #[trigger] files[j]).min_txid
}

/// Whether a listing is one of a replica: its files ascend by where they begin,
/// and carry the level that they were listed for.
pub open spec fn listed(files: Seq<FileInfo>, level: int) -> bool {
    &&& ascending(files)
    &&& forall|i: int| 0 <= i < files.len() ==> (#[trigger] files[i]).level == level
    &&& forall|i: int| 0 <= i < files.len() ==> (#[trigger] files[i]).max_txid < u64::MAX
}

/// The listings of the levels below the snapshots', the highest first.
pub open spec fn listings(levels: Seq<Vec<FileInfo>>) -> bool {
    forall|l: int| 0 <= l < levels.len() ==> #[trigger] listed(levels[l]@, levels.len() - 1 - l)
}

/// Whether a file is in some level's listing.
pub open spec fn in_levels(levels: Seq<Vec<FileInfo>>, info: FileInfo) -> bool {
    exists|l: int, i: int|
        0 <= l < levels.len() && 0 <= i < levels[l]@.len() && #[trigger] levels[l]@[i] == info
}

/// Whether a file is the best that extends a plan: it is listed, it extends, and
/// no listed file that extends is better.
pub open spec fn best_extension(
    levels: Seq<Vec<FileInfo>>,
    reached: u64,
    txid: u64,
    info: FileInfo,
) -> bool {
    &&& in_levels(levels, info)
    &&& extends(info, reached, txid)
    &&& forall|other: FileInfo| #[trigger]
        in_levels(levels, other) && extends(other, reached, txid) ==> !better(info, other)
}

/// How far a plan reaches, from `start` on.
pub open spec fn reach(start: u64, plan: Seq<FileInfo>) -> u64 {
    if plan.len() == 0 {
        start
    } else {
        plan.last().max_txid
    }
}

/// Whether a plan takes the best extension at each step, and stops at none
/// before its end because the target was reached.
pub open spec fn greedy(
    levels: Seq<Vec<FileInfo>>,
    start: u64,
    txid: u64,
    plan: Seq<FileInfo>,
) -> bool {
    forall|k: int|
        0 <= k < plan.len() ==> best_extension(
            levels,
            reach(start, plan.take(k)),
            txid,
            #[trigger] plan[k],
        ) && (txid == 0 || reach(start, plan.take(k)) < txid)
}

/// Whether nothing extends a plan any more.
pub open spec fn exhausted(levels: Seq<Vec<FileInfo>>, reached: u64, txid: u64) -> bool {
    forall|info: FileInfo| #[trigger]
        in_levels(levels, info) ==> !extends(info, reached, txid)
}

/// Whether no file of a level begins behind a plan's end and the next transaction.
pub open spec fn level_joins(files: Seq<FileInfo>, reached: u64) -> bool {
    forall|i: int| 0 <= i < files.len() ==> (#[trigger] files[i]).min_txid <= reached + 1
}

/// Whether no file does.
pub open spec fn joins(levels: Seq<Vec<FileInfo>>, reached: u64) -> bool {
    forall|l: int| 0 <= l < levels.len() ==> level_joins(#[trigger] levels[l]@, reached)
}

/// Whether the files behind a plan's end leave a gap, and the first one of the
/// highest level with a gap begins at `next`.
pub open spec fn gap_at(levels: Seq<Vec<FileInfo>>, reached: u64, next: u64) -> bool {
    exists|l: int, i: int|
        {
            &&& 0 <= l < levels.len() && 0 <= i < levels[l]@.len()
            &&& (#[trigger] levels[l]@[i]).min_txid == next && next > reached + 1
            &&& joins(levels.take(l), reached)
            &&& level_joins(levels[l]@.take(i), reached)
        }
}

/// The snapshot that a plan begins with: the last listed one that does not pass
/// the target.
pub open spec fn anchor_of(snapshots: Seq<FileInfo>, txid: u64) -> Option<FileInfo>
    decreases snapshots.len(),
{
    if snapshots.len() == 0 {
        None
    } else if within(snapshots.last(), txid) {
        Some(snapshots.last())
    } else {
        anchor_of(snapshots.drop_last(), txid)
    }
}

/// The part of a plan that the snapshot makes up.
pub open spec fn anchor_plan(snapshots: Seq<FileInfo>, txid: u64) -> Seq<FileInfo> {
    match anchor_of(snapshots, txid) {
        Some(info) => seq![info],
        None => Seq::empty(),
    }
}

/// Whether a result is that of planning: the plan begins with the snapshot and is
/// greedy from there; it ends where the target is reached, or where nothing
/// extends it.
pub open spec fn is_plan(
    snapshots: Seq<FileInfo>,
    levels: Seq<Vec<FileInfo>>,
    txid: u64,
    rest: Seq<FileInfo>,
) -> bool {
    let anchor = anchor_plan(snapshots, txid);
    let start = reach(0, anchor);
    let reached = reach(start, rest);
    &&& greedy(levels, start, txid, rest)
    &&& (txid != 0 && reached >= txid) || exhausted(levels, reached, txid)
}

/// Whether a result is that of planning. There is a plan where the replica holds
/// a state, the target is reached, and a plan for the latest state leaves no file
/// behind a gap.
pub open spec fn planned(
    snapshots: Seq<FileInfo>,
    levels: Seq<Vec<FileInfo>>,
    txid: u64,
    out: Result<Vec<FileInfo>, PlanError>,
) -> bool {
    exists|rest: Seq<FileInfo>| #[trigger]
        is_plan(snapshots, levels, txid, rest) && {
            let lead = anchor_plan(snapshots, txid);
            let reached = reach(reach(0, lead), rest);
            match out {
                Ok(plan) => {
                    &&& plan@ == lead + rest
                    &&& plan@.len() > 0
                    &&& txid == 0 ==> joins(levels, reached)
                    &&& txid != 0 ==> reached >= txid
                },
                Err(PlanError::NonContiguous { have, next }) => {
                    &&& txid == 0 && (lead + rest).len() > 0
                    &&& have == reached && gap_at(levels, reached, next)
                },
                Err(PlanError::TxNotAvailable) => {
                    ||| (lead + rest).len() == 0
                    ||| txid != 0 && reached < txid
                },
            }
        }
}

/// How far a level's files were passed, and the best of those.
#[derive(Clone, Copy)]
pub struct RestoreLevelCursor {
    pub idx: usize,
    pub candidate: Option<FileInfo>,
}

impl RestoreLevelCursor {
    /// Whether there is a candidate that is no worse than a file.
    pub open spec fn covers(self, info: FileInfo) -> bool {
        self.candidate matches Some(c) && !better(c, info) && info.max_txid <= c.max_txid
    }

    /// What holds of a cursor between steps: each file that it passed leaves no
    /// gap, and where one could still extend the plan, the candidate is there and
    /// is no worse.
    pub open spec fn wf(self, files: Seq<FileInfo>, reached: u64, txid: u64) -> bool {
        &&& self.idx <= files.len()
        &&& forall|j: int|
            0 <= j < self.idx ==> (#[trigger] files[j]).min_txid <= reached + 1 && (
            files[j].max_txid > reached && within(files[j], txid) ==> self.covers(files[j]))
        &&& self.candidate matches Some(c) ==> within(c, txid) && c.min_txid <= reached + 1
            && exists|j: int| 0 <= j < self.idx && #[trigger] files[j] == c
    }

    /// Whether the cursor is up to date: it passed every file without a gap, and
    /// its candidate extends the plan.
    pub open spec fn fresh(self, files: Seq<FileInfo>, reached: u64, txid: u64) -> bool {
        &&& self.wf(files, reached, txid)
        &&& forall|j: int|
            self.idx <= j < files.len() ==> (#[trigger] files[j]).min_txid > reached + 1
        &&& self.candidate matches Some(c) ==> extends(c, reached, txid)
    }

    /// Pass the files that leave no gap, and keep the best.
    pub fn refresh(&mut self, files: &Vec<FileInfo>, reached: u64, txid: u64)
        requires
            ascending(files@),
            reached < u64::MAX,
            old(self).wf(files@, reached, txid),
        ensures
            final(self).fresh(files@, reached, txid),
    {
        match self.candidate {
            Some(c) => {
                if c.max_txid <= reached {
                    self.candidate = None;
                }
            },
            None => {},
        }
        while self.idx < files.len() && files[self.idx].min_txid <= reached + 1
            invariant
                ascending(files@),
                reached < u64::MAX,
                self.wf(files@, reached, txid),
                self.candidate matches Some(c) ==> c.max_txid > reached,
            ensures
                self.idx < files@.len() ==> files@[self.idx as int].min_txid > reached + 1,
            decreases files@.len() - self.idx,
        {
            let info = files[self.idx];
            let ghost before = *self;
            self.idx = self.idx + 1;
            assert(files@[before.idx as int] == info);
            if info.max_txid > reached && (txid == 0 || info.max_txid <= txid) {
                match self.candidate {
                    None => {
                        self.candidate = Some(info);
                    },
                    Some(c) => {
                        if restore_candidate_better(&c, &info) {
                            self.candidate = Some(info);
                        }
                    },
                }
            }
            proof {
                match self.candidate {
                    Some(c) => {
                        if c == info {
                            assert(files@[before.idx as int] == c);
                        } else {
                            let j = choose|j: int|
                                0 <= j < before.idx && #[trigger] files@[j] == c;
                            assert(files@[j] == c);
                        }
                    },
                    None => {},
                }
            }
        }
    }
}

/// The snapshot that a plan begins with.
fn anchor(snapshots: &Vec<FileInfo>, txid: u64) -> (out: Option<FileInfo>)
    ensures
        out == anchor_of(snapshots@, txid),
{
    let mut found: Option<FileInfo> = None;
    let mut i: usize = 0;
    while i < snapshots.len()
        invariant
            i <= snapshots@.len(),
            found == anchor_of(snapshots@.take(i as int), txid),
        decreases snapshots@.len() - i,
    {
        let info = snapshots[i];
        proof {
            assert(snapshots@.take(i + 1).drop_last() =~= snapshots@.take(i as int));
            assert(snapshots@.take(i + 1).last() == info);
        }
        if txid == 0 || info.max_txid <= txid {
            found = Some(info);
        }
        i = i + 1;
    }
    assert(snapshots@.take(snapshots@.len() as int) =~= snapshots@);
    found
}

/// Whether each cursor belongs to its level.
pub open spec fn cursors_wf(
    cursors: Seq<RestoreLevelCursor>,
    levels: Seq<Vec<FileInfo>>,
    reached: u64,
    txid: u64,
) -> bool {
    &&& cursors.len() == levels.len()
    &&& forall|l: int|
        0 <= l < levels.len() ==> (#[trigger] cursors[l]).wf(levels[l]@, reached, txid)
}

/// Whether each cursor is up to date.
pub open spec fn cursors_fresh(
    cursors: Seq<RestoreLevelCursor>,
    levels: Seq<Vec<FileInfo>>,
    reached: u64,
    txid: u64,
) -> bool {
    &&& cursors.len() == levels.len()
    &&& forall|l: int|
        0 <= l < levels.len() ==> (#[trigger] cursors[l]).fresh(levels[l]@, reached, txid)
}

/// A cursor stays valid as a plan reaches further.
proof fn lemma_wf_further(
    cursor: RestoreLevelCursor,
    files: Seq<FileInfo>,
    reached: u64,
    further: u64,
    txid: u64,
)
    requires
        cursor.wf(files, reached, txid),
        reached <= further,
    ensures
        cursor.wf(files, further, txid),
{
    assert forall|j: int| 0 <= j < cursor.idx implies (#[trigger] files[j]).min_txid <= further + 1
        && (files[j].max_txid > further && within(files[j], txid) ==> cursor.covers(files[j])) by {
        assert(files[j].min_txid <= reached + 1);
    }
}

/// The best candidate of all levels.
fn pick(
    cursors: &Vec<RestoreLevelCursor>,
    levels: &Vec<Vec<FileInfo>>,
    reached: u64,
    txid: u64,
) -> (best: Option<(usize, FileInfo)>)
    requires
        listings(levels@),
        cursors_fresh(cursors@, levels@, reached, txid),
    ensures
        match best {
            Some((n, info)) => n < cursors@.len() && cursors@[n as int].candidate == Some(info)
                && best_extension(levels@, reached, txid, info),
            None => exhausted(levels@, reached, txid),
        },
{
    let mut best: Option<(usize, FileInfo)> = None;
    let mut i: usize = 0;
    while i < cursors.len()
        invariant
            i <= cursors@.len(),
            listings(levels@),
            cursors_fresh(cursors@, levels@, reached, txid),
            match best {
                Some((n, info)) => n < i && cursors@[n as int].candidate == Some(info)
                    && forall|k: int|
                    0 <= k < i ==> ((#[trigger] cursors@[k]).candidate matches Some(c) ==> !better(
                        info,
                        c,
                    )),
                None => forall|k: int| 0 <= k < i ==> (#[trigger] cursors@[k]).candidate is None,
            },
        decreases cursors@.len() - i,
    {
        proof {
            assert forall|k: int| 0 <= k < cursors@.len() implies ((
            #[trigger] cursors@[k]).candidate matches Some(c) ==> c.level == levels@.len() - 1
                - k) by {
                assert(listed(levels@[k]@, levels@.len() - 1 - k));
                assert(cursors@[k].fresh(levels@[k]@, reached, txid));
            }
        }
        match cursors[i].candidate {
            Some(c) => {
                match best {
                    None => {
                        best = Some((i, c));
                    },
                    Some((_, held)) => {
                        if restore_candidate_better(&held, &c) {
                            best = Some((i, c));
                        }
                    },
                }
            },
            None => {},
        }
        i = i + 1;
    }
    proof {
        match best {
            Some((n, info)) => {
                assert(cursors@[n as int].fresh(levels@[n as int]@, reached, txid));
                let at = choose|j: int|
                    0 <= j < cursors@[n as int].idx && #[trigger] levels@[n as int]@[j] == info;
                assert(levels@[n as int]@[at] == info);
                assert(in_levels(levels@, info));
                assert(listed(levels@[n as int]@, levels@.len() - 1 - n));
                assert forall|other: FileInfo| #[trigger]
                    in_levels(levels@, other) && extends(other, reached, txid) implies !better(
                    info,
                    other,
                ) by {
                    let (l, j) = choose|l: int, j: int|
                        0 <= l < levels@.len() && 0 <= j < levels@[l]@.len()
                            && #[trigger] levels@[l]@[j] == other;
                    assert(cursors@[l].fresh(levels@[l]@, reached, txid));
                    assert(listed(levels@[l]@, levels@.len() - 1 - l));
                    assert(j < cursors@[l].idx);
                    assert(cursors@[l].covers(other));
                }
            },
            None => {
                assert forall|other: FileInfo| #[trigger]
                    in_levels(levels@, other) implies !extends(other, reached, txid) by {
                    let (l, j) = choose|l: int, j: int|
                        0 <= l < levels@.len() && 0 <= j < levels@[l]@.len()
                            && #[trigger] levels@[l]@[j] == other;
                    assert(cursors@[l].fresh(levels@[l]@, reached, txid));
                    assert(cursors@[l].candidate is None);
                    if extends(other, reached, txid) {
                        assert(j < cursors@[l].idx);
                        assert(cursors@[l].covers(other));
                    }
                }
            },
        }
    }
    best
}

/// The first file, of the highest level with one, that begins behind the next
/// transaction.
fn first_gap(
    cursors: &Vec<RestoreLevelCursor>,
    levels: &Vec<Vec<FileInfo>>,
    reached: u64,
    txid: u64,
) -> (gap: Option<u64>)
    requires
        cursors_fresh(cursors@, levels@, reached, txid),
    ensures
        match gap {
            Some(next) => gap_at(levels@, reached, next),
            None => joins(levels@, reached),
        },
{
    let mut l: usize = 0;
    while l < cursors.len()
        invariant
            l <= cursors@.len(),
            cursors_fresh(cursors@, levels@, reached, txid),
            joins(levels@.take(l as int), reached),
        decreases cursors@.len() - l,
    {
        let idx: usize = cursors[l].idx;
        proof {
            assert(cursors@[l as int].fresh(levels@[l as int]@, reached, txid));
        }
        if idx < levels[l].len() {
            proof {
                let files = levels@[l as int]@;
                assert(level_joins(files.take(idx as int), reached)) by {
                    assert forall|i: int| 0 <= i < idx implies (#[trigger] files.take(
                        idx as int,
                    )[i]).min_txid <= reached + 1 by {
                        assert(files[i].min_txid <= reached + 1);
                    }
                }
                assert(files[idx as int].min_txid > reached + 1);
                assert(gap_at(levels@, reached, files[idx as int].min_txid));
            }
            return Some(levels[l][idx].min_txid);
        }
        proof {
            let now = levels@.take(l + 1);
            assert forall|k: int| 0 <= k < now.len() implies level_joins(
                #[trigger] now[k]@,
                reached,
            ) by {
                if k < l {
                    assert(levels@.take(l as int)[k] == now[k]);
                }
            }
        }
        l = l + 1;
    }
    assert(levels@.take(levels@.len() as int) =~= levels@);
    None
}

/// The files that restore the database at a transaction; zero asks for the latest
/// state. `levels` holds the listings below the snapshots', the highest first.
pub fn calc_restore_plan(
    snapshots: &Vec<FileInfo>,
    levels: &Vec<Vec<FileInfo>>,
    txid: u64,
) -> (plan: Result<Vec<FileInfo>, PlanError>)
    requires
        listings(levels@),
        forall|i: int| 0 <= i < snapshots@.len() ==> (#[trigger] snapshots@[i]).max_txid
            < u64::MAX,
    ensures
        planned(snapshots@, levels@, txid, plan),
{
    let mut plan: Vec<FileInfo> = Vec::new();
    let mut reached: u64 = 0;
    let ghost lead = anchor_plan(snapshots@, txid);
    proof {
        lemma_anchor(snapshots@, txid);
    }
    match anchor(snapshots, txid) {
        Some(info) => {
            plan.push(info);
            reached = info.max_txid;
        },
        None => {},
    }
    assert(plan@ =~= lead);
    let ghost start = reached;
    let ghost mut rest: Seq<FileInfo> = Seq::empty();
    if txid != 0 && reached >= txid {
        proof {
            assert(lead + rest =~= plan@);
            assert(is_plan(snapshots@, levels@, txid, rest));
        }
        return Ok(plan);
    }
    let mut cursors: Vec<RestoreLevelCursor> = Vec::new();
    let mut i: usize = 0;
    while i < levels.len()
        invariant
            i <= levels@.len(),
            cursors@.len() == i,
            forall|k: int|
                0 <= k < i ==> (#[trigger] cursors@[k]).idx == 0 && cursors@[k].candidate is None,
        decreases levels@.len() - i,
    {
        cursors.push(RestoreLevelCursor { idx: 0, candidate: None });
        i = i + 1;
    }
    assert(lead + rest =~= plan@);
    let mut open = true;
    while open
        invariant
            listings(levels@),
            reached < u64::MAX,
            start == reach(0, lead),
            lead == anchor_plan(snapshots@, txid),
            plan@ == lead + rest,
            greedy(levels@, start, txid, rest),
            reached == reach(start, rest),
            cursors_wf(cursors@, levels@, reached, txid),
            open ==> (txid == 0 || reached < txid),
            !open ==> (txid != 0 && reached >= txid) || (cursors_fresh(
                cursors@,
                levels@,
                reached,
                txid,
            ) && exhausted(levels@, reached, txid)),
        decreases
            (if open {
                1int
            } else {
                0
            }),
            u64::MAX - reached,
    {
        let mut l: usize = 0;
        while l < cursors.len()
            invariant
                l <= cursors@.len(),
                listings(levels@),
                reached < u64::MAX,
                cursors_wf(cursors@, levels@, reached, txid),
                forall|k: int|
                    0 <= k < l ==> (#[trigger] cursors@[k]).fresh(levels@[k]@, reached, txid),
            decreases cursors@.len() - l,
        {
            proof {
                assert(listed(levels@[l as int]@, levels@.len() - 1 - l));
                assert(cursors@[l as int].wf(levels@[l as int]@, reached, txid));
            }
            let mut cursor = cursors[l];
            cursor.refresh(&levels[l], reached, txid);
            cursors.set(l, cursor);
            l = l + 1;
        }
        match pick(&cursors, levels, reached, txid) {
            None => {
                open = false;
            },
            Some((n, info)) => {
                let ghost before = rest;
                let ghost held = cursors@;
                let ghost from = reached;
                let mut cursor = cursors[n];
                cursor.candidate = None;
                cursors.set(n, cursor);
                reached = info.max_txid;
                plan.push(info);
                proof {
                    rest = rest.push(info);
                    assert(plan@ =~= lead + rest);
                    assert(before =~= rest.take(before.len() as int));
                    assert forall|k: int| 0 <= k < rest.len() implies best_extension(
                        levels@,
                        reach(start, rest.take(k)),
                        txid,
                        #[trigger] rest[k],
                    ) && (txid == 0 || reach(start, rest.take(k)) < txid) by {
                        if k < before.len() {
                            assert(rest.take(k) =~= before.take(k));
                            assert(rest[k] == before[k]);
                        }
                    }
                    let (level, at) = choose|a: int, b: int|
                        0 <= a < levels@.len() && 0 <= b < levels@[a]@.len()
                            && #[trigger] levels@[a]@[b] == info;
                    assert(listed(levels@[level]@, levels@.len() - 1 - level));
                    assert(levels@[level]@[at].max_txid < u64::MAX);
                    assert forall|k: int| 0 <= k < levels@.len() implies (
                    #[trigger] cursors@[k]).wf(levels@[k]@, reached, txid) by {
                        assert(held[k].fresh(levels@[k]@, from, txid));
                        if k == n {
                            let files = levels@[k]@;
                            assert forall|j: int| 0 <= j < cursors@[k].idx implies (
                            #[trigger] files[j]).min_txid <= reached + 1 && (files[j].max_txid
                                > reached && within(files[j], txid) ==> cursors@[k].covers(
                                files[j],
                            )) by {
                                if files[j].max_txid > from && within(files[j], txid) {
                                    assert(held[k].covers(files[j]));
                                }
                            }
                        } else {
                            lemma_wf_further(held[k], levels@[k]@, from, reached, txid);
                        }
                    }
                }
                if txid != 0 && reached >= txid {
                    open = false;
                }
            },
        }
    }
    proof {
        assert(is_plan(snapshots@, levels@, txid, rest));
    }
    if txid == 0 && plan.len() > 0 {
        match first_gap(&cursors, levels, reached, txid) {
            Some(next) => {
                return Err(PlanError::NonContiguous { have: reached, next });
            },
            None => {},
        }
    }
    if plan.len() == 0 {
        return Err(PlanError::TxNotAvailable);
    }
    if txid != 0 && reached < txid {
        return Err(PlanError::TxNotAvailable);
    }
    Ok(plan)
}

/// The snapshot that a plan begins with is one of those listed.
proof fn lemma_anchor(snapshots: Seq<FileInfo>, txid: u64)
    ensures
        anchor_of(snapshots, txid) matches Some(info) ==> snapshots.contains(info) && within(
            info,
            txid,
        ),
    decreases snapshots.len(),
{
    if snapshots.len() > 0 && !within(snapshots.last(), txid) {
        lemma_anchor(snapshots.drop_last(), txid);
        if let Some(info) = anchor_of(snapshots.drop_last(), txid) {
            let k = choose|k: int|
                0 <= k < snapshots.drop_last().len() && snapshots.drop_last()[k] == info;
            assert(snapshots[k] == info);
        }
    }
}

/// A plan has no gap: each file begins no later than the transaction after the
/// one before it ends, and ends later. Without a snapshot, the first one begins
/// with the first transaction.
pub proof fn law_plan_is_contiguous(
    snapshots: Seq<FileInfo>,
    levels: Seq<Vec<FileInfo>>,
    txid: u64,
    plan: Vec<FileInfo>,
)
    requires
        planned(snapshots, levels, txid, Ok(plan)),
    ensures
        forall|k: int|
            1 <= k < plan@.len() ==> (#[trigger] plan@[k]).min_txid <= plan@[k - 1].max_txid + 1
                && plan@[k].max_txid > plan@[k - 1].max_txid,
        anchor_of(snapshots, txid) is None ==> plan@[0].min_txid <= 1,
{
    let lead = anchor_plan(snapshots, txid);
    let start = reach(0, lead);
    let rest = plan_rest(snapshots, levels, txid, plan);
    assert forall|k: int| 1 <= k < plan@.len() implies (#[trigger] plan@[k]).min_txid <= plan@[k
        - 1].max_txid + 1 && plan@[k].max_txid > plan@[k - 1].max_txid by {
        let r = k - lead.len();
        assert(rest[r] == plan@[k]);
        if r > 0 {
            assert(rest.take(r).last() == rest[r - 1]);
            assert(plan@[k - 1] == rest[r - 1]);
        }
    }
    if anchor_of(snapshots, txid) is None {
        assert(rest[0] == plan@[0]);
    }
}

/// What a successful plan holds behind its snapshot.
pub open spec fn plan_rest(
    snapshots: Seq<FileInfo>,
    levels: Seq<Vec<FileInfo>>,
    txid: u64,
    plan: Vec<FileInfo>,
) -> Seq<FileInfo> {
    choose|rest: Seq<FileInfo>| #[trigger]
        is_plan(snapshots, levels, txid, rest) && {
            let lead = anchor_plan(snapshots, txid);
            let reached = reach(reach(0, lead), rest);
            &&& plan@ == lead + rest
            &&& plan@.len() > 0
            &&& txid == 0 ==> joins(levels, reached)
            &&& txid != 0 ==> reached >= txid
        }
}

/// A plan for a transaction ends exactly there.
pub proof fn law_plan_ends_at_its_target(
    snapshots: Seq<FileInfo>,
    levels: Seq<Vec<FileInfo>>,
    txid: u64,
    plan: Vec<FileInfo>,
)
    requires
        planned(snapshots, levels, txid, Ok(plan)),
        txid != 0,
    ensures
        plan@.last().max_txid == txid,
{
    let lead = anchor_plan(snapshots, txid);
    let rest = plan_rest(snapshots, levels, txid, plan);
    lemma_anchor(snapshots, txid);
    if rest.len() > 0 {
        assert(rest.last() == rest[rest.len() - 1]);
        assert(plan@.last() == rest.last());
    } else {
        assert(plan@.last() == lead.last());
    }
}

/// A plan for the latest state leaves out no file that reaches further.
pub proof fn law_latest_plan_misses_nothing(
    snapshots: Seq<FileInfo>,
    levels: Seq<Vec<FileInfo>>,
    plan: Vec<FileInfo>,
    info: FileInfo,
)
    requires
        planned(snapshots, levels, 0, Ok(plan)),
        in_levels(levels, info),
    ensures
        info.max_txid <= plan@.last().max_txid,
{
    let lead = anchor_plan(snapshots, 0);
    let rest = plan_rest(snapshots, levels, 0, plan);
    let reached = reach(reach(0, lead), rest);
    if rest.len() > 0 {
        assert(plan@.last() == rest.last());
    } else {
        assert(plan@.last() == lead.last());
    }
    let (l, i) = choose|l: int, i: int|
        0 <= l < levels.len() && 0 <= i < levels[l]@.len() && #[trigger] levels[l]@[i] == info;
    assert(level_joins(levels[l]@, reached));
    assert(levels[l]@[i].min_txid <= reached + 1);
}

/// How far a plan reaches does not depend on how ties between files are broken.
pub proof fn law_reach_is_determined(
    snapshots: Seq<FileInfo>,
    levels: Seq<Vec<FileInfo>>,
    txid: u64,
    a: Seq<FileInfo>,
    b: Seq<FileInfo>,
)
    requires
        is_plan(snapshots, levels, txid, a),
        is_plan(snapshots, levels, txid, b),
    ensures
        a.len() == b.len(),
        reach(reach(0, anchor_plan(snapshots, txid)), a) == reach(
            reach(0, anchor_plan(snapshots, txid)),
            b,
        ),
{
    let start = reach(0, anchor_plan(snapshots, txid));
    let n = if a.len() <= b.len() {
        a.len() as int
    } else {
        b.len() as int
    };
    lemma_same_reach(levels, start, txid, a, b, n);
    if a.len() < b.len() {
        assert(a.take(n) =~= a);
        let next = b[n];
        assert(best_extension(levels, reach(start, b.take(n)), txid, next));
    } else if b.len() < a.len() {
        assert(b.take(n) =~= b);
        let next = a[n];
        assert(best_extension(levels, reach(start, a.take(n)), txid, next));
    } else {
        assert(a.take(n) =~= a);
        assert(b.take(n) =~= b);
    }
}

proof fn lemma_same_reach(
    levels: Seq<Vec<FileInfo>>,
    start: u64,
    txid: u64,
    a: Seq<FileInfo>,
    b: Seq<FileInfo>,
    n: int,
)
    requires
        greedy(levels, start, txid, a),
        greedy(levels, start, txid, b),
        0 <= n <= a.len(),
        n <= b.len(),
    ensures
        reach(start, a.take(n)) == reach(start, b.take(n)),
    decreases n,
{
    if n > 0 {
        lemma_same_reach(levels, start, txid, a, b, n - 1);
        let reached = reach(start, a.take(n - 1));
        let x = a[n - 1];
        let y = b[n - 1];
        assert(best_extension(levels, reached, txid, x));
        assert(best_extension(levels, reached, txid, y));
        assert(a.take(n).last() == x);
        assert(b.take(n).last() == y);
    }
}

/// The anchor is the last listed snapshot within the target, if there is one.
proof fn lemma_anchor_is_last(snapshots: Seq<FileInfo>, txid: u64, k: int)
    requires
        0 <= k < snapshots.len(),
        txid == 0 || snapshots[k].max_txid <= txid,
        forall|j: int|
            k < j < snapshots.len() ==> txid != 0 && (#[trigger] snapshots[j]).max_txid > txid,
    ensures
        anchor_of(snapshots, txid) == Some(snapshots[k]),
    decreases snapshots.len(),
{
    if k < snapshots.len() - 1 {
        assert(snapshots[snapshots.len() - 1].max_txid > txid);
        let rest = snapshots.drop_last();
        assert forall|j: int| k < j < rest.len() implies txid != 0 && (
        #[trigger] rest[j]).max_txid > txid by {
            assert(rest[j] == snapshots[j]);
        }
        lemma_anchor_is_last(rest, txid, k);
    }
}

/// Without a snapshot within the target there is no anchor.
proof fn lemma_no_anchor(snapshots: Seq<FileInfo>, txid: u64)
    requires
        forall|j: int|
            0 <= j < snapshots.len() ==> txid != 0 && (#[trigger] snapshots[j]).max_txid > txid,
    ensures
        anchor_of(snapshots, txid) is None,
{
    lemma_anchor(snapshots, txid);
    if let Some(info) = anchor_of(snapshots, txid) {
        let k = choose|k: int| 0 <= k < snapshots.len() && snapshots[k] == info;
        assert(snapshots[k].max_txid > txid);
    }
}

/// A plan begins with the latest snapshot that does not pass its target. In an
/// ascending listing no other one within the target reaches further. Every other file
/// of a plan is one of a level's, and does not pass the target either.
pub proof fn law_plan_begins_with_the_latest_snapshot(
    snapshots: Seq<FileInfo>,
    levels: Seq<Vec<FileInfo>>,
    txid: u64,
    plan: Vec<FileInfo>,
    k: int,
)
    requires
        planned(snapshots, levels, txid, Ok(plan)),
        0 <= k < snapshots.len(),
        txid == 0 || snapshots[k].max_txid <= txid,
        forall|j: int|
            k < j < snapshots.len() ==> txid != 0 && (#[trigger] snapshots[j]).max_txid > txid,
    ensures
        plan@.len() > 0,
        plan@[0] == snapshots[k],
        forall|n: int|
            1 <= n < plan@.len() ==> in_levels(levels, #[trigger] plan@[n]) && (txid == 0
                || plan@[n].max_txid <= txid),
        (forall|a: int, b: int|
            0 <= a <= b < snapshots.len() ==> (#[trigger] snapshots[a]).max_txid <= (
            #[trigger] snapshots[b]).max_txid) ==> forall|j: int|
            0 <= j < snapshots.len() && (txid == 0 || (#[trigger] snapshots[j]).max_txid <= txid)
                ==> snapshots[j].max_txid <= plan@[0].max_txid,
{
    lemma_anchor_is_last(snapshots, txid, k);
    let rest = plan_rest(snapshots, levels, txid, plan);
    let lead = anchor_plan(snapshots, txid);
    assert forall|n: int| 1 <= n < plan@.len() implies in_levels(levels, #[trigger] plan@[n]) && (
    txid == 0 || plan@[n].max_txid <= txid) by {
        assert(plan@[n] == rest[n - 1]);
    }
}

/// Where every snapshot passes the target, or none is listed, a plan is made of the
/// levels' files alone, and begins with the first transaction.
pub proof fn law_plan_without_a_snapshot_begins_at_the_start(
    snapshots: Seq<FileInfo>,
    levels: Seq<Vec<FileInfo>>,
    txid: u64,
    plan: Vec<FileInfo>,
)
    requires
        planned(snapshots, levels, txid, Ok(plan)),
        forall|j: int|
            0 <= j < snapshots.len() ==> txid != 0 && (#[trigger] snapshots[j]).max_txid > txid,
    ensures
        plan@.len() > 0,
        plan@[0].min_txid <= 1,
        forall|n: int|
            0 <= n < plan@.len() ==> in_levels(levels, #[trigger] plan@[n]) && (txid == 0
                || plan@[n].max_txid <= txid),
{
    lemma_no_anchor(snapshots, txid);
    let rest = plan_rest(snapshots, levels, txid, plan);
    let lead = anchor_plan(snapshots, txid);
    assert(plan@ =~= rest);
    assert forall|n: int| 0 <= n < plan@.len() implies in_levels(levels, #[trigger] plan@[n]) && (
    txid == 0 || plan@[n].max_txid <= txid) by {
        assert(plan@[n] == rest[n]);
    }
    assert(rest.take(0).len() == 0);
    assert(best_extension(levels, reach(0, rest.take(0)), txid, rest[0]));
}

/// At each step a plan takes the file that reaches furthest; among those, one that
/// begins earliest; among those, one of the highest level; and among those none that
/// is known to be older was passed over. So a plan holds no file that another one
/// makes needless.
pub proof fn law_plan_takes_the_furthest_file(
    snapshots: Seq<FileInfo>,
    levels: Seq<Vec<FileInfo>>,
    txid: u64,
    plan: Vec<FileInfo>,
    n: int,
    other: FileInfo,
)
    requires
        planned(snapshots, levels, txid, Ok(plan)),
        1 <= n < plan@.len(),
        in_levels(levels, other),
        other.min_txid <= plan@[n - 1].max_txid + 1,
        txid == 0 || other.max_txid <= txid,
    ensures
        ({
            let taken = plan@[n];
            &&& other.max_txid <= taken.max_txid
            &&& other.max_txid == taken.max_txid ==> other.min_txid >= taken.min_txid
            &&& other.max_txid == taken.max_txid && other.min_txid == taken.min_txid
                ==> other.level <= taken.level
            &&& other.max_txid == taken.max_txid && other.min_txid == taken.min_txid
                && other.level == taken.level && other.created_at is Some && taken.created_at is Some
                ==> other.created_at->0 >= taken.created_at->0
        }),
{
    let rest = plan_rest(snapshots, levels, txid, plan);
    let lead = anchor_plan(snapshots, txid);
    let r = n - lead.len();
    assert(rest[r] == plan@[n]);
    assert(best_extension(levels, reach(reach(0, lead), rest.take(r)), txid, rest[r]));
    if r > 0 {
        assert(rest.take(r).last() == rest[r - 1]);
        assert(plan@[n - 1] == rest[r - 1]);
    }
}

/// Whether files lead without a gap from a transaction to another.
pub open spec fn leads(chain: Seq<FileInfo>, from: u64, to: u64) -> bool {
    &&& chain.len() > 0 && chain.last().max_txid == to
    &&& chain[0].min_txid <= from + 1
    &&& forall|i: int|
        1 <= i < chain.len() ==> (#[trigger] chain[i]).min_txid <= chain[i - 1].max_txid + 1
}

proof fn lemma_reach_passes_chain(
    levels: Seq<Vec<FileInfo>>,
    reached: u64,
    from: u64,
    txid: u64,
    chain: Seq<FileInfo>,
    i: int,
)
    requires
        exhausted(levels, reached, txid),
        from <= reached,
        chain.len() > 0,
        chain[0].min_txid <= from + 1,
        forall|i: int|
            1 <= i < chain.len() ==> (#[trigger] chain[i]).min_txid <= chain[i - 1].max_txid + 1,
        forall|i: int|
            0 <= i < chain.len() ==> in_levels(levels, #[trigger] chain[i]) && (txid == 0
                || chain[i].max_txid <= txid),
        0 <= i < chain.len(),
    ensures
        chain[i].max_txid <= reached,
    decreases i,
{
    if i > 0 {
        lemma_reach_passes_chain(levels, reached, from, txid, chain, i - 1);
    }
    assert(in_levels(levels, chain[i]));
    assert(!extends(chain[i], reached, txid));
}

/// A plan never loses ground behind its snapshot.
proof fn lemma_reach_grows(
    levels: Seq<Vec<FileInfo>>,
    start: u64,
    txid: u64,
    rest: Seq<FileInfo>,
)
    requires
        greedy(levels, start, txid, rest),
    ensures
        start <= reach(start, rest),
        txid != 0 && start <= txid ==> reach(start, rest) <= txid,
    decreases rest.len(),
{
    if rest.len() > 0 {
        let before = rest.drop_last();
        assert(before =~= rest.take(rest.len() - 1));
        assert forall|k: int| 0 <= k < before.len() implies best_extension(
            levels,
            reach(start, before.take(k)),
            txid,
            #[trigger] before[k],
        ) && (txid == 0 || reach(start, before.take(k)) < txid) by {
            assert(before.take(k) =~= rest.take(k));
            assert(before[k] == rest[k]);
        }
        lemma_reach_grows(levels, start, txid, before);
        assert(best_extension(
            levels,
            reach(start, rest.take(rest.len() - 1)),
            txid,
            rest[rest.len() - 1],
        ));
    }
}

/// A target that can be reached is planned: where listed files within the target lead
/// without a gap from the latest snapshot within it to the target, there is a plan.
/// So there is where that snapshot ends at the target.
pub proof fn law_reachable_target_is_planned(
    snapshots: Seq<FileInfo>,
    levels: Seq<Vec<FileInfo>>,
    txid: u64,
    out: Result<Vec<FileInfo>, PlanError>,
    k: int,
    chain: Seq<FileInfo>,
)
    requires
        planned(snapshots, levels, txid, out),
        txid != 0,
        0 <= k < snapshots.len() && snapshots[k].max_txid <= txid || k == snapshots.len(),
        forall|j: int| 0 <= j < snapshots.len() && (j > k || k == snapshots.len()) ==> (
        #[trigger] snapshots[j]).max_txid > txid,
        ({
            let from = if k < snapshots.len() {
                snapshots[k].max_txid
            } else {
                0
            };
            from == txid || leads(chain, from, txid)
        }),
        forall|i: int|
            0 <= i < chain.len() ==> in_levels(levels, #[trigger] chain[i]) && chain[i].max_txid
                <= txid,
    ensures
        out is Ok,
{
    if k < snapshots.len() {
        lemma_anchor_is_last(snapshots, txid, k);
    } else {
        lemma_no_anchor(snapshots, txid);
    }
    let rest = choose|rest: Seq<FileInfo>| #[trigger]
        is_plan(snapshots, levels, txid, rest) && {
            let lead = anchor_plan(snapshots, txid);
            let reached = reach(reach(0, lead), rest);
            match out {
                Ok(plan) => {
                    &&& plan@ == lead + rest
                    &&& plan@.len() > 0
                    &&& txid == 0 ==> joins(levels, reached)
                    &&& txid != 0 ==> reached >= txid
                },
                Err(PlanError::NonContiguous { have, next }) => {
                    &&& txid == 0 && (lead + rest).len() > 0
                    &&& have == reached && gap_at(levels, reached, next)
                },
                Err(PlanError::TxNotAvailable) => {
                    ||| (lead + rest).len() == 0
                    ||| txid != 0 && reached < txid
                },
            }
        };
    let lead = anchor_plan(snapshots, txid);
    let start = reach(0, lead);
    let reached = reach(start, rest);
    lemma_reach_grows(levels, start, txid, rest);
    if reached < txid {
        if leads(chain, start, txid) {
            lemma_reach_passes_chain(levels, reached, start, txid, chain, chain.len() - 1);
        }
    }
    assert(reached >= txid);
    if (lead + rest).len() == 0 {
        assert(lead.len() == 0 && rest.len() == 0);
        assert(reached == 0);
    }
}

/// Why the latest state has no plan. A gap is reported only where there is one: some
/// listed file begins behind the transaction after the last one that can be reached,
/// and no listed file leads on from there. Nothing is available only where no snapshot
/// is listed and no file begins with the first transaction.
pub proof fn law_latest_state_without_a_plan(
    snapshots: Seq<FileInfo>,
    levels: Seq<Vec<FileInfo>>,
    out: Result<Vec<FileInfo>, PlanError>,
)
    requires
        planned(snapshots, levels, 0, out),
    ensures
        out matches Err(PlanError::NonContiguous { have, next }) ==> {
            &&& next > have + 1
            &&& exists|info: FileInfo| #[trigger] in_levels(levels, info) && info.min_txid == next
            &&& forall|info: FileInfo| #[trigger]
                in_levels(levels, info) && info.min_txid <= have + 1 ==> info.max_txid <= have
            &&& snapshots.len() > 0 ==> have >= snapshots.last().max_txid
        },
        out matches Err(PlanError::TxNotAvailable) ==> snapshots.len() == 0 && forall|
            info: FileInfo,
        | #[trigger]
            in_levels(levels, info) && info.min_txid <= 1 ==> info.max_txid == 0,
{
    let rest = choose|rest: Seq<FileInfo>| #[trigger]
        is_plan(snapshots, levels, 0, rest) && {
            let lead = anchor_plan(snapshots, 0);
            let reached = reach(reach(0, lead), rest);
            match out {
                Ok(plan) => {
                    &&& plan@ == lead + rest
                    &&& plan@.len() > 0
                    &&& joins(levels, reached)
                },
                Err(PlanError::NonContiguous { have, next }) => {
                    &&& (lead + rest).len() > 0
                    &&& have == reached && gap_at(levels, reached, next)
                },
                Err(PlanError::TxNotAvailable) => (lead + rest).len() == 0,
            }
        };
    let lead = anchor_plan(snapshots, 0);
    let start = reach(0, lead);
    let reached = reach(start, rest);
    lemma_reach_grows(levels, start, 0, rest);
    if snapshots.len() > 0 {
        lemma_anchor_is_last(snapshots, 0, snapshots.len() - 1);
    }
    match out {
        Err(PlanError::NonContiguous { have, next }) => {
            let (l, i) = choose|l: int, i: int|
                {
                    &&& 0 <= l < levels.len() && 0 <= i < levels[l]@.len()
                    &&& (#[trigger] levels[l]@[i]).min_txid == next && next > reached + 1
                    &&& joins(levels.take(l), reached)
                    &&& level_joins(levels[l]@.take(i), reached)
                };
            assert(in_levels(levels, levels[l]@[i]));
            assert forall|info: FileInfo| #[trigger]
                in_levels(levels, info) && info.min_txid <= have + 1 implies info.max_txid
                <= have by {
                assert(!extends(info, reached, 0));
            }
        },
        Err(PlanError::TxNotAvailable) => {
            assert(lead.len() == 0 && rest.len() == 0);
            assert forall|info: FileInfo| #[trigger]
                in_levels(levels, info) && info.min_txid <= 1 implies info.max_txid == 0 by {
                assert(!extends(info, reached, 0));
            }
        },
        _ => {},
    }
}

/// A transaction that has no plan is not available; a gap is told only of the latest state.
pub proof fn law_missing_target_is_not_available(
    snapshots: Seq<FileInfo>,
    levels: Seq<Vec<FileInfo>>,
    txid: u64,
    out: Result<Vec<FileInfo>, PlanError>,
)
    requires
        planned(snapshots, levels, txid, out),
        txid != 0,
    ensures
        out matches Err(error) ==> error == PlanError::TxNotAvailable,
        out matches Ok(plan) ==> plan@.len() > 0,
{
}

/// Without a snapshot within the target a plan begins with the file that reaches furthest of
/// those that begin with the first transaction.
pub proof fn law_plan_begins_with_the_furthest_file(
    snapshots: Seq<FileInfo>,
    levels: Seq<Vec<FileInfo>>,
    txid: u64,
    plan: Vec<FileInfo>,
    other: FileInfo,
)
    requires
        planned(snapshots, levels, txid, Ok(plan)),
        forall|j: int|
            0 <= j < snapshots.len() ==> txid != 0 && (#[trigger] snapshots[j]).max_txid > txid,
        in_levels(levels, other),
        other.min_txid <= 1,
        txid == 0 || other.max_txid <= txid,
    ensures
        other.max_txid <= plan@[0].max_txid,
        other.max_txid == plan@[0].max_txid ==> other.min_txid >= plan@[0].min_txid,
        other.max_txid == plan@[0].max_txid && other.min_txid == plan@[0].min_txid ==> other.level
            <= plan@[0].level,
{
    lemma_no_anchor(snapshots, txid);
    let rest = plan_rest(snapshots, levels, txid, plan);
    assert(plan@ =~= rest);
    assert(rest.take(0).len() == 0);
    assert(best_extension(levels, reach(0, rest.take(0)), txid, rest[0]));
}

/// Which of two files a restore prefers: the one that reaches further, then the one that begins
/// earlier, then the one of the higher level, then the one that is known to be older; of two
/// that are alike in all of these, neither.
pub proof fn law_preference(curr: FileInfo, next: FileInfo)
    ensures
        next.max_txid > curr.max_txid ==> better(curr, next) && !better(next, curr),
        next.max_txid == curr.max_txid && next.min_txid < curr.min_txid ==> better(curr, next)
            && !better(next, curr),
        next.max_txid == curr.max_txid && next.min_txid == curr.min_txid && next.level > curr.level
            ==> better(curr, next) && !better(next, curr),
        next.max_txid == curr.max_txid && next.min_txid == curr.min_txid && next.level == curr.level
            ==> (better(curr, next) <==> (next.created_at is Some && curr.created_at is Some
            && next.created_at->0 < curr.created_at->0)),
{
}

/// Which file a gap is told of: every file of the levels above it, and every one before it
/// on its own level, begins no later than the transaction after the last one reached.
pub proof fn law_gap_is_told_of_its_first_file(
    snapshots: Seq<FileInfo>,
    levels: Seq<Vec<FileInfo>>,
    have: u64,
    next: u64,
)
    requires
        planned(snapshots, levels, 0, Err(PlanError::NonContiguous { have, next })),
    ensures
        exists|l: int, i: int|
            {
                &&& 0 <= l < levels.len() && 0 <= i < levels[l]@.len()
                &&& (#[trigger] levels[l]@[i]).min_txid == next
                &&& forall|m: int, j: int|
                    (0 <= m < l && 0 <= j < levels[m]@.len()) || (m == l && 0 <= j < i) ==> (
                    #[trigger] levels[m]@[j]).min_txid <= have + 1
            },
{
    assert(gap_at(levels, have, next));
    let (l, i) = choose|l: int, i: int|
        {
            &&& 0 <= l < levels.len() && 0 <= i < levels[l]@.len()
            &&& (#[trigger] levels[l]@[i]).min_txid == next && next > have + 1
            &&& joins(levels.take(l), have)
            &&& level_joins(levels[l]@.take(i), have)
        };
    assert forall|m: int, j: int|
        (0 <= m < l && 0 <= j < levels[m]@.len()) || (m == l && 0 <= j < i) implies (
    #[trigger] levels[m]@[j]).min_txid <= have + 1 by {
        if m == l {
            assert(levels[l]@.take(i)[j] == levels[m]@[j]);
        } else {
            assert(levels.take(l)[m] == levels[m]);
            assert(level_joins(levels.take(l)[m]@, have));
        }
    }
    assert(levels[l]@[i].min_txid == next);
}

} // verus!
