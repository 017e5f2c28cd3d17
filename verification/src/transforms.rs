//! Splat transforms as packed rows, and rigid motions of them.
//!
//! A row holds a mean (3 numbers), a rotation (4 numbers, `w` first) and
//! log-scales (3 numbers), all binary32 bit patterns. The motions themselves
//! are handed in; this module decides which numbers they see and which they
//! replace.
use crate::camera::Camera;
use vstd::prelude::*;

verus! {

/// Numbers per splat.
pub const ROW: usize = 10;

/// Numbers per pose correction: a rotation tangent and a translation.
pub const DELTA: usize = 6;

/// Mean and rotation (`x, y, z, w`) of a splat.
#[derive(Clone, Copy, Debug, PartialEq, Eq)]
pub struct SplatPose {
    pub mean: [u32; 3],
    pub rotation: [u32; 4],
}

/// A rigid motion of the splats from `start` up to `end`.
#[derive(Clone, Copy, Debug, PartialEq, Eq)]
pub struct PoseUpdate {
    pub translation: [u32; 3],
    pub rotation: [u32; 4],
    pub start: usize,
    pub end: usize,
}

/// The pose in a row.
pub open spec fn pose_in(data: Seq<u32>, row: int) -> SplatPose {
    let base = row * ROW;
    SplatPose {
        mean: [data[base], data[base + 1], data[base + 2]],
        rotation: [data[base + 4], data[base + 5], data[base + 6], data[base + 3]],
    }
}

/// The rows with another pose in one of them.
pub open spec fn with_pose_in(data: Seq<u32>, row: int, pose: SplatPose) -> Seq<u32> {
    let base = row * ROW;
    data.update(base, pose.mean[0]).update(base + 1, pose.mean[1]).update(base + 2, pose.mean[2]).update(
        base + 3,
        pose.rotation[3],
    ).update(base + 4, pose.rotation[0]).update(base + 5, pose.rotation[1]).update(base + 6, pose.rotation[2])
}

/// The rows from `start` up to `end` moved, first to last.
pub open spec fn moved_range(
    data: Seq<u32>,
    start: int,
    end: int,
    motion: spec_fn(SplatPose) -> SplatPose,
) -> Seq<u32>
    decreases end - start,
{
    if end <= start {
        data
    } else {
        let rest = moved_range(data, start, end - 1, motion);
        with_pose_in(rest, end - 1, motion(pose_in(rest, end - 1)))
    }
}

/// The rows after all updates, first to last.
pub open spec fn moved(
    data: Seq<u32>,
    updates: Seq<PoseUpdate>,
    motion: spec_fn(PoseUpdate, SplatPose) -> SplatPose,
) -> Seq<u32>
    decreases updates.len(),
{
    if updates.len() == 0 {
        data
    } else {
        let last = updates.last();
        moved_range(
            moved(data, updates.drop_last(), motion),
            last.start as int,
            last.end as int,
            |pose: SplatPose| motion(last, pose),
        )
    }
}

/// Whether an update moves the row.
pub open spec fn covered(updates: Seq<PoseUpdate>, row: int) -> bool {
    exists|k: int| 0 <= k < updates.len() && (#[trigger] updates[k]).start <= row < updates[k].end
}

/// Whether the function always gives what `motion` says.
pub open spec fn computes_update<F: Fn(PoseUpdate, SplatPose) -> SplatPose>(
    f: F,
    motion: spec_fn(PoseUpdate, SplatPose) -> SplatPose,
) -> bool {
    forall|update: PoseUpdate, pose: SplatPose, out: SplatPose|
        call_ensures(f, (update, pose), out) ==> out == motion(update, pose)
}

/// Whether all rows of the update exist.
pub open spec fn in_rows(update: PoseUpdate, len: nat) -> bool {
    update.start >= update.end || update.end * ROW <= len
}

fn read_pose(data: &Vec<u32>, row: usize) -> (pose: SplatPose)
    requires
        row * ROW + ROW <= data@.len(),
    ensures
        pose == pose_in(data@, row as int),
{
    let total: usize = data.len();
    assert(row * ROW + ROW <= total);
    let base: usize = row * ROW;
    SplatPose {
        mean: [data[base], data[base + 1], data[base + 2]],
        rotation: [data[base + 4], data[base + 5], data[base + 6], data[base + 3]],
    }
}

fn write_pose(data: &mut Vec<u32>, row: usize, pose: SplatPose)
    requires
        row * ROW + ROW <= old(data)@.len(),
    ensures
        final(data)@ == with_pose_in(old(data)@, row as int, pose),
{
    let total: usize = data.len();
    assert(row * ROW + ROW <= total);
    let base: usize = row * ROW;
    data.set(base, pose.mean[0]);
    data.set(base + 1, pose.mean[1]);
    data.set(base + 2, pose.mean[2]);
    data.set(base + 3, pose.rotation[3]);
    data.set(base + 4, pose.rotation[0]);
    data.set(base + 5, pose.rotation[1]);
    data.set(base + 6, pose.rotation[2]);
}

/// Writing a pose leaves the log-scales and every other row alone.
proof fn lemma_with_pose_in(data: Seq<u32>, row: int, pose: SplatPose)
    requires
        0 <= row,
        row * ROW + ROW <= data.len(),
    ensures
        with_pose_in(data, row, pose).len() == data.len(),
        forall|k: int|
            0 <= k < data.len() && (k % 10 >= 7 || k / 10 != row) ==> #[trigger] with_pose_in(
                data,
                row,
                pose,
            )[k] == data[k],
{
}

/// Moves the splats. Each update is applied to all of its rows, in order; a
/// row that two updates share is moved twice.
pub fn move_splats<F: Fn(PoseUpdate, SplatPose) -> SplatPose>(data: &mut Vec<u32>, updates: &Vec<PoseUpdate>, f: F)
    requires
        forall|k: int| 0 <= k < updates@.len() ==> in_rows(#[trigger] updates@[k], old(data)@.len()),
        forall|update: PoseUpdate, pose: SplatPose| #[trigger] call_requires(f, (update, pose)),
    ensures
        final(data)@.len() == old(data)@.len(),
        forall|motion: spec_fn(PoseUpdate, SplatPose) -> SplatPose| #[trigger]
            computes_update(f, motion) ==> final(data)@ == moved(old(data)@, updates@, motion),
        forall|k: int|
            0 <= k < old(data)@.len() && (k % 10 >= 7 || !covered(updates@, k / 10)) ==> #[trigger] final(data)@[k]
                == old(data)@[k],
{
    let n: usize = updates.len();
    let ghost start_data = data@;
    for u in 0..n
        invariant
            n == updates@.len(),
            data@.len() == start_data.len(),
            forall|k: int| 0 <= k < updates@.len() ==> in_rows(#[trigger] updates@[k], start_data.len()),
            forall|update: PoseUpdate, pose: SplatPose| #[trigger] call_requires(f, (update, pose)),
            forall|motion: spec_fn(PoseUpdate, SplatPose) -> SplatPose| #[trigger]
                computes_update(f, motion) ==> data@ == moved(start_data, updates@.take(u as int), motion),
            forall|k: int|
                0 <= k < start_data.len() && (k % 10 >= 7 || !covered(updates@, k / 10)) ==> #[trigger] data@[k]
                    == start_data[k],
    {
        let update: PoseUpdate = updates[u];
        let ghost before = data@;
        if update.start < update.end {
            let mut row: usize = update.start;
            while row < update.end
                invariant
                    update == updates@[u as int],
                    u < updates@.len(),
                    update.start <= row <= update.end,
                    update.end * ROW <= start_data.len(),
                    data@.len() == start_data.len(),
                    forall|update: PoseUpdate, pose: SplatPose| #[trigger] call_requires(f, (update, pose)),
                    forall|motion: spec_fn(PoseUpdate, SplatPose) -> SplatPose| #[trigger]
                        computes_update(f, motion) ==> data@ == moved_range(
                            before,
                            update.start as int,
                            row as int,
                            |pose: SplatPose| motion(update, pose),
                        ),
                    forall|k: int|
                        0 <= k < start_data.len() && (k % 10 >= 7 || !covered(updates@, k / 10))
                            ==> #[trigger] data@[k] == start_data[k],
                decreases update.end - row,
            {
                let ghost current = data@;
                let pose = read_pose(data, row);
                let out = f(update, pose);
                write_pose(data, row, out);
                proof {
                    lemma_with_pose_in(current, row as int, out);
                    assert(covered(updates@, row as int));
                    assert forall|motion: spec_fn(PoseUpdate, SplatPose) -> SplatPose| #[trigger]
                        computes_update(f, motion) implies data@ == moved_range(
                        before,
                        update.start as int,
                        row + 1,
                        |pose: SplatPose| motion(update, pose),
                    ) by {
                        assert(out == motion(update, pose));
                    }
                }
                row = row + 1;
            }
        }
        proof {
            assert(updates@.take(u + 1).drop_last() =~= updates@.take(u as int));
        }
    }
    assert(updates@.take(n as int) =~= updates@);
}

/// Moving splats never changes their log-scales, and it does nothing to the
/// splats that no update covers.
pub proof fn lemma_moving_keeps_scales(
    data: Seq<u32>,
    updates: Seq<PoseUpdate>,
    motion: spec_fn(PoseUpdate, SplatPose) -> SplatPose,
)
    requires
        forall|k: int| 0 <= k < updates.len() ==> in_rows(#[trigger] updates[k], data.len()),
    ensures
        moved(data, updates, motion).len() == data.len(),
        forall|k: int|
            0 <= k < data.len() && (k % 10 >= 7 || !covered(updates, k / 10)) ==> #[trigger] moved(
                data,
                updates,
                motion,
            )[k] == data[k],
    decreases updates.len(),
{
    if updates.len() > 0 {
        let last = updates.last();
        let rest = updates.drop_last();
        assert forall|k: int| 0 <= k < rest.len() implies in_rows(#[trigger] rest[k], data.len()) by {
            assert(rest[k] == updates[k]);
        }
        lemma_moving_keeps_scales(data, rest, motion);
        let before = moved(data, rest, motion);
        assert(updates[updates.len() - 1] == last);
        if last.start < last.end {
            lemma_moved_range(before, last.start as int, last.end as int, |pose: SplatPose| motion(last, pose));
        }
        assert forall|k: int| 0 <= k < data.len() && (k % 10 >= 7 || !covered(updates, k / 10)) implies #[trigger] moved(
            data,
            updates,
            motion,
        )[k] == data[k] by {
            if k % 10 < 7 {
                if covered(rest, k / 10) {
                    let j = choose|j: int| 0 <= j < rest.len() && (#[trigger] rest[j]).start <= k / 10 < rest[j].end;
                    assert(updates[j] == rest[j]);
                }
            }
            assert(before[k] == data[k]);
        }
    }
}

proof fn lemma_moved_range(data: Seq<u32>, start: int, end: int, motion: spec_fn(SplatPose) -> SplatPose)
    requires
        0 <= start <= end,
        end * ROW <= data.len(),
    ensures
        moved_range(data, start, end, motion).len() == data.len(),
        forall|k: int|
            0 <= k < data.len() && (k % 10 >= 7 || !(start <= k / 10 < end)) ==> #[trigger] moved_range(
                data,
                start,
                end,
                motion,
            )[k] == data[k],
    decreases end - start,
{
    if start < end {
        lemma_moved_range(data, start, end - 1, motion);
        let rest = moved_range(data, start, end - 1, motion);
        lemma_with_pose_in(rest, end - 1, motion(pose_in(rest, end - 1)));
        assert forall|k: int| 0 <= k < data.len() && (k % 10 >= 7 || !(start <= k / 10 < end)) implies #[trigger] moved_range(
            data,
            start,
            end,
            motion,
        )[k] == data[k] by {
            assert(rest[k] == data[k]);
        }
    }
}

/// A motion sees the pose of a splat as its row holds it, and the row holds the
/// moved pose afterwards: mean first, then the rotation with `w` in front, then
/// the log-scales as they were.
pub proof fn lemma_motion_reaches_every_row(
    data: Seq<u32>,
    start: int,
    end: int,
    motion: spec_fn(SplatPose) -> SplatPose,
    row: int,
    pose: SplatPose,
)
    requires
        0 <= start <= row < end,
        end * 10 <= data.len(),
        pose.mean@ == seq![data[10 * row], data[10 * row + 1], data[10 * row + 2]],
        pose.rotation@ == seq![data[10 * row + 4], data[10 * row + 5], data[10 * row + 6], data[10 * row + 3]],
    ensures
        ({
            let after = moved_range(data, start, end, motion);
            let turned = motion(pose);
            &&& after.len() == data.len()
            &&& after[10 * row] == turned.mean@[0]
            &&& after[10 * row + 1] == turned.mean@[1]
            &&& after[10 * row + 2] == turned.mean@[2]
            &&& after[10 * row + 3] == turned.rotation@[3]
            &&& after[10 * row + 4] == turned.rotation@[0]
            &&& after[10 * row + 5] == turned.rotation@[1]
            &&& after[10 * row + 6] == turned.rotation@[2]
            &&& after[10 * row + 7] == data[10 * row + 7]
            &&& after[10 * row + 8] == data[10 * row + 8]
            &&& after[10 * row + 9] == data[10 * row + 9]
        }),
    decreases end - start,
{
    let last = end - 1;
    let rest = moved_range(data, start, last, motion);
    lemma_moved_range(data, start, last, motion);
    let out = motion(pose_in(rest, last));
    lemma_with_pose_in(rest, last, out);
    if row < last {
        lemma_motion_reaches_every_row(data, start, last, motion, row, pose);
    } else {
        let seen = pose_in(rest, row);
        assert(seen.mean@ =~= pose.mean@);
        assert(seen.rotation@ =~= pose.rotation@);
        assert(seen.mean =~= pose.mean);
        assert(seen.rotation =~= pose.rotation);
        assert(seen == pose);
    }
}

/// One more update moves the rows that it covers, each from where the earlier
/// updates left it, and leaves all other rows there.
pub proof fn lemma_updates_move_in_turn(
    data: Seq<u32>,
    updates: Seq<PoseUpdate>,
    next: PoseUpdate,
    motion: spec_fn(PoseUpdate, SplatPose) -> SplatPose,
    row: int,
    pose: SplatPose,
)
    requires
        forall|k: int| 0 <= k < updates.len() ==> in_rows(#[trigger] updates[k], data.len()),
        in_rows(next, data.len()),
        0 <= row,
        row * 10 + 10 <= data.len(),
        ({
            let before = moved(data, updates, motion);
            &&& pose.mean@ == seq![before[10 * row], before[10 * row + 1], before[10 * row + 2]]
            &&& pose.rotation@ == seq![
                before[10 * row + 4],
                before[10 * row + 5],
                before[10 * row + 6],
                before[10 * row + 3],
            ]
        }),
    ensures
        moved(data, Seq::empty(), motion) == data,
        ({
            let before = moved(data, updates, motion);
            let after = moved(data, updates.push(next), motion);
            let turned = motion(next, pose);
            &&& after.len() == data.len()
            &&& next.start <= row < next.end ==> {
                &&& after[10 * row] == turned.mean@[0]
                &&& after[10 * row + 1] == turned.mean@[1]
                &&& after[10 * row + 2] == turned.mean@[2]
                &&& after[10 * row + 3] == turned.rotation@[3]
                &&& after[10 * row + 4] == turned.rotation@[0]
                &&& after[10 * row + 5] == turned.rotation@[1]
                &&& after[10 * row + 6] == turned.rotation@[2]
            }
            &&& !(next.start <= row < next.end) ==> forall|k: int|
                10 * row <= k < 10 * row + 10 ==> #[trigger] after[k] == before[k]
            &&& forall|k: int| 10 * row + 7 <= k < 10 * row + 10 ==> #[trigger] after[k] == data[k]
        }),
{
    let all = updates.push(next);
    assert(all.drop_last() =~= updates);
    assert(all.last() == next);
    lemma_moving_keeps_scales(data, updates, motion);
    let before = moved(data, updates, motion);
    let turn = |pose: SplatPose| motion(next, pose);
    assert(moved(data, all, motion) == moved_range(before, next.start as int, next.end as int, turn));
    assert(moved(data, Seq::empty(), motion) == data);
    if next.start < next.end {
        lemma_moved_range(before, next.start as int, next.end as int, turn);
        if next.start <= row < next.end {
            lemma_motion_reaches_every_row(before, next.start as int, next.end as int, turn, row, pose);
        }
    }
}

/// The correction of one view.
pub open spec fn delta_of(deltas: Seq<u32>, view: int) -> [u32; 6] {
    let o = view * DELTA;
    [deltas[o], deltas[o + 1], deltas[o + 2], deltas[o + 3], deltas[o + 4], deltas[o + 5]]
}

/// The correction of a view holds, place by place, the numbers that were
/// learned for it: the six that follow those of the views before.
pub proof fn lemma_views_have_their_own_correction(deltas: Seq<u32>, view: int, k: int)
    requires
        0 <= view,
        view * 6 + 6 <= deltas.len(),
        0 <= k < 6,
    ensures
        delta_of(deltas, view)@[k] == deltas[6 * view + k],
{
    assert(delta_of(deltas, view)@ =~= deltas.subrange(6 * view, 6 * view + 6));
}

/// Whether the function always gives what `motion` says.
pub open spec fn computes_correction<F: Fn([u32; 6], [u32; 3], SplatPose) -> SplatPose>(
    f: F,
    motion: spec_fn([u32; 6], [u32; 3], SplatPose) -> SplatPose,
) -> bool {
    forall|delta: [u32; 6], centre: [u32; 3], pose: SplatPose, out: SplatPose|
        call_ensures(f, (delta, centre, pose), out) ==> out == motion(delta, centre, pose)
}

/// Where a camera is: position and rotation.
pub type CameraPose = ([u32; 3], [u32; 4]);

/// Whether the function always gives what `motion` says.
pub open spec fn computes_camera<F: Fn([u32; 6], Camera) -> CameraPose>(
    f: F,
    motion: spec_fn([u32; 6], Camera) -> CameraPose,
) -> bool {
    forall|delta: [u32; 6], camera: Camera, out: CameraPose|
        call_ensures(f, (delta, camera), out) ==> out == motion(delta, camera)
}

/// The cameras after their corrections: only their poses change. A camera
/// without a correction stays.
pub open spec fn corrected(deltas: Seq<u32>, base: Seq<Camera>, motion: spec_fn([u32; 6], Camera) -> CameraPose) -> Seq<
    Camera,
> {
    Seq::new(
        base.len(),
        |i: int|
            if i * DELTA + DELTA > deltas.len() {
                base[i]
            } else {
                let (position, rotation) = motion(delta_of(deltas, i), base[i]);
                base[i].posed(position, rotation)
            },
    )
}

/// The learned pose corrections, one per view: a rotation tangent (3 numbers)
/// and a translation (3 numbers).
pub struct PoseOptimizer {
    deltas: Vec<u32>,
}

impl PoseOptimizer {
    /// The corrections, view after view.
    pub closed spec fn deltas(self) -> Seq<u32> {
        self.deltas@
    }

    /// Corrections that move nothing yet.
    pub fn new(num_views: usize) -> (optimizer: Self)
        requires
            num_views * DELTA <= usize::MAX,
        ensures
            optimizer.deltas() == Seq::new((num_views * DELTA) as nat, |k: int| 0u32),
    {
        let len: usize = num_views * DELTA;
        let mut deltas: Vec<u32> = Vec::new();
        for k in 0..len
            invariant
                deltas@ == Seq::new(k as nat, |j: int| 0u32),
        {
            deltas.push(0);
            assert(deltas@ =~= Seq::new((k + 1) as nat, |j: int| 0u32));
        }
        PoseOptimizer { deltas }
    }

    /// Takes over the corrections after an optimiser step.
    pub fn set_deltas(&mut self, deltas: Vec<u32>)
        ensures
            final(self).deltas() == deltas@,
    {
        self.deltas = deltas;
    }

    /// The corrections, one per view.
    pub fn delta_rows(&self) -> (rows: Vec<[u32; 6]>)
        ensures
            rows@ == Seq::new((self.deltas().len() / DELTA as nat) as nat, |i: int| delta_of(self.deltas(), i)),
            rows@.len() == self.deltas().len() / 6,
            forall|i: int, k: int|
                0 <= i < rows@.len() && 0 <= k < 6 ==> #[trigger] rows@[i]@[k] == self.deltas()[6 * i + k],
    {
        let total: usize = self.deltas.len();
        let n: usize = total / DELTA;
        let mut rows: Vec<[u32; 6]> = Vec::new();
        for i in 0..n
            invariant
                total == self.deltas@.len(),
                n == total / DELTA,
                rows@ == Seq::new(i as nat, |j: int| delta_of(self.deltas@, j)),
        {
            assert(i * DELTA + DELTA <= total);
            let row: [u32; 6] = self.read_delta(i);
            rows.push(row);
            assert(rows@ =~= Seq::new((i + 1) as nat, |j: int| delta_of(self.deltas@, j)));
        }
        proof {
            assert forall|i: int, k: int| 0 <= i < rows@.len() && 0 <= k < 6 implies #[trigger] rows@[i]@[k]
                == self.deltas()[6 * i + k] by {
                lemma_views_have_their_own_correction(self.deltas(), i, k);
            }
        }
        rows
    }

    fn read_delta(&self, view: usize) -> (delta: [u32; 6])
        requires
            view * DELTA + DELTA <= self.deltas().len(),
        ensures
            delta == delta_of(self.deltas(), view as int),
            delta@ == self.deltas().subrange(6 * view, 6 * view + 6),
    {
        let total: usize = self.deltas.len();
        assert(view * DELTA + DELTA <= total);
        let o: usize = view * DELTA;
        let d = &self.deltas;
        [d[o], d[o + 1], d[o + 2], d[o + 3], d[o + 4], d[o + 5]]
    }

    /// Moves all splats by the correction of a view, about the camera centre.
    /// Log-scales stay.
    pub fn apply<F: Fn([u32; 6], [u32; 3], SplatPose) -> SplatPose>(
        &self,
        transforms: &mut Vec<u32>,
        view_index: usize,
        cam_pos: [u32; 3],
        f: F,
    )
        requires
            view_index * DELTA + DELTA <= self.deltas().len(),
            old(transforms)@.len() % ROW as nat == 0,
            forall|delta: [u32; 6], centre: [u32; 3], pose: SplatPose| #[trigger]
                call_requires(f, (delta, centre, pose)),
        ensures
            final(transforms)@.len() == old(transforms)@.len(),
            forall|motion: spec_fn([u32; 6], [u32; 3], SplatPose) -> SplatPose| #[trigger]
                computes_correction(f, motion) ==> final(transforms)@ == moved_range(
                    old(transforms)@,
                    0,
                    (old(transforms)@.len() / ROW as nat) as int,
                    |pose: SplatPose| motion(delta_of(self.deltas(), view_index as int), cam_pos, pose),
                ),
            forall|k: int|
                0 <= k < old(transforms)@.len() && k % 10 >= 7 ==> #[trigger] final(transforms)@[k] == old(
                    transforms,
                )@[k],
    {
        let delta: [u32; 6] = self.read_delta(view_index);
        let ghost before = transforms@;
        let n: usize = transforms.len() / ROW;
        for row in 0..n
            invariant
                n == before.len() / ROW as nat,
                transforms@.len() == before.len(),
                forall|delta: [u32; 6], centre: [u32; 3], pose: SplatPose| #[trigger]
                    call_requires(f, (delta, centre, pose)),
                forall|motion: spec_fn([u32; 6], [u32; 3], SplatPose) -> SplatPose| #[trigger]
                    computes_correction(f, motion) ==> transforms@ == moved_range(
                        before,
                        0,
                        row as int,
                        |pose: SplatPose| motion(delta, cam_pos, pose),
                    ),
                forall|k: int| 0 <= k < before.len() && k % 10 >= 7 ==> #[trigger] transforms@[k] == before[k],
        {
            assert(row * ROW + ROW <= before.len());
            let ghost current = transforms@;
            let pose = read_pose(transforms, row);
            let out = f(delta, cam_pos, pose);
            write_pose(transforms, row, out);
            proof {
                lemma_with_pose_in(current, row as int, out);
                assert forall|motion: spec_fn([u32; 6], [u32; 3], SplatPose) -> SplatPose| #[trigger]
                    computes_correction(f, motion) implies transforms@ == moved_range(
                    before,
                    0,
                    row + 1,
                    |pose: SplatPose| motion(delta, cam_pos, pose),
                ) by {
                    assert(out == motion(delta, cam_pos, pose));
                }
            }
        }
    }

    /// The cameras that see the uncorrected splats as the given ones see the
    /// corrected splats. `base` is in the order of the views. Only the poses
    /// change.
    pub fn corrected_cameras<F: Fn([u32; 6], Camera) -> CameraPose>(&self, base: &Vec<Camera>, f: F) -> (cameras: Vec<
        Camera,
    >)
        requires
            base@.len() * DELTA <= usize::MAX,
            forall|delta: [u32; 6], camera: Camera| #[trigger] call_requires(f, (delta, camera)),
        ensures
            cameras@.len() == base@.len(),
            forall|i: int|
                0 <= i < base@.len() ==> {
                    let now = #[trigger] cameras@[i];
                    now == base@[i].posed(now.position, now.rotation)
                },
            forall|i: int|
                0 <= i < base@.len() && i * DELTA + DELTA > self.deltas().len() ==> #[trigger] cameras@[i] == base@[i],
            forall|motion: spec_fn([u32; 6], Camera) -> CameraPose| #[trigger]
                computes_camera(f, motion) ==> cameras@ == corrected(self.deltas(), base@, motion),
    {
        let n: usize = base.len();
        let mut cameras: Vec<Camera> = Vec::new();
        for i in 0..n
            invariant
                n == base@.len(),
                base@.len() * DELTA <= usize::MAX,
                cameras@.len() == i,
                forall|j: int|
                    0 <= j < i ==> {
                        let now = #[trigger] cameras@[j];
                        now == base@[j].posed(now.position, now.rotation)
                    },
                forall|delta: [u32; 6], camera: Camera| #[trigger] call_requires(f, (delta, camera)),
                forall|j: int|
                    0 <= j < i && j * DELTA + DELTA > self.deltas().len() ==> #[trigger] cameras@[j] == base@[j],
                forall|motion: spec_fn([u32; 6], Camera) -> CameraPose| #[trigger]
                    computes_camera(f, motion) ==> cameras@ == corrected(self.deltas(), base@, motion).take(i as int),
        {
            let o: usize = i * DELTA;
            let ghost before = cameras@;
            if DELTA > self.deltas.len() || o > self.deltas.len() - DELTA {
                cameras.push(base[i]);
            } else {
                let delta: [u32; 6] = self.read_delta(i);
                let (position, rotation): CameraPose = f(delta, base[i]);
                cameras.push(base[i].with_pose(position, rotation));
            }
            proof {
                assert forall|motion: spec_fn([u32; 6], Camera) -> CameraPose| #[trigger]
                    computes_camera(f, motion) implies cameras@ == corrected(self.deltas(), base@, motion).take(
                    i + 1,
                ) by {
                    let all = corrected(self.deltas(), base@, motion);
                    assert(all.take(i + 1) =~= all.take(i as int).push(all[i as int]));
                }
            }
        }
        proof {
            assert forall|motion: spec_fn([u32; 6], Camera) -> CameraPose| #[trigger]
                computes_camera(f, motion) implies cameras@ == corrected(self.deltas(), base@, motion) by {
                let all = corrected(self.deltas(), base@, motion);
                assert(all.take(n as int) =~= all);
            }
        }
        cameras
    }
}

/// A view is corrected by what was learned for it: every splat moves about the
/// camera centre by the motion that belongs to the six numbers of the view.
pub proof fn lemma_splats_follow_the_correction(
    deltas: Seq<u32>,
    view: int,
    delta: [u32; 6],
    cam_pos: [u32; 3],
    transforms: Seq<u32>,
    motion: spec_fn([u32; 6], [u32; 3], SplatPose) -> SplatPose,
    row: int,
    pose: SplatPose,
)
    requires
        0 <= view,
        6 * view + 6 <= deltas.len(),
        delta@ == deltas.subrange(6 * view, 6 * view + 6),
        0 <= row,
        10 * row + 10 <= transforms.len(),
        pose.mean@ == seq![transforms[10 * row], transforms[10 * row + 1], transforms[10 * row + 2]],
        pose.rotation@ == seq![
            transforms[10 * row + 4],
            transforms[10 * row + 5],
            transforms[10 * row + 6],
            transforms[10 * row + 3],
        ],
    ensures
        ({
            let after = moved_range(
                transforms,
                0,
                (transforms.len() / ROW as nat) as int,
                |pose: SplatPose| motion(delta_of(deltas, view), cam_pos, pose),
            );
            let turned = motion(delta, cam_pos, pose);
            &&& after.len() == transforms.len()
            &&& after[10 * row] == turned.mean@[0]
            &&& after[10 * row + 1] == turned.mean@[1]
            &&& after[10 * row + 2] == turned.mean@[2]
            &&& after[10 * row + 3] == turned.rotation@[3]
            &&& after[10 * row + 4] == turned.rotation@[0]
            &&& after[10 * row + 5] == turned.rotation@[1]
            &&& after[10 * row + 6] == turned.rotation@[2]
        }),
{
    assert(delta_of(deltas, view)@ =~= delta@);
    assert(delta_of(deltas, view) =~= delta);
    lemma_motion_reaches_every_row(
        transforms,
        0,
        (transforms.len() / ROW as nat) as int,
        |pose: SplatPose| motion(delta_of(deltas, view), cam_pos, pose),
        row,
        pose,
    );
}

/// A camera is corrected by what was learned for its view, and gets the pose
/// that belongs to the six numbers of the view. Without such numbers it stays.
pub proof fn lemma_cameras_follow_the_correction(
    deltas: Seq<u32>,
    base: Seq<Camera>,
    motion: spec_fn([u32; 6], Camera) -> CameraPose,
    i: int,
    delta: [u32; 6],
)
    requires
        0 <= i < base.len(),
        6 * i + 6 <= deltas.len() ==> delta@ == deltas.subrange(6 * i, 6 * i + 6),
    ensures
        corrected(deltas, base, motion).len() == base.len(),
        ({
            let now = corrected(deltas, base, motion)[i];
            if 6 * i + 6 <= deltas.len() {
                let (position, rotation) = motion(delta, base[i]);
                now == (Camera { position, rotation, ..base[i] })
            } else {
                now == base[i]
            }
        }),
{
    if 6 * i + 6 <= deltas.len() {
        assert(delta_of(deltas, i)@ =~= delta@);
        assert(delta_of(deltas, i) =~= delta);
    }
}

/// The correction from which training starts.
pub open spec fn no_correction() -> [u32; 6] {
    [0, 0, 0, 0, 0, 0]
}

/// Corrections that nothing has changed yet move nothing, whatever the view:
/// if a correction of zero is no motion, the splats stay as they are.
pub proof fn lemma_zero_correction_is_identity(
    optimizer: PoseOptimizer,
    num_views: nat,
    view_index: int,
    cam_pos: [u32; 3],
    transforms: Seq<u32>,
    motion: spec_fn([u32; 6], [u32; 3], SplatPose) -> SplatPose,
)
    requires
        optimizer.deltas() == Seq::new(num_views * DELTA as nat, |k: int| 0u32),
        0 <= view_index < num_views,
        forall|pose: SplatPose| #[trigger] motion(no_correction(), cam_pos, pose) == pose,
    ensures
        moved_range(
            transforms,
            0,
            (transforms.len() / ROW as nat) as int,
            |pose: SplatPose| motion(delta_of(optimizer.deltas(), view_index), cam_pos, pose),
        ) == transforms,
{
    let delta = delta_of(optimizer.deltas(), view_index);
    assert(view_index * DELTA + DELTA <= num_views * DELTA) by (nonlinear_arith)
        requires
            view_index < num_views,
    ;
    assert(delta == no_correction());
    lemma_idle(
        transforms,
        (transforms.len() / ROW as nat) as int,
        |pose: SplatPose| motion(delta, cam_pos, pose),
    );
}

proof fn lemma_idle(data: Seq<u32>, end: int, motion: spec_fn(SplatPose) -> SplatPose)
    requires
        0 <= end,
        end * ROW <= data.len(),
        forall|pose: SplatPose| #[trigger] motion(pose) == pose,
    ensures
        moved_range(data, 0, end, motion) == data,
    decreases end,
{
    if end > 0 {
        lemma_idle(data, end - 1, motion);
        assert(with_pose_in(data, end - 1, pose_in(data, end - 1)) =~= data);
    }
}

/// A correction that turns nothing shifts the means alone.
pub proof fn lemma_shifting_changes_means_only(
    transforms: Seq<u32>,
    rows: int,
    motion: spec_fn(SplatPose) -> SplatPose,
)
    requires
        0 <= rows,
        rows * ROW <= transforms.len(),
        forall|pose: SplatPose| (#[trigger] motion(pose)).rotation == pose.rotation,
    ensures
        moved_range(transforms, 0, rows, motion).len() == transforms.len(),
        forall|row: int|
            0 <= row < rows ==> (#[trigger] pose_in(moved_range(transforms, 0, rows, motion), row)).mean == motion(
                pose_in(transforms, row),
            ).mean,
        forall|k: int|
            0 <= k < transforms.len() && k % 10 >= 3 ==> #[trigger] moved_range(transforms, 0, rows, motion)[k]
                == transforms[k],
    decreases rows,
{
    if rows > 0 {
        lemma_shifting_changes_means_only(transforms, rows - 1, motion);
        let rest = moved_range(transforms, 0, rows - 1, motion);
        let out = moved_range(transforms, 0, rows, motion);
        let last = rows - 1;
        lemma_moved_range(transforms, 0, last, motion);
        assert(pose_in(rest, last) == pose_in(transforms, last));
        let pose = motion(pose_in(rest, last));
        lemma_with_pose_in(rest, last, pose);
        assert forall|row: int| 0 <= row < rows implies (#[trigger] pose_in(out, row)).mean == motion(
            pose_in(transforms, row),
        ).mean by {
            if row < last {
                assert(pose_in(rest, row).mean == motion(pose_in(transforms, row)).mean);
                assert(pose_in(out, row) == pose_in(rest, row));
            } else {
                assert(pose_in(out, row).mean@ =~= pose.mean@);
            }
        }
        assert forall|k: int| 0 <= k < transforms.len() && k % 10 >= 3 implies #[trigger] out[k] == transforms[k] by {
            assert(rest[k] == transforms[k]);
        }
    }
}

/// A function that always gives what `motion` says, and no other, is one that
/// computes it.
pub proof fn lemma_computes_update<F: Fn(PoseUpdate, SplatPose) -> SplatPose>(
    f: F,
    motion: spec_fn(PoseUpdate, SplatPose) -> SplatPose,
)
    ensures
        computes_update(f, motion) <==> forall|update: PoseUpdate, pose: SplatPose, out: SplatPose| #[trigger]
            call_ensures(f, (update, pose), out) ==> out == motion(update, pose),
{
}

/// A function that always gives what `motion` says, and no other, is one that
/// computes it.
pub proof fn lemma_computes_correction<F: Fn([u32; 6], [u32; 3], SplatPose) -> SplatPose>(
    f: F,
    motion: spec_fn([u32; 6], [u32; 3], SplatPose) -> SplatPose,
)
    ensures
        computes_correction(f, motion) <==> forall|delta: [u32; 6], centre: [u32; 3], pose: SplatPose, out: SplatPose| #[trigger]
            call_ensures(f, (delta, centre, pose), out) ==> out == motion(delta, centre, pose),
{
}

/// A function that always gives what `motion` says, and no other, is one that
/// computes it.
pub proof fn lemma_computes_camera<F: Fn([u32; 6], Camera) -> CameraPose>(
    f: F,
    motion: spec_fn([u32; 6], Camera) -> CameraPose,
)
    ensures
        computes_camera(f, motion) <==> forall|delta: [u32; 6], camera: Camera, out: CameraPose| #[trigger]
            call_ensures(f, (delta, camera), out) ==> out == motion(delta, camera),
{
}

/// An update fits if it covers no row or only rows that exist.
pub proof fn lemma_updates_fit(update: PoseUpdate, len: nat)
    ensures
        update.start >= update.end ==> in_rows(update, len),
        10 * update.end <= len ==> in_rows(update, len),
{
}

} // verus!
