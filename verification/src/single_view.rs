//! Training on a single view with depth.
use crate::landmarks::{
    computes_projection, mark_added, marked, pack_points, packed_colors, packed_log_scales, packed_means, pixels_of,
    project_pixels, projected, repeated, ProjectedPixel, Projection, SplatArrays,
};
use crate::pixels::{
    computes_pixel_weight, drawable, injectable, injection_pixels, lemma_picked, multiple, on_strided_grid, picked,
    pixel_weights, sample_count, strided_depth_points, texture_pixels, textured, weights_at, DrawPlan,
};
use vstd::prelude::*;

verus! {

/// How the first splats are placed.
#[derive(Clone, Copy, Debug, PartialEq, Eq)]
pub enum InitMode {
    /// On a grid of pixels with depth.
    Depth,
    /// At pixels drawn by texture.
    Texture,
}

/// The first points: the pixels with depth on a grid. They are marked.
pub fn init_splat_from_depth<F: Fn(usize) -> Projection>(
    depth: &Vec<u32>,
    w: usize,
    h: usize,
    stride: usize,
    added: &mut Vec<bool>,
    f: F,
) -> (points: Vec<ProjectedPixel>)
    requires
        w * h <= usize::MAX,
        w * h <= depth@.len(),
        w * h <= old(added)@.len(),
        forall|idx: usize| #[trigger] call_requires(f, (idx,)),
    ensures
        ({
            let pixels = picked((w * h) as nat, on_strided_grid(depth@, w as int, stride as int));
            &&& final(added)@ == marked(old(added)@, pixels)
            &&& forall|projection: spec_fn(usize) -> Projection| #[trigger]
                computes_projection(f, projection) ==> points@ == projected(pixels, projection)
        }),
{
    let pixels = strided_depth_points(depth, w, h, stride);
    proof {
        lemma_picked((w * h) as nat, on_strided_grid(depth@, w as int, stride as int));
        assert forall|k: int| 0 <= k < pixels@.len() implies (#[trigger] pixels@[k]) < added@.len() by {
            assert(pixels@.contains(pixels@[k]));
        }
    }
    place_points(&pixels, added, f)
}

/// The points at the given pixels, which are marked.
fn place_points<F: Fn(usize) -> Projection>(pixels: &Vec<usize>, added: &mut Vec<bool>, f: F) -> (points: Vec<
    ProjectedPixel,
>)
    requires
        forall|k: int| 0 <= k < pixels@.len() ==> (#[trigger] pixels@[k]) < old(added)@.len(),
        forall|idx: usize| #[trigger] call_requires(f, (idx,)),
    ensures
        pixels_of(points@) == pixels@,
        final(added)@ == marked(old(added)@, pixels@),
        forall|projection: spec_fn(usize) -> Projection| #[trigger]
            computes_projection(f, projection) ==> points@ == projected(pixels@, projection),
{
    mark_added(added, pixels);
    project_pixels(pixels, &f)
}

/// The weights from which pixels are drawn by texture, and how many: pixels
/// with depth and without a Gaussian.
pub fn texture_draws<F: Fn(usize) -> u32>(depth: &Vec<u32>, added: &Vec<bool>, num_samples: usize, f: F) -> (plan: DrawPlan)
    requires
        added@.len() <= depth@.len(),
        forall|idx: usize| #[trigger] call_requires(f, (idx,)),
    ensures
        plan.weights@.len() == added@.len(),
        plan.n == drawable(plan.weights@, num_samples as nat),
        forall|weight: spec_fn(usize) -> u32| #[trigger]
            computes_pixel_weight(f, weight) ==> plan.weights@ == weights_at(
                picked(added@.len(), textured(added@, depth@)),
                added@.len(),
                weight,
            ),
{
    let total: usize = added.len();
    let pixels = texture_pixels(added, depth, total);
    proof {
        lemma_picked(total as nat, textured(added@, depth@));
        assert forall|k: int| 0 <= k < pixels@.len() implies (#[trigger] pixels@[k]) < total by {
            assert(pixels@.contains(pixels@[k]));
        }
    }
    let weights = pixel_weights(&pixels, total, &f);
    let n: usize = sample_count(&weights, num_samples);
    DrawPlan { weights, n }
}

/// The first points: the pixels that were drawn by texture. They are marked.
pub fn init_splat_from_texture<F: Fn(usize) -> Projection>(sampled: &Vec<usize>, added: &mut Vec<bool>, f: F) -> (points:
    Vec<ProjectedPixel>)
    requires
        forall|k: int| 0 <= k < sampled@.len() ==> (#[trigger] sampled@[k]) < old(added)@.len(),
        forall|idx: usize| #[trigger] call_requires(f, (idx,)),
    ensures
        pixels_of(points@) == sampled@,
        final(added)@ == marked(old(added)@, sampled@),
        forall|projection: spec_fn(usize) -> Projection| #[trigger]
            computes_projection(f, projection) ==> points@ == projected(sampled@, projection),
{
    place_points(sampled, added, f)
}

/// The weights from which pixels are drawn by reconstruction error, and how
/// many: pixels without a Gaussian that are deep enough.
pub fn injection_draws<F: Fn(usize) -> u32>(depth: &Vec<u32>, added: &Vec<bool>, num_samples: usize, f: F) -> (plan: DrawPlan)
    requires
        added@.len() <= depth@.len(),
        forall|idx: usize| #[trigger] call_requires(f, (idx,)),
    ensures
        plan.weights@.len() == added@.len(),
        plan.n == drawable(plan.weights@, num_samples as nat),
        forall|weight: spec_fn(usize) -> u32| #[trigger]
            computes_pixel_weight(f, weight) ==> plan.weights@ == weights_at(
                picked(added@.len(), injectable(added@, depth@)),
                added@.len(),
                weight,
            ),
{
    let total: usize = added.len();
    let pixels = injection_pixels(added, depth, total);
    proof {
        lemma_picked(total as nat, injectable(added@, depth@));
        assert forall|k: int| 0 <= k < pixels@.len() implies (#[trigger] pixels@[k]) < total by {
            assert(pixels@.contains(pixels@[k]));
        }
    }
    let weights = pixel_weights(&pixels, total, &f);
    let n: usize = sample_count(&weights, num_samples);
    DrawPlan { weights, n }
}

/// The points that are injected: the pixels that were drawn by reconstruction
/// error. They are marked.
pub fn ssim_injection_points<F: Fn(usize) -> Projection>(sampled: &Vec<usize>, added: &mut Vec<bool>, f: F) -> (points:
    Vec<ProjectedPixel>)
    requires
        forall|k: int| 0 <= k < sampled@.len() ==> (#[trigger] sampled@[k]) < old(added)@.len(),
        forall|idx: usize| #[trigger] call_requires(f, (idx,)),
    ensures
        pixels_of(points@) == sampled@,
        final(added)@ == marked(old(added)@, sampled@),
        forall|projection: spec_fn(usize) -> Projection| #[trigger]
            computes_projection(f, projection) ==> points@ == projected(sampled@, projection),
{
    place_points(sampled, added, f)
}

/// A pixel never gets a second Gaussian: once it is marked, it weighs nothing
/// in any later draw.
pub proof fn lemma_marked_pixels_weigh_nothing(
    added: Seq<bool>,
    sampled: Seq<usize>,
    depth: Seq<u32>,
    weight: spec_fn(usize) -> u32,
    idx: usize,
)
    requires
        sampled.contains(idx),
        idx < added.len() <= depth.len(),
        added.len() <= usize::MAX,
    ensures
        ({
            let now = marked(added, sampled);
            &&& weights_at(picked(now.len(), injectable(now, depth)), now.len(), weight)[idx as int] == 0
            &&& weights_at(picked(now.len(), textured(now, depth)), now.len(), weight)[idx as int] == 0
        }),
{
    let now = marked(added, sampled);
    lemma_picked(now.len(), injectable(now, depth));
    lemma_picked(now.len(), textured(now, depth));
    assert(now[idx as int]);
    assert(!injectable(now, depth)(idx));
    assert(!textured(now, depth)(idx));
}

/// Splats of points: the arrays that describe them, and their opacities.
pub struct PointSplats {
    pub arrays: SplatArrays,
    pub raw_opacities: Vec<u32>,
}

/// Turns points into splats, all with the same opacity. The scales come from
/// the neighbours, if those were looked at, or else from the points.
pub fn points_to_splats(points: &Vec<ProjectedPixel>, raw_opacity: u32, knn_scales: Option<Vec<u32>>) -> (splats: PointSplats)
    ensures
        splats.arrays.means@ == packed_means(points@),
        splats.arrays.sh_coeffs@ == packed_colors(points@),
        splats.arrays.log_scales.is_some(),
        splats.arrays.log_scales->0@ == (match knn_scales {
            Some(scales) => scales@,
            None => packed_log_scales(points@),
        }),
        splats.raw_opacities@ == Seq::new(points@.len(), |i: int| raw_opacity),
{
    let mut arrays = pack_points(points, true);
    if let Some(scales) = knn_scales {
        arrays.log_scales = Some(scales);
    }
    PointSplats { arrays, raw_opacities: repeated(raw_opacity, points.len()) }
}

/// Whether splats are injected before a training step.
pub fn refine_due(train_step: u32, refine_every: u32) -> (due: bool)
    ensures
        due == multiple(train_step as int, refine_every as int),
        refine_every > 0 ==> due == (train_step % refine_every == 0),
        refine_every == 0 ==> due == (train_step == 0),
{
    train_step.is_multiple_of(refine_every)
}

/// Fields separated by commas.
pub open spec fn joined(fields: Seq<String>) -> Seq<char>
    decreases fields.len(),
{
    if fields.len() == 0 {
        Seq::empty()
    } else if fields.len() == 1 {
        fields[0]@
    } else {
        joined(fields.drop_last()) + ","@ + fields.last()@
    }
}

/// A line of the training log.
pub fn csv_row(fields: &Vec<String>) -> (row: String)
    ensures
        row@ == joined(fields@) + "\n"@,
{
    let mut row = String::new();
    let n: usize = fields.len();
    for i in 0..n
        invariant
            n == fields@.len(),
            row@ == joined(fields@.take(i as int)),
    {
        if i > 0 {
            row.append(",");
        }
        row.append(fields[i].as_str());
        proof {
            let now = fields@.take(i + 1);
            assert(now.drop_last() =~= fields@.take(i as int));
            assert(row@ =~= joined(now));
        }
    }
    assert(fields@.take(n as int) =~= fields@);
    row.append("\n");
    row
}

/// A line has its fields in order, with a comma between any two.
pub proof fn lemma_fields_are_joined(fields: Seq<String>, next: String)
    ensures
        joined(Seq::empty()) == Seq::<char>::empty(),
        fields.len() == 0 ==> joined(fields.push(next)) == next@,
        fields.len() > 0 ==> joined(fields.push(next)) == joined(fields) + seq![','] + next@,
{
    reveal_strlit(",");
    assert(","@ =~= seq![',']);
    assert(fields.push(next).drop_last() =~= fields);
}

} // verus!
