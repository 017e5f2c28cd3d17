//! Training on frames as they are streamed in.
use crate::bridge::MaskMismatch;
use crate::camera::Camera;
use crate::chance::{chosen, draw_item, repeated_byte, run_rng, seeded_generator};
use crate::config::TrainStreamConfig;
use crate::database::{AlphaMode, SceneBatch};
use crate::raster::{
    gray_with_alpha, interleave_mask, lemma_gray_pixels_are_masked, png_encoding, png_from_luma, rgba_from_raw, share,
    RasterImage,
};
use crate::ui::{
    dataset_message, image_file_name, image_name, lists_views, opening, opening_messages, splats_news,
    splats_news_messages, status, status_messages, ImageFiles, ProcessMessage, SceneView, SplatInfo,
};
use rand::rngs::StdRng;
use std::sync::Arc;
use vstd::prelude::*;

verus! {

/// A view to train on.
pub struct TrainingView {
    pub camera: Camera,
    pub image: Arc<RasterImage>,
}

/// A frame: its id, its pose, and its grayscale image, one byte per pixel.
pub type PosedImage = (i64, [u32; 3], [u32; 4], Vec<u8>);

/// Poses and landmarks of a stretch of the recording, and its latest image.
pub struct FrameData {
    pub poses: Vec<(i64, [u32; 3], [u32; 4])>,
    pub landmarks: Vec<[u32; 3]>,
    /// Packed row-major grayscale pixels, size = width * height.
    pub image_frame_id: i64,
    pub image_data: Vec<u8>,
}

/// What is new to train on.
pub struct NewTrainingData {
    pub training_views: Vec<TrainingView>,
    pub scene_views: Vec<Arc<SceneView>>,
    pub new_landmarks: Vec<[u32; 3]>,
}

/// Why training data cannot be built.
#[derive(Clone, Copy, Debug, PartialEq, Eq)]
pub enum FrameDataError {
    /// The mask has another size than the images.
    Mask(MaskMismatch),
    /// The mask or an image cannot be encoded as a PNG file.
    Encoding,
}

/// Whether the view is of the frame, masked.
pub open spec fn trains_on(view: TrainingView, frame: PosedImage, mask: Seq<u8>, unit_camera: Camera, w: u32, h: u32) -> bool {
    &&& view.camera == unit_camera.posed(frame.1, frame.2)
    &&& view.image.width == w
    &&& view.image.height == h
    &&& view.image.bytes@ == gray_with_alpha(frame.3@, mask)
}

/// Whether the view shows the frame, from the given PNG files.
pub open spec fn shows_frame(view: SceneView, frame: PosedImage, png: Seq<u8>, mask_png: Seq<u8>, unit_camera: Camera) -> bool {
    &&& view.image_name@ == image_name(frame.0 as int)
    &&& view.files.is_some()
    &&& view.files->0.png@ == png
    &&& view.files->0.mask_png@ == mask_png
    &&& view.camera == unit_camera.posed(frame.1, frame.2)
}

/// The PNG file of a frame, if its image can be encoded.
pub open spec fn frame_png(frame: PosedImage, w: u32, h: u32) -> Option<Seq<u8>> {
    png_encoding(w, h, frame.3@)
}

/// Whether all images can be encoded.
pub open spec fn all_encodable(frames: Seq<PosedImage>, w: u32, h: u32) -> bool {
    forall|i: int| 0 <= i < frames.len() ==> frame_png(#[trigger] frames[i], w, h).is_some()
}

impl NewTrainingData {
    /// Whether this is the training data of the frames, shown from the given
    /// PNG files.
    pub open spec fn is_built_from(
        self,
        frames: Seq<PosedImage>,
        mask: Seq<u8>,
        pngs: Seq<Seq<u8>>,
        mask_png: Seq<u8>,
        unit_camera: Camera,
        w: u32,
        h: u32,
    ) -> bool {
        &&& self.training_views@.len() == frames.len()
        &&& self.scene_views@.len() == frames.len()
        &&& forall|i: int|
            0 <= i < frames.len() ==> trains_on(#[trigger] self.training_views@[i], frames[i], mask, unit_camera, w, h)
        &&& forall|i: int|
            0 <= i < frames.len() ==> shows_frame(
                *#[trigger] self.scene_views@[i],
                frames[i],
                pngs[i],
                mask_png,
                unit_camera,
            )
    }

    /// Puts training data together from frames and their PNG files.
    pub fn assemble(
        frames: &Vec<PosedImage>,
        mask: &Vec<u8>,
        pngs: &Vec<Arc<Vec<u8>>>,
        mask_png: Vec<u8>,
        new_landmarks: Vec<[u32; 3]>,
        unit_camera: Camera,
        w: u32,
        h: u32,
    ) -> (data: Self)
        requires
            4 * w <= usize::MAX,
            mask@.len() == w * h,
            pngs@.len() == frames@.len(),
            forall|i: int| 0 <= i < frames@.len() ==> (#[trigger] frames@[i]).3@.len() == w * h,
        ensures
            data.is_built_from(
                frames@,
                mask@,
                pngs@.map_values(|png: Arc<Vec<u8>>| png@),
                mask_png@,
                unit_camera,
                w,
                h,
            ),
            data.new_landmarks == new_landmarks,
    {
        let n: usize = frames.len();
        let ghost mask_bytes = mask_png@;
        let ghost png_bytes = pngs@.map_values(|png: Arc<Vec<u8>>| png@);
        let shared_mask = Arc::new(mask_png);
        let mut training_views: Vec<TrainingView> = Vec::new();
        let mut scene_views: Vec<Arc<SceneView>> = Vec::new();
        for i in 0..n
            invariant
                n == frames@.len(),
                n == pngs@.len(),
                4 * w <= usize::MAX,
                mask@.len() == w * h,
                shared_mask@ == mask_bytes,
                png_bytes == pngs@.map_values(|png: Arc<Vec<u8>>| png@),
                forall|i: int| 0 <= i < frames@.len() ==> (#[trigger] frames@[i]).3@.len() == w * h,
                training_views@.len() == i,
                scene_views@.len() == i,
                forall|k: int|
                    0 <= k < i ==> trains_on(#[trigger] training_views@[k], frames@[k], mask@, unit_camera, w, h),
                forall|k: int|
                    0 <= k < i ==> shows_frame(
                        *#[trigger] scene_views@[k],
                        frames@[k],
                        png_bytes[k],
                        mask_bytes,
                        unit_camera,
                    ),
        {
            let frame = &frames[i];
            let rgba = interleave_mask(&frame.3, mask);
            proof {
                assert(4 * w * h == 4 * (w * h)) by (nonlinear_arith);
            }
            let train_img = rgba_from_raw(w, h, rgba).unwrap();
            let camera = unit_camera.with_pose(frame.1, frame.2);
            training_views.push(TrainingView { camera, image: Arc::new(train_img) });
            let files = ImageFiles { png: share(&pngs[i]), mask_png: share(&shared_mask) };
            scene_views.push(
                Arc::new(SceneView { image_name: image_file_name(frame.0), files: Some(files), camera }),
            );
        }
        NewTrainingData { training_views, scene_views, new_landmarks }
    }

    /// Builds training data from frames and a mask, one byte per pixel. The
    /// mask is refused if its size is not that of the images, even if there are
    /// none; the mask and the images are refused if one of them cannot be
    /// encoded as a PNG file.
    pub fn build_from_frame_data(
        frames: &Vec<PosedImage>,
        new_landmarks: Vec<[u32; 3]>,
        unit_camera: Camera,
        w: u32,
        h: u32,
        mask: &RasterImage,
    ) -> (data: Result<Self, FrameDataError>)
        requires
            4 * w <= usize::MAX,
            mask.bytes@.len() == mask.pixels(),
            forall|i: int| 0 <= i < frames@.len() ==> (#[trigger] frames@[i]).3@.len() == w * h,
        ensures
            match data {
                Ok(built) => {
                    &&& mask.width == w && mask.height == h
                    &&& png_encoding(w, h, mask.bytes@).is_some() && all_encodable(frames@, w, h)
                    &&& built.is_built_from(
                        frames@,
                        mask.bytes@,
                        frames@.map_values(|frame: PosedImage| frame_png(frame, w, h)->0),
                        png_encoding(w, h, mask.bytes@)->0,
                        unit_camera,
                        w,
                        h,
                    )
                    &&& built.new_landmarks == new_landmarks
                },
                Err(FrameDataError::Mask(mismatch)) => {
                    &&& mask.width != w || mask.height != h
                    &&& mismatch == (MaskMismatch {
                        mask_width: mask.width,
                        mask_height: mask.height,
                        img_width: w,
                        img_height: h,
                    })
                },
                Err(FrameDataError::Encoding) => {
                    &&& mask.width == w && mask.height == h
                    &&& !(png_encoding(w, h, mask.bytes@).is_some() && all_encodable(frames@, w, h))
                },
            },
    {
        if mask.width != w || mask.height != h {
            return Err(
                FrameDataError::Mask(
                    MaskMismatch { mask_width: mask.width, mask_height: mask.height, img_width: w, img_height: h },
                ),
            );
        }
        let mask_png: Vec<u8> = match png_from_luma(w, h, mask.bytes.clone()) {
            Some(png) => png,
            None => {
                return Err(FrameDataError::Encoding);
            },
        };
        let n: usize = frames.len();
        let mut pngs: Vec<Arc<Vec<u8>>> = Vec::new();
        for i in 0..n
            invariant
                n == frames@.len(),
                pngs@.len() == i,
                mask.width == w && mask.height == h,
                forall|i: int| 0 <= i < frames@.len() ==> (#[trigger] frames@[i]).3@.len() == w * h,
                forall|k: int|
                    0 <= k < i ==> frame_png(#[trigger] frames@[k], w, h) == Some(pngs@[k]@),
        {
            assert(frames@[i as int].3@.len() == w * h);
            match png_from_luma(w, h, frames[i].3.clone()) {
                Some(png) => {
                    pngs.push(Arc::new(png));
                },
                None => {
                    assert(frame_png(frames@[i as int], w, h).is_none());
                    return Err(FrameDataError::Encoding);
                },
            }
        }
        assert(pngs@.map_values(|png: Arc<Vec<u8>>| png@) =~= frames@.map_values(
            |frame: PosedImage| frame_png(frame, w, h)->0,
        ));
        Ok(Self::assemble(frames, &mask.bytes, &pngs, mask_png, new_landmarks, unit_camera, w, h))
    }
}

/// Every how many steps the viewers hear of the progress.
pub const UPDATE_EVERY: u32 = 5;

/// What a stream of training knows, as mathematical values.
#[verifier::ext_equal]
pub struct StreamState {
    pub config: Arc<TrainStreamConfig>,
    pub rng: StdRng,
    pub views: Seq<TrainingView>,
    pub scene_views: Seq<Arc<SceneView>>,
    pub splats: Option<SplatInfo>,
    pub has_trainer: bool,
    pub iter: u32,
    /// Time spent in training steps, in nanoseconds.
    pub train_duration: u128,
    /// Whether the viewers know that loading is done.
    pub slot_initialized: bool,
    pub up_axis: Option<[u32; 3]>,
}

impl StreamState {
    /// Splats have an optimiser and views to train on, and the viewers know
    /// that loading is done exactly when there are splats. The up axis comes
    /// with the first view.
    pub open spec fn wf(self) -> bool {
        &&& self.has_trainer == self.splats.is_some()
        &&& self.slot_initialized == self.splats.is_some()
        &&& self.splats.is_some() ==> self.views.len() > 0 && self.up_axis.is_some()
        &&& self.up_axis.is_some() ==> self.views.len() > 0
        &&& self.config.train_config.refine_every > 0
    }

    /// Whether the splats are refined after the latest step.
    pub open spec fn refine_due(self) -> bool {
        self.iter % self.config.train_config.refine_every == 0
    }

    /// After a training step.
    pub open spec fn stepped(self, elapsed: u128) -> StreamState {
        StreamState {
            iter: (self.iter + 1) as u32,
            train_duration: (self.train_duration + elapsed) as u128,
            ..self
        }
    }

    /// With refined splats.
    pub open spec fn with_refined(self, splats: SplatInfo) -> StreamState {
        StreamState { splats: Some(splats), ..self }
    }

    /// What is said about refined splats.
    pub open spec fn refine_message(self, total_splats: u32) -> ProcessMessage {
        ProcessMessage::RefineStep { cur_splat_count: total_splats, iter: self.iter }
    }

    /// What is said about the progress after the latest step.
    pub open spec fn progress_messages(self) -> Seq<ProcessMessage> {
        if self.iter % UPDATE_EVERY == 0 {
            status(self.splats, self.iter, self.train_duration)
        } else {
            Seq::empty()
        }
    }

    /// Whether the data can be taken in: the first data holds a view, and the
    /// splats can be counted.
    pub open spec fn can_take(self, data: NewTrainingData) -> bool {
        &&& self.up_axis.is_none() ==> data.training_views@.len() > 0
        &&& (match self.splats {
            Some(info) => info.num_splats as nat,
            None => 0,
        }) + data.new_landmarks@.len() <= u32::MAX
    }

    /// After new data has been taken in. `up_axis` is the up axis by then.
    pub open spec fn with_data(self, data: NewTrainingData, up_axis: Option<[u32; 3]>) -> StreamState {
        let splats = with_landmarks(
            self.splats,
            data.new_landmarks@.len(),
            self.config.model_config.sh_degree,
        );
        StreamState {
            views: self.views + data.training_views@,
            scene_views: self.scene_views + data.scene_views@,
            splats,
            has_trainer: splats.is_some(),
            slot_initialized: splats.is_some(),
            up_axis,
            ..self
        }
    }
}

/// Whether this is said when new data has been taken in: all views that have
/// come so far are listed; then, if there are splats, the viewers hear of them.
pub open spec fn announces(before: StreamState, after: StreamState, messages: Seq<ProcessMessage>) -> bool {
    &&& messages.len() > 0
    &&& lists_views(messages[0], after.scene_views)
    &&& messages.skip(1) == (match after.splats {
        Some(info) => splats_news(info, after.up_axis, !before.slot_initialized),
        None => Seq::empty(),
    })
}

/// What has to be done about new data.
pub struct NewDataActions {
    /// The means of new splats, three numbers each.
    pub new_means: Option<Vec<u32>>,
    /// Whether an optimiser for the splats is made, and the splats are shown.
    pub reset_trainer: bool,
    /// What the viewers are told.
    pub messages: Vec<ProcessMessage>,
}

/// Whether the function always gives what `axis` says.
pub open spec fn computes_axis<F: Fn([u32; 4]) -> [u32; 3]>(f: F, axis: spec_fn([u32; 4]) -> [u32; 3]) -> bool {
    forall|rotation: [u32; 4], out: [u32; 3]| call_ensures(f, (rotation,), out) ==> out == axis(rotation)
}

/// The up axis once the data has been taken in: that of the very first view.
pub open spec fn axis_after(state: StreamState, data: NewTrainingData, axis: spec_fn([u32; 4]) -> [u32; 3]) -> [u32; 3] {
    match state.up_axis {
        Some(known) => known,
        None => axis(data.training_views@[0].camera.rotation),
    }
}

/// Points as three numbers each.
pub open spec fn flattened(points: Seq<[u32; 3]>) -> Seq<u32> {
    Seq::new(3 * points.len(), |k: int| points[k / 3][k % 3])
}

/// The splats after new landmarks have become splats.
pub open spec fn with_landmarks(splats: Option<SplatInfo>, n: nat, sh_degree: u32) -> Option<SplatInfo> {
    if n == 0 {
        splats
    } else {
        let before = match splats {
            Some(info) => info.num_splats as nat,
            None => 0,
        };
        Some(SplatInfo { num_splats: (before + n) as u32, sh_degree })
    }
}

/// Turns landmarks into the means of splats, and counts the splats.
pub fn add_new_landmarks(new_landmarks: &Vec<[u32; 3]>, splats: &mut Option<SplatInfo>, sh_degree: u32) -> (means: Vec<u32>)
    requires
        new_landmarks@.len() > 0,
        (match *old(splats) {
            Some(info) => info.num_splats as nat,
            None => 0,
        }) + new_landmarks@.len() <= u32::MAX,
    ensures
        means@ == flattened(new_landmarks@),
        *final(splats) == with_landmarks(*old(splats), new_landmarks@.len(), sh_degree),
{
    let n: usize = new_landmarks.len();
    let mut means: Vec<u32> = Vec::new();
    for i in 0..n
        invariant
            n == new_landmarks@.len(),
            means@ == flattened(new_landmarks@.take(i as int)),
    {
        let p: [u32; 3] = new_landmarks[i];
        means.push(p[0]);
        means.push(p[1]);
        means.push(p[2]);
        assert(means@ =~= flattened(new_landmarks@.take(i + 1)));
    }
    assert(new_landmarks@.take(n as int) =~= new_landmarks@);
    let before: u32 = match *splats {
        Some(info) => info.num_splats,
        None => 0,
    };
    *splats = Some(SplatInfo { num_splats: before + n as u32, sh_degree });
    means
}

/// Trains splats on frames as they come in.
pub struct TrainStream {
    config: Arc<TrainStreamConfig>,
    rng: StdRng,
    views: Vec<TrainingView>,
    scene_views: Vec<Arc<SceneView>>,
    splats: Option<SplatInfo>,
    has_trainer: bool,
    iter: u32,
    train_duration: u128,
    slot_initialized: bool,
    up_axis: Option<[u32; 3]>,
}

impl View for TrainStream {
    type V = StreamState;

    closed spec fn view(&self) -> StreamState {
        StreamState {
            config: self.config,
            rng: self.rng,
            views: self.views@,
            scene_views: self.scene_views@,
            splats: self.splats,
            has_trainer: self.has_trainer,
            iter: self.iter,
            train_duration: self.train_duration,
            slot_initialized: self.slot_initialized,
            up_axis: self.up_axis,
        }
    }
}

/// What a stream knows before any frame has come.
pub open spec fn fresh(config: Arc<TrainStreamConfig>) -> StreamState {
    StreamState {
        config,
        rng: seeded_generator(repeated_byte(config.process_config.seed)),
        views: Seq::empty(),
        scene_views: Seq::empty(),
        splats: None,
        has_trainer: false,
        iter: 0,
        train_duration: 0,
        slot_initialized: false,
        up_axis: None,
    }
}

/// Handles of the same views.
fn share_views(views: &Vec<Arc<SceneView>>) -> (shared: Vec<Arc<SceneView>>)
    ensures
        shared@ == views@,
{
    let n: usize = views.len();
    let mut shared: Vec<Arc<SceneView>> = Vec::new();
    for i in 0..n
        invariant
            n == views@.len(),
            shared@ == views@.take(i as int),
    {
        shared.push(share(&views[i]));
        assert(views@.take(i + 1) =~= views@.take(i as int).push(views@[i as int]));
    }
    assert(views@.take(n as int) =~= views@);
    shared
}

impl TrainStream {
    /// A stream that has seen no frame yet.
    pub fn new(config: Arc<TrainStreamConfig>) -> (stream: Self)
        requires
            config.train_config.refine_every > 0,
        ensures
            stream@.wf(),
            stream@ == fresh(config),
    {
        let rng = run_rng(config.process_config.seed);
        TrainStream {
            config,
            rng,
            views: Vec::new(),
            scene_views: Vec::new(),
            splats: None,
            has_trainer: false,
            iter: 0,
            train_duration: 0,
            slot_initialized: false,
            up_axis: None,
        }
    }

    /// What the viewers are told at the start: the settings, and that there are
    /// no views yet.
    pub fn opening(&self) -> (messages: Vec<ProcessMessage>)
        ensures
            messages@.len() == 4,
            messages@.take(3) == opening(Some(self@.config)),
            lists_views(messages@[3], Seq::empty()),
    {
        let mut messages = opening_messages(Some(share(&self.config)));
        let ghost before = messages@;
        let no_views: Vec<Arc<SceneView>> = Vec::new();
        assert(no_views@ =~= Seq::empty());
        messages.push(dataset_message(no_views));
        assert(messages@.take(3) =~= before);
        messages
    }

    /// Takes new data in. The first view fixes the up axis, landmarks become
    /// splats, and the views are added. If there are splats, they need a new
    /// optimiser, and the viewers hear of them.
    pub fn take_data<F: Fn([u32; 4]) -> [u32; 3]>(&mut self, data: NewTrainingData, f: F) -> (actions: NewDataActions)
        requires
            old(self)@.wf(),
            old(self)@.can_take(data),
            forall|rotation: [u32; 4]| #[trigger] call_requires(f, (rotation,)),
        ensures
            final(self)@.wf(),
            final(self)@ == old(self)@.with_data(data, final(self)@.up_axis),
            actions.new_means.is_some() == (data.new_landmarks@.len() > 0),
            actions.new_means.is_some() ==> actions.new_means->0@ == flattened(data.new_landmarks@),
            actions.reset_trainer == final(self)@.splats.is_some(),
            announces(old(self)@, final(self)@, actions.messages@),
            actions.messages@.len() == 1 + (if final(self)@.splats.is_none() {
                0nat
            } else if old(self)@.slot_initialized {
                1
            } else {
                2
            }),
            actions.messages@[0] matches ProcessMessage::Dataset { train_views, eval_views } && train_views@ == old(
                self,
            )@.scene_views + data.scene_views@ && eval_views@.len() == 0,
            final(self)@.splats.is_some() ==> {
                &&& !old(self)@.slot_initialized ==> actions.messages@[1] is DoneLoading
                &&& actions.messages@.last() matches ProcessMessage::SplatsUpdated { up_axis, num_splats, sh_degree, .. } && {
                    &&& up_axis == final(self)@.up_axis
                    &&& num_splats == final(self)@.splats->0.num_splats
                    &&& sh_degree == final(self)@.splats->0.sh_degree
                }
            },
            final(self)@.up_axis.is_some(),
            forall|axis: spec_fn([u32; 4]) -> [u32; 3]| #[trigger]
                computes_axis(f, axis) ==> final(self)@.up_axis == Some(axis_after(old(self)@, data, axis)),
            old(self)@.up_axis.is_some() ==> final(self)@.up_axis == old(self)@.up_axis,
    {
        let mut data = data;
        if self.up_axis.is_none() {
            self.up_axis = Some(f(data.training_views[0].camera.rotation));
        }
        let new_means: Option<Vec<u32>> = if data.new_landmarks.len() > 0 {
            let mut splats: Option<SplatInfo> = self.splats;
            let means = add_new_landmarks(&data.new_landmarks, &mut splats, self.config.model_config.sh_degree);
            self.splats = splats;
            Some(means)
        } else {
            None
        };
        self.scene_views.append(&mut data.scene_views);
        self.views.append(&mut data.training_views);
        let mut messages: Vec<ProcessMessage> = Vec::new();
        messages.push(dataset_message(share_views(&self.scene_views)));
        let ghost listed = messages@[0];
        assert(messages@.skip(1) =~= Seq::empty());
        let reset_trainer: bool = self.splats.is_some();
        if let Some(info) = self.splats {
            self.has_trainer = true;
            let mut news = splats_news_messages(info, self.up_axis, !self.slot_initialized);
            let ghost told = news@;
            messages.append(&mut news);
            assert(messages@[0] == listed);
            assert(messages@.skip(1) =~= told);
            self.slot_initialized = true;
        }
        NewDataActions { new_means, reset_trainer, messages }
    }

    /// How many training steps have been made.
    pub fn iteration(&self) -> (iter: u32)
        ensures
            iter == self@.iter,
    {
        self.iter
    }

    /// All views to show, in the order in which they came.
    pub fn scene_views(&self) -> (views: &Vec<Arc<SceneView>>)
        ensures
            views@ == self@.scene_views,
    {
        &self.scene_views
    }

    /// A view to train on next, drawn among all of them. Nothing if there is
    /// nothing to train yet.
    pub fn next_batch(&mut self) -> (batch: Option<SceneBatch>)
        requires
            old(self)@.wf(),
        ensures
            final(self)@.wf(),
            final(self)@ == (StreamState { rng: final(self)@.rng, ..old(self)@ }),
            batch.is_some() == (old(self)@.has_trainer && old(self)@.splats.is_some()),
            batch.is_some() ==> exists|i: int|
                0 <= i < old(self)@.views.len() && batch->0 == batch_from(#[trigger] old(self)@.views[i]),
            batch.is_none() ==> final(self)@ == old(self)@,
            batch.is_some() ==> exists|views: &Vec<TrainingView>, r: &mut StdRng, view: &TrainingView|
                {
                    &&& #[trigger] chosen(views, r, Some(view))
                    &&& views@ == old(self)@.views
                    &&& *r == old(self)@.rng
                    &&& *final(r) == final(self)@.rng
                    &&& batch->0.image == view.image
                    &&& batch->0.camera == view.camera
                    &&& batch->0.alpha_mode == AlphaMode::Masked
                    &&& batch->0.depth.is_none()
                },
    {
        if !self.has_trainer || self.splats.is_none() {
            return None;
        }
        let view = draw_item(&self.views, &mut self.rng).unwrap();
        proof {
            let i = self.views@.index_of(*view);
            assert(self.views@[i] == *view);
        }
        Some(
            SceneBatch { image: share(&view.image), alpha_mode: AlphaMode::Masked, camera: view.camera, depth: None },
        )
    }

    /// Counts a training step. Returns whether the splats are to be refined.
    pub fn step_done(&mut self, elapsed: u128) -> (refine: bool)
        requires
            old(self)@.wf(),
            old(self)@.iter < u32::MAX,
            old(self)@.train_duration + elapsed <= u128::MAX,
        ensures
            final(self)@.wf(),
            final(self)@ == old(self)@.stepped(elapsed),
            refine == final(self)@.refine_due(),
            final(self)@.iter == old(self)@.iter + 1,
            final(self)@.train_duration == old(self)@.train_duration + elapsed,
            refine == ((old(self)@.iter + 1) % (old(self)@.config.train_config.refine_every as int) == 0),
    {
        self.train_duration = self.train_duration + elapsed;
        self.iter = self.iter + 1;
        self.iter % self.config.train_config.refine_every == 0
    }

    /// Takes over refined splats. Returns what the viewers are told.
    pub fn refined(&mut self, splats: SplatInfo, total_splats: u32) -> (message: ProcessMessage)
        requires
            old(self)@.wf(),
            old(self)@.has_trainer,
        ensures
            final(self)@.wf(),
            final(self)@ == old(self)@.with_refined(splats),
            message == old(self)@.refine_message(total_splats),
            final(self)@ == (StreamState { splats: Some(splats), ..old(self)@ }),
            message == (ProcessMessage::RefineStep { cur_splat_count: total_splats, iter: old(self)@.iter }),
    {
        self.splats = Some(splats);
        ProcessMessage::RefineStep { cur_splat_count: total_splats, iter: self.iter }
    }

    /// What the viewers are told about the progress: every few steps how many
    /// splats there are and how long training took.
    pub fn progress(&self) -> (messages: Vec<ProcessMessage>)
        requires
            self@.splats.is_some(),
        ensures
            messages@ == self@.progress_messages(),
            messages@.len() == (if self@.iter % 5 == 0 {
                2nat
            } else {
                0
            }),
            self@.iter % 5 == 0 ==> {
                &&& messages@[0] matches ProcessMessage::SplatsUpdated { up_axis, num_splats, sh_degree, .. } && {
                    &&& up_axis.is_none()
                    &&& num_splats == self@.splats->0.num_splats
                    &&& sh_degree == self@.splats->0.sh_degree
                }
                &&& messages@[1] == (ProcessMessage::TrainStep {
                    iter: self@.iter,
                    total_elapsed: self@.train_duration,
                })
            },
    {
        if self.iter % UPDATE_EVERY == 0 {
            status_messages(self.splats, self.iter, self.train_duration)
        } else {
            Vec::new()
        }
    }
}

/// The batch of a view.
pub open spec fn batch_from(view: TrainingView) -> SceneBatch {
    SceneBatch { image: view.image, alpha_mode: AlphaMode::Masked, camera: view.camera, depth: None }
}

/// A training view of a frame has its pose, with the intrinsics that all cameras
/// share, its gray value at every pixel, and the mask in alpha.
pub proof fn lemma_training_view_shows_its_frame(
    view: TrainingView,
    frame: PosedImage,
    mask: Seq<u8>,
    unit_camera: Camera,
    w: u32,
    h: u32,
    i: int,
)
    requires
        trains_on(view, frame, mask, unit_camera, w, h),
        frame.3@.len() == w * h,
        mask.len() == w * h,
        0 <= i < w * h,
    ensures
        view.camera.position == frame.1,
        view.camera.rotation == frame.2,
        view.camera.fov_x == unit_camera.fov_x,
        view.camera.fov_y == unit_camera.fov_y,
        view.camera.center_uv == unit_camera.center_uv,
        view.image.width == w,
        view.image.height == h,
        view.image.bytes@.len() == 4 * (w * h),
        view.image.bytes@[4 * i] == frame.3@[i],
        view.image.bytes@[4 * i + 1] == frame.3@[i],
        view.image.bytes@[4 * i + 2] == frame.3@[i],
        view.image.bytes@[4 * i + 3] == mask[i],
{
    lemma_gray_pixels_are_masked(frame.3@, mask, i);
}

/// Data that is built from frames has a view to train on and a view to show for
/// each of them, in their order; what is shown is named by its frame and comes
/// with its own file and that of the mask.
pub proof fn lemma_every_frame_is_built(
    data: NewTrainingData,
    frames: Seq<PosedImage>,
    mask: Seq<u8>,
    pngs: Seq<Seq<u8>>,
    mask_png: Seq<u8>,
    unit_camera: Camera,
    w: u32,
    h: u32,
    i: int,
)
    requires
        data.is_built_from(frames, mask, pngs, mask_png, unit_camera, w, h),
        0 <= i < frames.len(),
    ensures
        data.training_views@.len() == frames.len(),
        data.scene_views@.len() == frames.len(),
        trains_on(data.training_views@[i], frames[i], mask, unit_camera, w, h),
        data.scene_views@[i].image_name@ == image_name(frames[i].0 as int),
        data.scene_views@[i].files.is_some(),
        data.scene_views@[i].files->0.png@ == pngs[i],
        data.scene_views@[i].files->0.mask_png@ == mask_png,
        data.scene_views@[i].camera == data.training_views@[i].camera,
        data.scene_views@[i].camera.position == frames[i].1,
        data.scene_views@[i].camera.rotation == frames[i].2,
{
    assert(trains_on(data.training_views@[i], frames[i], mask, unit_camera, w, h));
    assert(shows_frame(*data.scene_views@[i], frames[i], pngs[i], mask_png, unit_camera));
}

/// The means of landmarks stand one behind the other, three numbers each.
pub proof fn lemma_landmarks_keep_their_place(points: Seq<[u32; 3]>, i: int, axis: int)
    requires
        0 <= i < points.len(),
        0 <= axis < 3,
    ensures
        flattened(points).len() == 3 * points.len(),
        flattened(points)[3 * i + axis] == points[i]@[axis],
{
    assert((3 * i + axis) / 3 == i && (3 * i + axis) % 3 == axis);
}

/// New data adds its views behind those that have come, and every landmark
/// becomes a splat. The settings, the generator and the count of steps stay.
pub proof fn lemma_data_is_added(state: StreamState, data: NewTrainingData, up_axis: Option<[u32; 3]>)
    requires
        state.wf(),
        state.can_take(data),
    ensures
        ({
            let after = state.with_data(data, up_axis);
            let n = data.new_landmarks@.len();
            &&& after.views.len() == state.views.len() + data.training_views@.len()
            &&& forall|i: int| 0 <= i < state.views.len() ==> #[trigger] after.views[i] == state.views[i]
            &&& forall|i: int|
                0 <= i < data.training_views@.len() ==> after.views[state.views.len() + i]
                    == #[trigger] data.training_views@[i]
            &&& after.scene_views == state.scene_views + data.scene_views@
            &&& n == 0 ==> after.splats == state.splats
            &&& n > 0 ==> {
                &&& after.splats.is_some()
                &&& after.splats->0.num_splats == n + (match state.splats {
                    Some(info) => info.num_splats as nat,
                    None => 0,
                })
                &&& after.splats->0.sh_degree == state.config.model_config.sh_degree
            }
            &&& after.has_trainer == after.splats.is_some()
            &&& after.slot_initialized == after.splats.is_some()
            &&& after.up_axis == up_axis
            &&& after.rng == state.rng && after.iter == state.iter && after.config == state.config
            &&& after.train_duration == state.train_duration
        }),
{
}

/// The up axis is that of the very first view, and stays once it is known.
pub proof fn lemma_first_view_fixes_the_up_axis(
    state: StreamState,
    data: NewTrainingData,
    axis: spec_fn([u32; 4]) -> [u32; 3],
)
    ensures
        state.up_axis.is_some() ==> Some(axis_after(state, data, axis)) == state.up_axis,
        state.up_axis.is_none() ==> axis_after(state, data, axis) == axis(data.training_views@[0].camera.rotation),
{
}

/// A batch is of its view: with its image and camera, the alpha read as a mask,
/// and without depths.
pub proof fn lemma_batch_is_of_its_view(view: TrainingView)
    ensures
        batch_from(view).image == view.image,
        batch_from(view).camera == view.camera,
        batch_from(view).alpha_mode == AlphaMode::Masked,
        batch_from(view).depth.is_none(),
{
}

/// A stream starts with nothing but its settings and a generator that all runs
/// with the same seed share.
pub proof fn lemma_fresh_stream_is_empty(config: Arc<TrainStreamConfig>)
    ensures
        ({
            let state = fresh(config);
            &&& state.config == config
            &&& state.rng == seeded_generator(Seq::new(32, |i: int| (config.process_config.seed % 256) as u8))
            &&& state.views.len() == 0 && state.scene_views.len() == 0
            &&& state.splats.is_none() && !state.has_trainer && state.iter == 0
            &&& state.train_duration == 0 && !state.slot_initialized && state.up_axis.is_none()
        }),
{
    assert(repeated_byte(config.process_config.seed) =~= Seq::new(
        32,
        |i: int| (config.process_config.seed % 256) as u8,
    ));
}

/// A function that always gives what `axis` says, and no other, is one that
/// computes it.
pub proof fn lemma_computes_axis<F: Fn([u32; 4]) -> [u32; 3]>(
    f: F,
    axis: spec_fn([u32; 4]) -> [u32; 3],
)
    ensures
        computes_axis(f, axis) <==> forall|rotation: [u32; 4], out: [u32; 3]| #[trigger]
            call_ensures(f, (rotation,), out) ==> out == axis(rotation),
{
}

/// A frame can be encoded if its own pixels can, in the size of all images.
pub proof fn lemma_frames_are_encoded_one_by_one(frames: Seq<PosedImage>, w: u32, h: u32)
    ensures
        all_encodable(frames, w, h) <==> forall|i: int|
            0 <= i < frames.len() ==> png_encoding(w, h, (#[trigger] frames[i]).3@).is_some(),
        forall|i: int| 0 <= i < frames.len() ==> #[trigger] frame_png(frames[i], w, h) == png_encoding(w, h, frames[i].3@),
{
    if forall|i: int| 0 <= i < frames.len() ==> png_encoding(w, h, (#[trigger] frames[i]).3@).is_some() {
        assert forall|i: int| 0 <= i < frames.len() implies frame_png(#[trigger] frames[i], w, h).is_some() by {}
    }
    if all_encodable(frames, w, h) {
        assert forall|i: int| 0 <= i < frames.len() implies png_encoding(w, h, (#[trigger] frames[i]).3@).is_some() by {
            assert(frame_png(frames[i], w, h).is_some());
        }
    }
}

/// Data can be taken in as long as the splats can be counted; only the very
/// first has to bring a view.
pub proof fn lemma_data_can_be_taken(state: StreamState, data: NewTrainingData)
    requires
        state.up_axis.is_some() || data.training_views@.len() > 0,
        state.splats.is_none() ==> data.new_landmarks@.len() <= u32::MAX,
        state.splats.is_some() ==> state.splats->0.num_splats + data.new_landmarks@.len() <= u32::MAX,
    ensures
        state.can_take(data),
{
}

} // verus!
