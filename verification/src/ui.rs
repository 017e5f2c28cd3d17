//! What a training process tells its viewers.
use crate::camera::Camera;
use crate::config::TrainStreamConfig;
use crate::raster::RasterImage;
use crate::text::{
    decimal, digits_value, lemma_decimal_digits, lemma_decimal_is_read_back, parsed_unsigned, signed_decimal,
    to_signed_decimal,
};
use std::sync::Arc;
use vstd::prelude::*;

verus! {

/// What is known of the splats from the outside.
#[derive(Clone, Copy, Debug, PartialEq, Eq)]
pub struct SplatInfo {
    pub num_splats: u32,
    pub sh_degree: u32,
}

/// An image and its mask as PNG files.
pub struct ImageFiles {
    pub png: Arc<Vec<u8>>,
    pub mask_png: Arc<Vec<u8>>,
}

/// A view as a viewer lists it: the name of its image, the files if the viewer
/// can load it, and its camera.
pub struct SceneView {
    pub image_name: String,
    pub files: Option<ImageFiles>,
    pub camera: Camera,
}

/// Where data comes from.
#[derive(Clone, Copy, Debug, PartialEq, Eq)]
pub enum DataSource {
    Path(&'static str),
}

/// A message to the viewers. Durations are in nanoseconds.
pub enum ProcessMessage {
    NewProcess,
    StartLoading { name: &'static str, source: DataSource, training: bool, base_path: Option<&'static str> },
    /// The settings; nothing stands for the usual ones.
    TrainConfig { config: Option<Arc<TrainStreamConfig>> },
    Dataset { train_views: Vec<Arc<SceneView>>, eval_views: Vec<Arc<SceneView>> },
    DoneLoading,
    SplatsUpdated { up_axis: Option<[u32; 3]>, frame: u32, total_frames: u32, num_splats: u32, sh_degree: u32 },
    FocusCamera { camera: Camera },
    TrainStep { iter: u32, total_elapsed: u128 },
    RefineStep { cur_splat_count: u32, iter: u32 },
    EvalResult { iter: u32, avg_psnr: u32, avg_ssim: u32 },
    NewImage { image: Arc<RasterImage> },
}

/// Whether the message lists these training views, and no views for
/// evaluation.
pub open spec fn lists_views(message: ProcessMessage, views: Seq<Arc<SceneView>>) -> bool {
    match message {
        ProcessMessage::Dataset { train_views, eval_views } => train_views@ == views && eval_views@.len() == 0,
        _ => false,
    }
}

/// A message that lists training views.
pub fn dataset_message(views: Vec<Arc<SceneView>>) -> (message: ProcessMessage)
    ensures
        lists_views(message, views@),
{
    ProcessMessage::Dataset { train_views: views, eval_views: Vec::new() }
}

/// Splats of a single frame.
pub open spec fn splats_updated(splats: SplatInfo, up_axis: Option<[u32; 3]>) -> ProcessMessage {
    ProcessMessage::SplatsUpdated {
        up_axis,
        frame: 0,
        total_frames: 1,
        num_splats: splats.num_splats,
        sh_degree: splats.sh_degree,
    }
}

/// A message about the splats of a single frame.
pub fn splats_message(splats: SplatInfo, up_axis: Option<[u32; 3]>) -> (message: ProcessMessage)
    ensures
        message == splats_updated(splats, up_axis),
{
    ProcessMessage::SplatsUpdated {
        up_axis,
        frame: 0,
        total_frames: 1,
        num_splats: splats.num_splats,
        sh_degree: splats.sh_degree,
    }
}

/// No splats at all.
pub open spec fn splats_or_none(splats: Option<SplatInfo>) -> SplatInfo {
    match splats {
        Some(info) => info,
        None => SplatInfo { num_splats: 0, sh_degree: 0 },
    }
}

/// What a process says before it trains: with which settings it does.
pub open spec fn opening(config: Option<Arc<TrainStreamConfig>>) -> Seq<ProcessMessage> {
    seq![
        ProcessMessage::NewProcess,
        ProcessMessage::StartLoading {
            name: "incremental",
            source: DataSource::Path("incremental"),
            training: true,
            base_path: None,
        },
        ProcessMessage::TrainConfig { config },
    ]
}

/// What a process says before it trains.
pub fn opening_messages(config: Option<Arc<TrainStreamConfig>>) -> (messages: Vec<ProcessMessage>)
    ensures
        messages@ == opening(config),
{
    let mut messages: Vec<ProcessMessage> = Vec::new();
    messages.push(ProcessMessage::NewProcess);
    messages.push(
        ProcessMessage::StartLoading {
            name: "incremental",
            source: DataSource::Path("incremental"),
            training: true,
            base_path: None,
        },
    );
    messages.push(ProcessMessage::TrainConfig { config });
    assert(messages@ =~= opening(config));
    messages
}

/// What is said about new splats: once that loading is done, then what they
/// look like.
pub open spec fn splats_news(splats: SplatInfo, up_axis: Option<[u32; 3]>, first_time: bool) -> Seq<ProcessMessage> {
    if first_time {
        seq![ProcessMessage::DoneLoading, splats_updated(splats, up_axis)]
    } else {
        seq![splats_updated(splats, up_axis)]
    }
}

/// What is said about new splats.
pub fn splats_news_messages(splats: SplatInfo, up_axis: Option<[u32; 3]>, first_time: bool) -> (messages: Vec<
    ProcessMessage,
>)
    ensures
        messages@ == splats_news(splats, up_axis, first_time),
{
    let mut messages: Vec<ProcessMessage> = Vec::new();
    if first_time {
        messages.push(ProcessMessage::DoneLoading);
    }
    messages.push(splats_message(splats, up_axis));
    assert(messages@ =~= splats_news(splats, up_axis, first_time));
    messages
}

/// What is said about the progress of training.
pub open spec fn status(splats: Option<SplatInfo>, iter: u32, total_elapsed: u128) -> Seq<ProcessMessage> {
    seq![splats_updated(splats_or_none(splats), None), ProcessMessage::TrainStep { iter, total_elapsed }]
}

/// What is said about the progress of training.
pub fn status_messages(splats: Option<SplatInfo>, iter: u32, total_elapsed: u128) -> (messages: Vec<ProcessMessage>)
    ensures
        messages@ == status(splats, iter, total_elapsed),
{
    let info: SplatInfo = match splats {
        Some(info) => info,
        None => SplatInfo { num_splats: 0, sh_degree: 0 },
    };
    let mut messages: Vec<ProcessMessage> = Vec::new();
    messages.push(splats_message(info, None));
    messages.push(ProcessMessage::TrainStep { iter, total_elapsed });
    assert(messages@ =~= status(splats, iter, total_elapsed));
    messages
}

/// The file name of the image of a frame.
pub open spec fn image_name(frame_id: int) -> Seq<char> {
    signed_decimal(frame_id) + ".png"@
}

/// The file name of the image of a frame.
pub fn image_file_name(frame_id: i64) -> (name: String)
    ensures
        name@ == image_name(frame_id as int),
{
    let mut name = to_signed_decimal(frame_id);
    name.append(".png");
    name
}

/// What viewers hear. A process opens with its name, that it trains, and its
/// settings. News of splats is preceded, the first time only, by the news that
/// loading is done. A status has no up axis.
pub proof fn lemma_messages_say_what_happened(
    config: Option<Arc<TrainStreamConfig>>,
    splats: SplatInfo,
    up_axis: Option<[u32; 3]>,
    iter: u32,
    total_elapsed: u128,
)
    ensures
        opening(config).len() == 3,
        opening(config)[0] is NewProcess,
        opening(config)[1] matches ProcessMessage::StartLoading { name, source, training, base_path } && {
            &&& name == "incremental"
            &&& source == DataSource::Path("incremental")
            &&& training
            &&& base_path.is_none()
        },
        opening(config)[2] matches ProcessMessage::TrainConfig { config: told } && told == config,
        splats_news(splats, up_axis, true).len() == 2,
        splats_news(splats, up_axis, true)[0] is DoneLoading,
        splats_news(splats, up_axis, true)[1] == splats_news(splats, up_axis, false)[0],
        splats_news(splats, up_axis, false).len() == 1,
        splats_news(splats, up_axis, false)[0] matches ProcessMessage::SplatsUpdated {
            up_axis: told,
            frame,
            total_frames,
            num_splats,
            sh_degree,
        } && {
            &&& told == up_axis
            &&& frame == 0
            &&& total_frames == 1
            &&& num_splats == splats.num_splats
            &&& sh_degree == splats.sh_degree
        },
        status(Some(splats), iter, total_elapsed).len() == 2,
        status(Some(splats), iter, total_elapsed)[0] == splats_news(splats, None, false)[0],
        status(Some(splats), iter, total_elapsed)[1] matches ProcessMessage::TrainStep {
            iter: told,
            total_elapsed: spent,
        } && told == iter && spent == total_elapsed,
        status(None, iter, total_elapsed)[0] matches ProcessMessage::SplatsUpdated { num_splats, sh_degree, .. }
            && num_splats == 0 && sh_degree == 0,
        status(None, iter, total_elapsed)[1] == status(Some(splats), iter, total_elapsed)[1],
        status(None, iter, total_elapsed).len() == 2,
{
}

/// A message that lists views lists exactly these for training, and none for
/// evaluation.
pub proof fn lemma_listed_views(message: ProcessMessage, views: Seq<Arc<SceneView>>)
    requires
        lists_views(message, views),
    ensures
        message matches ProcessMessage::Dataset { train_views, eval_views } && train_views@ == views
            && eval_views@.len() == 0,
{
}

/// The image of a frame is named by the number of the frame: different frames
/// have differently named images.
pub proof fn lemma_images_are_named_by_frame(a: int, b: int)
    ensures
        image_name(a).len() > 4,
        image_name(a).skip(image_name(a).len() - 4) == ".png"@,
        image_name(a).take(image_name(a).len() - 4) == signed_decimal(a),
        a != b ==> image_name(a) != image_name(b),
{
    reveal_strlit(".png");
    let (x, y) = (image_name(a), image_name(b));
    assert(x.skip(x.len() - 4) =~= ".png"@);
    assert(x.take(x.len() - 4) =~= signed_decimal(a));
    assert(y.take(y.len() - 4) =~= signed_decimal(b));
    lemma_signed(a);
    lemma_signed(b);
}

proof fn lemma_signed(n: int)
    ensures
        signed_decimal(n).len() > 0,
        n < 0 <==> signed_decimal(n)[0] == '-',
        n >= 0 ==> parsed_unsigned(signed_decimal(n), n as nat) == Some(n as nat),
        n >= 0 ==> digits_value(signed_decimal(n)) == n,
        n < 0 ==> digits_value(signed_decimal(n).skip(1)) == -n,
{
    let magnitude: nat = if n < 0 {
        (-n) as nat
    } else {
        n as nat
    };
    lemma_decimal_is_read_back(magnitude, magnitude);
    lemma_decimal_digits(magnitude);
    assert(decimal(magnitude)[0] != '+' && decimal(magnitude)[0] != '-') by {
        assert('0' <= decimal(magnitude)[0]);
    }
    if n < 0 {
        assert(signed_decimal(n).skip(1) =~= decimal(magnitude));
    }
}

} // verus!
