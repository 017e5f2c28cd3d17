//! What viewers hear over a whole run of a training stream.
use crate::config::TrainStreamConfig;
use crate::stream::{announces, axis_after, fresh, with_landmarks, NewTrainingData, StreamState, UPDATE_EVERY};
use crate::ui::{lists_views, splats_news, splats_updated, ProcessMessage, SceneView, SplatInfo};
use std::sync::Arc;
use vstd::prelude::*;

verus! {

/// What came of refining splats.
pub struct Refinement {
    pub splats: SplatInfo,
    pub total_splats: u32,
}

/// Something that happens in a run: data comes in, or a training step is made.
/// After some steps the splats are refined.
pub enum StreamEvent {
    Data(NewTrainingData),
    Step { elapsed: u128, refined: Option<Refinement> },
}

/// Whether a training step leads from one state to the other, and these
/// messages are sent after it. The step draws a view, so the generator changes.
pub open spec fn steps(
    before: StreamState,
    elapsed: u128,
    refined: Option<Refinement>,
    after: StreamState,
    messages: Seq<ProcessMessage>,
) -> bool {
    let counted = before.stepped(elapsed);
    let trained = match refined {
        Some(refinement) => counted.with_refined(refinement.splats),
        None => counted,
    };
    let refine_messages = match refined {
        Some(refinement) => seq![counted.refine_message(refinement.total_splats)],
        None => Seq::empty(),
    };
    &&& before.has_trainer
    &&& before.iter < u32::MAX
    &&& before.train_duration + elapsed <= u128::MAX
    &&& refined.is_some() == counted.refine_due()
    &&& after == (StreamState { rng: after.rng, ..trained })
    &&& messages == refine_messages + trained.progress_messages()
}

/// Whether the event leads from one state to the other, and these messages are
/// sent.
pub open spec fn happens(
    before: StreamState,
    event: StreamEvent,
    axis: spec_fn([u32; 4]) -> [u32; 3],
    after: StreamState,
    messages: Seq<ProcessMessage>,
) -> bool {
    match event {
        StreamEvent::Data(data) => {
            &&& before.can_take(data)
            &&& after == before.with_data(data, Some(axis_after(before, data, axis)))
            &&& announces(before, after, messages)
        },
        StreamEvent::Step { elapsed, refined } => steps(before, elapsed, refined, after, messages),
    }
}

/// A run: the states before the first event and after each, and the messages
/// that each event sends.
pub struct StreamRun {
    pub config: Arc<TrainStreamConfig>,
    pub events: Seq<StreamEvent>,
    pub states: Seq<StreamState>,
    pub sent: Seq<Seq<ProcessMessage>>,
    pub axis: spec_fn([u32; 4]) -> [u32; 3],
}

impl StreamRun {
    /// The run starts without any frame, and each event leads from one state to
    /// the next.
    pub open spec fn valid(self) -> bool {
        &&& self.config.train_config.refine_every > 0
        &&& self.states.len() == self.events.len() + 1
        &&& self.sent.len() == self.events.len()
        &&& self.states[0] == fresh(self.config)
        &&& forall|k: int|
            0 <= k < self.events.len() ==> happens(
                self.states[k],
                #[trigger] self.events[k],
                self.axis,
                self.states[k + 1],
                self.sent[k],
            )
    }
}

/// Whether data with landmarks comes in.
pub open spec fn brings_landmarks(event: StreamEvent) -> bool {
    match event {
        StreamEvent::Data(data) => data.new_landmarks@.len() > 0,
        _ => false,
    }
}

/// Whether data with landmarks is among the events.
pub open spec fn have_landmarks(events: Seq<StreamEvent>) -> bool {
    exists|j: int| 0 <= j < events.len() && brings_landmarks(#[trigger] events[j])
}

/// The views to show that came with the events, in the order of arrival.
pub open spec fn views_of(events: Seq<StreamEvent>) -> Seq<Arc<SceneView>>
    decreases events.len(),
{
    if events.len() == 0 {
        Seq::empty()
    } else {
        match events.last() {
            StreamEvent::Data(data) => views_of(events.drop_last()) + data.scene_views@,
            _ => views_of(events.drop_last()),
        }
    }
}

/// How many of the events are training steps.
pub open spec fn step_count(events: Seq<StreamEvent>) -> nat
    decreases events.len(),
{
    if events.len() == 0 {
        0
    } else {
        match events.last() {
            StreamEvent::Step { .. } => step_count(events.drop_last()) + 1,
            _ => step_count(events.drop_last()),
        }
    }
}

/// The up axis of the very first view that came with the events.
pub open spec fn first_axis(events: Seq<StreamEvent>, axis: spec_fn([u32; 4]) -> [u32; 3]) -> Option<[u32; 3]>
    decreases events.len(),
{
    if events.len() == 0 {
        None
    } else {
        match (first_axis(events.drop_last(), axis), events.last()) {
            (Some(known), _) => Some(known),
            (None, StreamEvent::Data(data)) => Some(axis(data.training_views@[0].camera.rotation)),
            (None, _) => None,
        }
    }
}

/// What is known after the first `k` events.
proof fn lemma_state_after(run: StreamRun, k: int)
    requires
        run.valid(),
        0 <= k <= run.events.len(),
    ensures
        run.states[k].wf(),
        run.states[k].config == run.config,
        run.states[k].scene_views == views_of(run.events.take(k)),
        run.states[k].iter == step_count(run.events.take(k)),
        run.states[k].splats.is_some() == have_landmarks(run.events.take(k)),
        run.states[k].up_axis == first_axis(run.events.take(k), run.axis),
    decreases k,
{
    if k > 0 {
        lemma_state_after(run, k - 1);
        let before = run.events.take(k - 1);
        let events = run.events.take(k);
        let event = run.events[k - 1];
        assert(events.drop_last() =~= before);
        assert(events.last() == event);
        assert(happens(run.states[k - 1], event, run.axis, run.states[k], run.sent[k - 1]));
        assert(have_landmarks(events) == (have_landmarks(before) || brings_landmarks(event))) by {
            if have_landmarks(before) {
                let j = choose|j: int| 0 <= j < before.len() && brings_landmarks(#[trigger] before[j]);
                assert(events[j] == before[j]);
            }
            if have_landmarks(events) {
                let j = choose|j: int| 0 <= j < events.len() && brings_landmarks(#[trigger] events[j]);
                if j < k - 1 {
                    assert(before[j] == events[j]);
                }
            }
            if brings_landmarks(event) {
                assert(brings_landmarks(events[k - 1]));
            }
        }
    } else {
        assert(run.events.take(0) =~= Seq::empty());
    }
}

/// Whether a message before the `i`-th of the `k`-th event says that loading is
/// done.
pub open spec fn done_before(sent: Seq<Seq<ProcessMessage>>, k: int, i: int) -> bool {
    exists|j: int, m: int|
        0 <= j <= k && 0 <= m < sent[j].len() && (j < k || m < i) && (#[trigger] sent[j][m]) is DoneLoading
}

/// What one event says about splats and that loading is done.
proof fn lemma_event(run: StreamRun, k: int)
    requires
        run.valid(),
        0 <= k < run.events.len(),
    ensures
        forall|i: int|
            0 <= i < run.sent[k].len() && (#[trigger] run.sent[k][i]) is DoneLoading ==> {
                &&& i == 1
                &&& brings_landmarks(run.events[k])
                &&& !have_landmarks(run.events.take(k))
            },
        brings_landmarks(run.events[k]) && !have_landmarks(run.events.take(k)) ==> run.sent[k].len() == 3
            && run.sent[k][1] is DoneLoading,
        forall|i: int|
            0 <= i < run.sent[k].len() && (#[trigger] run.sent[k][i]) is SplatsUpdated ==> {
                &&& have_landmarks(run.events.take(k)) || (i == 2 && run.sent[k][1] is DoneLoading)
                &&& run.sent[k][i]->up_axis == (if run.events[k] is Data {
                    first_axis(run.events.take(k + 1), run.axis)
                } else {
                    None
                })
            },
        run.events[k] is Data ==> first_axis(run.events.take(k + 1), run.axis).is_some(),
{
    lemma_state_after(run, k);
    lemma_state_after(run, k + 1);
    let (before, after) = (run.states[k], run.states[k + 1]);
    let sent = run.sent[k];
    assert(happens(before, run.events[k], run.axis, after, sent));
    match run.events[k] {
        StreamEvent::Data(data) => {
            let news = match after.splats {
                Some(info) => splats_news(info, after.up_axis, !before.slot_initialized),
                None => Seq::empty(),
            };
            assert(sent.skip(1) == news);
            assert forall|i: int| 1 <= i < sent.len() implies #[trigger] sent[i] == news[i - 1] by {
                assert(sent.skip(1)[i - 1] == sent[i]);
            }
            assert(sent.len() == news.len() + 1);
            assert(after.splats == with_landmarks(
                before.splats,
                data.new_landmarks@.len(),
                before.config.model_config.sh_degree,
            ));
            assert(sent[0] is Dataset);
        },
        StreamEvent::Step { elapsed, refined } => {
            assert(have_landmarks(run.events.take(k)));
        },
    }
}

proof fn lemma_some_event_is_first(run: StreamRun, k: int) -> (first: int)
    requires
        run.valid(),
        0 <= k <= run.events.len(),
        have_landmarks(run.events.take(k)),
    ensures
        0 <= first < k,
        brings_landmarks(run.events[first]),
        !have_landmarks(run.events.take(first)),
    decreases k,
{
    let events = run.events.take(k);
    let j = choose|j: int| 0 <= j < events.len() && brings_landmarks(#[trigger] events[j]);
    assert(events[j] == run.events[j]);
    if have_landmarks(run.events.take(j)) {
        lemma_some_event_is_first(run, j)
    } else {
        j
    }
}

/// Viewers hear at most once that loading is done: when the first landmarks
/// come in. They hear of no splats before that. When data comes in they hear of
/// the up axis of the very first view, after training steps of none.
pub proof fn lemma_loading_is_done_before_splats(run: StreamRun)
    requires
        run.valid(),
    ensures
        forall|k: int, i: int|
            0 <= k < run.sent.len() && 0 <= i < run.sent[k].len() && (#[trigger] run.sent[k][i]) is DoneLoading ==> {
                &&& brings_landmarks(run.events[k])
                &&& !have_landmarks(run.events.take(k))
            },
        forall|k: int|
            0 <= k < run.sent.len() && brings_landmarks(#[trigger] run.events[k]) && !have_landmarks(
                run.events.take(k),
            ) ==> run.sent[k].len() == 3 && run.sent[k][1] is DoneLoading,
        forall|k: int, i: int, l: int, m: int|
            0 <= k < run.sent.len() && 0 <= i < run.sent[k].len() && (#[trigger] run.sent[k][i]) is DoneLoading
                && 0 <= l < run.sent.len() && 0 <= m < run.sent[l].len() && (#[trigger] run.sent[l][m]) is DoneLoading
                ==> k == l && i == m,
        forall|k: int, i: int|
            0 <= k < run.sent.len() && 0 <= i < run.sent[k].len() && (#[trigger] run.sent[k][i]) is SplatsUpdated ==> {
                &&& done_before(run.sent, k, i)
                &&& run.sent[k][i]->up_axis == (if run.events[k] is Data {
                    first_axis(run.events.take(k + 1), run.axis)
                } else {
                    None
                })
            },
        forall|k: int|
            0 <= k < run.events.len() && (#[trigger] run.events[k]) is Data ==> first_axis(
                run.events.take(k + 1),
                run.axis,
            ).is_some(),
{
    assert forall|k: int, i: int|
        0 <= k < run.sent.len() && 0 <= i < run.sent[k].len() && (#[trigger] run.sent[k][i]) is DoneLoading implies i == 1
        && brings_landmarks(run.events[k]) && !have_landmarks(run.events.take(k)) by {
        lemma_event(run, k);
    }
    assert forall|k: int|
        0 <= k < run.sent.len() && brings_landmarks(#[trigger] run.events[k]) && !have_landmarks(
            run.events.take(k),
        ) implies run.sent[k].len() == 3 && run.sent[k][1] is DoneLoading by {
        lemma_event(run, k);
    }
    assert forall|k: int, i: int, l: int, m: int|
        0 <= k < run.sent.len() && 0 <= i < run.sent[k].len() && (#[trigger] run.sent[k][i]) is DoneLoading && 0 <= l
            < run.sent.len() && 0 <= m < run.sent[l].len() && (#[trigger] run.sent[l][m]) is DoneLoading implies k == l
        && i == m by {
        if k < l {
            assert(brings_landmarks(run.events.take(l)[k]));
        }
        if l < k {
            assert(brings_landmarks(run.events.take(k)[l]));
        }
    }
    assert forall|k: int, i: int|
        0 <= k < run.sent.len() && 0 <= i < run.sent[k].len() && (#[trigger] run.sent[k][i]) is SplatsUpdated implies done_before(
        run.sent,
        k,
        i,
    ) && run.sent[k][i]->up_axis == (if run.events[k] is Data {
        first_axis(run.events.take(k + 1), run.axis)
    } else {
        None
    }) by {
        lemma_event(run, k);
        if have_landmarks(run.events.take(k)) {
            let first = lemma_some_event_is_first(run, k);
            lemma_event(run, first);
            assert(run.sent[first][1] is DoneLoading);
        } else {
            assert(run.sent[k][1] is DoneLoading);
        }
    }
    assert forall|k: int| 0 <= k < run.events.len() && (#[trigger] run.events[k]) is Data implies first_axis(
        run.events.take(k + 1),
        run.axis,
    ).is_some() by {
        lemma_event(run, k);
    }
}

/// What follows each event of a run. Data is followed by a list of all views
/// that have come so far, in the order of arrival. The `i`-th training step is
/// followed by news of a refinement if `i` is a multiple of the refinement
/// interval, and by news of the splats and the progress if `i` is a multiple of
/// the update interval.
pub proof fn lemma_messages_follow_events(run: StreamRun, k: int)
    requires
        run.valid(),
        0 <= k < run.events.len(),
    ensures
        match run.events[k] {
            StreamEvent::Data(_) => {
                &&& run.sent[k].len() > 0
                &&& lists_views(run.sent[k][0], views_of(run.events.take(k + 1)))
                &&& forall|i: int|
                    0 < i < run.sent[k].len() ==> (#[trigger] run.sent[k][i]) is DoneLoading
                        || run.sent[k][i] is SplatsUpdated
            },
            StreamEvent::Step { elapsed, refined } => {
                let i = step_count(run.events.take(k + 1));
                let splats = run.states[k + 1].splats->0;
                &&& i <= u32::MAX
                &&& refined.is_some() == (i % run.config.train_config.refine_every as nat == 0)
                &&& run.sent[k] == (if refined.is_some() {
                    seq![ProcessMessage::RefineStep { cur_splat_count: refined->0.total_splats, iter: i as u32 }]
                } else {
                    Seq::empty()
                }) + (if i % UPDATE_EVERY as nat == 0 {
                    seq![
                        splats_updated(splats, None),
                        ProcessMessage::TrainStep {
                            iter: i as u32,
                            total_elapsed: run.states[k + 1].train_duration,
                        },
                    ]
                } else {
                    Seq::empty()
                })
            },
        },
{
    lemma_state_after(run, k);
    lemma_state_after(run, k + 1);
    let (before, after) = (run.states[k], run.states[k + 1]);
    let sent = run.sent[k];
    assert(happens(before, run.events[k], run.axis, after, sent));
    match run.events[k] {
        StreamEvent::Data(_) => {
            let news = match after.splats {
                Some(info) => splats_news(info, after.up_axis, !before.slot_initialized),
                None => Seq::empty(),
            };
            assert(sent.skip(1) == news);
            assert forall|i: int| 0 < i < sent.len() implies (#[trigger] sent[i]) is DoneLoading || sent[i]
                is SplatsUpdated by {
                assert(sent.skip(1)[i - 1] == sent[i]);
                assert(news[i - 1] is DoneLoading || news[i - 1] is SplatsUpdated);
            }
        },
        StreamEvent::Step { elapsed, refined } => {},
    }
}

} // verus!
