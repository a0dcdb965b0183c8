//! The stages of the video pipeline: their identities, the event types
//! they exchange, and what each subscribes to.
use crate::builder::{InputSpec, QueueKind, SubscriptionSpec};
use crate::event::PIPELINE_FAILED;
use vstd::prelude::*;

verus! {

pub const YOUTUBE_URL_REQUESTED: &'static str = "youtube.url_requested";

pub const YOUTUBE_VIDEO_DOWNLOADED: &'static str = "youtube.video_downloaded";

pub const YOUTUBE_AUDIO_EXTRACTED: &'static str = "youtube.audio_extracted";

pub const AUDIO_TRANSCRIBED: &'static str = "audio.transcribed";

pub const SECTIONS_ANALYZED: &'static str = "sections.analyzed";

pub const REPORT_COMPILED: &'static str = "report.compiled";

pub const COMPLETION_SINK: &'static str = "cli.completion_sink";

/// Backlog each stage keeps of its input before the oldest is dropped.
pub const STAGE_QUEUE_CAPACITY: usize = 4;

/// A subscription of `id` to the one event type `tag`, drop-oldest with the
/// stage capacity.
pub open spec fn single_input(r: SubscriptionSpec, id: Seq<char>, tag: Seq<char>) -> bool {
    &&& r.subscriber_id@ == id
    &&& r.inputs@.len() == 1
    &&& r.inputs@[0].event_type@ == tag
    &&& r.inputs@[0].queue_kind == QueueKind::FifoDropOldest { capacity: STAGE_QUEUE_CAPACITY }
}

fn single_input_subscription(id: &str, tag: &str) -> (r: SubscriptionSpec)
    ensures
        single_input(r, id@, tag@),
{
    let mut inputs: Vec<InputSpec> = Vec::new();
    inputs.push(
        InputSpec {
            event_type: tag.to_owned(),
            queue_kind: QueueKind::FifoDropOldest { capacity: STAGE_QUEUE_CAPACITY },
        },
    );
    SubscriptionSpec { subscriber_id: id.to_owned(), inputs }
}

/// Fetches the video of a requested URL.
#[derive(Clone, Copy, Debug, PartialEq, Eq, Structural)]
pub struct DownloadVideoWorker;

impl DownloadVideoWorker {
    pub const SUBSCRIBER_ID: &'static str = "youtube.download";

    pub fn new() -> (r: Self)
        ensures
            r == DownloadVideoWorker,
    {
        DownloadVideoWorker
    }

    pub fn subscription() -> (r: SubscriptionSpec)
        ensures
            single_input(r, Self::SUBSCRIBER_ID@, YOUTUBE_URL_REQUESTED@),
    {
        single_input_subscription(Self::SUBSCRIBER_ID, YOUTUBE_URL_REQUESTED)
    }
}

/// Extracts the audio track of a downloaded video.
#[derive(Clone, Copy, Debug, PartialEq, Eq, Structural)]
pub struct ExtractAudioWorker;

impl ExtractAudioWorker {
    pub const SUBSCRIBER_ID: &'static str = "youtube.extract_audio";

    pub fn new() -> (r: Self)
        ensures
            r == ExtractAudioWorker,
    {
        ExtractAudioWorker
    }

    pub fn subscription() -> (r: SubscriptionSpec)
        ensures
            single_input(r, Self::SUBSCRIBER_ID@, YOUTUBE_VIDEO_DOWNLOADED@),
    {
        single_input_subscription(Self::SUBSCRIBER_ID, YOUTUBE_VIDEO_DOWNLOADED)
    }
}

/// Transcribes extracted audio.
#[derive(Clone, Copy, Debug, PartialEq, Eq, Structural)]
pub struct TranscribeAudioWorker;

impl TranscribeAudioWorker {
    pub const SUBSCRIBER_ID: &'static str = "transcribe.audio";

    pub fn new() -> (r: Self)
        ensures
            r == TranscribeAudioWorker,
    {
        TranscribeAudioWorker
    }

    pub fn subscription() -> (r: SubscriptionSpec)
        ensures
            single_input(r, Self::SUBSCRIBER_ID@, YOUTUBE_AUDIO_EXTRACTED@),
    {
        single_input_subscription(Self::SUBSCRIBER_ID, YOUTUBE_AUDIO_EXTRACTED)
    }
}

/// Splits a transcript into analyzed sections.
#[derive(Clone, Copy, Debug, PartialEq, Eq, Structural)]
pub struct AnalyzeSectionsWorker;

impl AnalyzeSectionsWorker {
    pub const SUBSCRIBER_ID: &'static str = "analyze.sections";

    pub fn new() -> (r: Self)
        ensures
            r == AnalyzeSectionsWorker,
    {
        AnalyzeSectionsWorker
    }

    pub fn subscription() -> (r: SubscriptionSpec)
        ensures
            single_input(r, Self::SUBSCRIBER_ID@, AUDIO_TRANSCRIBED@),
    {
        single_input_subscription(Self::SUBSCRIBER_ID, AUDIO_TRANSCRIBED)
    }
}

/// Compiles analyzed sections into a report.
#[derive(Clone, Copy, Debug, PartialEq, Eq, Structural)]
pub struct CompileReportWorker;

impl CompileReportWorker {
    pub const SUBSCRIBER_ID: &'static str = "compile.report";

    pub fn new() -> (r: Self)
        ensures
            r == CompileReportWorker,
    {
        CompileReportWorker
    }

    pub fn subscription() -> (r: SubscriptionSpec)
        ensures
            single_input(r, Self::SUBSCRIBER_ID@, SECTIONS_ANALYZED@),
    {
        single_input_subscription(Self::SUBSCRIBER_ID, SECTIONS_ANALYZED)
    }
}

/// The completion sink: compiled reports through an isolated subscription,
/// so that a slow sink never holds up the stage that compiles them, and
/// pipeline failures through a drop-oldest one.
pub fn completion_sink_subscription() -> (r: SubscriptionSpec)
    ensures
        r.subscriber_id@ == COMPLETION_SINK@,
        r.inputs@.len() == 2,
        r.inputs@[0].event_type@ == REPORT_COMPILED@,
        r.inputs@[0].queue_kind == (QueueKind::Isolated { output_buffer: STAGE_QUEUE_CAPACITY }),
        r.inputs@[1].event_type@ == PIPELINE_FAILED@,
        r.inputs@[1].queue_kind == (QueueKind::FifoDropOldest { capacity: STAGE_QUEUE_CAPACITY }),
{
    let mut inputs: Vec<InputSpec> = Vec::new();
    inputs.push(
        InputSpec {
            event_type: REPORT_COMPILED.to_owned(),
            queue_kind: QueueKind::Isolated { output_buffer: STAGE_QUEUE_CAPACITY },
        },
    );
    inputs.push(
        InputSpec {
            event_type: PIPELINE_FAILED.to_owned(),
            queue_kind: QueueKind::FifoDropOldest { capacity: STAGE_QUEUE_CAPACITY },
        },
    );
    SubscriptionSpec { subscriber_id: COMPLETION_SINK.to_owned(), inputs }
}

} // verus!
