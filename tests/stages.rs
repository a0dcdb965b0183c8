use bratishka_core::stages::{
    completion_sink_subscription, AnalyzeSectionsWorker, CompileReportWorker, DownloadVideoWorker,
    ExtractAudioWorker, TranscribeAudioWorker, AUDIO_TRANSCRIBED, REPORT_COMPILED,
    YOUTUBE_URL_REQUESTED,
};
use bratishka_core::{BusConfig, EventBusBuilder, QueueKind, PIPELINE_FAILED};

#[test]
fn stage_subscriptions() {
    let d = DownloadVideoWorker::subscription();
    assert_eq!(d.subscriber_id, "youtube.download");
    assert_eq!(d.inputs.len(), 1);
    assert_eq!(d.inputs[0].event_type, YOUTUBE_URL_REQUESTED);
    assert_eq!(d.inputs[0].queue_kind, QueueKind::FifoDropOldest { capacity: 4 });
    let a = AnalyzeSectionsWorker::subscription();
    assert_eq!(a.subscriber_id, "analyze.sections");
    assert_eq!(a.inputs[0].event_type, AUDIO_TRANSCRIBED);
    let s = completion_sink_subscription();
    assert_eq!(s.subscriber_id, "cli.completion_sink");
    assert_eq!(s.inputs[0].event_type, REPORT_COMPILED);
    assert_eq!(s.inputs[0].queue_kind, QueueKind::Isolated { output_buffer: 4 });
    assert_eq!(s.inputs[1].event_type, PIPELINE_FAILED);
    assert_eq!(DownloadVideoWorker::new(), DownloadVideoWorker);
    assert_eq!(ExtractAudioWorker::new(), ExtractAudioWorker);
    assert_eq!(TranscribeAudioWorker::new(), TranscribeAudioWorker);
    assert_eq!(AnalyzeSectionsWorker::new(), AnalyzeSectionsWorker);
    assert_eq!(CompileReportWorker::new(), CompileReportWorker);
}

#[test]
fn whole_pipeline_builds() {
    let built = EventBusBuilder::new(BusConfig { session_id: 0, strict_routing: false })
        .subscribe(DownloadVideoWorker::subscription())
        .subscribe(ExtractAudioWorker::subscription())
        .subscribe(TranscribeAudioWorker::subscription())
        .subscribe(AnalyzeSectionsWorker::subscription())
        .subscribe(CompileReportWorker::subscription())
        .subscribe(completion_sink_subscription())
        .build::<()>();
    let (bus, mut wiring, tasks) = match built {
        Ok(b) => b,
        Err(e) => panic!("pipeline refused: {:?}", e),
    };
    assert_eq!(bus.inbox_count(), 7);
    assert_eq!(tasks.drains, vec![5]);
    assert!(wiring.take(CompileReportWorker::SUBSCRIBER_ID).is_some());
    assert!(wiring.take("cli.completion_sink").is_some());
}
