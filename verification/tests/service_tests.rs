use media_ingest::catalog::EnqueueOutcome;
use media_ingest::models::{AppError, AssetKind, DerivedFetch, DerivedKind};
use media_ingest::service::{MediaService, DEFAULT_DURATION_MS, DEFAULT_SAMPLE_RATE};

#[test]
fn test_video_operations() {
    let mut svc = MediaService::new();
    let data = b"test video data".to_vec();
    let file_name = "test.mp4";

    let id = svc.upload(AssetKind::Video, file_name.to_string(), data.clone()).unwrap();

    // The storage path is resolvable for the new id.
    assert!(svc.get_video_path(id).is_ok());

    // The original bytes round-trip.
    let fetched = svc.get_video(id).unwrap();
    assert_eq!(fetched, data);

    // The listing contains the new asset.
    let videos = svc.list_videos();
    assert!(videos.iter().any(|v| v.id == id));
}

#[test]
fn test_upload_roundtrip_audio() {
    let mut svc = MediaService::new();
    let data = vec![7u8, 1, 255, 0, 42];
    let id = svc.upload(AssetKind::Audio, "clip.wav".to_string(), data.clone()).unwrap();
    assert_eq!(svc.get_audio(id).unwrap(), data);
    // The same id is not served under the other kind.
    assert_eq!(svc.get_video(id), Err(AppError::NotFound));
}

#[test]
fn test_upload_empty_body_no_partial_state() {
    let mut svc = MediaService::new();
    let r = svc.upload(AssetKind::Video, "a.mp4".to_string(), Vec::new());
    assert_eq!(r, Err(AppError::InvalidInput));
    assert!(svc.list_videos().is_empty());
    assert!(svc.list_audio().is_empty());
}

#[test]
fn test_upload_empty_filename_no_partial_state() {
    let mut svc = MediaService::new();
    let r = svc.upload(AssetKind::Audio, String::new(), vec![1, 2, 3]);
    assert_eq!(r, Err(AppError::InvalidInput));
    assert!(svc.list_audio().is_empty());
}

#[test]
fn test_save_conflict_on_duplicate_id() {
    let mut svc = MediaService::new();
    svc.save_video(42, "one.mp4".to_string(), vec![1]).unwrap();
    let r = svc.save_video(42, "two.mp4".to_string(), vec![2]);
    assert_eq!(r, Err(AppError::Conflict));
    // The first asset is untouched.
    assert_eq!(svc.get_video(42).unwrap(), vec![1]);
}

#[test]
fn test_upload_response_fields() {
    let mut svc = MediaService::new();
    let resp = svc.upload_video("movie.mp4".to_string(), vec![9u8; 1234]).unwrap();
    assert_eq!(resp.filename, "movie.mp4");
    assert_eq!(resp.size, 1234);
    assert_eq!(resp.message, "Video uploaded successfully");
    let resp2 = svc.upload_audio("song.wav".to_string(), vec![1u8; 10]).unwrap();
    assert_eq!(resp2.message, "Audio uploaded successfully");
    // Freshly generated ids are distinct.
    assert_ne!(resp.id, resp2.id);
}

#[test]
fn test_duplicate_enqueue_single_job() {
    let mut svc = MediaService::new();
    let id = svc.upload(AssetKind::Audio, "a.wav".to_string(), vec![1, 2, 3]).unwrap();

    // Upload already enqueued the applicable kinds: a duplicate enqueue
    // while Pending is a no-op, never a second Started.
    let r1 = svc.enqueue(id, DerivedKind::TransientMarkers).unwrap();
    assert_eq!(r1, EnqueueOutcome::AlreadyPending);
    let r2 = svc.enqueue(id, DerivedKind::TransientMarkers).unwrap();
    assert_eq!(r2, EnqueueOutcome::AlreadyPending);

    // Once the artifact is there, enqueue reports so instead.
    svc.analyze_transients(id, 500).unwrap();
    let r3 = svc.enqueue(id, DerivedKind::TransientMarkers).unwrap();
    assert_eq!(r3, EnqueueOutcome::AlreadyReady);
}

#[test]
fn test_enqueue_errors() {
    let mut svc = MediaService::new();
    assert_eq!(svc.enqueue(5, DerivedKind::Thumbnail), Err(AppError::NotFound));
    let id = svc.upload(AssetKind::Audio, "a.wav".to_string(), vec![1]).unwrap();
    // A thumbnail does not apply to an audio asset.
    assert_eq!(svc.enqueue(id, DerivedKind::Thumbnail), Err(AppError::InvalidInput));
}

#[test]
fn test_list_ordering_and_freshness() {
    let mut svc = MediaService::new();
    let id1 = svc.upload(AssetKind::Video, "a.mp4".to_string(), vec![1]).unwrap();
    let id2 = svc.upload(AssetKind::Audio, "b.wav".to_string(), vec![2]).unwrap();
    let id3 = svc.upload(AssetKind::Video, "c.mp4".to_string(), vec![3]).unwrap();

    let videos = svc.list_videos();
    assert_eq!(videos.len(), 2);
    assert_eq!(videos[0].id, id1);
    assert_eq!(videos[1].id, id3);
    assert!(videos[0].uploaded_at_ms <= videos[1].uploaded_at_ms);

    let audio = svc.list_audio();
    assert_eq!(audio.len(), 1);
    assert_eq!(audio[0].id, id2);
}

#[test]
fn test_info_lookups() {
    let mut svc = MediaService::new();
    let id = svc.upload(AssetKind::Video, "clip.mp4".to_string(), vec![0u8; 77]).unwrap();
    let info = svc.get_video_info(id).unwrap();
    assert_eq!(info.filename, "clip.mp4");
    assert_eq!(info.size, 77);
    assert!(matches!(svc.get_audio_info(id), Err(AppError::NotFound)));
    assert!(matches!(svc.get_video_info(id + 1), Err(AppError::NotFound)));
}

#[test]
fn test_analyze_track_scenario() {
    let mut svc = MediaService::new();
    let id = svc.upload(AssetKind::Audio, "track.wav".to_string(), vec![0u8; 1000]).unwrap();

    // Sensitivity 0.8, given in thousandths.
    let analysis = svc.analyze_transients(id, 800).unwrap();
    assert_eq!(analysis.duration_ms, DEFAULT_DURATION_MS);
    assert_eq!(analysis.sample_rate, DEFAULT_SAMPLE_RATE);
    assert_eq!(analysis.sample_rate, 44_100);

    // Non-empty: 2 markers per second at full sensitivity, scaled by 0.8
    // over 180 seconds.
    assert_eq!(analysis.markers.len(), 288);

    // Non-decreasing, within [0, duration].
    for w in analysis.markers.windows(2) {
        assert!(w[0] <= w[1]);
    }
    for m in &analysis.markers {
        assert!(*m <= analysis.duration_ms);
    }
}

#[test]
fn test_analyze_errors() {
    let mut svc = MediaService::new();
    assert_eq!(
        svc.analyze_transients(9, 500).map(|a| a.id),
        Err(AppError::NotFound)
    );
    // A stored video id is not a stored audio clip: not found, as for an
    // unknown id.
    let vid = svc.upload(AssetKind::Video, "v.mp4".to_string(), vec![1]).unwrap();
    assert_eq!(
        svc.analyze_transients(vid, 500).map(|a| a.id),
        Err(AppError::NotFound)
    );
    let aid = svc.upload(AssetKind::Audio, "a.wav".to_string(), vec![1]).unwrap();
    assert_eq!(
        svc.analyze_transients(aid, 1001).map(|a| a.id),
        Err(AppError::InvalidInput)
    );
    // In-range sensitivity on a stored clip is owed success.
    assert!(svc.analyze_transients(aid, 1000).is_ok());
}

#[test]
fn test_analysis_artifact_roundtrip() {
    let mut svc = MediaService::new();
    let id = svc.upload(AssetKind::Audio, "a.wav".to_string(), vec![0u8; 10]).unwrap();
    let analysis = svc.analyze_transients(id, 800).unwrap();

    // The committed artifact is the byte encoding of the markers.
    match svc.get_audio_analysis(id).unwrap() {
        DerivedFetch::Ready { bytes } => {
            let decoded = media_ingest::analysis::decode_markers(&bytes).unwrap();
            assert_eq!(decoded, analysis.markers);
        }
        other => panic!("expected a ready analysis, got {:?}", fetch_name(&other)),
    }
}

fn fetch_name(f: &DerivedFetch) -> &'static str {
    match f {
        DerivedFetch::NotStarted => "not started",
        DerivedFetch::Pending => "pending",
        DerivedFetch::Failed { .. } => "failed",
        DerivedFetch::Ready { .. } => "ready",
    }
}

#[test]
fn test_analysis_status_while_pending() {
    let mut svc = MediaService::new();
    let id = svc.upload(AssetKind::Audio, "a.wav".to_string(), vec![0u8; 10]).unwrap();
    // Upload enqueued the job; no worker has run it yet.
    match svc.get_audio_analysis(id).unwrap() {
        DerivedFetch::Pending => {}
        other => panic!("expected pending, got {}", fetch_name(&other)),
    }
    assert!(svc.get_audio_analysis(id + 1).is_err());
}

#[test]
fn test_fail_and_retry() {
    let mut svc = MediaService::new();
    let id = svc.upload(AssetKind::Audio, "a.wav".to_string(), vec![5u8, 9, 2, 9, 1]).unwrap();

    // The waveform job times out.
    let moved = svc.fail_job(id, DerivedKind::Waveform, "timeout".to_string()).unwrap();
    assert!(moved);
    match svc.get_derived(id, DerivedKind::Waveform).unwrap() {
        DerivedFetch::Failed { reason } => assert_eq!(reason, "timeout"),
        other => panic!("expected failed, got {}", fetch_name(&other)),
    }

    // Failing a job that is not pending is a no-op.
    assert_eq!(svc.fail_job(id, DerivedKind::Waveform, "again".to_string()), Ok(false));

    // An explicit retry starts exactly one new job.
    assert_eq!(svc.enqueue(id, DerivedKind::Waveform), Ok(EnqueueOutcome::Started));
    assert_eq!(svc.run_waveform_job(id), Ok(true));
    match svc.get_derived(id, DerivedKind::Waveform).unwrap() {
        DerivedFetch::Ready { bytes } => {
            // One window covers the whole five-sample clip: its peak.
            assert_eq!(bytes, vec![9u8]);
        }
        other => panic!("expected ready, got {}", fetch_name(&other)),
    }
}

#[test]
fn test_derived_not_found_for_inapplicable_kind() {
    let mut svc = MediaService::new();
    // A thumbnail of an audio clip is a missing artifact: not found.
    let id = svc.upload(AssetKind::Audio, "a.wav".to_string(), vec![1]).unwrap();
    assert!(matches!(
        svc.get_derived(id, DerivedKind::Thumbnail),
        Err(AppError::NotFound)
    ));
    // So is the audio analysis of a video.
    let vid = svc.upload(AssetKind::Video, "v.mp4".to_string(), vec![1]).unwrap();
    assert!(matches!(svc.get_audio_analysis(vid), Err(AppError::NotFound)));
    // An applicable kind that was never run reports its slot.
    assert!(matches!(
        svc.get_derived(vid, DerivedKind::TransientMarkers),
        Err(AppError::NotFound)
    ));
    match svc.get_derived(id, DerivedKind::Waveform).unwrap() {
        DerivedFetch::Pending => {}
        other => panic!("expected pending, got {}", fetch_name(&other)),
    }
}

#[test]
fn test_error_descriptions() {
    assert_eq!(AppError::NotFound.describe(), "not found");
    assert_eq!(AppError::InvalidInput.describe(), "invalid input");
    assert_eq!(AppError::StorageError.describe(), "storage error");
    assert_eq!(AppError::AnalysisError.describe(), "analysis error");
    assert_eq!(AppError::Conflict.describe(), "conflict");
    let body = media_ingest::models::ErrorResponse::of(&AppError::NotFound);
    assert_eq!(body.error, "not found");
}
