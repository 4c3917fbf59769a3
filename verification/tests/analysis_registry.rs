use soundfiller_studio::state::{AnalysisState, DownloadEvent};
use soundfiller_studio::track_id::new_track_id;
use soundfiller_studio::youtube::YoutubeMeta;

type Registry = AnalysisState<u32, &'static str>;

const ID_A: &str = "67e55044-10b1-426f-9247-bb680e5fe0c8";
const ID_B: &str = "0b1c2d3e-4f50-4a6b-8c7d-9e0f1a2b3c4d";

fn status(reg: &Registry, id: &str) -> String {
    reg.get_analysis_status(id).unwrap()
}

#[test]
fn new_registry_knows_nothing() {
    let reg = Registry::new();
    assert_eq!(status(&reg, ID_A), "unknown");
    assert_eq!(reg.get_analysis_result(ID_A), Err("Unknown ID".to_string()));
    assert!(reg.list_analysed_tracks().unwrap().is_empty());
}

#[test]
fn enqueued_job_reads_queued() {
    let mut reg = Registry::new();
    reg.enqueue(ID_A.to_string(), "a.wav");
    assert_eq!(status(&reg, ID_A), "queued");
    assert_eq!(reg.get_analysis_result(ID_A), Err("Analysis is queued".to_string()));
    assert_eq!(status(&reg, ID_B), "unknown");
}

#[test]
fn worker_takes_jobs_in_order_one_at_a_time() {
    let mut reg = Registry::new();
    reg.enqueue(ID_A.to_string(), "a.wav");
    reg.enqueue(ID_B.to_string(), "b.wav");
    assert_eq!(reg.begin_next(), Some((ID_A.to_string(), "a.wav")));
    assert_eq!(status(&reg, ID_A), "analysing");
    assert_eq!(reg.get_analysis_result(ID_A), Err("Analysis in progress".to_string()));
    assert_eq!(reg.begin_next(), None);
    assert_eq!(status(&reg, ID_B), "queued");
    reg.finish_analysis(ID_A.to_string(), Ok(7));
    assert_eq!(reg.begin_next(), Some((ID_B.to_string(), "b.wav")));
    reg.finish_analysis(ID_B.to_string(), Ok(8));
    assert_eq!(reg.begin_next(), None);
}

#[test]
fn empty_queue_hands_out_nothing() {
    let mut reg = Registry::new();
    assert_eq!(reg.begin_next(), None);
}

#[test]
fn result_reads_back_and_is_listed() {
    let mut reg = Registry::new();
    reg.enqueue(ID_A.to_string(), "a.wav");
    let (id, _) = reg.begin_next().unwrap();
    reg.finish_analysis(id, Ok(42));
    assert_eq!(reg.get_analysis_result(ID_A), Ok(&42));
    assert_eq!(status(&reg, ID_A), "done");
    let list = reg.list_analysed_tracks().unwrap();
    assert_eq!(list, vec![(ID_A.to_string(), "track_67e55044".to_string(), &42)]);
}

#[test]
fn failure_reads_back() {
    let mut reg = Registry::new();
    reg.enqueue(ID_A.to_string(), "a.wav");
    let (id, _) = reg.begin_next().unwrap();
    reg.finish_analysis(id, Err("No audio data decoded".to_string()));
    assert_eq!(
        reg.get_analysis_result(ID_A),
        Err("Analysis failed: No audio data decoded".to_string())
    );
    assert_eq!(status(&reg, ID_A), "error: No audio data decoded");
    assert!(reg.list_analysed_tracks().unwrap().is_empty());
}

#[test]
fn download_error_reads_back() {
    let mut reg = Registry::new();
    let id = reg.register_download();
    assert_eq!(status(&reg, &id), "downloading");
    assert_eq!(reg.get_analysis_result(&id), Err("Status: downloading".to_string()));
    reg.mark_error(&id, "Download completed but WAV file not found");
    assert_eq!(status(&reg, &id), "error: Download completed but WAV file not found");
    assert_eq!(
        reg.get_analysis_result(&id),
        Err("Status: error: Download completed but WAV file not found".to_string())
    );
}

#[test]
fn youtube_track_is_listed_by_uploader_and_title() {
    let mut reg = Registry::new();
    let id = reg.register_download();
    reg.store_youtube_meta(
        &id,
        YoutubeMeta {
            title: "Opus".to_string(),
            uploader: "Eric Prydz".to_string(),
            source_url: "https://youtu.be/x".to_string(),
        },
    );
    reg.enqueue(id.clone(), "x.wav");
    let (next, _) = reg.begin_next().unwrap();
    assert_eq!(next, id);
    reg.finish_analysis(next, Ok(1));
    let list = reg.list_analysed_tracks().unwrap();
    assert_eq!(list.len(), 1);
    assert_eq!(list[0].1, "Eric Prydz — Opus");
}

#[test]
fn listing_needs_done_status() {
    let mut reg = Registry::new();
    reg.enqueue(ID_A.to_string(), "a.wav");
    let (id, _) = reg.begin_next().unwrap();
    reg.finish_analysis(id, Ok(5));
    reg.mark_error(ID_A, "late failure");
    assert!(reg.list_analysed_tracks().unwrap().is_empty());
    assert_eq!(reg.get_analysis_result(ID_A), Ok(&5));
}

#[test]
fn list_holds_every_done_job_once() {
    let mut reg = Registry::new();
    reg.enqueue(ID_A.to_string(), "a.wav");
    reg.enqueue(ID_B.to_string(), "b.wav");
    for value in [1, 2] {
        let (id, _) = reg.begin_next().unwrap();
        reg.finish_analysis(id, Ok(value));
    }
    let mut list = reg.list_analysed_tracks().unwrap();
    list.sort();
    assert_eq!(
        list,
        vec![
            (ID_B.to_string(), "track_0b1c2d3e".to_string(), &2),
            (ID_A.to_string(), "track_67e55044".to_string(), &1),
        ]
    );
}

#[test]
fn deleted_job_is_unknown() {
    let mut reg = Registry::new();
    reg.enqueue(ID_A.to_string(), "a.wav");
    reg.enqueue(ID_B.to_string(), "b.wav");
    let (id, _) = reg.begin_next().unwrap();
    reg.finish_analysis(id, Ok(3));
    assert_eq!(reg.delete_analysis(ID_A), Ok(()));
    assert_eq!(status(&reg, ID_A), "unknown");
    assert_eq!(reg.get_analysis_result(ID_A), Err("Unknown ID".to_string()));
    assert!(reg.list_analysed_tracks().unwrap().is_empty());
    assert_eq!(status(&reg, ID_B), "queued");
    assert_eq!(reg.delete_analysis("no-such-id"), Ok(()));
}

#[test]
fn fresh_ids_have_uuid_v4_shape() {
    let a = new_track_id();
    let b = new_track_id();
    assert_ne!(a, b);
    for id in [&a, &b] {
        assert_eq!(id.len(), 36);
        for (i, c) in id.chars().enumerate() {
            if [8, 13, 18, 23].contains(&i) {
                assert_eq!(c, '-');
            } else {
                assert!(c.is_ascii_digit() || ('a'..='f').contains(&c));
            }
        }
        assert_eq!(id.as_bytes()[14], b'4');
        assert!(matches!(id.as_bytes()[19], b'8' | b'9' | b'a' | b'b'));
    }
}

#[test]
fn registered_download_gets_fresh_id() {
    let mut reg = Registry::new();
    let a = reg.register_download();
    let b = reg.register_download();
    assert_ne!(a, b);
    assert_eq!(a.len(), 36);
    assert_eq!(status(&reg, &b), "downloading");
}

#[test]
fn download_steps() {
    let mut reg = Registry::new();
    let id = reg.register_download();
    let meta = YoutubeMeta {
        title: "Opus".to_string(),
        uploader: "Eric Prydz".to_string(),
        source_url: "https://youtu.be/x".to_string(),
    };
    assert_eq!(reg.download_step(&id, DownloadEvent::Metadata(meta)), (true, None));
    assert_eq!(status(&reg, &id), "downloading");
    assert_eq!(reg.download_step(&id, DownloadEvent::AudioReady(Some("x.wav"))), (false, None));
    assert_eq!(status(&reg, &id), "queued");
    assert_eq!(reg.begin_next(), Some((id.clone(), "x.wav")));
}

#[test]
fn download_failures_are_recorded() {
    let mut reg = Registry::new();
    let id = reg.register_download();
    assert_eq!(
        reg.download_step(&id, DownloadEvent::Failed("yt-dlp exited with code Some(1)".to_string())),
        (false, Some("yt-dlp exited with code Some(1)".to_string()))
    );
    assert_eq!(status(&reg, &id), "error: yt-dlp exited with code Some(1)");
    let other = reg.register_download();
    assert_eq!(
        reg.download_step(&other, DownloadEvent::AudioReady(None)),
        (false, Some("Download completed but WAV file not found".to_string()))
    );
    assert_eq!(status(&reg, &other), "error: Download completed but WAV file not found");
    assert_eq!(reg.begin_next(), None);
}

#[test]
fn every_queued_job_is_analysed_in_turn() {
    let mut reg = Registry::new();
    let ids: Vec<String> = (0..4).map(|_| new_track_id()).collect();
    for (k, id) in ids.iter().enumerate() {
        reg.enqueue(id.clone(), ["a.wav", "b.wav", "c.wav", "d.wav"][k]);
    }
    for (k, id) in ids.iter().enumerate() {
        let (next, path) = reg.begin_next().unwrap();
        assert_eq!(&next, id);
        assert_eq!(path, ["a.wav", "b.wav", "c.wav", "d.wav"][k]);
        let outcome = if k % 2 == 0 { Ok(k as u32) } else { Err(format!("failure {}", k)) };
        reg.finish_analysis(next, outcome);
        if k % 2 == 0 {
            assert_eq!(status(&reg, id), "done");
            assert_eq!(reg.get_analysis_result(id), Ok(&(k as u32)));
        } else {
            assert_eq!(status(&reg, id), format!("error: failure {}", k));
        }
    }
    assert_eq!(reg.begin_next(), None);
}
