//! The analysis job registry: queued files, the job being analysed, the
//! status, result or failure of every job, and YouTube metadata.

use vstd::prelude::*;
use crate::id_map::IdMap;
use crate::text::same_text;
use crate::track_id::{is_random_uuid, is_track_id, new_track_id};
use crate::youtube::YoutubeMeta;

verus! {

/// The registry as a mathematical value: identifiers are character
/// sequences, the queue is in arrival order.
pub struct AnalysisModel<R, P> {
    pub queue: Seq<(Seq<char>, P)>,
    pub results: Map<Seq<char>, R>,
    pub failures: Map<Seq<char>, Seq<char>>,
    pub current: Option<Seq<char>>,
    pub statuses: Map<Seq<char>, Seq<char>>,
    pub youtube_meta: Map<Seq<char>, YoutubeMeta>,
}

/// Status of a job waiting in the queue.
pub open spec fn status_queued() -> Seq<char> { "queued"@ }

/// Status of the job being analysed.
pub open spec fn status_analysing() -> Seq<char> { "analysing"@ }

/// Status of a YouTube job whose audio is being downloaded.
pub open spec fn status_downloading() -> Seq<char> { "downloading"@ }

/// Status of a job whose analysis succeeded.
pub open spec fn status_done() -> Seq<char> { "done"@ }

/// Status of a job that failed with message `msg`.
pub open spec fn status_error(msg: Seq<char>) -> Seq<char> { "error: "@ + msg }

/// The empty registry.
pub open spec fn empty_model<R, P>() -> AnalysisModel<R, P> {
    AnalysisModel {
        queue: Seq::empty(),
        results: Map::empty(),
        failures: Map::empty(),
        current: None,
        statuses: Map::empty(),
        youtube_meta: Map::empty(),
    }
}

/// What a status query answers: the job's status, or `unknown`.
pub open spec fn status_answer<R, P>(m: AnalysisModel<R, P>, id: Seq<char>) -> Seq<char> {
    if m.statuses.contains_key(id) { m.statuses[id] } else { "unknown"@ }
}

/// What a result query answers: the result if there is one; else the
/// failure; else a message from the status; else `Unknown ID`.
pub open spec fn result_answer<R, P>(m: AnalysisModel<R, P>, id: Seq<char>) -> Result<R, Seq<char>> {
    if m.results.contains_key(id) {
        Ok(m.results[id])
    } else if m.failures.contains_key(id) {
        Err("Analysis failed: "@ + m.failures[id])
    } else if m.statuses.contains_key(id) {
        let s = m.statuses[id];
        if s == status_queued() {
            Err("Analysis is queued"@)
        } else if s == status_analysing() {
            Err("Analysis in progress"@)
        } else {
            Err("Status: "@ + s)
        }
    } else {
        Err("Unknown ID"@)
    }
}

/// A file job joins the back of the queue, with status `queued`.
pub open spec fn after_enqueue<R, P>(m: AnalysisModel<R, P>, id: Seq<char>, path: P) -> AnalysisModel<R, P> {
    AnalysisModel {
        queue: m.queue.push((id, path)),
        statuses: m.statuses.insert(id, status_queued()),
        ..m
    }
}

/// A YouTube job is registered with status `downloading`.
pub open spec fn after_mark_downloading<R, P>(m: AnalysisModel<R, P>, id: Seq<char>) -> AnalysisModel<R, P> {
    AnalysisModel { statuses: m.statuses.insert(id, status_downloading()), ..m }
}

/// A job's status becomes `error: msg` (its result and failure records stay).
pub open spec fn after_mark_error<R, P>(m: AnalysisModel<R, P>, id: Seq<char>, msg: Seq<char>) -> AnalysisModel<R, P> {
    AnalysisModel { statuses: m.statuses.insert(id, status_error(msg)), ..m }
}

/// A job's YouTube metadata is recorded.
pub open spec fn after_store_meta<R, P>(m: AnalysisModel<R, P>, id: Seq<char>, meta: YoutubeMeta) -> AnalysisModel<R, P> {
    AnalysisModel { youtube_meta: m.youtube_meta.insert(id, meta), ..m }
}

/// What the download of a YouTube job reports to the registry.
pub enum DownloadEvent<P> {
    /// The download failed with this message.
    Failed(String),
    /// `yt-dlp` reported the track's metadata.
    Metadata(YoutubeMeta),
    /// The download finished; the extracted audio file, if it exists.
    AudioReady(Option<P>),
}

/// Error recorded when the download finished without an audio file.
pub open spec fn missing_audio_message() -> Seq<char> {
    "Download completed but WAV file not found"@
}

/// One step of a YouTube download: a failure is recorded as `error: ...` and
/// ends the download; metadata is stored and the download goes on; a
/// finished download queues its audio file, or records the missing file as an
/// error. Besides the new registry it gives whether the download goes on,
/// and the error message recorded, if any.
pub open spec fn after_download_step<R, P>(m: AnalysisModel<R, P>, id: Seq<char>, event: DownloadEvent<P>) -> (AnalysisModel<R, P>, bool, Option<Seq<char>>) {
    match event {
        DownloadEvent::Failed(msg) => (after_mark_error(m, id, msg@), false, Some(msg@)),
        DownloadEvent::Metadata(meta) => (after_store_meta(m, id, meta), true, None),
        DownloadEvent::AudioReady(Some(path)) => (after_enqueue(m, id, path), false, None),
        DownloadEvent::AudioReady(None) => (
            after_mark_error(m, id, missing_audio_message()),
            false,
            Some(missing_audio_message()),
        ),
    }
}

/// One step of the worker: when no job is being analysed and the queue is
/// not empty, the oldest job leaves the queue, becomes the current job with
/// status `analysing`, and is handed out; otherwise nothing changes.
pub open spec fn after_begin_next<R, P>(m: AnalysisModel<R, P>) -> (AnalysisModel<R, P>, Option<(Seq<char>, P)>) {
    if m.current is Some || m.queue.len() == 0 {
        (m, None)
    } else {
        let id = m.queue[0].0;
        (
            AnalysisModel {
                queue: m.queue.drop_first(),
                current: Some(id),
                statuses: m.statuses.insert(id, status_analysing()),
                ..m
            },
            Some(m.queue[0]),
        )
    }
}

/// The end of an analysis: a result is stored with status `done`, a failure
/// is stored with status `error: ...`; then no job is current.
pub open spec fn after_finish<R, P>(m: AnalysisModel<R, P>, id: Seq<char>, outcome: Result<R, Seq<char>>) -> AnalysisModel<R, P> {
    match outcome {
        Ok(r) => AnalysisModel {
            results: m.results.insert(id, r),
            statuses: m.statuses.insert(id, status_done()),
            current: None,
            ..m
        },
        Err(e) => AnalysisModel {
            failures: m.failures.insert(id, e),
            statuses: m.statuses.insert(id, status_error(e)),
            current: None,
            ..m
        },
    }
}

/// Deleting a job forgets its result, failure, status and metadata (the
/// queue and the current job are left as they are).
pub open spec fn after_delete<R, P>(m: AnalysisModel<R, P>, id: Seq<char>) -> AnalysisModel<R, P> {
    AnalysisModel {
        results: m.results.remove(id),
        failures: m.failures.remove(id),
        statuses: m.statuses.remove(id),
        youtube_meta: m.youtube_meta.remove(id),
        ..m
    }
}

/// A job is listed among the analysed tracks when it has a result and its
/// status is `done`.
pub open spec fn is_listed<R, P>(m: AnalysisModel<R, P>, id: Seq<char>) -> bool {
    m.results.contains_key(id) && m.statuses.contains_key(id) && m.statuses[id] == status_done()
}

/// Display name of a listed track: `uploader — title` for a YouTube track,
/// else `track_` and the first eight characters of its identifier.
pub open spec fn track_label<R, P>(m: AnalysisModel<R, P>, id: Seq<char>) -> Seq<char> {
    if m.youtube_meta.contains_key(id) {
        m.youtube_meta[id].uploader@ + " — "@ + m.youtube_meta[id].title@
    } else {
        "track_"@ + id.take(8)
    }
}

/// An entry of the track list: a listed job, its display name and its result.
pub open spec fn listed_entry<R, P>(m: AnalysisModel<R, P>, e: (String, String, &R)) -> bool {
    &&& is_listed(m, e.0@)
    &&& e.1@ == track_label(m, e.0@)
    &&& *e.2 == m.results[e.0@]
}

/// The identifiers of a track list, in order.
pub open spec fn entry_ids<R>(v: Seq<(String, String, &R)>) -> Seq<Seq<char>> {
    v.map_values(|e: (String, String, &R)| e.0@)
}

/// The texts of a map of strings.
pub open spec fn texts(m: Map<Seq<char>, String>) -> Map<Seq<char>, Seq<char>> {
    m.map_values(|s: String| s@)
}

proof fn lemma_texts_insert(m: Map<Seq<char>, String>, k: Seq<char>, s: String)
    ensures
        texts(m.insert(k, s)) == texts(m).insert(k, s@),
{
    assert(texts(m.insert(k, s)) =~= texts(m).insert(k, s@));
}

proof fn lemma_texts_remove(m: Map<Seq<char>, String>, k: Seq<char>)
    ensures
        texts(m.remove(k)) == texts(m).remove(k),
{
    assert(texts(m.remove(k)) =~= texts(m).remove(k));
}

/// A queued job is reported as `queued`, both by a status query and, while it
/// has no result or failure, by a result query; other jobs are not affected.
pub proof fn law_enqueued_job_reads_queued<R, P>(m: AnalysisModel<R, P>, id: Seq<char>, path: P, other: Seq<char>)
    requires
        !m.results.contains_key(id),
        !m.failures.contains_key(id),
        other != id,
    ensures
        status_answer(after_enqueue(m, id, path), id) == "queued"@,
        result_answer(after_enqueue(m, id, path), id) == Err::<R, Seq<char>>("Analysis is queued"@),
        status_answer(after_enqueue(m, id, path), other) == status_answer(m, other),
        result_answer(after_enqueue(m, id, path), other) == result_answer(m, other),
{
}

/// Jobs leave the queue in the order they joined it: a job queued behind
/// others is not handed out before them.
pub proof fn law_queue_is_first_in_first_out<R, P>(m: AnalysisModel<R, P>, id: Seq<char>, path: P)
    requires
        m.current is None,
    ensures
        after_begin_next(after_enqueue(m, id, path)).1 == Some(
            if m.queue.len() > 0 { m.queue[0] } else { (id, path) },
        ),
        m.queue.len() > 0 ==> after_begin_next(after_enqueue(m, id, path)).0.queue
            == m.queue.drop_first().push((id, path)),
{
    if m.queue.len() > 0 {
        assert(m.queue.push((id, path)).drop_first() =~= m.queue.drop_first().push((id, path)));
    }
}

/// At most one job is analysed at a time: while a job is current, the worker
/// hands out nothing and changes nothing.
pub proof fn law_one_analysis_at_a_time<R, P>(m: AnalysisModel<R, P>)
    requires
        m.current is Some,
    ensures
        after_begin_next(m) == (m, None::<(Seq<char>, P)>),
{
}

/// The job handed out by the worker is the current job and is reported as
/// being analysed until it finishes.
pub proof fn law_started_job_reads_analysing<R, P>(m: AnalysisModel<R, P>)
    requires
        m.current is None,
        m.queue.len() > 0,
        !m.results.contains_key(m.queue[0].0),
        !m.failures.contains_key(m.queue[0].0),
    ensures
        after_begin_next(m).0.current == Some(m.queue[0].0),
        status_answer(after_begin_next(m).0, m.queue[0].0) == "analysing"@,
        result_answer(after_begin_next(m).0, m.queue[0].0) == Err::<R, Seq<char>>("Analysis in progress"@),
{
    reveal_strlit("queued");
    reveal_strlit("analysing");
    assert("analysing"@[0] == 'a');
    assert("queued"@[0] == 'q');
}

/// What a successful analysis stores is what a result query gives back; the
/// job is `done`, listed among the analysed tracks, and no job is current.
pub proof fn law_result_reads_back<R, P>(m: AnalysisModel<R, P>, id: Seq<char>, r: R)
    ensures
        result_answer(after_finish(m, id, Ok(r)), id) == Ok::<R, Seq<char>>(r),
        status_answer(after_finish(m, id, Ok(r)), id) == "done"@,
        is_listed(after_finish(m, id, Ok(r)), id),
        after_finish(m, id, Ok(r)).current is None,
{
}

/// A failed analysis is reported with its message, both by a status query
/// (`error: ...`) and by a result query (`Analysis failed: ...`), unless an
/// earlier result of the job is still stored.
pub proof fn law_failure_reads_back<R, P>(m: AnalysisModel<R, P>, id: Seq<char>, e: Seq<char>)
    requires
        !m.results.contains_key(id),
    ensures
        result_answer(after_finish(m, id, Err(e)), id) == Err::<R, Seq<char>>("Analysis failed: "@ + e),
        status_answer(after_finish(m, id, Err(e)), id) == ("error: "@ + e),
        !is_listed(after_finish(m, id, Err(e)), id),
{
}

/// A download error is reported as the status `error: msg`, and a result
/// query answers `Status: error: msg` while the job has no result or failure.
pub proof fn law_download_error_reads_back<R, P>(m: AnalysisModel<R, P>, id: Seq<char>, msg: Seq<char>)
    requires
        !m.results.contains_key(id),
        !m.failures.contains_key(id),
    ensures
        status_answer(after_mark_error(m, id, msg), id) == ("error: "@ + msg),
        result_answer(after_mark_error(m, id, msg), id) == Err::<R, Seq<char>>("Status: "@ + ("error: "@ + msg)),
        !is_listed(after_mark_error(m, id, msg), id),
{
    reveal_strlit("error: ");
    reveal_strlit("queued");
    reveal_strlit("analysing");
    assert(("error: "@ + msg)[0] == 'e');
    assert("queued"@[0] == 'q');
    assert("analysing"@[0] == 'a');
}

/// After a deletion the job is unknown to every query and no longer listed;
/// other jobs are not affected.
pub proof fn law_deleted_job_is_unknown<R, P>(m: AnalysisModel<R, P>, id: Seq<char>, other: Seq<char>)
    requires
        other != id,
    ensures
        status_answer(after_delete(m, id), id) == "unknown"@,
        result_answer(after_delete(m, id), id) == Err::<R, Seq<char>>("Unknown ID"@),
        !is_listed(after_delete(m, id), id),
        status_answer(after_delete(m, id), other) == status_answer(m, other),
        result_answer(after_delete(m, id), other) == result_answer(m, other),
        is_listed(after_delete(m, id), other) == is_listed(m, other),
{
}

/// What each download step does to the job: metadata reported by `yt-dlp`
/// is kept for the job (so the job is listed as `uploader — title`) and the
/// download goes on; a finished download with its audio file puts the job at
/// the back of the queue as `queued`; a failure, or a finished download
/// without audio, reports the job as `error: ...` and ends the download.
/// Nothing else changes in the registry but what each step names.
pub proof fn law_download_steps<R, P>(m: AnalysisModel<R, P>, id: Seq<char>, meta: YoutubeMeta, path: P, msg: String)
    ensures
        ({
            let (m2, go_on, error) = after_download_step(m, id, DownloadEvent::Metadata(meta));
            &&& m2.youtube_meta.contains_key(id)
            &&& m2.youtube_meta[id] == meta
            &&& track_label(m2, id) == meta.uploader@ + " — "@ + meta.title@
            &&& go_on
            &&& error is None
            &&& m2.queue == m.queue && m2.statuses == m.statuses && m2.results == m.results
            &&& m2.failures == m.failures && m2.current == m.current
            &&& forall|k: Seq<char>| k != id ==> m2.youtube_meta.contains_key(k) == m.youtube_meta.contains_key(k)
                && m2.youtube_meta[k] == m.youtube_meta[k]
        }),
        ({
            let (m2, go_on, error) = after_download_step(m, id, DownloadEvent::AudioReady(Some(path)));
            &&& m2.queue == m.queue.push((id, path))
            &&& status_answer(m2, id) == "queued"@
            &&& !go_on
            &&& error is None
            &&& m2.youtube_meta == m.youtube_meta && m2.results == m.results && m2.current == m.current
        }),
        ({
            let (m2, go_on, error) = after_download_step(m, id, DownloadEvent::<P>::Failed(msg));
            &&& status_answer(m2, id) == "error: "@ + msg@
            &&& !go_on
            &&& error == Some(msg@)
            &&& m2.queue == m.queue && m2.youtube_meta == m.youtube_meta && m2.results == m.results
        }),
        ({
            let (m2, go_on, error) = after_download_step(m, id, DownloadEvent::<P>::AudioReady(None));
            &&& status_answer(m2, id) == "error: Download completed but WAV file not found"@
            &&& !go_on
            &&& error == Some("Download completed but WAV file not found"@)
            &&& m2.queue == m.queue && m2.youtube_meta == m.youtube_meta && m2.results == m.results
        }),
{
    reveal_strlit("error: ");
    reveal_strlit("Download completed but WAV file not found");
    reveal_strlit("error: Download completed but WAV file not found");
    assert("error: "@ + missing_audio_message() =~= "error: Download completed but WAV file not found"@);
}

/// A track without YouTube metadata is listed as `track_` followed by the
/// first eight characters of its identifier; with metadata, as
/// `uploader — title`.
pub proof fn law_track_labels<R, P>(m: AnalysisModel<R, P>, id: Seq<char>)
    requires
        is_track_id(id),
    ensures
        !m.youtube_meta.contains_key(id) ==> {
            &&& track_label(m, id).len() == 14
            &&& track_label(m, id).take(6) == "track_"@
            &&& track_label(m, id).skip(6) == id.take(8)
        },
        m.youtube_meta.contains_key(id) ==> track_label(m, id)
            == m.youtube_meta[id].uploader@ + " — "@ + m.youtube_meta[id].title@,
{
    reveal_strlit("track_");
    if !m.youtube_meta.contains_key(id) {
        let l = track_label(m, id);
        assert(l.take(6) =~= "track_"@);
        assert(l.skip(6) =~= id.take(8));
    }
}

/// A registered download reads `downloading`, and a result query answers
/// `Status: downloading` while the job has no result or failure.
pub proof fn law_registered_download_reads_downloading<R, P>(m: AnalysisModel<R, P>, id: Seq<char>)
    requires
        !m.results.contains_key(id),
        !m.failures.contains_key(id),
    ensures
        status_answer(after_mark_downloading(m, id), id) == "downloading"@,
        result_answer(after_mark_downloading(m, id), id) == Err::<R, Seq<char>>("Status: downloading"@),
        after_mark_downloading(m, id).queue == m.queue,
{
    reveal_strlit("downloading");
    reveal_strlit("queued");
    reveal_strlit("analysing");
    reveal_strlit("Status: ");
    reveal_strlit("Status: downloading");
    assert("downloading"@[0] == 'd');
    assert("queued"@[0] == 'q');
    assert("analysing"@[0] == 'a');
    assert("Status: "@ + "downloading"@ =~= "Status: downloading"@);
}

/// One cycle of the worker: it takes the next job, if any, and finishes it
/// with `outcome`.
pub open spec fn worker_cycle<R, P>(m: AnalysisModel<R, P>, outcome: Result<R, Seq<char>>) -> AnalysisModel<R, P> {
    match after_begin_next(m).1 {
        Some((id, _)) => after_finish(after_begin_next(m).0, id, outcome),
        None => after_begin_next(m).0,
    }
}

/// Successive worker cycles, the `k`-th finishing its job with `outcomes[k]`.
pub open spec fn run_cycles<R, P>(m: AnalysisModel<R, P>, outcomes: Seq<Result<R, Seq<char>>>) -> AnalysisModel<R, P>
    decreases outcomes.len(),
{
    if outcomes.len() == 0 {
        m
    } else {
        worker_cycle(run_cycles(m, outcomes.drop_last()), outcomes.last())
    }
}

proof fn lemma_run_cycles_consume_queue<R, P>(m: AnalysisModel<R, P>, outcomes: Seq<Result<R, Seq<char>>>)
    requires
        m.current is None,
        outcomes.len() <= m.queue.len(),
    ensures
        run_cycles(m, outcomes).queue == m.queue.skip(outcomes.len() as int),
        run_cycles(m, outcomes).current is None,
    decreases outcomes.len(),
{
    if outcomes.len() == 0 {
        assert(m.queue.skip(0) =~= m.queue);
    } else {
        let prev = outcomes.drop_last();
        lemma_run_cycles_consume_queue(m, prev);
        let k = prev.len() as int;
        assert(m.queue.skip(k).drop_first() =~= m.queue.skip(k + 1));
    }
}

/// Every queued job is analysed in its turn: with no job current, the job at
/// position `p` of the queue is handed out by the worker's cycle `p + 1`,
/// after the `p` jobs before it have finished, whatever their outcomes; once
/// that cycle ends, its status and its result query report its outcome, and
/// no job is current.
pub proof fn law_every_queued_job_is_analysed<R, P>(
    m: AnalysisModel<R, P>,
    outcomes: Seq<Result<R, Seq<char>>>,
    p: int,
)
    requires
        m.current is None,
        0 <= p < m.queue.len(),
        outcomes.len() == p + 1,
    ensures
        after_begin_next(run_cycles(m, outcomes.drop_last())).1 == Some(m.queue[p]),
        run_cycles(m, outcomes).current is None,
        status_answer(run_cycles(m, outcomes), m.queue[p].0) == match outcomes[p] {
            Ok(_) => "done"@,
            Err(e) => ("error: "@ + e),
        },
        outcomes[p] matches Ok(r) ==> result_answer(run_cycles(m, outcomes), m.queue[p].0) == Ok::<R, Seq<char>>(r),
{
    let before = outcomes.drop_last();
    lemma_run_cycles_consume_queue(m, before);
    lemma_run_cycles_consume_queue(m, outcomes);
    let mb = run_cycles(m, before);
    assert(mb.queue[0] == m.queue[p]);
    assert(outcomes.last() == outcomes[p]);
}

/// The registry of analysis jobs.
pub struct AnalysisState<R, P> {
    queue: Vec<(String, P)>,
    results: IdMap<R>,
    failures: IdMap<String>,
    current: Option<String>,
    statuses: IdMap<String>,
    youtube_meta: IdMap<YoutubeMeta>,
}

impl<R, P> View for AnalysisState<R, P> {
    type V = AnalysisModel<R, P>;

    closed spec fn view(&self) -> AnalysisModel<R, P> {
        AnalysisModel {
            queue: self.queue@.map_values(|e: (String, P)| (e.0@, e.1)),
            results: self.results@,
            failures: texts(self.failures@),
            current: match self.current {
                Some(s) => Some(s@),
                None => None,
            },
            statuses: texts(self.statuses@),
            youtube_meta: self.youtube_meta@,
        }
    }
}

impl<R, P> AnalysisState<R, P> {
    /// The maps are well formed, and the queued, current and finished jobs
    /// carry track identifiers.
    pub closed spec fn wf(&self) -> bool {
        &&& self.results.wf()
        &&& self.failures.wf()
        &&& self.statuses.wf()
        &&& self.youtube_meta.wf()
        &&& forall|i: int| 0 <= i < self.queue@.len() ==> is_track_id(#[trigger] self.queue@[i].0@)
        &&& forall|k: Seq<char>| #[trigger] self.results@.contains_key(k) ==> is_track_id(k)
        &&& match self.current {
            Some(s) => is_track_id(s@),
            None => true,
        }
    }

    /// An empty registry.
    pub fn new() -> (s: Self)
        ensures
            s.wf(),
            s@ == empty_model::<R, P>(),
    {
        let s = AnalysisState {
            queue: Vec::new(),
            results: IdMap::new(),
            failures: IdMap::new(),
            current: None,
            statuses: IdMap::new(),
            youtube_meta: IdMap::new(),
        };
        assert(s@.queue =~= Seq::<(Seq<char>, P)>::empty());
        assert(s@.failures =~= Map::<Seq<char>, Seq<char>>::empty());
        assert(s@.statuses =~= Map::<Seq<char>, Seq<char>>::empty());
        s
    }

    /// Queues the file job `id` for analysis (status `queued`).
    pub fn enqueue(&mut self, id: String, path: P)
        requires
            old(self).wf(),
            is_track_id(id@),
        ensures
            final(self).wf(),
            final(self)@ == after_enqueue(old(self)@, id@, path),
    {
        let ghost old_view = self@;
        let ghost gp = path;
        let key = id.clone();
        self.queue.push((id, path));
        let status = "queued".to_owned();
        proof { lemma_texts_insert(self.statuses@, key@, status); }
        self.statuses.insert(key, status);
        assert(self@.queue =~= old_view.queue.push((key@, gp)));
    }
    /// Registers a new YouTube job under a fresh identifier, with status
    /// `downloading`, and returns the identifier.
    pub fn register_download(&mut self) -> (id: String)
        requires
            old(self).wf(),
        ensures
            final(self).wf(),
            is_random_uuid(id@),
            final(self)@ == after_mark_downloading(old(self)@, id@),
    {
        let id = new_track_id();
        let status = "downloading".to_owned();
        proof { lemma_texts_insert(self.statuses@, id@, status); }
        self.statuses.insert(id.clone(), status);
        id
    }

    /// Records that job `id` failed with `msg`: its status becomes
    /// `error: msg`.
    pub fn mark_error(&mut self, id: &str, msg: &str)
        requires
            old(self).wf(),
        ensures
            final(self).wf(),
            final(self)@ == after_mark_error(old(self)@, id@, msg@),
    {
        let mut status = "error: ".to_owned();
        status.append(msg);
        proof { lemma_texts_insert(self.statuses@, id@, status); }
        self.statuses.insert(id.to_owned(), status);
    }

    /// One step of the YouTube download of job `id` (see
    /// `after_download_step`); returns whether the download goes on, and the
    /// error message recorded, if any.
    pub fn download_step(&mut self, id: &String, event: DownloadEvent<P>) -> (res: (bool, Option<String>))
        requires
            old(self).wf(),
            is_track_id(id@),
        ensures
            final(self).wf(),
            final(self)@ == after_download_step(old(self)@, id@, event).0,
            res.0 == after_download_step(old(self)@, id@, event).1,
            match (res.1, after_download_step(old(self)@, id@, event).2) {
                (Some(e), Some(m)) => e@ == m,
                (None, None) => true,
                _ => false,
            },
    {
        match event {
            DownloadEvent::Failed(msg) => {
                self.mark_error(id.as_str(), msg.as_str());
                (false, Some(msg))
            },
            DownloadEvent::Metadata(meta) => {
                self.store_youtube_meta(id.as_str(), meta);
                (true, None)
            },
            DownloadEvent::AudioReady(Some(path)) => {
                self.enqueue(id.clone(), path);
                (false, None)
            },
            DownloadEvent::AudioReady(None) => {
                let msg = "Download completed but WAV file not found".to_owned();
                self.mark_error(id.as_str(), msg.as_str());
                (false, Some(msg))
            },
        }
    }

    /// Records the YouTube metadata of job `id`.
    pub fn store_youtube_meta(&mut self, id: &str, meta: YoutubeMeta)
        requires
            old(self).wf(),
        ensures
            final(self).wf(),
            final(self)@ == after_store_meta(old(self)@, id@, meta),
    {
        self.youtube_meta.insert(id.to_owned(), meta);
    }

    /// One step of the background worker (see `after_begin_next`): hands out
    /// the oldest queued job when no job is being analysed.
    pub fn begin_next(&mut self) -> (next: Option<(String, P)>)
        requires
            old(self).wf(),
        ensures
            final(self).wf(),
            final(self)@ == after_begin_next(old(self)@).0,
            match (next, after_begin_next(old(self)@).1) {
                (Some((id, path)), Some((i, p))) => id@ == i && path == p,
                (None, None) => true,
                _ => false,
            },
            next matches Some((id, _)) ==> is_track_id(id@),
    {
        if self.current.is_some() || self.queue.len() == 0 {
            return None;
        }
        let ghost old_view = self@;
        let ghost old_queue = self.queue@;
        let (id, path) = self.queue.remove(0);
        assert(is_track_id(old_queue[0].0@));
        assert(self@.queue =~= old_view.queue.drop_first());
        self.current = Some(id.clone());
        let status = "analysing".to_owned();
        proof { lemma_texts_insert(self.statuses@, id@, status); }
        self.statuses.insert(id.clone(), status);
        Some((id, path))
    }

    /// The end of the analysis of job `id` (see `after_finish`).
    pub fn finish_analysis(&mut self, id: String, outcome: Result<R, String>)
        requires
            old(self).wf(),
            is_track_id(id@),
        ensures
            final(self).wf(),
            final(self)@ == after_finish(old(self)@, id@, match outcome {
                Ok(r) => Ok(r),
                Err(e) => Err(e@),
            }),
    {
        match outcome {
            Ok(r) => {
                self.results.insert(id.clone(), r);
                let status = "done".to_owned();
                proof { lemma_texts_insert(self.statuses@, id@, status); }
                self.statuses.insert(id, status);
            },
            Err(e) => {
                let mut status = "error: ".to_owned();
                status.append(e.as_str());
                proof {
                    lemma_texts_insert(self.failures@, id@, e);
                    lemma_texts_insert(self.statuses@, id@, status);
                }
                self.failures.insert(id.clone(), e);
                self.statuses.insert(id, status);
            },
        }
        self.current = None;
    }

    /// The status of job `id`, or `unknown`.
    pub fn get_analysis_status(&self, id: &str) -> (res: Result<String, String>)
        requires
            self.wf(),
        ensures
            res matches Ok(s) && s@ == status_answer(self@, id@),
    {
        match self.statuses.get(id) {
            Some(s) => Ok(s.clone()),
            None => Ok("unknown".to_owned()),
        }
    }

    /// The result of job `id`, or why there is none (see `result_answer`).
    pub fn get_analysis_result(&self, id: &str) -> (res: Result<&R, String>)
        requires
            self.wf(),
        ensures
            match (res, result_answer(self@, id@)) {
                (Ok(r), Ok(x)) => *r == x,
                (Err(e), Err(m)) => e@ == m,
                _ => false,
            },
    {
        if let Some(r) = self.results.get(id) {
            return Ok(r);
        }
        if let Some(err) = self.failures.get(id) {
            let mut msg = "Analysis failed: ".to_owned();
            msg.append(err.as_str());
            return Err(msg);
        }
        match self.statuses.get(id) {
            Some(s) => {
                if same_text(s.as_str(), "queued") {
                    Err("Analysis is queued".to_owned())
                } else if same_text(s.as_str(), "analysing") {
                    Err("Analysis in progress".to_owned())
                } else {
                    let mut msg = "Status: ".to_owned();
                    msg.append(s.as_str());
                    Err(msg)
                }
            },
            None => Err("Unknown ID".to_owned()),
        }
    }

    /// Forgets the result, failure, status and metadata of job `id`.
    pub fn delete_analysis(&mut self, id: &str) -> (res: Result<(), String>)
        requires
            old(self).wf(),
        ensures
            final(self).wf(),
            final(self)@ == after_delete(old(self)@, id@),
            res is Ok,
    {
        proof {
            lemma_texts_remove(self.failures@, id@);
            lemma_texts_remove(self.statuses@, id@);
        }
        self.results.remove(id);
        self.failures.remove(id);
        self.statuses.remove(id);
        self.youtube_meta.remove(id);
        Ok(())
    }
    /// Display name of listed job `id` (see `track_label`).
    fn label_of(&self, id: &String) -> (label: String)
        requires
            self.wf(),
            is_track_id(id@),
        ensures
            label@ == track_label(self@, id@),
    {
        match self.youtube_meta.get(id.as_str()) {
            Some(meta) => {
                let mut label = meta.uploader.clone();
                label.append(" — ");
                label.append(meta.title.as_str());
                label
            },
            None => {
                let mut label = "track_".to_owned();
                label.append(id.as_str().substring_char(0, 8));
                label
            },
        }
    }

    /// The analysed tracks: every job with a result whose status is `done`,
    /// with its display name and result, each once, in no particular order.
    pub fn list_analysed_tracks(&self) -> (res: Result<Vec<(String, String, &R)>, String>)
        requires
            self.wf(),
        ensures
            res is Ok,
            forall|i: int| 0 <= i < res->Ok_0.len() ==> listed_entry(self@, #[trigger] res->Ok_0@[i]),
            forall|i: int, j: int| 0 <= i < j < res->Ok_0.len() ==>
                (#[trigger] res->Ok_0@[i]).0@ != (#[trigger] res->Ok_0@[j]).0@,
            forall|k: Seq<char>| #[trigger] is_listed(self@, k) ==> entry_ids(res->Ok_0@).contains(k),
    {
        let ghost m = self@;
        let mut tracks: Vec<(String, String, &R)> = Vec::new();
        let n = self.results.len();
        proof { self.results.lemma_keys(); }
        let ghost keys = self.results.keys();
        let ghost mut origin: Seq<int> = Seq::empty();
        let mut i: usize = 0;
        while i < n
            invariant
                self.wf(),
                m == self@,
                n == keys.len(),
                keys == self.results.keys(),
                i <= n,
                forall|a: int, b: int| 0 <= a < b < keys.len() ==> keys[a] != keys[b],
                forall|a: int| 0 <= a < keys.len() ==> m.results.contains_key(#[trigger] keys[a]),
                origin.len() == tracks.len(),
                forall|t: int| 0 <= t < tracks.len() ==> listed_entry(m, #[trigger] tracks@[t]),
                forall|t: int| 0 <= t < origin.len() ==> 0 <= #[trigger] origin[t] < i && keys[origin[t]] == tracks@[t].0@,
                forall|t: int, u: int| 0 <= t < u < origin.len() ==> #[trigger] origin[t] < #[trigger] origin[u],
                forall|a: int| 0 <= a < i && is_listed(m, #[trigger] keys[a]) ==>
                    exists|t: int| 0 <= t < origin.len() && origin[t] == a,
            decreases n - i,
        {
            let (id, result) = self.results.entry(i);
            let done = match self.statuses.get(id.as_str()) {
                Some(s) => same_text(s.as_str(), "done"),
                None => false,
            };
            assert(done == is_listed(m, keys[i as int]));
            if done {
                let label = self.label_of(id);
                let ghost before = origin;
                tracks.push((id.clone(), label, result));
                proof {
                    origin = origin.push(i as int);
                    assert forall|a: int| 0 <= a < i + 1 && is_listed(m, #[trigger] keys[a]) implies
                        exists|t: int| 0 <= t < origin.len() && origin[t] == a by {
                        if a < i {
                            let t = choose|t: int| 0 <= t < before.len() && before[t] == a;
                            assert(origin[t] == a);
                        } else {
                            assert(origin[before.len() as int] == a);
                        }
                    }
                }
            }
            i = i + 1;
        }
        proof {
            assert forall|t: int, u: int| 0 <= t < u < tracks.len() implies
                (#[trigger] tracks@[t]).0@ != (#[trigger] tracks@[u]).0@ by {
                assert(origin[t] < origin[u]);
            }
            assert forall|k: Seq<char>| #[trigger] is_listed(m, k) implies
                entry_ids(tracks@).contains(k) by {
                let a = choose|a: int| 0 <= a < keys.len() && keys[a] == k;
                assert(is_listed(m, keys[a]));
                let t = choose|t: int| 0 <= t < origin.len() && origin[t] == a;
                assert(tracks@[t].0@ == k);
                assert(entry_ids(tracks@)[t] == k);
            }
        }
        Ok(tracks)
    }
}

} // verus!
