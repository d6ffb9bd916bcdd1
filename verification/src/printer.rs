//! The transfer sequence of one print job, as a state machine.
//!
//! A job asks for one thing at a time: an acknowledged write to the printer
//! or a pause. The driver does it and reports the outcome, on which the job
//! tells what to publish and moves on. The sequence is: initialize, pause,
//! start, pause, the raster command in chunks, a pause for the mechanism,
//! end, pause. The first write that fails ends the job.

use vstd::prelude::*;
use vstd::slice::{slice_subrange, slice_to_vec};
use crate::bitmap::{Bitmap, BitmapView};
use crate::escpos::{escpos_bytes, image_to_escpos_bytes};
use crate::text::{decimal, push_decimal};
use crate::types::{emit, error_event, event_views, AppEvent, EventView, CHUNK_SIZE};

verus! {

/// Where a job stands: what it has asked for and waits on.
#[derive(Debug, Clone, Copy, PartialEq, Eq)]
pub enum JobPhase {
    /// The write of the initialize command.
    Init,
    /// The pause after it.
    InitPause,
    /// The write of the start command.
    Start,
    /// The pause after it.
    StartPause,
    /// The write of the chunk with this index.
    Data(usize),
    /// The pause in which the mechanism prints.
    Settle,
    /// The write of the end command.
    End,
    /// The pause after it.
    EndPause,
    /// Nothing: the job has ended.
    Finished,
}

/// Mathematical value of a [`JobPhase`].
pub enum JobPhaseView {
    Init,
    InitPause,
    Start,
    StartPause,
    Data(nat),
    Settle,
    End,
    EndPause,
    Finished,
}

impl View for JobPhase {
    type V = JobPhaseView;

    open spec fn view(&self) -> JobPhaseView {
        match self {
            JobPhase::Init => JobPhaseView::Init,
            JobPhase::InitPause => JobPhaseView::InitPause,
            JobPhase::Start => JobPhaseView::Start,
            JobPhase::StartPause => JobPhaseView::StartPause,
            JobPhase::Data(i) => JobPhaseView::Data(*i as nat),
            JobPhase::Settle => JobPhaseView::Settle,
            JobPhase::End => JobPhaseView::End,
            JobPhase::EndPause => JobPhaseView::EndPause,
            JobPhase::Finished => JobPhaseView::Finished,
        }
    }
}

/// Outcome of what a job asked for.
#[derive(Debug)]
pub enum Outcome {
    /// The write was acknowledged, or the pause is over.
    Done,
    /// The write failed, for the reason given.
    Failed(String),
}

/// Mathematical value of an [`Outcome`].
pub enum OutcomeView {
    Done,
    Failed(Seq<char>),
}

impl View for Outcome {
    type V = OutcomeView;

    open spec fn view(&self) -> OutcomeView {
        match self {
            Outcome::Done => OutcomeView::Done,
            Outcome::Failed(reason) => OutcomeView::Failed(reason@),
        }
    }
}

/// What a job asks its driver to do.
#[derive(Debug, PartialEq, Eq)]
pub enum Request {
    /// Write these bytes to the printer and wait for the acknowledgment.
    Write(Vec<u8>),
    /// Wait this many milliseconds.
    Sleep(u64),
    /// Nothing: the job has ended.
    Nothing,
}

/// Mathematical value of a [`Request`].
pub enum RequestView {
    Write(Seq<u8>),
    Sleep(nat),
    Nothing,
}

impl View for Request {
    type V = RequestView;

    open spec fn view(&self) -> RequestView {
        match self {
            Request::Write(data) => RequestView::Write(data@),
            Request::Sleep(ms) => RequestView::Sleep(*ms as nat),
            Request::Nothing => RequestView::Nothing,
        }
    }
}

/// Mathematical value of a [`PrintJob`].
pub struct JobView {
    /// The raster command to send.
    pub payload: Seq<u8>,
    /// Width of the image that is printed, in pixels.
    pub width: nat,
    /// Height of the image that is printed, in pixels.
    pub height: nat,
    pub phase: JobPhaseView,
}

/// The command that initializes the printer.
pub open spec fn init_command() -> Seq<u8> {
    seq![0x1Bu8, 0x40u8]
}

/// The command that starts a print.
pub open spec fn start_command() -> Seq<u8> {
    seq![0x1Du8, 0x49u8, 0xF0u8, 0x19u8]
}

/// The command that ends a print.
pub open spec fn end_command() -> Seq<u8> {
    seq![0x0Au8, 0x0Au8, 0x0Au8, 0x9Au8]
}

/// Number of chunks that `len` bytes are sent in.
pub open spec fn chunk_count(len: nat) -> nat {
    (len + 181) / 182
}

/// Number of bytes that have been sent once chunk `i` of `len` bytes is
/// acknowledged.
pub open spec fn sent_after(len: nat, i: nat) -> nat {
    if (i + 1) * 182 <= len {
        (i + 1) * 182
    } else {
        len
    }
}

/// Chunk `i` of `payload`.
pub open spec fn chunk(payload: Seq<u8>, i: nat) -> Seq<u8> {
    payload.subrange((i * 182) as int, sent_after(payload.len(), i) as int)
}

/// Whether progress is reported once chunk `i` of `count` is acknowledged:
/// after the first chunk and every tenth from there, if there are more than
/// ten chunks.
pub open spec fn progress_due(i: nat, count: nat) -> bool {
    count > 10 && i % 10 == 0
}

/// Pause, in milliseconds, in which the mechanism prints `len` bytes: a
/// second for every 5000 bytes, and half a second at least.
pub open spec fn settle_ms(len: nat) -> nat {
    if len / 5 > 500 {
        len / 5
    } else {
        500
    }
}

/// The line logged before the raster command is sent.
pub open spec fn summary_line(len: nat, width: nat, height: nat) -> Seq<char> {
    "Sent: image data ("@ + decimal(len) + " bytes, "@ + decimal(width) + "x"@ + decimal(height)
        + "px)"@
}

/// Whether a job in this phase waits for the outcome of a write.
pub open spec fn awaits_write(phase: JobPhaseView) -> bool {
    phase is Init || phase is Start || phase is Data || phase is End
}

impl JobView {
    /// Whether the phase is one that the payload allows.
    pub open spec fn wf(self) -> bool {
        self.phase matches JobPhaseView::Data(i) ==> i < chunk_count(self.payload.len())
    }

    /// What the job asks for.
    pub open spec fn request(self) -> RequestView {
        match self.phase {
            JobPhaseView::Init => RequestView::Write(init_command()),
            JobPhaseView::InitPause => RequestView::Sleep(500),
            JobPhaseView::Start => RequestView::Write(start_command()),
            JobPhaseView::StartPause => RequestView::Sleep(500),
            JobPhaseView::Data(i) => RequestView::Write(chunk(self.payload, i)),
            JobPhaseView::Settle => RequestView::Sleep(settle_ms(self.payload.len())),
            JobPhaseView::End => RequestView::Write(end_command()),
            JobPhaseView::EndPause => RequestView::Sleep(1000),
            JobPhaseView::Finished => RequestView::Nothing,
        }
    }

    /// The phase that follows once what the job asked for is done.
    pub open spec fn phase_after_done(self) -> JobPhaseView {
        match self.phase {
            JobPhaseView::Init => JobPhaseView::InitPause,
            JobPhaseView::InitPause => JobPhaseView::Start,
            JobPhaseView::Start => JobPhaseView::StartPause,
            JobPhaseView::StartPause => if chunk_count(self.payload.len()) == 0 {
                JobPhaseView::Settle
            } else {
                JobPhaseView::Data(0)
            },
            JobPhaseView::Data(i) => if i + 1 < chunk_count(self.payload.len()) {
                JobPhaseView::Data(i + 1)
            } else {
                JobPhaseView::Settle
            },
            JobPhaseView::Settle => JobPhaseView::End,
            JobPhaseView::End => JobPhaseView::EndPause,
            JobPhaseView::EndPause => JobPhaseView::Finished,
            JobPhaseView::Finished => JobPhaseView::Finished,
        }
    }

    /// What is published once what the job asked for is done.
    pub open spec fn events_after_done(self) -> Seq<EventView> {
        match self.phase {
            JobPhaseView::Init => seq![EventView::Log("Sent: initialize printer (ESC @)"@)],
            JobPhaseView::Start => seq![EventView::Log("Sent: start print sequence"@)],
            JobPhaseView::StartPause => seq![
                EventView::Log(summary_line(self.payload.len(), self.width, self.height)),
            ],
            JobPhaseView::Data(i) => if progress_due(i, chunk_count(self.payload.len())) {
                seq![
                    EventView::PrintProgress {
                        sent: sent_after(self.payload.len(), i),
                        total: self.payload.len(),
                    },
                ]
            } else {
                seq![]
            },
            JobPhaseView::End => seq![EventView::Log("Sent: end print sequence"@)],
            JobPhaseView::EndPause => seq![
                EventView::Log("Print complete"@),
                EventView::PrintComplete,
            ],
            _ => seq![],
        }
    }

    /// The job after `outcome`. A failure reported for a pause, and any
    /// outcome reported to a job that has ended, changes nothing.
    pub open spec fn next(self, outcome: OutcomeView) -> JobView {
        match outcome {
            OutcomeView::Done => JobView { phase: self.phase_after_done(), ..self },
            OutcomeView::Failed(_) => if awaits_write(self.phase) {
                JobView { phase: JobPhaseView::Finished, ..self }
            } else {
                self
            },
        }
    }

    /// What is published on `outcome`.
    pub open spec fn emits(self, outcome: OutcomeView) -> Seq<EventView> {
        match outcome {
            OutcomeView::Done => self.events_after_done(),
            OutcomeView::Failed(reason) => if awaits_write(self.phase) {
                seq![EventView::Error("Print error: "@ + reason)]
            } else {
                seq![]
            },
        }
    }
}

/// A print job in progress.
#[derive(Debug)]
pub struct PrintJob {
    payload: Vec<u8>,
    width: u32,
    height: u32,
    phase: JobPhase,
}

impl View for PrintJob {
    type V = JobView;

    closed spec fn view(&self) -> JobView {
        JobView {
            payload: self.payload@,
            width: self.width as nat,
            height: self.height as nat,
            phase: self.phase@,
        }
    }
}

/// A job that is to print `img` and has not done anything yet.
pub open spec fn job_for(img: BitmapView) -> JobView {
    JobView {
        payload: escpos_bytes(img),
        width: img.width,
        height: img.height,
        phase: JobPhaseView::Init,
    }
}

/// Begins the print of `img`: the job asks for the initialize command to be
/// written.
pub fn print_image(img: &Bitmap) -> (job: PrintJob)
    ensures
        job@ == job_for(img@),
        job@.wf(),
{
    let payload = image_to_escpos_bytes(img);
    PrintJob { payload, width: img.width(), height: img.height(), phase: JobPhase::Init }
}

fn command(a: u8, b: u8, c: u8, d: u8) -> (bytes: Vec<u8>)
    ensures
        bytes@ == seq![a, b, c, d],
{
    let mut bytes: Vec<u8> = Vec::new();
    bytes.push(a);
    bytes.push(b);
    bytes.push(c);
    bytes.push(d);
    assert(bytes@ =~= seq![a, b, c, d]);
    bytes
}

/// Number of chunks that `len` bytes are sent in.
pub fn count_chunks(len: usize) -> (count: usize)
    ensures
        count == chunk_count(len as nat),
{
    len / CHUNK_SIZE + if len % CHUNK_SIZE == 0 {
        0
    } else {
        1
    }
}

/// Number of bytes sent once chunk `i` of `len` bytes is acknowledged.
pub fn bytes_sent_after(len: usize, i: usize) -> (sent: usize)
    requires
        i < chunk_count(len as nat),
    ensures
        sent == sent_after(len as nat, i as nat),
        i * 182 < sent <= len,
{
    if len / CHUNK_SIZE > i {
        (i + 1) * CHUNK_SIZE
    } else {
        len
    }
}

impl PrintJob {
    #[verifier::type_invariant]
    closed spec fn well_formed(&self) -> bool {
        self@.wf()
    }

    /// A job that sends `payload` and has not done anything yet; `width` and
    /// `height` are those of the image, for the log.
    pub fn with_payload(payload: Vec<u8>, width: u32, height: u32) -> (job: PrintJob)
        ensures
            job@ == (JobView {
                payload: payload@,
                width: width as nat,
                height: height as nat,
                phase: JobPhaseView::Init,
            }),
            job@.wf(),
    {
        PrintJob { payload, width, height, phase: JobPhase::Init }
    }

    /// Where the job stands.
    pub fn phase(&self) -> (phase: JobPhase)
        ensures
            phase@ == self@.phase,
            self@.wf(),
    {
        proof {
            use_type_invariant(self);
        }
        self.phase
    }

    /// Whether the job has ended.
    pub fn is_finished(&self) -> (b: bool)
        ensures
            b == (self@.phase is Finished),
    {
        match self.phase {
            JobPhase::Finished => true,
            _ => false,
        }
    }

    /// Number of bytes of the raster command.
    pub fn payload_len(&self) -> (len: usize)
        ensures
            len == self@.payload.len(),
    {
        self.payload.len()
    }

    /// What the job asks for.
    pub fn request(&self) -> (r: Request)
        ensures
            r@ == self@.request(),
    {
        proof {
            use_type_invariant(self);
        }
        match self.phase {
            JobPhase::Init => {
                let mut bytes: Vec<u8> = Vec::new();
                bytes.push(0x1B);
                bytes.push(0x40);
                assert(bytes@ =~= init_command());
                Request::Write(bytes)
            },
            JobPhase::InitPause => Request::Sleep(500),
            JobPhase::Start => Request::Write(command(0x1D, 0x49, 0xF0, 0x19)),
            JobPhase::StartPause => Request::Sleep(500),
            JobPhase::Data(i) => {
                let len = self.payload.len();
                let end = bytes_sent_after(len, i);
                let part = slice_subrange(self.payload.as_slice(), i * CHUNK_SIZE, end);
                Request::Write(slice_to_vec(part))
            },
            JobPhase::Settle => {
                let ms = self.payload.len() / 5;
                Request::Sleep(
                    if ms > 500 {
                        ms as u64
                    } else {
                        500
                    },
                )
            },
            JobPhase::End => Request::Write(command(0x0A, 0x0A, 0x0A, 0x9A)),
            JobPhase::EndPause => Request::Sleep(1000),
            JobPhase::Finished => Request::Nothing,
        }
    }

    fn summary(&self) -> (line: String)
        ensures
            line@ == summary_line(self@.payload.len(), self@.width, self@.height),
    {
        let mut line = "Sent: image data (".to_owned();
        push_decimal(&mut line, self.payload.len() as u64);
        line.append(" bytes, ");
        push_decimal(&mut line, self.width as u64);
        line.append("x");
        push_decimal(&mut line, self.height as u64);
        line.append("px)");
        line
    }

    fn done_events(&self) -> (events: Vec<AppEvent>)
        ensures
            event_views(events@) == self@.events_after_done(),
    {
        proof {
            use_type_invariant(self);
        }
        let mut events: Vec<AppEvent> = Vec::new();
        assert(event_views(events@) =~= Seq::<EventView>::empty());
        match self.phase {
            JobPhase::Init => {
                emit(&mut events, AppEvent::Log("Sent: initialize printer (ESC @)".to_owned()));
            },
            JobPhase::Start => {
                emit(&mut events, AppEvent::Log("Sent: start print sequence".to_owned()));
            },
            JobPhase::StartPause => {
                emit(&mut events, AppEvent::Log(self.summary()));
            },
            JobPhase::Data(i) => {
                let len = self.payload.len();
                if count_chunks(len) > 10 && i % 10 == 0 {
                    let sent = bytes_sent_after(len, i);
                    emit(&mut events, AppEvent::PrintProgress { sent, total: len });
                }
            },
            JobPhase::End => {
                emit(&mut events, AppEvent::Log("Sent: end print sequence".to_owned()));
            },
            JobPhase::EndPause => {
                emit(&mut events, AppEvent::Log("Print complete".to_owned()));
                emit(&mut events, AppEvent::PrintComplete);
            },
            _ => {},
        }
        events
    }

    fn next_phase(&self) -> (phase: JobPhase)
        ensures
            phase@ == self@.phase_after_done(),
            (JobView { phase: phase@, ..self@ }).wf(),
    {
        proof {
            use_type_invariant(self);
        }
        match self.phase {
            JobPhase::Init => JobPhase::InitPause,
            JobPhase::InitPause => JobPhase::Start,
            JobPhase::Start => JobPhase::StartPause,
            JobPhase::StartPause => if count_chunks(self.payload.len()) == 0 {
                JobPhase::Settle
            } else {
                JobPhase::Data(0)
            },
            JobPhase::Data(i) => {
                let count = count_chunks(self.payload.len());
                if i + 1 < count {
                    JobPhase::Data(i + 1)
                } else {
                    JobPhase::Settle
                }
            },
            JobPhase::Settle => JobPhase::End,
            JobPhase::End => JobPhase::EndPause,
            JobPhase::EndPause => JobPhase::Finished,
            JobPhase::Finished => JobPhase::Finished,
        }
    }

    fn waits_for_write(&self) -> (b: bool)
        ensures
            b == awaits_write(self@.phase),
    {
        match self.phase {
            JobPhase::Init | JobPhase::Start | JobPhase::Data(_) | JobPhase::End => true,
            _ => false,
        }
    }

    /// Takes the outcome of what the job asked for, moves the job on and
    /// returns what is to be published.
    pub fn advance(&mut self, outcome: &Outcome) -> (events: Vec<AppEvent>)
        ensures
            final(self)@ == old(self)@.next(outcome@),
            event_views(events@) == old(self)@.emits(outcome@),
            final(self)@.wf(),
    {
        proof {
            use_type_invariant(&*self);
        }
        match outcome {
            Outcome::Done => {
                let events = self.done_events();
                let phase = self.next_phase();
                self.phase = phase;
                events
            },
            Outcome::Failed(reason) => {
                let mut events: Vec<AppEvent> = Vec::new();
                assert(event_views(events@) =~= Seq::<EventView>::empty());
                if self.waits_for_write() {
                    emit(&mut events, error_event("Print error: ", reason.as_str()));
                    self.phase = JobPhase::Finished;
                }
                events
            },
        }
    }
}

/// Everything that a job publishes from where it stands, as one outcome after
/// the other comes in.
pub open spec fn job_run(job: JobView, outcomes: Seq<OutcomeView>) -> Seq<EventView>
    decreases outcomes.len(),
{
    if outcomes.len() == 0 {
        seq![]
    } else {
        job.emits(outcomes[0]) + job_run(job.next(outcomes[0]), outcomes.drop_first())
    }
}

/// Number of bytes that a progress report tells of as sent; zero for any
/// other event.
pub open spec fn reported_sent(event: EventView) -> nat {
    match event {
        EventView::PrintProgress { sent, total } => sent,
        _ => 0,
    }
}

/// Number of bytes that a progress report tells of as the whole; zero for
/// any other event.
pub open spec fn reported_total(event: EventView) -> nat {
    match event {
        EventView::PrintProgress { sent, total } => total,
        _ => 0,
    }
}

/// The least number of bytes that a job can still report as sent.
spec fn least_report(job: JobView) -> nat {
    match job.phase {
        JobPhaseView::Init | JobPhaseView::InitPause | JobPhaseView::Start | JobPhaseView::StartPause => 0,
        JobPhaseView::Data(i) => sent_after(job.payload.len(), i),
        _ => job.payload.len(),
    }
}

/// The number of bytes sent grows with the chunks and never exceeds the
/// length of the payload.
pub proof fn lemma_sent_after_grows(len: nat, i: nat, j: nat)
    requires
        i <= j,
    ensures
        sent_after(len, i) <= sent_after(len, j) <= len,
{
    assert((i + 1) * 182 <= (j + 1) * 182) by (nonlinear_arith)
        requires
            i <= j,
    ;
}

/// A job stays well formed, whatever the outcome.
pub proof fn lemma_job_stays_wf(job: JobView, outcome: OutcomeView)
    requires
        job.wf(),
    ensures
        job.next(outcome).wf(),
        job.next(outcome).payload == job.payload,
        job.next(outcome).width == job.width,
        job.next(outcome).height == job.height,
{
}

proof fn lemma_progress_from(job: JobView, outcomes: Seq<OutcomeView>)
    requires
        job.wf(),
    ensures
        forall|k: int|
            0 <= k < job_run(job, outcomes).len() && (#[trigger] job_run(
                job,
                outcomes,
            )[k]) is PrintProgress ==> {
                &&& least_report(job) <= reported_sent(job_run(job, outcomes)[k])
                &&& reported_sent(job_run(job, outcomes)[k]) <= job.payload.len()
                &&& reported_total(job_run(job, outcomes)[k]) == job.payload.len()
            },
        forall|a: int, b: int|
            0 <= a < b < job_run(job, outcomes).len() && (#[trigger] job_run(
                job,
                outcomes,
            )[a]) is PrintProgress && (#[trigger] job_run(job, outcomes)[b]) is PrintProgress
                ==> reported_sent(job_run(job, outcomes)[a]) <= reported_sent(
                job_run(job, outcomes)[b],
            ),
    decreases outcomes.len(),
{
    let all = job_run(job, outcomes);
    if outcomes.len() > 0 {
        let first = job.emits(outcomes[0]);
        let next = job.next(outcomes[0]);
        let rest = job_run(next, outcomes.drop_first());
        let len = job.payload.len();
        lemma_job_stays_wf(job, outcomes[0]);
        lemma_progress_from(next, outcomes.drop_first());
        assert(all == first + rest);
        assert(first.len() <= 2);
        // What this step reports lies between the least report of the job
        // and that of the job that follows.
        assert forall|k: int| 0 <= k < first.len() && (#[trigger] first[k]) is PrintProgress implies {
            &&& least_report(job) <= reported_sent(first[k])
            &&& reported_sent(first[k]) <= least_report(next)
            &&& reported_sent(first[k]) <= len
            &&& reported_total(first[k]) == len
        } by {
            match job.phase {
                JobPhaseView::Data(i) => {
                    lemma_sent_after_grows(len, i, i + 1);
                },
                _ => {},
            }
        }
        assert(least_report(job) <= least_report(next)) by {
            match job.phase {
                JobPhaseView::Data(i) => {
                    lemma_sent_after_grows(len, i, i + 1);
                },
                _ => {},
            }
        }
        assert forall|k: int| 0 <= k < all.len() && (#[trigger] all[k]) is PrintProgress implies {
            &&& least_report(job) <= reported_sent(all[k])
            &&& reported_sent(all[k]) <= len
            &&& reported_total(all[k]) == len
        } by {
            if k < first.len() {
                assert(all[k] == first[k]);
            } else {
                assert(all[k] == rest[k - first.len()]);
            }
        }
        assert forall|a: int, b: int|
            0 <= a < b < all.len() && (#[trigger] all[a]) is PrintProgress && (#[trigger] all[b])
                is PrintProgress implies reported_sent(all[a]) <= reported_sent(all[b]) by {
            if b < first.len() {
                // A step reports progress at most once.
                assert(all[a] == first[a]);
                assert(all[b] == first[b]);
            } else if a < first.len() {
                assert(all[a] == first[a]);
                assert(all[b] == rest[b - first.len()]);
            } else {
                assert(all[a] == rest[a - first.len()]);
                assert(all[b] == rest[b - first.len()]);
            }
        }
    }
}

/// Within a job, the number of bytes reported as sent never decreases and
/// never exceeds the total, which is the length of the payload.
pub proof fn lemma_progress_is_monotonic(
    job: JobView,
    outcomes: Seq<OutcomeView>,
    a: int,
    b: int,
)
    requires
        job.wf(),
        0 <= a <= b < job_run(job, outcomes).len(),
        job_run(job, outcomes)[a] is PrintProgress,
        job_run(job, outcomes)[b] is PrintProgress,
    ensures
        reported_sent(job_run(job, outcomes)[a]) <= reported_sent(job_run(job, outcomes)[b]),
        reported_sent(job_run(job, outcomes)[b]) <= reported_total(job_run(job, outcomes)[b]),
        reported_total(job_run(job, outcomes)[b]) == job.payload.len(),
{
    lemma_progress_from(job, outcomes);
}

/// Where progress is reported for a chunk, the report tells of the whole
/// payload as sent exactly if the chunk is the last one. So the last report
/// of a job of more than ten chunks reaches the total exactly if the number
/// of chunks is one more than a multiple of ten.
pub proof fn lemma_report_reaches_total(len: nat, i: nat)
    requires
        i < chunk_count(len),
    ensures
        sent_after(len, i) == len <==> i + 1 == chunk_count(len),
        progress_due(i, chunk_count(len)) && i + 1 == chunk_count(len) ==> (chunk_count(len) - 1)
            % 10 == 0,
{
    let count = chunk_count(len);
    assert((i + 1) * 182 == i * 182 + 182) by (nonlinear_arith);
    if i + 1 < count {
        assert((i + 1) * 182 < len) by (nonlinear_arith)
            requires
                i + 1 < (len + 181) / 182,
        ;
    } else {
        assert((i + 1) * 182 >= len) by (nonlinear_arith)
            requires
                i + 1 == (len + 181) / 182,
        ;
    }
}

/// The index of the last chunk after which progress is reported, among
/// `count` chunks.
pub open spec fn last_report(count: nat) -> nat {
    ((count - 1) / 10 * 10) as nat
}

/// A job of more than ten chunks reports progress for the last time after
/// chunk `last_report`, and that report tells of the whole payload as sent
/// exactly if the number of chunks is one more than a multiple of ten.
pub proof fn lemma_last_report(len: nat)
    requires
        chunk_count(len) > 10,
    ensures
        last_report(chunk_count(len)) < chunk_count(len),
        progress_due(last_report(chunk_count(len)), chunk_count(len)),
        forall|i: nat|
            last_report(chunk_count(len)) < i < chunk_count(len) ==> !#[trigger] progress_due(
                i,
                chunk_count(len),
            ),
        sent_after(len, last_report(chunk_count(len))) == len <==> (chunk_count(len) - 1) % 10
            == 0,
{
    let count = chunk_count(len);
    let last = last_report(count);
    assert(last <= count - 1 && last % 10 == 0 && count - 1 - last < 10 && (last == count - 1
        <==> (count - 1) % 10 == 0)) by (nonlinear_arith)
        requires
            count > 10,
            last == (count - 1) / 10 * 10,
    ;
    lemma_report_reaches_total(len, last);
    assert forall|i: nat| last < i < count implies !#[trigger] progress_due(i, count) by {
        assert(i % 10 != 0) by (nonlinear_arith)
            requires
                last < i,
                i - last < 10,
                last % 10 == 0,
        ;
    }
}

/// Where the number of chunks is at most ten, no progress is reported; where
/// it is one more than a multiple of ten, the last report tells of the whole
/// payload as sent.
pub proof fn lemma_last_report_reaches_total(len: nat)
    requires
        chunk_count(len) <= 10 || (chunk_count(len) - 1) % 10 == 0,
    ensures
        chunk_count(len) <= 10 ==> forall|i: nat| !#[trigger] progress_due(i, chunk_count(len)),
        chunk_count(len) > 10 ==> sent_after(len, last_report(chunk_count(len))) == len,
{
    if chunk_count(len) > 10 {
        lemma_last_report(len);
    }
}

/// A job that ends tells so: its last step publishes `PrintComplete`, or it
/// publishes an error and that alone.
pub proof fn lemma_job_end_is_published(job: JobView, outcome: OutcomeView)
    requires
        job.wf(),
        !(job.phase is Finished),
        job.next(outcome).phase is Finished,
    ensures
        job.emits(outcome).len() > 0,
        job.emits(outcome).last() is PrintComplete || (job.emits(outcome).len() == 1
            && job.emits(outcome).last() is Error),
        outcome is Done <==> job.emits(outcome).last() is PrintComplete,
{
}

/// A job publishes `PrintComplete` only as the last event of its last step,
/// after the end command was acknowledged and the closing pause is over.
pub proof fn lemma_complete_only_at_end(job: JobView, outcome: OutcomeView, k: int)
    requires
        0 <= k < job.emits(outcome).len(),
        job.emits(outcome)[k] is PrintComplete,
    ensures
        job.phase is EndPause,
        outcome is Done,
        job.next(outcome).phase is Finished,
        k == job.emits(outcome).len() - 1,
{
}

} // verus!
