//! Bounded help probes: the limits a probe runs under, how captured output is
//! kept within its cap, what the lifecycle loop does next, and the errors a
//! probe reports. Spawning, polling and reaping processes is left to callers.
use vstd::prelude::*;
use crate::text::{push_decimal, decimal};

verus! {

/// An I/O error of the operating system, carried through probe errors.
#[verifier::external_type_specification]
#[verifier::external_body]
pub struct ExIoError(std::io::Error);

/// Nanoseconds in the default probe timeout, two seconds.
pub const DEFAULT_TIMEOUT_NANOS: u128 = 2000000000;
pub const DEFAULT_STDOUT_CAP: usize = 4194304;
pub const DEFAULT_STDERR_CAP: usize = 1048576;
pub const MAX_STREAM_CAP: usize = 16777216;

/// Nanoseconds in the longest accepted probe timeout.
pub const MAX_TIMEOUT_NANOS: u128 = 30000000000;

/// How a probe runs: whether execution is allowed, its timeout in
/// nanoseconds, and the caps on captured standard output and error.
#[derive(Clone, Debug)]
pub struct ProbeConfig {
    pub execution_enabled: bool,
    pub timeout_nanos: u128,
    pub stdout_cap: usize,
    pub stderr_cap: usize,
}

#[derive(Debug)]
pub enum ProbeError {
    ExecutionDisabled,
    InvalidConfig(&'static str),
    InvalidRequest(&'static str),
    EmptyArgument(usize),
    Spawn(std::io::Error),
    Wait(std::io::Error),
    Terminate(std::io::Error),
    MissingPipe(&'static str),
    CaptureIo(std::io::Error),
    CaptureThreadPanic(&'static str),
}

/// What `check_probe_limits` gives for a timeout of `timeout_nanos` and the two caps.
pub open spec fn limits_result(timeout_nanos: u128, stdout_cap: usize, stderr_cap: usize) -> Result<(), ProbeError> {
    if timeout_nanos == 0 || timeout_nanos > MAX_TIMEOUT_NANOS {
        Err(ProbeError::InvalidConfig("timeout must be greater than zero and at most 30 seconds"))
    } else if stdout_cap == 0 || stdout_cap > MAX_STREAM_CAP {
        Err(ProbeError::InvalidConfig("stdout cap must be between 1 byte and 16 MiB"))
    } else if stderr_cap == 0 || stderr_cap > MAX_STREAM_CAP {
        Err(ProbeError::InvalidConfig("stderr cap must be between 1 byte and 16 MiB"))
    } else {
        Ok(())
    }
}

/// Checks a timeout (in nanoseconds) and two stream caps against the probe limits.
pub fn check_probe_limits(timeout_nanos: u128, stdout_cap: usize, stderr_cap: usize) -> (r: Result<(), ProbeError>)
    ensures
        r == limits_result(timeout_nanos, stdout_cap, stderr_cap),
{
    if timeout_nanos == 0 || timeout_nanos > MAX_TIMEOUT_NANOS {
        return Err(ProbeError::InvalidConfig("timeout must be greater than zero and at most 30 seconds"));
    }
    if stdout_cap == 0 || stdout_cap > MAX_STREAM_CAP {
        return Err(ProbeError::InvalidConfig("stdout cap must be between 1 byte and 16 MiB"));
    }
    if stderr_cap == 0 || stderr_cap > MAX_STREAM_CAP {
        return Err(ProbeError::InvalidConfig("stderr cap must be between 1 byte and 16 MiB"));
    }
    Ok(())
}

impl ProbeConfig {
    /// Checks the configuration's timeout and caps against the probe limits.
    pub fn validate(&self) -> (r: Result<(), ProbeError>)
        ensures
            r == limits_result(self.timeout_nanos, self.stdout_cap, self.stderr_cap),
    {
        check_probe_limits(self.timeout_nanos, self.stdout_cap, self.stderr_cap)
    }
}

impl Default for ProbeConfig {
    /// Execution off, a two-second timeout and the default caps.
    fn default() -> (config: Self)
        ensures
            !config.execution_enabled,
            config.timeout_nanos == DEFAULT_TIMEOUT_NANOS,
            config.stdout_cap == DEFAULT_STDOUT_CAP,
            config.stderr_cap == DEFAULT_STDERR_CAP,
    {
        ProbeConfig {
            execution_enabled: false,
            timeout_nanos: DEFAULT_TIMEOUT_NANOS,
            stdout_cap: DEFAULT_STDOUT_CAP,
            stderr_cap: DEFAULT_STDERR_CAP,
        }
    }
}

/// A runner is made exactly when the configuration's check passes, and the
/// check's error is returned otherwise.
pub open spec fn runner_result(checked: Result<(), ProbeError>, config: ProbeConfig, r: Result<ProbeRunner, ProbeError>) -> bool {
    match checked {
        Ok(()) => r matches Ok(runner) && runner.spec_config() == config,
        Err(error) => r == Err::<ProbeRunner, ProbeError>(error),
    }
}

/// Runs probes under a validated configuration.
#[derive(Debug)]
pub struct ProbeRunner {
    config: ProbeConfig,
}

impl ProbeRunner {
    pub closed spec fn spec_config(&self) -> ProbeConfig {
        self.config
    }

    /// A runner for `config`, which must pass `ProbeConfig::validate`.
    pub fn new(config: ProbeConfig) -> (r: Result<Self, ProbeError>)
        ensures
            runner_result(limits_result(config.timeout_nanos, config.stdout_cap, config.stderr_cap), config, r),
    {
        match config.validate() {
            Ok(()) => Ok(ProbeRunner { config }),
            Err(error) => Err(error),
        }
    }

    /// A probe may run only when the configuration enables execution.
    pub fn check_execution(&self) -> (r: Result<(), ProbeError>)
        ensures
            self.spec_config().execution_enabled ==> r is Ok,
            !self.spec_config().execution_enabled ==> r matches Err(ProbeError::ExecutionDisabled),
    {
        if self.config.execution_enabled {
            Ok(())
        } else {
            Err(ProbeError::ExecutionDisabled)
        }
    }

    pub fn config(&self) -> (c: &ProbeConfig)
        ensures
            *c == self.spec_config(),
    {
        &self.config
    }
}

/// How a probed process ended: its exit code, or the signal that ended it.
#[derive(Clone, Copy, Debug, PartialEq, Eq)]
pub struct ProbeStatus {
    pub code: Option<i32>,
    pub signal: Option<i32>,
}

/// Captured output as values.
pub struct CaptureModel {
    pub bytes: Seq<u8>,
    pub total: int,
    pub truncated: bool,
}

/// The capture after one more chunk, under `cap`.
pub open spec fn absorbed(c: CaptureModel, chunk: Seq<u8>, cap: int) -> CaptureModel {
    let room = if c.bytes.len() >= cap { 0 } else { cap - c.bytes.len() };
    let kept = if chunk.len() <= room { chunk.len() as int } else { room };
    CaptureModel {
        bytes: c.bytes + chunk.take(kept),
        total: if c.total + chunk.len() > u64::MAX { u64::MAX as int } else { c.total + chunk.len() },
        truncated: c.truncated || kept != chunk.len(),
    }
}

/// The capture after each of `chunks` in turn.
pub open spec fn absorbed_all(c: CaptureModel, chunks: Seq<Seq<u8>>, cap: int) -> CaptureModel
    decreases chunks.len(),
{
    if chunks.len() == 0 {
        c
    } else {
        absorbed(absorbed_all(c, chunks.drop_last(), cap), chunks.last(), cap)
    }
}

/// All chunks, one after another.
pub open spec fn concatenated(chunks: Seq<Seq<u8>>) -> Seq<u8>
    decreases chunks.len(),
{
    if chunks.len() == 0 {
        Seq::empty()
    } else {
        concatenated(chunks.drop_last()) + chunks.last()
    }
}

/// However a stream arrives in chunks, an empty capture ends up holding the
/// stream's first `cap` bytes, truncated exactly when the stream is longer
/// than the cap, with the stream's length as its total (saturating at
/// `u64::MAX`).
pub proof fn law_capture_keeps_the_prefix(chunks: Seq<Seq<u8>>, cap: int)
    requires
        cap >= 0,
    ensures
        ({
            let stream = concatenated(chunks);
            let c = absorbed_all(CaptureModel { bytes: Seq::empty(), total: 0, truncated: false }, chunks, cap);
            &&& c.bytes == stream.take(if stream.len() <= cap { stream.len() as int } else { cap })
            &&& c.truncated == (stream.len() > cap)
            &&& c.total == if stream.len() > u64::MAX { u64::MAX as int } else { stream.len() as int }
        }),
    decreases chunks.len(),
{
    let empty = CaptureModel { bytes: Seq::empty(), total: 0, truncated: false };
    if chunks.len() == 0 {
        assert(concatenated(chunks).take(0) =~= Seq::<u8>::empty());
    } else {
        let front = chunks.drop_last();
        let chunk = chunks.last();
        law_capture_keeps_the_prefix(front, cap);
        let before = concatenated(front);
        let stream = concatenated(chunks);
        assert(stream == before + chunk);
        let c = absorbed_all(empty, front, cap);
        let kept_before = if before.len() <= cap { before.len() as int } else { cap };
        assert(c.bytes.len() == kept_before);
        let room = if c.bytes.len() >= cap { 0 } else { cap - c.bytes.len() };
        let kept = if chunk.len() <= room { chunk.len() as int } else { room };
        let after = if stream.len() <= cap { stream.len() as int } else { cap };
        assert(kept_before + kept == after);
        assert(c.bytes + chunk.take(kept) =~= stream.take(after));
    }
}

/// Output captured from one stream, kept up to a cap.
#[derive(Debug)]
pub struct CapturedOutput {
    pub bytes: Vec<u8>,
    pub total_bytes: u64,
    pub truncated: bool,
}

impl CapturedOutput {
    /// Nothing captured yet.
    pub fn new() -> (c: Self)
        ensures
            c.bytes@ == Seq::<u8>::empty(),
            c.total_bytes == 0,
            !c.truncated,
    {
        CapturedOutput { bytes: Vec::new(), total_bytes: 0, truncated: false }
    }

    pub open spec fn model(&self) -> CaptureModel {
        CaptureModel { bytes: self.bytes@, total: self.total_bytes as int, truncated: self.truncated }
    }

    /// Takes in one chunk read from the stream: the total counts every byte
    /// (saturating), the kept bytes grow by as much of the chunk as the cap
    /// leaves room for, and the capture is truncated once a byte is dropped.
    pub fn absorb(&mut self, chunk: &[u8], cap: usize)
        ensures
            final(self).model() == absorbed(old(self).model(), chunk@, cap as int),
    {
        let count = chunk.len();
        let count64 = count as u64;
        proof {
            assert(count64 == count) by {
                assert(count <= usize::MAX);
                assert(usize::MAX <= u64::MAX);
            }
        }
        self.total_bytes = self.total_bytes.saturating_add(count64);
        let room = cap.saturating_sub(self.bytes.len());
        let retained = if count <= room { count } else { room };
        let mut i: usize = 0;
        let ghost start = self.bytes@;
        let ghost total = self.total_bytes;
        let ghost was_truncated = self.truncated;
        while i < retained
            invariant
                self.total_bytes == total,
                self.truncated == was_truncated,
                retained <= chunk@.len(),
                0 <= i <= retained,
                self.bytes@ == start + chunk@.take(i as int),
            decreases retained - i,
        {
            proof {
                assert(chunk@.take(i as int + 1) =~= chunk@.take(i as int).push(chunk@[i as int]));
            }
            self.bytes.push(chunk[i]);
            i = i + 1;
        }
        self.truncated = self.truncated || retained != count;
    }
}

/// What the probe lifecycle loop does next.
#[derive(Clone, Copy, Debug, PartialEq, Eq)]
pub enum ProbeAction {
    /// Both streams are drained and the exit status is known.
    Finish,
    /// The deadline passed before the exit status was seen: look once more.
    CheckStatusAgain,
    /// The deadline passed: terminate the process group and report a timeout.
    TimeOut,
    /// Nothing to do yet: sleep briefly and look again.
    Sleep,
}

/// The lifecycle decision, from what the loop has observed: whether the exit
/// status is known, whether both readers have finished, whether the deadline
/// has passed, and whether the status was already looked for again after it.
pub open spec fn probe_action(status_known: bool, readers_finished: bool, deadline_passed: bool, rechecked: bool) -> ProbeAction {
    if readers_finished && status_known {
        ProbeAction::Finish
    } else if deadline_passed {
        if !status_known && !rechecked {
            ProbeAction::CheckStatusAgain
        } else {
            ProbeAction::TimeOut
        }
    } else {
        ProbeAction::Sleep
    }
}

pub fn next_probe_action(status_known: bool, readers_finished: bool, deadline_passed: bool, rechecked: bool) -> (a: ProbeAction)
    ensures
        a == probe_action(status_known, readers_finished, deadline_passed, rechecked),
{
    if readers_finished && status_known {
        ProbeAction::Finish
    } else if deadline_passed {
        if !status_known && !rechecked {
            ProbeAction::CheckStatusAgain
        } else {
            ProbeAction::TimeOut
        }
    } else {
        ProbeAction::Sleep
    }
}

/// The first position at or after `i` that holds `true`.
pub open spec fn first_set(flags: Seq<bool>, i: int) -> Option<int>
    decreases flags.len() - i,
{
    if i < 0 || i >= flags.len() {
        None
    } else if flags[i] {
        Some(i)
    } else {
        first_set(flags, i + 1)
    }
}

/// What `check_request` gives for a request's executable and arguments.
pub open spec fn request_result(executable_empty: bool, executable_absolute: bool, argument_empty: Seq<bool>) -> Result<(), ProbeError> {
    if executable_empty {
        Err(ProbeError::InvalidRequest("executable must not be empty"))
    } else if !executable_absolute {
        Err(ProbeError::InvalidRequest("executable must be an absolute path"))
    } else {
        match first_set(argument_empty, 0) {
            Some(i) => Err(ProbeError::EmptyArgument(i as usize)),
            None => Ok(()),
        }
    }
}

/// Checks a probe request: the executable must be a nonempty absolute path,
/// and the first empty argument, if any, is reported by its index.
pub fn check_request(executable_empty: bool, executable_absolute: bool, argument_empty: &[bool]) -> (r: Result<(), ProbeError>)
    ensures
        r == request_result(executable_empty, executable_absolute, argument_empty@),
{
    if executable_empty {
        return Err(ProbeError::InvalidRequest("executable must not be empty"));
    }
    if !executable_absolute {
        return Err(ProbeError::InvalidRequest("executable must be an absolute path"));
    }
    let mut i: usize = 0;
    while i < argument_empty.len()
        invariant
            !executable_empty,
            executable_absolute,
            0 <= i <= argument_empty@.len(),
            first_set(argument_empty@, i as int) == first_set(argument_empty@, 0),
        decreases argument_empty@.len() - i,
    {
        if argument_empty[i] {
            assert(first_set(argument_empty@, i as int) == Some(i as int));
            return Err(ProbeError::EmptyArgument(i));
        }
        i = i + 1;
    }
    Ok(())
}

/// `Display` of an operating-system error. Its text comes from the system, so
/// nothing is claimed of it.
#[verifier::external_body]
pub(crate) fn io_error_text(error: &std::io::Error) -> String {
    format!("{}", error)
}

/// Appends the text of an I/O error after `prefix`.
fn with_io_text(prefix: &str, error: &std::io::Error) -> (s: String)
    ensures
        s@.len() >= prefix@.len(),
        s@.subrange(0, prefix@.len() as int) == prefix@,
{
    let mut s = prefix.to_owned();
    let text = io_error_text(error);
    s.append(text.as_str());
    proof {
        assert(s@.subrange(0, prefix@.len() as int) =~= prefix@);
    }
    s
}

impl ProbeError {
    /// The message that describes the error; for an I/O error the system's
    /// text follows the prefix.
    pub fn message(&self) -> (m: String)
        ensures
            match self {
                ProbeError::ExecutionDisabled => m@ == "probe execution is disabled"@,
                ProbeError::InvalidConfig(message) => m@ == "invalid probe config: "@ + message@,
                ProbeError::InvalidRequest(message) => m@ == "invalid probe request: "@ + message@,
                ProbeError::EmptyArgument(index) => m@ == "probe argv element "@ + decimal(*index as nat) + " is empty"@,
                ProbeError::Spawn(_) => m@.len() >= "failed to spawn probe: "@.len()
                    && m@.subrange(0, "failed to spawn probe: "@.len() as int) == "failed to spawn probe: "@,
                ProbeError::Wait(_) => m@.len() >= "failed to wait for probe: "@.len()
                    && m@.subrange(0, "failed to wait for probe: "@.len() as int) == "failed to wait for probe: "@,
                ProbeError::Terminate(_) => m@.len() >= "failed to terminate probe: "@.len()
                    && m@.subrange(0, "failed to terminate probe: "@.len() as int) == "failed to terminate probe: "@,
                ProbeError::MissingPipe(stream) => m@ == "probe "@ + stream@ + " pipe is unavailable"@,
                ProbeError::CaptureIo(_) => m@.len() >= "failed to capture probe output: "@.len()
                    && m@.subrange(0, "failed to capture probe output: "@.len() as int) == "failed to capture probe output: "@,
                ProbeError::CaptureThreadPanic(stream) => m@ == "probe "@ + stream@ + " capture thread panicked"@,
            },
    {
        match self {
            ProbeError::ExecutionDisabled => "probe execution is disabled".to_owned(),
            ProbeError::InvalidConfig(message) => {
                let mut s = "invalid probe config: ".to_owned();
                s.append(message);
                s
            },
            ProbeError::InvalidRequest(message) => {
                let mut s = "invalid probe request: ".to_owned();
                s.append(message);
                s
            },
            ProbeError::EmptyArgument(index) => {
                let mut s = "probe argv element ".to_owned();
                push_decimal(&mut s, *index);
                s.append(" is empty");
                s
            },
            ProbeError::Spawn(error) => with_io_text("failed to spawn probe: ", error),
            ProbeError::Wait(error) => with_io_text("failed to wait for probe: ", error),
            ProbeError::Terminate(error) => with_io_text("failed to terminate probe: ", error),
            ProbeError::MissingPipe(stream) => {
                let mut s = "probe ".to_owned();
                s.append(stream);
                s.append(" pipe is unavailable");
                s
            },
            ProbeError::CaptureIo(error) => with_io_text("failed to capture probe output: ", error),
            ProbeError::CaptureThreadPanic(stream) => {
                let mut s = "probe ".to_owned();
                s.append(stream);
                s.append(" capture thread panicked");
                s
            },
        }
    }
}

/// What one turn of reading a stream observed.
#[derive(Clone, Copy, Debug, PartialEq, Eq)]
pub enum CaptureEvent {
    /// The poll timed out with nothing to read.
    Idle,
    /// The pipe reported an error and nothing to read.
    PipeError,
    /// A read returned this many bytes (zero at the end of the stream).
    Read(usize),
}

/// What the stream reader does after a turn.
#[derive(Clone, Copy, Debug, PartialEq, Eq)]
pub enum CaptureAction {
    Continue,
    /// The stream ended.
    Stop,
    /// Reading was cancelled: stop, and mark the capture truncated.
    StopTruncated,
    Fail,
}

/// The reader's decision: a pipe error fails; the end of the stream stops;
/// once cancelled, a turn that read bytes or found nothing stops and marks
/// the capture truncated; otherwise reading goes on.
pub open spec fn capture_action(event: CaptureEvent, cancelled: bool) -> CaptureAction {
    match event {
        CaptureEvent::PipeError => CaptureAction::Fail,
        CaptureEvent::Read(count) => if count == 0 {
            CaptureAction::Stop
        } else if cancelled {
            CaptureAction::StopTruncated
        } else {
            CaptureAction::Continue
        },
        CaptureEvent::Idle => if cancelled {
            CaptureAction::StopTruncated
        } else {
            CaptureAction::Continue
        },
    }
}

pub fn next_capture_action(event: CaptureEvent, cancelled: bool) -> (a: CaptureAction)
    ensures
        a == capture_action(event, cancelled),
{
    match event {
        CaptureEvent::PipeError => CaptureAction::Fail,
        CaptureEvent::Read(count) => if count == 0 {
            CaptureAction::Stop
        } else if cancelled {
            CaptureAction::StopTruncated
        } else {
            CaptureAction::Continue
        },
        CaptureEvent::Idle => if cancelled {
            CaptureAction::StopTruncated
        } else {
            CaptureAction::Continue
        },
    }
}

} // verus!
