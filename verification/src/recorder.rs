//! Video capture abstraction.
//!
//! The recording controller is driven through a [`Recorder`] so that the
//! combat-log state machine can be built and tested without the OBS
//! toolchain. Until the OBS backend is wired, [`NoopRecorder`] stands in and
//! records nothing but the timing.

use vstd::prelude::*;

use crate::config::Config;

verus! {

/// The WoW window, for the capture backend to target.
pub const WOW_WINDOW_TITLE: &'static str = "World of Warcraft";

pub const WOW_WINDOW_CLASS: &'static str = "GxWindowClass";

pub const WOW_WINDOW_PROCESS: &'static str = "Wow.exe";

/// Why a capture backend refused a request.
#[derive(Debug)]
pub enum Error {
    /// The backend itself failed.
    Backend(String),
    /// A capture was asked to start while one is running.
    Busy,
    /// A capture was asked to stop while none is running.
    Idle,
}

/// The text of an error, as it is shown to the user.
pub open spec fn error_text(e: Error) -> Seq<char> {
    match e {
        Error::Backend(m) => "capture backend error: "@ + m@,
        Error::Busy => "recorder is already running"@,
        Error::Idle => "no recording in progress"@,
    }
}

impl Error {
    /// The text of this error (see [`error_text`]).
    pub fn message(&self) -> (s: String)
        ensures
            s@ == error_text(*self),
    {
        match self {
            Error::Backend(m) => {
                let mut s = "capture backend error: ".to_owned();
                s.append(m.as_str());
                s
            },
            Error::Busy => "recorder is already running".to_owned(),
            Error::Idle => "no recording in progress".to_owned(),
        }
    }
}

/// A capture backend.
pub trait Recorder: Send {
    /// The backend's short name, for logging.
    spec fn name_of(&self) -> Seq<char>;

    /// The file the running capture writes to, if one is running.
    spec fn capture_target(&self) -> Option<Seq<char>>;

    /// Begin capturing the WoW window to `output` (an `.mp4` path). Once
    /// started, the capture writes to `output`.
    fn start(&mut self, output: &str, config: &Config) -> (r: Result<(), Error>)
        ensures
            r is Ok ==> final(self).capture_target() == Some(output@),
    ;

    /// Stop the current capture and finalize the file.
    fn stop(&mut self) -> Result<(), Error>;

    /// A short name for logging.
    fn backend_name(&self) -> (r: &'static str)
        ensures
            r@ == self.name_of(),
    ;
}

/// Records nothing; used until the OBS backend is wired, and for tests.
pub struct NoopRecorder {
    running: bool,
    /// The file it pretends to record to.
    target: Option<String>,
}

impl View for NoopRecorder {
    /// Whether a (pretend) capture is running.
    type V = bool;

    closed spec fn view(&self) -> bool {
        self.running
    }
}

impl Default for NoopRecorder {
    fn default() -> (r: Self)
        ensures
            !r@,
            r.capture_target() is None,
    {
        NoopRecorder { running: false, target: None }
    }
}

impl NoopRecorder {
    /// A file is named exactly while a capture runs.
    #[verifier::type_invariant]
    spec fn target_while_running(&self) -> bool {
        self.running == self.target is Some
    }

    /// The file it pretends to record to, while it runs.
    pub fn target(&self) -> (r: Option<String>)
        ensures
            match r {
                Some(t) => self.capture_target() == Some(t@),
                None => self.capture_target() is None,
            },
    {
        match &self.target {
            Some(t) => Some(t.clone()),
            None => None,
        }
    }
}

impl Recorder for NoopRecorder {
    open spec fn name_of(&self) -> Seq<char> {
        "noop"@
    }

    closed spec fn capture_target(&self) -> Option<Seq<char>> {
        match self.target {
            Some(t) => Some(t@),
            None => None,
        }
    }

    /// Starts a pretend capture to `output`; refused with [`Error::Busy`],
    /// and nothing changed, while one runs.
    fn start(&mut self, output: &str, config: &Config) -> (r: Result<(), Error>)
        ensures
            old(self)@ ==> (r matches Err(Error::Busy)) && *final(self) == *old(self),
            !old(self)@ ==> r is Ok && final(self)@,
    {
        if self.running {
            return Err(Error::Busy);
        }
        *self = NoopRecorder { running: true, target: Some(output.to_owned()) };
        Ok(())
    }

    /// Stops the pretend capture; refused with [`Error::Idle`] when none runs.
    fn stop(&mut self) -> (r: Result<(), Error>)
        ensures
            !old(self)@ ==> (r matches Err(Error::Idle)) && !final(self)@,
            old(self)@ ==> r is Ok && !final(self)@,
            final(self).capture_target() is None,
    {
        proof {
            use_type_invariant(&*self);
        }
        if !self.running {
            return Err(Error::Idle);
        }
        *self = NoopRecorder { running: false, target: None };
        Ok(())
    }

    fn backend_name(&self) -> (r: &'static str) {
        proof {
            reveal_strlit("noop");
        }
        "noop"
    }
}

/// The libobs capture backend; not available in this build, so it cannot be
/// created and refuses every request.
pub struct ObsRecorder {}

/// The text the OBS backend fails with.
pub open spec fn obs_unavailable() -> Seq<char> {
    "OBS backend not yet implemented"@
}

impl ObsRecorder {
    /// Fails: the OBS backend is not available.
    pub fn new() -> (r: Result<Self, Error>)
        ensures
            r matches Err(Error::Backend(m)) && m@ == obs_unavailable(),
    {
        Err(Error::Backend("OBS backend not yet implemented".to_owned()))
    }
}

impl Recorder for ObsRecorder {
    open spec fn name_of(&self) -> Seq<char> {
        "obs"@
    }

    open spec fn capture_target(&self) -> Option<Seq<char>> {
        None
    }

    fn start(&mut self, output: &str, config: &Config) -> (r: Result<(), Error>)
        ensures
            r matches Err(Error::Backend(m)) && m@ == obs_unavailable(),
    {
        Err(Error::Backend("OBS backend not yet implemented".to_owned()))
    }

    fn stop(&mut self) -> (r: Result<(), Error>)
        ensures
            r matches Err(Error::Backend(m)) && m@ == obs_unavailable(),
    {
        Err(Error::Backend("OBS backend not yet implemented".to_owned()))
    }

    fn backend_name(&self) -> (r: &'static str) {
        proof {
            reveal_strlit("obs");
        }
        "obs"
    }
}

/// A capture backend chosen when the app starts.
pub enum Backend {
    Noop(NoopRecorder),
    Obs(ObsRecorder),
}

impl Backend {
    /// Whether a capture is running.
    pub open spec fn is_capturing(&self) -> bool {
        match self {
            Backend::Noop(n) => n@,
            Backend::Obs(_) => false,
        }
    }
}

/// What starting a capture on `b` answers: the no-op backend refuses with
/// [`Error::Busy`] while capturing and succeeds otherwise; the OBS backend
/// always fails.
pub open spec fn start_outcome(b: Backend, r: Result<(), Error>) -> bool {
    match b {
        Backend::Noop(n) => if n@ {
            r matches Err(Error::Busy)
        } else {
            r is Ok
        },
        Backend::Obs(_) => r matches Err(Error::Backend(m)) && m@ == obs_unavailable(),
    }
}

/// What stopping a capture on `b` answers: the no-op backend refuses with
/// [`Error::Idle`] while not capturing and succeeds otherwise; the OBS
/// backend always fails.
pub open spec fn stop_outcome(b: Backend, r: Result<(), Error>) -> bool {
    match b {
        Backend::Noop(n) => if n@ {
            r is Ok
        } else {
            r matches Err(Error::Idle)
        },
        Backend::Obs(_) => r matches Err(Error::Backend(m)) && m@ == obs_unavailable(),
    }
}

/// Whether `a` and `b` are the same kind of backend.
pub open spec fn same_kind(a: Backend, b: Backend) -> bool {
    (a is Noop) == (b is Noop)
}

impl Recorder for Backend {
    open spec fn name_of(&self) -> Seq<char> {
        match self {
            Backend::Noop(n) => n.name_of(),
            Backend::Obs(o) => o.name_of(),
        }
    }

    open spec fn capture_target(&self) -> Option<Seq<char>> {
        match self {
            Backend::Noop(n) => n.capture_target(),
            Backend::Obs(o) => o.capture_target(),
        }
    }

    /// Starts a capture on the chosen backend; a refused start changes
    /// nothing.
    fn start(&mut self, output: &str, config: &Config) -> (r: Result<(), Error>)
        ensures
            start_outcome(*old(self), r),
            same_kind(*old(self), *final(self)),
            final(self).is_capturing() == (old(self).is_capturing() || r is Ok),
            r is Err ==> *final(self) == *old(self),
    {
        match self {
            Backend::Noop(n) => n.start(output, config),
            Backend::Obs(o) => o.start(output, config),
        }
    }

    /// Stops the capture on the chosen backend.
    fn stop(&mut self) -> (r: Result<(), Error>)
        ensures
            stop_outcome(*old(self), r),
            same_kind(*old(self), *final(self)),
            !final(self).is_capturing(),
            final(self).capture_target() is None,
    {
        match self {
            Backend::Noop(n) => n.stop(),
            Backend::Obs(o) => o.stop(),
        }
    }

    fn backend_name(&self) -> (r: &'static str) {
        match self {
            Backend::Noop(n) => n.backend_name(),
            Backend::Obs(o) => o.backend_name(),
        }
    }
}

impl Backend {
    /// The file the running capture writes to, if the backend knows one.
    pub fn target(&self) -> (r: Option<String>)
        ensures
            match r {
                Some(t) => self.capture_target() == Some(t@),
                None => self.capture_target() is None,
            },
    {
        match self {
            Backend::Noop(n) => n.target(),
            Backend::Obs(_) => None,
        }
    }
}

/// Constructs the capture backend: the OBS one if it can be created, else
/// the no-op one, idle, which is what this build always gives.
pub fn make_recorder() -> (r: Backend)
    ensures
        r matches Backend::Noop(n) && !n@,
        r.name_of() == "noop"@,
        r.capture_target() is None,
{
    match ObsRecorder::new() {
        Ok(obs) => Backend::Obs(obs),
        Err(_) => Backend::Noop(NoopRecorder::default()),
    }
}

/// One capture at a time: a backend that is capturing refuses to start
/// another, and one that is not refuses to stop; the no-op backend grants
/// every other request.
pub proof fn law_one_capture_at_a_time(b: Backend, r: Result<(), Error>)
    ensures
        b.is_capturing() && start_outcome(b, r) ==> r is Err,
        !b.is_capturing() && stop_outcome(b, r) ==> r is Err,
        b is Noop && !b.is_capturing() && start_outcome(b, r) ==> r is Ok,
        b is Noop && b.is_capturing() && stop_outcome(b, r) ==> r is Ok,
{
}

} // verus!
