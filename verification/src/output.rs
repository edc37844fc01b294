//! Output modes and the JSON events of machine-readable output.  Writing
//! to the terminal, and encoding the events, is the program's part.
use vstd::prelude::*;

verus! {

/// How progress is reported.
#[derive(Debug, Clone, Copy, PartialEq, Eq, Structural)]
pub enum OutputMode {
    /// Human-readable output.
    Human,
    /// One JSON object per line.
    Json,
}

impl Default for OutputMode {
    fn default() -> (m: Self)
        ensures
            m == OutputMode::Human,
    {
        OutputMode::Human
    }
}

/// An event of machine-readable output.
#[derive(Debug, Clone, Copy)]
pub enum JsonEvent<'a> {
    /// The build started.
    BuildStarted { total_targets: usize, parallelism: usize },
    /// A target started building.
    TargetStarted { target: &'a str, index: usize, total: usize, command: Option<&'a str> },
    /// A target was restored from the cache.
    CacheHit { target: &'a str, index: usize, total: usize },
    /// A target finished.
    TargetFinished {
        target: &'a str,
        index: usize,
        total: usize,
        success: bool,
        error: Option<&'a str>,
    },
    /// The build finished.
    BuildFinished {
        success: bool,
        targets_built: usize,
        targets_total: usize,
        duration_ms: u64,
        cache_hits: Option<usize>,
        cache_misses: Option<usize>,
    },
    /// Nothing needed to be done.
    NoWorkToDo,
    /// An error occurred.
    Error { message: &'a str },
}

/// A line of human-readable progress; the program styles and prints it.
#[derive(Debug, Clone, Copy)]
pub enum HumanLine<'a> {
    /// An empty line on the terminal as a build starts.
    Blank,
    /// The command of a target, in verbose mode.
    Command(&'a str),
    /// `[current/total] target`: a target starts building.
    Building { current: usize, total: usize, target: &'a str },
    /// `[current/total] [CACHE] target`: a target came from the cache.
    CacheHit { current: usize, total: usize, target: &'a str },
    /// `FAILED target: message`, on standard error.
    Failed { target: &'a str, message: &'a str },
    /// `ninja: no work to do.`
    NoWork,
    /// `Built count target(s) in seconds`, marked as success.
    Built { count: usize, duration_ms: u64 },
    /// `Build failed`, marked as failure.
    BuildFailed,
}

/// What to show for a progress report: nothing, a human-readable line or
/// a JSON event.
#[derive(Debug, Clone, Copy)]
pub enum Report<'a> {
    Nothing,
    Human(HumanLine<'a>),
    Json(JsonEvent<'a>),
}

/// The progress counter of a build, which the running targets update.
#[derive(Debug, Clone, Copy)]
pub struct ProgressHandle {
    /// The number of targets of the build.
    pub total: usize,
    /// The targets started so far.
    pub built: usize,
    /// Whether standard output is a terminal.
    pub is_tty: bool,
    /// Whether commands are shown in place of target names.
    pub verbose: bool,
    /// Whether reports are shown at all.
    pub enabled: bool,
    /// Human or JSON output.
    pub output_mode: OutputMode,
}

impl ProgressHandle {
    /// A target starts building: the counter goes up by one, and the target
    /// is shown with its place (its command in verbose mode).
    pub fn building<'a>(&mut self, target: &'a str, command: Option<&'a str>) -> (r: Report<'a>)
        requires
            old(self).enabled ==> old(self).built < usize::MAX,
        ensures
            !old(self).enabled ==> *final(self) == *old(self) && r is Nothing,
            old(self).enabled ==> *final(self) == (ProgressHandle { built: (old(self).built + 1) as usize, ..*old(self) }),
            old(self).enabled ==> match old(self).output_mode {
                OutputMode::Human => if old(self).verbose {
                    match command {
                        Some(c) => r == Report::Human(HumanLine::Command(c)),
                        None => r is Nothing,
                    }
                } else {
                    r == Report::Human(HumanLine::Building { current: final(self).built, total: old(self).total, target })
                },
                OutputMode::Json => r == Report::Json(JsonEvent::TargetStarted {
                    target,
                    index: final(self).built,
                    total: old(self).total,
                    command: if old(self).verbose { command } else { None },
                }),
            },
    {
        if !self.enabled {
            return Report::Nothing;
        }
        self.built = self.built + 1;
        let current = self.built;
        match self.output_mode {
            OutputMode::Human => {
                if self.verbose {
                    match command {
                        Some(c) => Report::Human(HumanLine::Command(c)),
                        None => Report::Nothing,
                    }
                } else {
                    Report::Human(HumanLine::Building { current, total: self.total, target })
                }
            },
            OutputMode::Json => Report::Json(JsonEvent::TargetStarted {
                target,
                index: current,
                total: self.total,
                command: if self.verbose { command } else { None },
            }),
        }
    }

    /// A target finished: human output shows only a failure with its
    /// message; JSON output reports every target.
    pub fn finished<'a>(&self, target: &'a str, success: bool, error: Option<&'a str>) -> (r: Report<'a>)
        ensures
            !self.enabled ==> r is Nothing,
            self.enabled ==> match self.output_mode {
                OutputMode::Human => match error {
                    Some(m) => if success {
                        r is Nothing
                    } else {
                        r == Report::Human(HumanLine::Failed { target, message: m })
                    },
                    None => r is Nothing,
                },
                OutputMode::Json => r == Report::Json(JsonEvent::TargetFinished {
                    target,
                    index: self.built,
                    total: self.total,
                    success,
                    error,
                }),
            },
    {
        if !self.enabled {
            return Report::Nothing;
        }
        match self.output_mode {
            OutputMode::Human => {
                if !success {
                    if let Some(m) = error {
                        return Report::Human(HumanLine::Failed { target, message: m });
                    }
                }
                Report::Nothing
            },
            OutputMode::Json => Report::Json(JsonEvent::TargetFinished {
                target,
                index: self.built,
                total: self.total,
                success,
                error,
            }),
        }
    }

    /// A target was restored from the cache.
    pub fn cache_hit<'a>(&self, target: &'a str) -> (r: Report<'a>)
        ensures
            !self.enabled ==> r is Nothing,
            self.enabled ==> r == match self.output_mode {
                OutputMode::Human => Report::Human(HumanLine::CacheHit { current: self.built, total: self.total, target }),
                OutputMode::Json => Report::Json(JsonEvent::CacheHit { target, index: self.built, total: self.total }),
            },
    {
        if !self.enabled {
            return Report::Nothing;
        }
        match self.output_mode {
            OutputMode::Human => Report::Human(HumanLine::CacheHit { current: self.built, total: self.total, target }),
            OutputMode::Json => Report::Json(JsonEvent::CacheHit { target, index: self.built, total: self.total }),
        }
    }

    /// An error of a target.
    pub fn error<'a>(&self, target: &'a str, message: &'a str) -> (r: Report<'a>)
        ensures
            !self.enabled ==> r is Nothing,
            self.enabled ==> r == match self.output_mode {
                OutputMode::Human => Report::Human(HumanLine::Failed { target, message }),
                OutputMode::Json => Report::Json(JsonEvent::Error { message }),
            },
    {
        if !self.enabled {
            return Report::Nothing;
        }
        match self.output_mode {
            OutputMode::Human => Report::Human(HumanLine::Failed { target, message }),
            OutputMode::Json => Report::Json(JsonEvent::Error { message }),
        }
    }

    /// Counts a target without showing anything; the counter wraps around.
    pub fn increment(&mut self)
        ensures
            *final(self) == (ProgressHandle {
                built: vstd::wrapping::usize_specs::wrapping_add(old(self).built, 1),
                ..*old(self)
            }),
    {
        self.built = self.built.wrapping_add(1);
    }

    /// The targets counted so far.
    pub fn current(&self) -> (n: usize)
        ensures
            n == self.built,
    {
        self.built
    }

    /// The output mode.
    pub fn output_mode(&self) -> (m: OutputMode)
        ensures
            m == self.output_mode,
    {
        self.output_mode
    }
}

/// The progress reporting of a build: its counter and its parallelism.
#[derive(Debug, Clone, Copy)]
pub struct ProgressReporter {
    pub progress: ProgressHandle,
    pub parallelism: usize,
}

impl ProgressReporter {
    /// Human-readable progress of `total` targets, one job at a time;
    /// `is_tty` tells whether standard output is a terminal.
    pub fn new(total: usize, verbose: bool, is_tty: bool) -> (r: Self)
        ensures
            r == (ProgressReporter {
                progress: ProgressHandle {
                    total,
                    built: 0,
                    is_tty,
                    verbose,
                    enabled: true,
                    output_mode: OutputMode::Human,
                },
                parallelism: 1,
            }),
    {
        Self::with_mode(total, verbose, OutputMode::Human, 1, is_tty)
    }

    /// Progress of `total` targets in `output_mode`, with `parallelism`
    /// jobs; nothing counted yet, reports enabled.
    pub fn with_mode(total: usize, verbose: bool, output_mode: OutputMode, parallelism: usize, is_tty: bool) -> (r: Self)
        ensures
            r == (ProgressReporter {
                progress: ProgressHandle { total, built: 0, is_tty, verbose, enabled: true, output_mode },
                parallelism,
            }),
    {
        ProgressReporter {
            progress: ProgressHandle { total, built: 0, is_tty, verbose, enabled: true, output_mode },
            parallelism,
        }
    }

    /// The counter that the running targets update.
    pub fn handle(&mut self) -> (h: &mut ProgressHandle)
        ensures
            *h == old(self).progress,
            *final(self) == (ProgressReporter { progress: *final(h), ..*old(self) }),
    {
        &mut self.progress
    }

    /// The start of the build: an empty line on a terminal, or the JSON
    /// event with the number of targets and jobs.
    pub fn start<'a>(&self) -> (r: Report<'a>)
        ensures
            r == match self.progress.output_mode {
                OutputMode::Human => if self.progress.is_tty {
                    Report::Human(HumanLine::Blank)
                } else {
                    Report::Nothing
                },
                OutputMode::Json => Report::Json(
                    JsonEvent::BuildStarted { total_targets: self.progress.total, parallelism: self.parallelism },
                ),
            },
    {
        match self.progress.output_mode {
            OutputMode::Human => if self.progress.is_tty {
                Report::Human(HumanLine::Blank)
            } else {
                Report::Nothing
            },
            OutputMode::Json => Report::Json(
                JsonEvent::BuildStarted { total_targets: self.progress.total, parallelism: self.parallelism },
            ),
        }
    }

    /// The end of the build, without cache statistics.
    pub fn finish<'a>(&self, success: bool, duration_ms: u64) -> (r: Report<'a>)
        ensures
            r == finish_report(self.progress, success, duration_ms, None, None),
    {
        self.finish_with_cache(success, duration_ms, None, None)
    }

    /// The end of the build: no work when it succeeded without starting a
    /// target, else success with the count and time, or failure.
    pub fn finish_with_cache<'a>(
        &self,
        success: bool,
        duration_ms: u64,
        cache_hits: Option<usize>,
        cache_misses: Option<usize>,
    ) -> (r: Report<'a>)
        ensures
            r == finish_report(self.progress, success, duration_ms, cache_hits, cache_misses),
    {
        let built = self.progress.built;
        match self.progress.output_mode {
            OutputMode::Human => {
                if success {
                    if built == 0 {
                        Report::Human(HumanLine::NoWork)
                    } else {
                        Report::Human(HumanLine::Built { count: built, duration_ms })
                    }
                } else {
                    Report::Human(HumanLine::BuildFailed)
                }
            },
            OutputMode::Json => {
                if built == 0 && success {
                    Report::Json(JsonEvent::NoWorkToDo)
                } else {
                    Report::Json(JsonEvent::BuildFinished {
                        success,
                        targets_built: built,
                        targets_total: self.progress.total,
                        duration_ms,
                        cache_hits,
                        cache_misses,
                    })
                }
            },
        }
    }

    /// Turns reports off.
    pub fn disable(&mut self)
        ensures
            *final(self) == (ProgressReporter {
                progress: ProgressHandle { enabled: false, ..old(self).progress },
                ..*old(self)
            }),
    {
        self.progress.enabled = false;
    }

    /// The output mode.
    pub fn output_mode(&self) -> (m: OutputMode)
        ensures
            m == self.progress.output_mode,
    {
        self.progress.output_mode
    }
}

/// The report at the end of a build with the counter `p`.
pub open spec fn finish_report<'a>(
    p: ProgressHandle,
    success: bool,
    duration_ms: u64,
    cache_hits: Option<usize>,
    cache_misses: Option<usize>,
) -> Report<'a> {
    match p.output_mode {
        OutputMode::Human => if !success {
            Report::Human(HumanLine::BuildFailed)
        } else if p.built == 0 {
            Report::Human(HumanLine::NoWork)
        } else {
            Report::Human(HumanLine::Built { count: p.built, duration_ms })
        },
        OutputMode::Json => if p.built == 0 && success {
            Report::Json(JsonEvent::NoWorkToDo)
        } else {
            Report::Json(JsonEvent::BuildFinished {
                success,
                targets_built: p.built,
                targets_total: p.total,
                duration_ms,
                cache_hits,
                cache_misses,
            })
        },
    }
}

/// How a duration is written: in milliseconds below a second, in seconds
/// with one decimal below a minute (the program writes the decimal), else
/// in whole minutes and seconds.
#[derive(Debug, Clone, Copy, PartialEq, Eq, Structural)]
pub enum DurationForm {
    /// `<ms>ms`.
    Millis(u64),
    /// `<seconds, one decimal>s` of these milliseconds.
    Seconds(u64),
    /// `<minutes>m<seconds>s`.
    MinutesSeconds(u64, u64),
}

/// The form in which `ms` milliseconds are written.
pub fn duration_form(ms: u64) -> (f: DurationForm)
    ensures
        f == (if ms < 1000 {
            DurationForm::Millis(ms)
        } else if ms < 60_000 {
            DurationForm::Seconds(ms)
        } else {
            DurationForm::MinutesSeconds(ms / 60_000, (ms % 60_000) / 1000)
        }),
{
    if ms < 1000 {
        DurationForm::Millis(ms)
    } else if ms < 60_000 {
        DurationForm::Seconds(ms)
    } else {
        DurationForm::MinutesSeconds(ms / 60_000, (ms % 60_000) / 1000)
    }
}

} // verus!
