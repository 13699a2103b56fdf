//! The engine: the configuration and header text of one run, shared read-only
//! by every worker, and the per-file work and dispatch decisions built on it.

use vstd::prelude::*;
use crate::config::Config;
use crate::exclude::{is_excluded, parts_view, path_excluded};
use crate::header::{
    apply, is_current, make_header, rebuild_line_header, rebuild_lines, replace_header,
    synthesize, Outcome,
};
use crate::style::LanguageProfile;

verus! {

/// The worker count used when neither the configuration nor the platform
/// gives one.
pub const FALLBACK_WORKERS: usize = 4;

/// The worker count a run uses: the one asked for, else the platform's
/// parallelism hint, else the fallback.
pub open spec fn workers_for(jobs: Option<usize>, hint: Option<usize>) -> usize {
    match jobs {
        Some(j) => j,
        None => match hint {
            Some(h) => h,
            None => FALLBACK_WORKERS,
        },
    }
}

/// How discovered files are fed to the per-file work.
#[derive(Debug, Clone, Copy, PartialEq, Eq)]
pub enum Dispatch {
    /// The walk processes each file itself.
    Sequential,
    /// The walk queues files for this many long-lived workers.
    Pooled(usize),
}

/// The engine of one run. Nothing in it changes after construction.
pub struct LiceEngine {
    pub config: Config,
    pub raw_license_text: String,
}

impl LiceEngine {
    /// An engine for `config` that applies the header text `raw_license_text`.
    pub fn new(config: Config, raw_license_text: String) -> (r: LiceEngine)
        ensures
            r.config == config,
            r.raw_license_text == raw_license_text,
    {
        LiceEngine { config, raw_license_text }
    }

    /// How to dispatch, given the platform's parallelism hint: sequentially
    /// for one worker (or a count of 0, which no pool could serve), else
    /// through a pool.
    pub fn dispatch(&self, hint: Option<usize>) -> (r: Dispatch)
        ensures
            workers_for(self.config.jobs, hint) <= 1 ==> r is Sequential,
            workers_for(self.config.jobs, hint) > 1 ==> r == Dispatch::Pooled(
                workers_for(self.config.jobs, hint),
            ),
    {
        let n = match self.config.jobs {
            Some(j) => j,
            None => match hint {
                Some(h) => h,
                None => FALLBACK_WORKERS,
            },
        };
        if n <= 1 {
            Dispatch::Sequential
        } else {
            Dispatch::Pooled(n)
        }
    }

    /// The header text for `raw` in `style`.
    pub fn make_header_for_style(&self, raw: &str, style: LanguageProfile) -> (r: String)
        ensures
            r@ == synthesize(raw@, style@),
    {
        make_header(raw, style)
    }

    /// The content of a line-comment file rebuilt with `header` in place of
    /// its stale header lines, an interpreter directive kept first.
    pub fn replace_line_comment_header(
        &self,
        content: &str,
        header: &str,
        style: LanguageProfile,
    ) -> (r: String)
        ensures
            r@ == rebuild_lines(content@, header@, style.prefix@),
    {
        let (s, _) = rebuild_line_header(content, header, style.prefix);
        s
    }

    /// Whether the path with components `parts` is skipped.
    pub fn is_excluded(&self, parts: &Vec<Option<String>>) -> (r: bool)
        ensures
            r == path_excluded(
                parts_view(parts@),
                self.config.excludes@.map_values(|s: String| s@),
            ),
    {
        is_excluded(parts, &self.config.excludes)
    }

    /// What becomes of a file with `content` in `style`: nothing when its
    /// header is current, else the replacement.
    pub fn apply_license(&self, content: &str, style: LanguageProfile) -> (r: Outcome)
        ensures
            r@ == apply(self.raw_license_text@, style@, content@),
    {
        let header = self.make_header_for_style(self.raw_license_text.as_str(), style);
        if is_current(content, header.as_str()) {
            Outcome::Current
        } else {
            replace_header(content, header.as_str(), style)
        }
    }
}

} // verus!
