//! Whether the language model answers.
use crate::doctor::check::{self, Category, CheckResult, CheckText, Status};
use crate::memory::provider::ProviderError;
use vstd::prelude::*;

verus! {

#[derive(Debug, Clone, Copy)]
pub struct LlmProviderReachable;

/// What a probe of the service means. A service that is not set up is skipped;
/// a failure and an answer that was cut off are told apart.
pub open spec fn classified(probe: Result<String, ProviderError>) -> CheckText {
    match probe {
        Ok(_) => check::plain(Status::Pass, "LLM provider reachable"@),
        Err(e) => match e {
            ProviderError::Deferred(m) => check::plain(
                Status::Skip,
                "LLM provider not configured — "@ + m@,
            ),
            ProviderError::Upstream(m) => check::plain(
                Status::Warn,
                "LLM provider upstream error — "@ + m@,
            ),
            ProviderError::Truncated(m) => check::plain(
                Status::Warn,
                "LLM provider truncated response — "@ + m@,
            ),
        },
    }
}

pub fn classify(probe: Result<String, ProviderError>) -> (r: CheckResult)
    ensures
        r@ == classified(probe),
{
    match probe {
        Ok(_) => check::result(Status::Pass, "LLM provider reachable"),
        Err(e) => match e {
            ProviderError::Deferred(m) => {
                let mut s = "LLM provider not configured — ".to_owned();
                s.append(m.as_str());
                check::result(Status::Skip, s.as_str())
            },
            ProviderError::Upstream(m) => {
                let mut s = "LLM provider upstream error — ".to_owned();
                s.append(m.as_str());
                check::result(Status::Warn, s.as_str())
            },
            ProviderError::Truncated(m) => {
                let mut s = "LLM provider truncated response — ".to_owned();
                s.append(m.as_str());
                check::result(Status::Warn, s.as_str())
            },
        },
    }
}

impl LlmProviderReachable {
    pub fn name(&self) -> (r: &'static str)
        ensures
            r@ == "llm-provider"@,
    {
        "llm-provider"
    }

    pub fn category(&self) -> (r: Category)
        ensures
            r == Category::Config,
    {
        Category::Config
    }

    /// The result of the check, from a probe of the service.
    pub fn run(&self, probe: Result<String, ProviderError>) -> (r: CheckResult)
        ensures
            r@ == classified(probe),
    {
        classify(probe)
    }
}

/// A probe passes if and only if there was an answer; a service that is not set up is
/// skipped, and every other failure is a warning.
pub proof fn law_classified(probe: Result<String, ProviderError>)
    ensures
        (classified(probe).status is Pass) == (probe is Ok),
        (classified(probe).status is Skip) == (probe is Err && probe->Err_0 is Deferred),
        (classified(probe).status is Warn) == (probe is Err && !(probe->Err_0 is Deferred)),
{
}

/// What a provider said is told with what kind of failure it is.
pub proof fn law_messages(m: String)
    ensures
        classified(Err(ProviderError::Deferred(m))).message == "LLM provider not configured — "@
            + m@,
        classified(Err(ProviderError::Upstream(m))).message == "LLM provider upstream error — "@
            + m@,
        classified(Err(ProviderError::Truncated(m))).message
            == "LLM provider truncated response — "@ + m@,
        classified(Ok(m)).message == "LLM provider reachable"@,
{
}

} // verus!
