//! Observability counters: totals for requests and tokens, a gauge of
//! requests in flight, a gauge of registered models, and the text rendering
//! served on the metrics endpoint. The counters live in one value that the
//! process shares behind its own synchronization; every update here states
//! exactly what it does to that value.

use vstd::prelude::*;
use vstd::string::StringExecFns;
use crate::text::dec_of;
use crate::text::dec_string;

verus! {

/// The process counters.
pub struct Metrics {
    requests_total: u64,
    tokens_total: u64,
    active_requests: u64,
    models_loaded: u64,
}

/// Witness that the in-flight gauge was raised once; handing it back lowers
/// the gauge. Release is by value, so one witness lowers the gauge at most
/// once; the surrounding process ties it to the request's scope so it is
/// handed back on every exit path.
pub struct InflightGuard {
    marker: bool,
}

impl Default for Metrics {
    fn default() -> (r: Self)
        ensures
            r.requests() == 0,
            r.tokens() == 0,
            r.active() == 0,
            r.models() == 0,
    {
        Metrics { requests_total: 0, tokens_total: 0, active_requests: 0, models_loaded: 0 }
    }
}

impl Metrics {
    /// Total requests handled so far.
    pub closed spec fn requests(&self) -> u64 {
        self.requests_total
    }

    /// Total token events delivered so far.
    pub closed spec fn tokens(&self) -> u64 {
        self.tokens_total
    }

    /// Requests in flight now.
    pub closed spec fn active(&self) -> u64 {
        self.active_requests
    }

    /// Models registered now.
    pub closed spec fn models(&self) -> u64 {
        self.models_loaded
    }

    /// Raise the in-flight gauge and hand out the witness that will lower it.
    pub fn guard(&mut self) -> (g: InflightGuard)
        ensures
            final(self).active() == if old(self).active() < u64::MAX {
                old(self).active() + 1
            } else {
                u64::MAX as int
            },
            final(self).requests() == old(self).requests(),
            final(self).tokens() == old(self).tokens(),
            final(self).models() == old(self).models(),
    {
        self.active_requests = self.active_requests.saturating_add(1);
        InflightGuard { marker: true }
    }

    /// Hand back an in-flight witness, lowering the gauge.
    pub fn release_guard(&mut self, g: InflightGuard)
        ensures
            final(self).active() == if old(self).active() > 0 {
                (old(self).active() - 1) as u64
            } else {
                0u64
            },
            final(self).requests() == old(self).requests(),
            final(self).tokens() == old(self).tokens(),
            final(self).models() == old(self).models(),
    {
        let InflightGuard { marker: _ } = g;
        if self.active_requests > 0 {
            self.active_requests = self.active_requests - 1;
        }
    }

    /// Count one handled request.
    pub fn inc_request(&mut self)
        ensures
            final(self).requests() == if old(self).requests() < u64::MAX {
                old(self).requests() + 1
            } else {
                u64::MAX as int
            },
            final(self).tokens() == old(self).tokens(),
            final(self).active() == old(self).active(),
            final(self).models() == old(self).models(),
    {
        self.requests_total = self.requests_total.saturating_add(1);
    }

    /// Count `tokens` more delivered token events.
    pub fn add_tokens(&mut self, tokens: u64)
        ensures
            final(self).tokens() == if old(self).tokens() + tokens <= u64::MAX {
                (old(self).tokens() + tokens) as u64
            } else {
                u64::MAX
            },
            final(self).requests() == old(self).requests(),
            final(self).active() == old(self).active(),
            final(self).models() == old(self).models(),
    {
        self.tokens_total = self.tokens_total.saturating_add(tokens);
    }

    /// Record how many models are registered.
    pub fn set_models_loaded(&mut self, count: u64)
        ensures
            final(self).models() == count,
            final(self).requests() == old(self).requests(),
            final(self).tokens() == old(self).tokens(),
            final(self).active() == old(self).active(),
    {
        self.models_loaded = count;
    }

    /// The current counter values: requests, tokens, in flight, models.
    pub fn snapshot(&self) -> (r: (u64, u64, u64, u64))
        ensures
            r == (self.requests(), self.tokens(), self.active(), self.models()),
    {
        (self.requests_total, self.tokens_total, self.active_requests, self.models_loaded)
    }

    /// Render the counters in the plain text exposition format.
    pub fn render_prometheus(&self) -> (r: String)
        ensures
            r@ == spec_render(self.requests(), self.tokens(), self.active(), self.models()),
    {
        let mut out = String::new();
        out.append("# HELP llmis_requests_total Total HTTP requests handled\n");
        out.append("# TYPE llmis_requests_total counter\n");
        out.append("llmis_requests_total ");
        let d1 = dec_string(self.requests_total);
        out.append(d1.as_str());
        out.append("\n");
        out.append("# HELP llmis_tokens_total Tokens emitted by generators\n");
        out.append("# TYPE llmis_tokens_total counter\n");
        out.append("llmis_tokens_total ");
        let d2 = dec_string(self.tokens_total);
        out.append(d2.as_str());
        out.append("\n");
        out.append("# HELP llmis_active_requests Active requests in flight\n");
        out.append("# TYPE llmis_active_requests gauge\n");
        out.append("llmis_active_requests ");
        let d3 = dec_string(self.active_requests);
        out.append(d3.as_str());
        out.append("\n");
        out.append("# HELP llmis_models_loaded Models currently registered\n");
        out.append("# TYPE llmis_models_loaded gauge\n");
        out.append("llmis_models_loaded ");
        let d4 = dec_string(self.models_loaded);
        out.append(d4.as_str());
        out.append("\n");
        out
    }
}

/// The exact text the metrics endpoint serves for the given counter values.
pub open spec fn spec_render(requests: u64, tokens: u64, active: u64, models: u64) -> Seq<char> {
    "# HELP llmis_requests_total Total HTTP requests handled\n"@
        + "# TYPE llmis_requests_total counter\n"@ + "llmis_requests_total "@ + dec_of(
        requests as nat,
    ) + "\n"@ + "# HELP llmis_tokens_total Tokens emitted by generators\n"@
        + "# TYPE llmis_tokens_total counter\n"@ + "llmis_tokens_total "@ + dec_of(tokens as nat)
        + "\n"@ + "# HELP llmis_active_requests Active requests in flight\n"@
        + "# TYPE llmis_active_requests gauge\n"@ + "llmis_active_requests "@ + dec_of(
        active as nat,
    ) + "\n"@ + "# HELP llmis_models_loaded Models currently registered\n"@
        + "# TYPE llmis_models_loaded gauge\n"@ + "llmis_models_loaded "@ + dec_of(models as nat)
        + "\n"@
}

} // verus!
