//! The model registry and its admission control: a name-keyed directory of
//! loaded models, each with a bounded count of generations in flight.
//! Every mutation is stated against a ghost directory model, so replacement,
//! removal and admission are exact. The process shares one registry value
//! behind its own synchronization and performs backend I/O around these
//! calls; nothing here blocks or queues.

use vstd::prelude::*;
use vstd::string::StringExecFns;
use crate::config::LimitConfig;
use crate::config::ModelConfig;
use crate::text::str_eq;
use crate::text::view_opt_string;

verus! {

/// One unit of a token event sequence: a text fragment and whether the
/// sequence is finished. Once an event with `finished` is produced, the
/// sequence emits nothing further.
#[derive(Debug, Clone)]
pub struct TokenEvent {
    pub token: String,
    pub finished: bool,
}

impl View for TokenEvent {
    type V = (Seq<char>, bool);

    open spec fn view(&self) -> (Seq<char>, bool) {
        (self.token@, self.finished)
    }
}

/// A single generation request's parameters, resolved against the process
/// limits. Sampling knobs that the core never reads travel beside it in the
/// caller.
#[derive(Debug, Clone)]
pub struct GenerateParams {
    pub prompt: String,
    pub max_tokens: usize,
    pub stop: Option<Vec<String>>,
}

/// Why a registry or admission operation failed.
#[derive(Debug)]
pub enum ModelError {
    /// The requested model name is not registered.
    NotFound(String),
    /// The model's concurrency ceiling is reached; retry later.
    Overloaded,
    /// The backend could not be constructed or reached.
    Backend(String),
}

/// The descriptive facts about a registered model.
#[derive(Debug, Clone)]
pub struct ModelInfo {
    pub name: String,
    pub device: String,
    pub backend: String,
    pub quantization: Option<String>,
    pub max_concurrent: usize,
}

/// What a registry listing reports for one model.
#[derive(Debug, Clone)]
pub struct ModelSummary {
    pub name: String,
    pub device: String,
    pub backend: String,
    pub quantization: Option<String>,
    pub max_concurrent: usize,
}

/// The live, registered unit: the model's description, its backend
/// connection target, and its admission state. Exactly one handle exists per
/// registered name; registering the same name again replaces it.
pub struct ModelHandle {
    pub info: ModelInfo,
    pub server_url: String,
    pub max_context: usize,
    pub in_flight: usize,
    pub epoch: u64,
}

/// The mathematical image of one handle.
pub struct HandleV {
    pub name: Seq<char>,
    pub device: Seq<char>,
    pub backend: Seq<char>,
    pub quantization: Option<Seq<char>>,
    pub capacity: int,
    pub in_flight: int,
    pub epoch: int,
    pub server_url: Seq<char>,
    pub max_context: int,
}

impl View for ModelHandle {
    type V = HandleV;

    open spec fn view(&self) -> HandleV {
        HandleV {
            name: self.info.name@,
            device: self.info.device@,
            backend: self.info.backend@,
            quantization: view_opt_string(self.info.quantization),
            capacity: self.info.max_concurrent as int,
            in_flight: self.in_flight as int,
            epoch: self.epoch as int,
            server_url: self.server_url@,
            max_context: self.max_context as int,
        }
    }
}

/// The mathematical image of the whole registry.
pub struct ManagerV {
    pub handles: Seq<HandleV>,
    pub default_max_tokens: int,
    pub default_max_concurrent: int,
    pub default_queue_depth: int,
}

/// Exclusive use of one concurrency slot on one registered handle. Obtained
/// only from a successful acquisition; handing it back releases the slot.
/// Release is by value, so one permit releases at most once; the surrounding
/// process ties it to the generation's scope so it is handed back on every
/// exit path, including abandonment.
pub struct AdmissionPermit {
    model: String,
    epoch: u64,
}

impl AdmissionPermit {
    /// The name of the model this permit was issued for.
    pub closed spec fn model_name(&self) -> Seq<char> {
        self.model@
    }

    /// The registration epoch of the handle this permit was issued for.
    pub closed spec fn epoch(&self) -> int {
        self.epoch as int
    }
}

/// The index of the handle registered under `name`, if any.
pub open spec fn find_handle(hs: Seq<HandleV>, name: Seq<char>) -> Option<int>
    decreases hs.len(),
{
    if hs.len() == 0 {
        Option::None
    } else if hs[0].name == name {
        Option::Some(0)
    } else {
        match find_handle(hs.drop_first(), name) {
            Option::None => Option::None,
            Option::Some(i) => Option::Some(i + 1),
        }
    }
}

pub proof fn lemma_find_handle_props(hs: Seq<HandleV>, name: Seq<char>)
    ensures
        match find_handle(hs, name) {
            Option::Some(i) => 0 <= i < hs.len() && hs[i].name == name && forall|j: int|
                0 <= j < i ==> (#[trigger] hs[j]).name != name,
            Option::None => forall|j: int| 0 <= j < hs.len() ==> (#[trigger] hs[j]).name != name,
        },
    decreases hs.len(),
{
    if hs.len() == 0 {
    } else if hs[0].name == name {
    } else {
        let t = hs.drop_first();
        lemma_find_handle_props(t, name);
        match find_handle(t, name) {
            Option::None => {
                assert forall|j: int| 0 <= j < hs.len() implies (#[trigger] hs[j]).name
                    != name by {
                    if j > 0 {
                        assert(t[j - 1] == hs[j]);
                    }
                }
            },
            Option::Some(i) => {
                assert(t[i] == hs[i + 1]);
                assert forall|j: int| 0 <= j < i + 1 implies (#[trigger] hs[j]).name != name by {
                    if j > 0 {
                        assert(t[j - 1] == hs[j]);
                    }
                }
            },
        }
    }
}

pub proof fn lemma_find_handle_at(hs: Seq<HandleV>, name: Seq<char>, i: int)
    requires
        0 <= i < hs.len(),
        hs[i].name == name,
        forall|j: int| 0 <= j < i ==> (#[trigger] hs[j]).name != name,
    ensures
        find_handle(hs, name) == Option::Some(i),
    decreases i,
{
    if i == 0 {
    } else {
        let t = hs.drop_first();
        assert(forall|j: int| 0 <= j && j + 1 < hs.len() ==> hs[j + 1] == #[trigger] t[j]);
        lemma_find_handle_at(t, name, i - 1);
        assert(hs[0].name != name);
    }
}

/// Registered names are unique and every in-flight count respects its
/// capacity.
pub open spec fn handles_wf(hs: Seq<HandleV>) -> bool {
    (forall|i: int, j: int|
        0 <= i < j < hs.len() ==> (#[trigger] hs[i]).name != (#[trigger] hs[j]).name) && (forall|
        i: int,
    |
        0 <= i < hs.len() ==> 0 <= (#[trigger] hs[i]).in_flight <= hs[i].capacity)
}

/// The outcome of an admission attempt.
pub enum AdmitOutcome {
    /// A slot was free and is now taken.
    Granted,
    /// Every slot is taken; nothing changed.
    AtCapacity,
    /// No handle is registered under the name; nothing changed.
    Missing,
}

/// One handle with one more generation in flight.
pub open spec fn bump(h: HandleV) -> HandleV {
    HandleV { in_flight: h.in_flight + 1, ..h }
}

/// One handle with one generation fewer in flight.
pub open spec fn unbump(h: HandleV) -> HandleV {
    HandleV { in_flight: h.in_flight - 1, ..h }
}

/// Non-blocking admission: grant a slot if the handle exists and has one
/// free, else report why without changing anything.
pub open spec fn spec_try_acquire(m: ManagerV, name: Seq<char>) -> (AdmitOutcome, ManagerV) {
    match find_handle(m.handles, name) {
        Option::None => (AdmitOutcome::Missing, m),
        Option::Some(i) => {
            let h = m.handles[i];
            if h.in_flight >= h.capacity {
                (AdmitOutcome::AtCapacity, m)
            } else {
                (AdmitOutcome::Granted, ManagerV { handles: m.handles.update(i, bump(h)), ..m })
            }
        },
    }
}

/// Hand a slot back: the handle it was issued for loses one in-flight count,
/// provided it still exists in the same registration epoch. A permit whose
/// handle was unloaded or replaced releases nothing.
pub open spec fn spec_release(m: ManagerV, name: Seq<char>, epoch: int) -> ManagerV {
    match find_handle(m.handles, name) {
        Option::None => m,
        Option::Some(i) => {
            let h = m.handles[i];
            if h.epoch == epoch && h.in_flight > 0 {
                ManagerV { handles: m.handles.update(i, unbump(h)), ..m }
            } else {
                m
            }
        },
    }
}

/// The backend kind a configuration resolves to.
pub open spec fn resolved_backend(cfg: ModelConfig) -> Seq<char> {
    match cfg.backend {
        Option::Some(b) => b@,
        Option::None => "llm"@,
    }
}

/// The backend kinds the gateway can construct.
pub open spec fn backend_supported(b: Seq<char>) -> bool {
    b == "llm"@ || b == "llama-server"@
}

/// The registration epoch a load under `name` would use: one past the
/// replaced handle's epoch, or zero for a fresh name.
pub open spec fn install_epoch(m: ManagerV, name: Seq<char>) -> int {
    match find_handle(m.handles, name) {
        Option::None => 0,
        Option::Some(i) => if m.handles[i].epoch < u64::MAX {
            m.handles[i].epoch + 1
        } else {
            m.handles[i].epoch
        },
    }
}

/// The handle a load operation constructs from a configuration, with every
/// omitted field resolved to its default.
pub open spec fn loaded_handle(m: ManagerV, cfg: ModelConfig) -> HandleV {
    HandleV {
        name: cfg.name@,
        device: match cfg.device {
            Option::Some(d) => d@,
            Option::None => "cpu"@,
        },
        backend: resolved_backend(cfg),
        quantization: view_opt_string(cfg.quantization),
        capacity: match cfg.max_concurrent {
            Option::Some(c) => c as int,
            Option::None => m.default_max_concurrent,
        },
        in_flight: 0,
        epoch: install_epoch(m, cfg.name@),
        server_url: match cfg.server_url {
            Option::Some(u) => u@,
            Option::None => "http://127.0.0.1:8081"@,
        },
        max_context: match cfg.context_length {
            Option::Some(c) => c as int,
            Option::None => 2048,
        },
    }
}

/// Install `h` under its name, replacing any handle already there.
pub open spec fn spec_install(m: ManagerV, h: HandleV) -> ManagerV {
    match find_handle(m.handles, h.name) {
        Option::None => ManagerV { handles: m.handles.push(h), ..m },
        Option::Some(i) => ManagerV { handles: m.handles.update(i, h), ..m },
    }
}

/// Remove the handle under `name`; reports whether one existed.
pub open spec fn spec_unload(m: ManagerV, name: Seq<char>) -> (bool, ManagerV) {
    match find_handle(m.handles, name) {
        Option::None => (false, m),
        Option::Some(i) => (true, ManagerV { handles: m.handles.remove(i), ..m }),
    }
}

/// The error text for an unsupported backend kind.
pub open spec fn unsupported_backend_msg(b: Seq<char>) -> Seq<char> {
    "unsupported backend '"@ + b + "', use 'llama-server'"@
}

/// What a listing reports of one handle.
pub open spec fn summary_matches(s: ModelSummary, h: HandleV) -> bool {
    s.name@ == h.name && s.device@ == h.device && s.backend@ == h.backend && view_opt_string(
        s.quantization,
    ) == h.quantization && s.max_concurrent == h.capacity
}

/// The concurrent name-keyed directory of loaded models.
pub struct ModelManager {
    models: Vec<ModelHandle>,
    limits: LimitConfig,
}

impl View for ModelManager {
    type V = ManagerV;

    closed spec fn view(&self) -> ManagerV {
        ManagerV {
            handles: self.models@.map_values(|h: ModelHandle| h@),
            default_max_tokens: self.limits.max_tokens as int,
            default_max_concurrent: self.limits.max_concurrent as int,
            default_queue_depth: self.limits.queue_depth as int,
        }
    }
}

impl ModelManager {
    /// The registry's invariant.
    pub open spec fn wf(&self) -> bool {
        handles_wf(self@.handles)
    }

    /// An empty registry with the given process limits.
    pub fn new(limits: LimitConfig) -> (r: ModelManager)
        ensures
            r.wf(),
            r@.handles.len() == 0,
            r@.default_max_tokens == limits.max_tokens,
            r@.default_max_concurrent == limits.max_concurrent,
            r@.default_queue_depth == limits.queue_depth,
    {
        let r = ModelManager { models: Vec::new(), limits };
        proof {
            assert(r@.handles =~= Seq::<HandleV>::empty());
        }
        r
    }

    /// How many models are registered.
    pub fn model_count(&self) -> (r: usize)
        ensures
            r == self@.handles.len(),
    {
        self.models.len()
    }

    fn find_index(&self, name: &str) -> (r: Option<usize>)
        ensures
            match r {
                Option::Some(i) => find_handle(self@.handles, name@) == Option::Some(i as int) && i
                    < self@.handles.len(),
                Option::None => find_handle(self@.handles, name@) is None,
            },
    {
        let n = self.models.len();
        let mut k: usize = 0;
        while k < n
            invariant
                n == self.models@.len(),
                n == self@.handles.len(),
                0 <= k <= n,
                forall|j: int| 0 <= j < k ==> (#[trigger] self@.handles[j]).name != name@,
        decreases n - k,
        {
            if str_eq(self.models[k].info.name.as_str(), name) {
                proof {
                    assert(self@.handles[k as int].name == name@);
                    lemma_find_handle_at(self@.handles, name@, k as int);
                }
                return Some(k);
            }
            proof {
                assert(self@.handles[k as int].name == self.models@[k as int]@.name);
            }
            k = k + 1;
        }
        proof {
            lemma_find_handle_props(self@.handles, name@);
            if find_handle(self@.handles, name@) is Some {
                let i = find_handle(self@.handles, name@)->0;
                assert(self@.handles[i].name == name@);
            }
        }
        None
    }

    /// Register the model `cfg` describes: resolve the backend kind and every
    /// omitted field, and install a fresh handle under the name, replacing
    /// any prior one. An unsupported backend kind is rejected and the
    /// registry is left unchanged. The caller performs the best-effort
    /// backend connectivity check and tells a replaced handle's backend to
    /// unload.
    pub fn load_model(&mut self, cfg: ModelConfig) -> (r: Result<ModelSummary, ModelError>)
        requires
            old(self).wf(),
        ensures
            final(self).wf(),
            match r {
                Ok(summary) => backend_supported(resolved_backend(cfg)) && final(self)@
                    == spec_install(old(self)@, loaded_handle(old(self)@, cfg)) && summary_matches(
                    summary,
                    loaded_handle(old(self)@, cfg),
                ),
                Err(ModelError::Backend(msg)) => !backend_supported(resolved_backend(cfg))
                    && final(self)@ == old(self)@ && msg@ == unsupported_backend_msg(
                    resolved_backend(cfg),
                ),
                Err(_) => false,
            },
    {
        let backend_choice: String = match &cfg.backend {
            Option::Some(b) => b.clone(),
            Option::None => "llm".to_owned(),
        };
        if !(str_eq(backend_choice.as_str(), "llm") || str_eq(
            backend_choice.as_str(),
            "llama-server",
        )) {
            let mut msg = "unsupported backend '".to_owned();
            msg.append(backend_choice.as_str());
            msg.append("', use 'llama-server'");
            return Err(ModelError::Backend(msg));
        }
        let device: String = match &cfg.device {
            Option::Some(d) => d.clone(),
            Option::None => "cpu".to_owned(),
        };
        let quantization: Option<String> = match &cfg.quantization {
            Option::Some(q) => Some(q.clone()),
            Option::None => None,
        };
        let max_concurrent: usize = match &cfg.max_concurrent {
            Option::Some(c) => *c,
            Option::None => self.limits.max_concurrent,
        };
        let server_url: String = match &cfg.server_url {
            Option::Some(u) => u.clone(),
            Option::None => "http://127.0.0.1:8081".to_owned(),
        };
        let max_context: usize = match &cfg.context_length {
            Option::Some(c) => *c,
            Option::None => 2048,
        };
        let info = ModelInfo {
            name: cfg.name.clone(),
            device,
            backend: backend_choice,
            quantization,
            max_concurrent,
        };
        let summary = ModelSummary {
            name: info.name.clone(),
            device: info.device.clone(),
            backend: info.backend.clone(),
            quantization: match &info.quantization {
                Option::Some(q) => Some(q.clone()),
                Option::None => None,
            },
            max_concurrent: info.max_concurrent,
        };
        let ghost m0 = self@;
        match self.find_index(cfg.name.as_str()) {
            Option::Some(i) => {
                let old_epoch = self.models[i].epoch;
                let epoch: u64 = if old_epoch < u64::MAX {
                    old_epoch + 1
                } else {
                    old_epoch
                };
                let handle = ModelHandle { info, server_url, max_context, in_flight: 0, epoch };
                proof {
                    assert(handle@ == loaded_handle(m0, cfg));
                }
                self.models[i] = handle;
                proof {
                    assert(self@.handles =~= m0.handles.update(
                        i as int,
                        loaded_handle(m0, cfg),
                    ));
                    lemma_find_handle_props(m0.handles, cfg.name@);
                    assert(self.wf());
                }
            },
            Option::None => {
                let handle = ModelHandle {
                    info,
                    server_url,
                    max_context,
                    in_flight: 0,
                    epoch: 0,
                };
                proof {
                    assert(handle@ == loaded_handle(m0, cfg));
                }
                self.models.push(handle);
                proof {
                    assert(self@.handles =~= m0.handles.push(loaded_handle(m0, cfg)));
                    lemma_find_handle_props(m0.handles, cfg.name@);
                    assert(self.wf());
                }
            },
        }
        Ok(summary)
    }

    /// Remove the handle under `name`; fails with `NotFound` and leaves the
    /// registry unchanged when the name was never loaded. The caller tells
    /// the removed handle's backend to release its connection.
    pub fn unload_model(&mut self, name: &str) -> (r: Result<(), ModelError>)
        requires
            old(self).wf(),
        ensures
            final(self).wf(),
            match r {
                Ok(()) => spec_unload(old(self)@, name@).0 && final(self)@ == spec_unload(
                    old(self)@,
                    name@,
                ).1,
                Err(ModelError::NotFound(n)) => !spec_unload(old(self)@, name@).0 && final(self)@
                    == old(self)@ && n@ == name@,
                Err(_) => false,
            },
    {
        let ghost m0 = self@;
        match self.find_index(name) {
            Option::Some(i) => {
                let _removed = self.models.remove(i);
                proof {
                    assert(self@.handles =~= m0.handles.remove(i as int));
                    assert(handles_wf(self@.handles)) by {
                        assert(forall|a: int|
                            0 <= a < self@.handles.len() ==> #[trigger] self@.handles[a]
                                == if a < i as int {
                                m0.handles[a]
                            } else {
                                m0.handles[a + 1]
                            });
                    }
                }
                Ok(())
            },
            Option::None => Err(ModelError::NotFound(name.to_owned())),
        }
    }

    /// A point-in-time listing of every registered model.
    pub fn list_models(&self) -> (r: Vec<ModelSummary>)
        ensures
            r@.len() == self@.handles.len(),
            forall|i: int|
                0 <= i < r@.len() ==> summary_matches(#[trigger] r@[i], self@.handles[i]),
    {
        let n = self.models.len();
        let mut r: Vec<ModelSummary> = Vec::new();
        let mut k: usize = 0;
        while k < n
            invariant
                n == self.models@.len(),
                n == self@.handles.len(),
                0 <= k <= n,
                r@.len() == k,
                forall|i: int|
                    0 <= i < k ==> summary_matches(#[trigger] r@[i], self@.handles[i]),
            decreases n - k,
        {
            let h = &self.models[k];
            let s = ModelSummary {
                name: h.info.name.clone(),
                device: h.info.device.clone(),
                backend: h.info.backend.clone(),
                quantization: match &h.info.quantization {
                    Option::Some(q) => Some(q.clone()),
                    Option::None => None,
                },
                max_concurrent: h.info.max_concurrent,
            };
            proof {
                assert(summary_matches(s, self@.handles[k as int]));
            }
            r.push(s);
            k = k + 1;
        }
        r
    }

    /// The backend connection target and context-length bound of the handle
    /// under `name`, for the caller that performs the backend I/O.
    pub fn backend_target(&self, name: &str) -> (r: Option<(String, usize)>)
        ensures
            match r {
                Option::Some(t) => (find_handle(self@.handles, name@) matches Option::Some(i)
                    && t.0@ == self@.handles[i].server_url && t.1
                    == self@.handles[i].max_context),
                Option::None => find_handle(self@.handles, name@) is None,
            },
    {
        match self.find_index(name) {
            Option::Some(i) => Some(
                (self.models[i].server_url.clone(), self.models[i].max_context),
            ),
            Option::None => None,
        }
    }

    /// Non-blocking admission for one generation on `name`: a permit when a
    /// slot is free, `Overloaded` the instant none is, `NotFound` for an
    /// unregistered name. Nothing ever waits or queues here.
    pub fn try_acquire(&mut self, name: &str) -> (r: Result<AdmissionPermit, ModelError>)
        requires
            old(self).wf(),
        ensures
            final(self).wf(),
            final(self)@ == spec_try_acquire(old(self)@, name@).1,
            match r {
                Ok(p) => spec_try_acquire(old(self)@, name@).0 is Granted && p.model_name()
                    == name@ && (find_handle(old(self)@.handles, name@) matches Option::Some(i)
                    && p.epoch() == old(self)@.handles[i].epoch),
                Err(ModelError::Overloaded) => spec_try_acquire(old(self)@, name@).0
                    is AtCapacity,
                Err(ModelError::NotFound(n)) => spec_try_acquire(old(self)@, name@).0 is Missing
                    && n@ == name@,
                Err(_) => false,
            },
    {
        let ghost m0 = self@;
        match self.find_index(name) {
            Option::None => Err(ModelError::NotFound(name.to_owned())),
            Option::Some(i) => {
                if self.models[i].in_flight >= self.models[i].info.max_concurrent {
                    Err(ModelError::Overloaded)
                } else {
                    let permit = AdmissionPermit {
                        model: self.models[i].info.name.clone(),
                        epoch: self.models[i].epoch,
                    };
                    self.models[i].in_flight = self.models[i].in_flight + 1;
                    proof {
                        assert(self@.handles =~= m0.handles.update(
                            i as int,
                            bump(m0.handles[i as int]),
                        ));
                        lemma_find_handle_props(m0.handles, name@);
                        assert(permit.model_name() == name@);
                        assert(self.wf());
                    }
                    Ok(permit)
                }
            },
        }
    }

    /// Hand a permit back, freeing its slot. A permit for a handle that was
    /// unloaded or replaced since releases nothing; a live permit always
    /// frees the slot it took.
    pub fn release(&mut self, permit: AdmissionPermit)
        requires
            old(self).wf(),
        ensures
            final(self).wf(),
            final(self)@ == spec_release(old(self)@, permit.model_name(), permit.epoch()),
    {
        let ghost m0 = self@;
        let AdmissionPermit { model, epoch } = permit;
        match self.find_index(model.as_str()) {
            Option::None => {},
            Option::Some(i) => {
                if self.models[i].epoch == epoch && self.models[i].in_flight > 0 {
                    self.models[i].in_flight = self.models[i].in_flight - 1;
                    proof {
                        assert(self@.handles =~= m0.handles.update(
                            i as int,
                            unbump(m0.handles[i as int]),
                        ));
                        assert(self.wf());
                    }
                }
            },
        }
    }
}

/// The token count actually requested from a backend: the resolved budget,
/// never above the model's context-length bound.
pub fn capped_budget(requested: usize, ceiling: usize) -> (r: usize)
    ensures
        r == if requested < ceiling {
            requested as int
        } else {
            ceiling as int
        },
{
    if requested < ceiling {
        requested
    } else {
        ceiling
    }
}

/// Admission is denied, with nothing changed, exactly while the handle's
/// in-flight count has reached its capacity.
pub proof fn lemma_admission_rejects_at_capacity(m: ManagerV, name: Seq<char>, i: int)
    requires
        handles_wf(m.handles),
        find_handle(m.handles, name) == Option::Some(i),
        0 <= i < m.handles.len(),
        m.handles[i].in_flight == m.handles[i].capacity,
    ensures
        spec_try_acquire(m, name).0 is AtCapacity,
        spec_try_acquire(m, name).1 == m,
{
}

/// After a release of a live permit for a handle at capacity, the next
/// acquisition on that name succeeds.
pub proof fn lemma_release_then_admit(m: ManagerV, name: Seq<char>, i: int)
    requires
        handles_wf(m.handles),
        find_handle(m.handles, name) == Option::Some(i),
        0 <= i < m.handles.len(),
        m.handles[i].in_flight > 0,
    ensures
        spec_try_acquire(spec_release(m, name, m.handles[i].epoch), name).0 is Granted,
{
    let m2 = spec_release(m, name, m.handles[i].epoch);
    lemma_find_handle_props(m.handles, name);
    assert(m2.handles[i] == unbump(m.handles[i]));
    assert(forall|j: int| 0 <= j < i ==> (#[trigger] m2.handles[j]).name != name);
    lemma_find_handle_at(m2.handles, name, i);
}

/// Acquiring and then releasing the granted permit restores the registry
/// exactly: a slot is consumed once and returned once.
pub proof fn lemma_acquire_release_roundtrip(m: ManagerV, name: Seq<char>, i: int)
    requires
        handles_wf(m.handles),
        find_handle(m.handles, name) == Option::Some(i),
        0 <= i < m.handles.len(),
        m.handles[i].in_flight < m.handles[i].capacity,
    ensures
        spec_try_acquire(m, name).0 is Granted,
        spec_release(spec_try_acquire(m, name).1, name, m.handles[i].epoch) == m,
{
    let m2 = spec_try_acquire(m, name).1;
    lemma_find_handle_props(m.handles, name);
    assert(m2.handles[i] == bump(m.handles[i]));
    assert(forall|j: int| 0 <= j < i ==> (#[trigger] m2.handles[j]).name != name);
    lemma_find_handle_at(m2.handles, name, i);
    assert(unbump(bump(m.handles[i])) == m.handles[i]);
    assert(m2.handles.update(i, m.handles[i]) =~= m.handles);
}

/// Installing a handle leaves exactly one entry under its name — the new
/// one — and every other entry untouched.
pub proof fn lemma_install_replaces(m: ManagerV, h: HandleV)
    requires
        handles_wf(m.handles),
        0 <= h.in_flight <= h.capacity,
    ensures
        handles_wf(spec_install(m, h).handles),
        find_handle(spec_install(m, h).handles, h.name) is Some,
        spec_install(m, h).handles[find_handle(spec_install(m, h).handles, h.name)->0] == h,
        forall|j: int|
            0 <= j < spec_install(m, h).handles.len() && (#[trigger] spec_install(
                m,
                h,
            ).handles[j]).name == h.name ==> j == find_handle(spec_install(m, h).handles, h.name)->0,
        forall|j: int|
            0 <= j < spec_install(m, h).handles.len() && j != find_handle(
                spec_install(m, h).handles,
                h.name,
            )->0 ==> #[trigger] spec_install(m, h).handles[j] == m.handles[j],
{
    lemma_find_handle_props(m.handles, h.name);
    let hs2 = spec_install(m, h).handles;
    match find_handle(m.handles, h.name) {
        Option::None => {
            lemma_find_handle_at(hs2, h.name, m.handles.len() as int);
        },
        Option::Some(i) => {
            assert(forall|j: int| 0 <= j < i ==> (#[trigger] hs2[j]).name != h.name);
            lemma_find_handle_at(hs2, h.name, i);
        },
    }
}

/// Unloading a name that was never loaded reports it and changes nothing.
pub proof fn lemma_unload_missing(m: ManagerV, name: Seq<char>)
    requires
        find_handle(m.handles, name) is None,
    ensures
        spec_unload(m, name).0 == false,
        spec_unload(m, name).1 == m,
{
}

} // verus!

