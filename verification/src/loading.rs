//! Loading models on first use.
//!
//! Each task loads the models that it needs and no others. A model that is
//! loaded already is kept, and a model file that is in the cache is used without
//! a word; only for one that has to be downloaded is there something to report.

use vstd::prelude::*;

use crate::config::DocqConfig;
use crate::error::Result;
use crate::models::{AskEvent, IndexEvent, LlmConfig, ModelRole, ModelSpec, SearchEvent};
use crate::search;

verus! {

/// A part of the engine that takes a model file.
#[derive(Debug, Clone, Copy, PartialEq, Eq, Structural)]
pub enum Component {
    Embedder,
    Chunker,
    Reranker,
    Llm,
}

/// Something that takes models.
#[derive(Debug, Clone, Copy, PartialEq, Eq, Structural)]
pub enum Task {
    Index,
    Search,
    Ask,
}

/// The components that a task needs, in the order in which they are loaded.
pub open spec fn needed(task: Task) -> Seq<Component> {
    match task {
        Task::Index => seq![Component::Embedder, Component::Chunker],
        Task::Search => seq![Component::Embedder, Component::Reranker],
        Task::Ask => seq![Component::Embedder, Component::Reranker, Component::Llm],
    }
}

/// The component that a task needs after the first `n`, if any.
fn component_at(task: Task, n: usize) -> (r: Option<Component>)
    ensures
        match r {
            Some(c) => n < needed(task).len() && c == needed(task)[n as int],
            None => n >= needed(task).len(),
        },
{
    match (task, n) {
        (_, 0) => Some(Component::Embedder),
        (Task::Index, 1) => Some(Component::Chunker),
        (Task::Search, 1) => Some(Component::Reranker),
        (Task::Ask, 1) => Some(Component::Reranker),
        (Task::Ask, 2) => Some(Component::Llm),
        _ => None,
    }
}

/// The model file that a component takes.
pub open spec fn is_file_of(spec: ModelSpec, component: Component, config: DocqConfig) -> bool {
    let entry = match component {
        Component::Embedder => config.models.embedding,
        Component::Chunker => config.models.embedding,
        Component::Reranker => config.models.reranker,
        Component::Llm => config.models.llm,
    };
    &&& spec.role == match component {
        Component::Embedder => ModelRole::Embedding,
        Component::Chunker => ModelRole::Tokenizer,
        Component::Reranker => ModelRole::Reranker,
        Component::Llm => ModelRole::Chat,
    }
    &&& spec.repo_id@ == entry.repo_id@
    &&& spec.filename@ == if component == Component::Chunker {
        entry.tokenizer_filename@
    } else {
        entry.filename@
    }
    &&& spec.revision@ == entry.revision@
    &&& spec.checksum is None
}

impl Component {
    /// What loading the component is called in progress messages.
    pub fn step_name(self) -> (r: &'static str)
        ensures
            r@ == match self {
                Component::Embedder => "load embedding model"@,
                Component::Chunker => "load tokenizer"@,
                Component::Reranker => "load reranker model"@,
                Component::Llm => "load LLM"@,
            },
    {
        match self {
            Component::Embedder => "load embedding model",
            Component::Chunker => "load tokenizer",
            Component::Reranker => "load reranker model",
            Component::Llm => "load LLM",
        }
    }

    /// The model file that the component takes.
    pub fn model_file(self, config: &DocqConfig) -> (r: ModelSpec)
        ensures
            is_file_of(r, self, *config),
    {
        match self {
            Component::Embedder => config.models.embedding.to_spec(ModelRole::Embedding),
            Component::Chunker => config.models.embedding.to_tokenizer_spec(),
            Component::Reranker => config.models.reranker.to_spec(ModelRole::Reranker),
            Component::Llm => config.models.llm.to_spec(ModelRole::Chat),
        }
    }
}

// ---- events ----

/// How far a download is.
#[derive(Debug, Clone, Copy, PartialEq, Eq, Structural)]
pub enum DownloadPhase {
    Start,
    Complete { elapsed_ms: u64 },
}

/// A download that has got to some phase.
#[derive(Debug)]
pub struct Download {
    pub spec: ModelSpec,
    pub phase: DownloadPhase,
}

impl Download {
    /// The event while an index is built.
    pub fn index_event(&self) -> (r: IndexEvent)
        ensures
            match self.phase {
                DownloadPhase::Start => r matches IndexEvent::ModelDownloadStart {
                    role,
                    repo_id,
                    filename,
                } && role == self.spec.role && repo_id@ == self.spec.repo_id@ && filename@
                    == self.spec.filename@,
                DownloadPhase::Complete { elapsed_ms } => r == (IndexEvent::ModelDownloadComplete {
                    role: self.spec.role,
                    elapsed_ms,
                }),
            },
    {
        match self.phase {
            DownloadPhase::Start => IndexEvent::ModelDownloadStart {
                role: self.spec.role,
                repo_id: self.spec.repo_id.clone(),
                filename: self.spec.filename.clone(),
            },
            DownloadPhase::Complete { elapsed_ms } => IndexEvent::ModelDownloadComplete {
                role: self.spec.role,
                elapsed_ms,
            },
        }
    }

    /// The event during a search.
    pub fn search_event(&self) -> (r: SearchEvent)
        ensures
            match self.phase {
                DownloadPhase::Start => r matches SearchEvent::ModelDownloadStart {
                    role,
                    repo_id,
                    filename,
                } && role == self.spec.role && repo_id@ == self.spec.repo_id@ && filename@
                    == self.spec.filename@,
                DownloadPhase::Complete { elapsed_ms } => r == (SearchEvent::ModelDownloadComplete {
                    role: self.spec.role,
                    elapsed_ms,
                }),
            },
    {
        match self.phase {
            DownloadPhase::Start => SearchEvent::ModelDownloadStart {
                role: self.spec.role,
                repo_id: self.spec.repo_id.clone(),
                filename: self.spec.filename.clone(),
            },
            DownloadPhase::Complete { elapsed_ms } => SearchEvent::ModelDownloadComplete {
                role: self.spec.role,
                elapsed_ms,
            },
        }
    }

    /// The event while a question is answered.
    pub fn ask_event(&self) -> (r: AskEvent)
        ensures
            match self.phase {
                DownloadPhase::Start => r matches AskEvent::ModelDownloadStart {
                    role,
                    repo_id,
                    filename,
                } && role == self.spec.role && repo_id@ == self.spec.repo_id@ && filename@
                    == self.spec.filename@,
                DownloadPhase::Complete { elapsed_ms } => r == (AskEvent::ModelDownloadComplete {
                    role: self.spec.role,
                    elapsed_ms,
                }),
            },
    {
        match self.phase {
            DownloadPhase::Start => AskEvent::ModelDownloadStart {
                role: self.spec.role,
                repo_id: self.spec.repo_id.clone(),
                filename: self.spec.filename.clone(),
            },
            DownloadPhase::Complete { elapsed_ms } => AskEvent::ModelDownloadComplete {
                role: self.spec.role,
                elapsed_ms,
            },
        }
    }
}

// ---- loading ----

/// Loading what a task needs. `done` counts the components that are there; the
/// variants say what the run waits for.
#[derive(Debug)]
pub enum Loading {
    Ready { task: Task },
    /// Whether the next component is loaded already.
    Looking { task: Task, done: usize, component: Component },
    /// The settings of the language model.
    Configuring { task: Task, done: usize },
    /// Whether the model file is in the cache.
    Probing { task: Task, done: usize, component: Component, settings: Option<LlmConfig> },
    /// The model file. `since` is when its download started, if it is one.
    Fetching {
        task: Task,
        done: usize,
        component: Component,
        settings: Option<LlmConfig>,
        since: Option<u64>,
    },
    /// The component, made from the model file.
    Building { task: Task, done: usize, component: Component },
    /// The store, made ready for vectors.
    Initializing { task: Task, done: usize },
    Done,
}

/// What came of the last action of a [`Loading`].
#[derive(Debug)]
pub enum LoadingInput {
    Start,
    Loaded(bool),
    Configured(Result<LlmConfig>),
    Cached(bool),
    Fetched(Result<()>),
    /// The component was made; an embedder with its dimension.
    Built(Result<usize>),
    Initialized(Result<()>),
}

/// What a [`Loading`] wants done.
#[derive(Debug)]
pub enum LoadingAction {
    /// See whether the component is loaded.
    Look { component: Component },
    /// Read the settings of the language model.
    Configure,
    /// See whether the model file is in the cache.
    Probe { spec: ModelSpec },
    /// Report the download, if it is one, then get the model file and take note
    /// of its version in the store.
    Fetch { spec: ModelSpec, download: Option<Download> },
    /// Report the end of the download, if it was one, then make the component.
    Build { component: Component, settings: Option<LlmConfig>, download: Option<Download> },
    /// Make the store ready for vectors of this dimension.
    Initialize { dimension: usize },
    /// All is loaded, or something failed.
    Return(Result<()>),
    Stop,
}

/// Whether a run goes on to what comes after the first `done` components.
pub open spec fn loading_goes_on(
    task: Task,
    done: int,
    after: Loading,
    action: LoadingAction,
) -> bool {
    if done < needed(task).len() {
        let component = needed(task)[done];
        &&& after == (Loading::Looking { task, done: done as usize, component })
        &&& action == (LoadingAction::Look { component })
    } else {
        after == Loading::Done && action == LoadingAction::Return(Ok(()))
    }
}

/// Whether a run looks for the model file of a component in the cache.
pub open spec fn probes(
    task: Task,
    done: usize,
    component: Component,
    settings: Option<LlmConfig>,
    config: DocqConfig,
    after: Loading,
    action: LoadingAction,
) -> bool {
    &&& after == (Loading::Probing { task, done, component, settings })
    &&& action matches LoadingAction::Probe { spec }
    &&& is_file_of(spec, component, config)
}

/// Whether `download` says that the file of a component has got to `phase`.
pub open spec fn reports(
    download: Option<Download>,
    component: Component,
    config: DocqConfig,
    phase: DownloadPhase,
) -> bool {
    download matches Some(d) && is_file_of(d.spec, component, config) && d.phase == phase
}

/// The state and the action of a [`Loading`] after `input`, at the time `now`.
pub open spec fn loading_steps(
    before: Loading,
    input: LoadingInput,
    config: DocqConfig,
    now: u64,
    after: Loading,
    action: LoadingAction,
) -> bool {
    match (before, input) {
        (Loading::Ready { task }, LoadingInput::Start) => loading_goes_on(task, 0, after, action),
        (Loading::Looking { task, done, component }, LoadingInput::Loaded(loaded)) => {
            if loaded {
                loading_goes_on(task, done + 1, after, action)
            } else if component == Component::Llm {
                &&& after == (Loading::Configuring { task, done })
                &&& action == LoadingAction::Configure
            } else {
                probes(task, done, component, None, config, after, action)
            }
        },
        (Loading::Configuring { task, done }, LoadingInput::Configured(Ok(settings))) => {
            probes(task, done, Component::Llm, Some(settings), config, after, action)
        },
        (Loading::Probing { task, done, component, settings }, LoadingInput::Cached(cached)) => {
            &&& after == (Loading::Fetching {
                task,
                done,
                component,
                settings,
                since: if cached {
                    None
                } else {
                    Some(now)
                },
            })
            &&& action matches LoadingAction::Fetch { spec, download }
            &&& is_file_of(spec, component, config)
            &&& if cached {
                download is None
            } else {
                reports(download, component, config, DownloadPhase::Start)
            }
        },
        (
            Loading::Fetching { task, done, component, settings, since },
            LoadingInput::Fetched(Ok(_)),
        ) => {
            &&& after == (Loading::Building { task, done, component })
            &&& action matches LoadingAction::Build { component: c, settings: s, download }
            &&& c == component
            &&& s == settings
            &&& match since {
                Some(start) => reports(
                    download,
                    component,
                    config,
                    DownloadPhase::Complete { elapsed_ms: search::millis_between(start, now) },
                ),
                None => download is None,
            }
        },
        (Loading::Building { task, done, component }, LoadingInput::Built(Ok(dimension))) => {
            if component == Component::Embedder {
                &&& after == (Loading::Initializing { task, done })
                &&& action == (LoadingAction::Initialize { dimension })
            } else {
                loading_goes_on(task, done + 1, after, action)
            }
        },
        (Loading::Initializing { task, done }, LoadingInput::Initialized(Ok(_))) => {
            loading_goes_on(task, done + 1, after, action)
        },
        (Loading::Configuring { .. }, LoadingInput::Configured(Err(e))) => {
            after == Loading::Done && action == LoadingAction::Return(Err(e))
        },
        (Loading::Fetching { .. }, LoadingInput::Fetched(Err(e))) => {
            after == Loading::Done && action == LoadingAction::Return(Err(e))
        },
        (Loading::Building { .. }, LoadingInput::Built(Err(e))) => {
            after == Loading::Done && action == LoadingAction::Return(Err(e))
        },
        (Loading::Initializing { .. }, LoadingInput::Initialized(Err(e))) => {
            after == Loading::Done && action == LoadingAction::Return(Err(e))
        },
        _ => after == Loading::Done && action == LoadingAction::Stop,
    }
}

impl Loading {
    /// Whether the run is at one of the components that its task needs.
    pub open spec fn is_within(self) -> bool {
        match self {
            Loading::Looking { task, done, component } => done < needed(task).len() && component
                == needed(task)[done as int],
            Loading::Configuring { task, done } => done < needed(task).len()
                && needed(task)[done as int] == Component::Llm,
            Loading::Probing { task, done, component, .. } => done < needed(task).len() && component
                == needed(task)[done as int],
            Loading::Fetching { task, done, component, .. } => done < needed(task).len()
                && component == needed(task)[done as int],
            Loading::Building { task, done, component } => done < needed(task).len() && component
                == needed(task)[done as int],
            Loading::Initializing { task, done } => done < needed(task).len()
                && needed(task)[done as int] == Component::Embedder,
            _ => true,
        }
    }
}

fn go_on(task: Task, done: usize) -> (r: (Loading, LoadingAction))
    ensures
        loading_goes_on(task, done as int, r.0, r.1),
        r.0.is_within(),
{
    match component_at(task, done) {
        Some(component) => (
            Loading::Looking { task, done, component },
            LoadingAction::Look { component },
        ),
        None => (Loading::Done, LoadingAction::Return(Ok(()))),
    }
}

fn probe(
    task: Task,
    done: usize,
    component: Component,
    settings: Option<LlmConfig>,
    config: &DocqConfig,
) -> (r: (Loading, LoadingAction))
    ensures
        probes(task, done, component, settings, *config, r.0, r.1),
{
    let spec = component.model_file(config);
    (Loading::Probing { task, done, component, settings }, LoadingAction::Probe { spec })
}

impl Loading {
    pub fn new(task: Task) -> (r: Loading)
        ensures
            r == (Loading::Ready { task }),
            r.is_within(),
    {
        Loading::Ready { task }
    }

    /// Takes the next step. The clock counts nanoseconds.
    pub fn next(self, input: LoadingInput, config: &DocqConfig, now: u64) -> (r: (
        Loading,
        LoadingAction,
    ))
        requires
            self.is_within(),
        ensures
            loading_steps(self, input, *config, now, r.0, r.1),
            r.0.is_within(),
    {
        match (self, input) {
            (Loading::Ready { task }, LoadingInput::Start) => go_on(task, 0),
            (Loading::Looking { task, done, component }, LoadingInput::Loaded(loaded)) => {
                if loaded {
                    go_on(task, done + 1)
                } else if component == Component::Llm {
                    (Loading::Configuring { task, done }, LoadingAction::Configure)
                } else {
                    probe(task, done, component, None, config)
                }
            },
            (Loading::Configuring { task, done }, LoadingInput::Configured(result)) => match result {
                Ok(settings) => probe(task, done, Component::Llm, Some(settings), config),
                Err(e) => (Loading::Done, LoadingAction::Return(Err(e))),
            },
            (
                Loading::Probing { task, done, component, settings },
                LoadingInput::Cached(cached),
            ) => {
                let spec = component.model_file(config);
                let (since, download): (Option<u64>, Option<Download>) = if cached {
                    (None, None)
                } else {
                    let announced = component.model_file(config);
                    (Some(now), Some(Download { spec: announced, phase: DownloadPhase::Start }))
                };
                (
                    Loading::Fetching { task, done, component, settings, since },
                    LoadingAction::Fetch { spec, download },
                )
            },
            (
                Loading::Fetching { task, done, component, settings, since },
                LoadingInput::Fetched(result),
            ) => match result {
                Ok(_) => {
                    let download = match since {
                        Some(start) => {
                            let spec = component.model_file(config);
                            let elapsed_ms: u64 = search::elapsed_ms(start, now);
                            Some(Download { spec, phase: DownloadPhase::Complete { elapsed_ms } })
                        },
                        None => None,
                    };
                    (
                        Loading::Building { task, done, component },
                        LoadingAction::Build { component, settings, download },
                    )
                },
                Err(e) => (Loading::Done, LoadingAction::Return(Err(e))),
            },
            (Loading::Building { task, done, component }, LoadingInput::Built(result)) => match result {
                Ok(dimension) => {
                    if component == Component::Embedder {
                        (
                            Loading::Initializing { task, done },
                            LoadingAction::Initialize { dimension },
                        )
                    } else {
                        go_on(task, done + 1)
                    }
                },
                Err(e) => (Loading::Done, LoadingAction::Return(Err(e))),
            },
            (Loading::Initializing { task, done }, LoadingInput::Initialized(result)) => match result {
                Ok(_) => go_on(task, done + 1),
                Err(e) => (Loading::Done, LoadingAction::Return(Err(e))),
            },
            _ => (Loading::Done, LoadingAction::Stop),
        }
    }
}

// ---- laws ----

/// The download that an action reports, if any.
pub open spec fn reported(action: LoadingAction) -> Option<Download> {
    match action {
        LoadingAction::Fetch { download, .. } => download,
        LoadingAction::Build { download, .. } => download,
        _ => None,
    }
}

/// Whether a download is on its way.
pub open spec fn is_downloading(state: Loading) -> bool {
    state matches Loading::Fetching { since, .. } && since is Some
}

/// A download is reported exactly where it starts and where it ends well: its
/// start where the model file turns out not to be in the cache, and its end when
/// the file is there. So a model in the cache is loaded without a word.
pub proof fn law_downloads_are_reported(
    before: Loading,
    input: LoadingInput,
    config: DocqConfig,
    now: u64,
    after: Loading,
    action: LoadingAction,
)
    requires
        loading_steps(before, input, config, now, after, action),
    ensures
        (reported(action) matches Some(d) && d.phase == DownloadPhase::Start) <==> before is Probing
            && input == LoadingInput::Cached(false),
        (reported(action) matches Some(d) && d.phase is Complete) <==> is_downloading(before)
            && (input matches LoadingInput::Fetched(r) && r is Ok),
        is_downloading(after) <==> before is Probing && input == LoadingInput::Cached(false),
{
}

/// Nothing is loaded that the task does not need: a search or an answer takes no
/// tokenizer, and building an index or a search takes no language model.
pub proof fn law_only_what_is_needed(
    task: Task,
    before: Loading,
    input: LoadingInput,
    config: DocqConfig,
    now: u64,
    after: Loading,
    action: LoadingAction,
)
    requires
        before.is_within(),
        loading_steps(before, input, config, now, after, action),
        action matches LoadingAction::Fetch { .. },
        before matches Loading::Probing { task: t, .. } && t == task,
    ensures
        action matches LoadingAction::Fetch { spec, .. } && {
            &&& spec.role == ModelRole::Tokenizer ==> task == Task::Index
            &&& spec.role == ModelRole::Chat ==> task == Task::Ask
            &&& spec.role == ModelRole::Reranker ==> task != Task::Index
        },
{
}

/// The number of components that a run has left behind.
pub open spec fn components_done(state: Loading) -> Option<(Task, int)> {
    match state {
        Loading::Ready { task } => Some((task, 0)),
        Loading::Looking { task, done, .. } => Some((task, done as int)),
        Loading::Configuring { task, done } => Some((task, done as int)),
        Loading::Probing { task, done, .. } => Some((task, done as int)),
        Loading::Fetching { task, done, .. } => Some((task, done as int)),
        Loading::Building { task, done, .. } => Some((task, done as int)),
        Loading::Initializing { task, done } => Some((task, done as int)),
        Loading::Done => None,
    }
}

/// A run that ends well has gone through every component that its task needs,
/// and each of them was loaded before or is now.
pub proof fn law_all_that_is_needed(
    before: Loading,
    input: LoadingInput,
    config: DocqConfig,
    now: u64,
    after: Loading,
    action: LoadingAction,
)
    requires
        before.is_within(),
        loading_steps(before, input, config, now, after, action),
    ensures
        action == LoadingAction::Return(Ok(())) ==> (components_done(before) matches Some((
            task,
            done,
        )) && done + 1 >= needed(task).len()),
        after !is Done ==> (components_done(before) matches Some((task, done)) && components_done(
            after,
        ) matches Some((t, d)) && t == task && (d == done || d == done + 1)),
        (components_done(before) matches Some((task, done)) && components_done(after) == Some(
            (task, done + 1),
        )) ==> input == LoadingInput::Loaded(true) || input is Built || input is Initialized,
{
}

/// Building an index takes the embedding model and its tokenizer, a search the
/// embedding model and the reranker, and an answer these two and the language
/// model, in this order.
pub proof fn law_what_tasks_take()
    ensures
        needed(Task::Index).len() == 2,
        needed(Task::Index)[0] == Component::Embedder,
        needed(Task::Index)[1] == Component::Chunker,
        needed(Task::Search).len() == 2,
        needed(Task::Search)[0] == Component::Embedder,
        needed(Task::Search)[1] == Component::Reranker,
        needed(Task::Ask).len() == 3,
        needed(Task::Ask)[0] == Component::Embedder,
        needed(Task::Ask)[1] == Component::Reranker,
        needed(Task::Ask)[2] == Component::Llm,
{
}

/// Each component takes its own file of the configuration: the embedder and the
/// tokenizer that of the embedding model, each with the file name that is given
/// for it, the reranker that of the reranker, and the language model its own.
pub proof fn law_component_files(spec: ModelSpec, component: Component, config: DocqConfig)
    requires
        is_file_of(spec, component, config),
    ensures
        component == Component::Embedder ==> spec.role == ModelRole::Embedding && spec.repo_id@
            == config.models.embedding.repo_id@ && spec.filename@
            == config.models.embedding.filename@ && spec.revision@
            == config.models.embedding.revision@,
        component == Component::Chunker ==> spec.role == ModelRole::Tokenizer && spec.repo_id@
            == config.models.embedding.repo_id@ && spec.filename@
            == config.models.embedding.tokenizer_filename@ && spec.revision@
            == config.models.embedding.revision@,
        component == Component::Reranker ==> spec.role == ModelRole::Reranker && spec.repo_id@
            == config.models.reranker.repo_id@ && spec.filename@ == config.models.reranker.filename@
            && spec.revision@ == config.models.reranker.revision@,
        component == Component::Llm ==> spec.role == ModelRole::Chat && spec.repo_id@
            == config.models.llm.repo_id@ && spec.filename@ == config.models.llm.filename@
            && spec.revision@ == config.models.llm.revision@,
        spec.checksum is None,
{
}

/// A component that is not loaded yet is looked for in the cache, fetched, and
/// made; the language model with the settings that are read first. The store is
/// made ready for the dimension of the embedder. After each component comes the
/// next one that the task takes, and after the last the run is done.
pub proof fn law_components_are_loaded_in_turn(
    before: Loading,
    input: LoadingInput,
    config: DocqConfig,
    now: u64,
    after: Loading,
    action: LoadingAction,
)
    requires
        loading_steps(before, input, config, now, after, action),
    ensures
        before matches Loading::Ready { task } ==> input is Start ==> after == (Loading::Looking {
            task,
            done: 0,
            component: Component::Embedder,
        }) && action == (LoadingAction::Look { component: Component::Embedder }),
        before matches Loading::Looking { task, done, component } ==> input
            == LoadingInput::Loaded(false) && component == Component::Llm ==> after == (
        Loading::Configuring { task, done }) && action == LoadingAction::Configure,
        before matches Loading::Looking { task, done, component } ==> input
            == LoadingInput::Loaded(false) && component != Component::Llm ==> after == (
        Loading::Probing { task, done, component, settings: None }) && (
        action matches LoadingAction::Probe { spec } && is_file_of(spec, component, config)),
        before matches Loading::Configuring { task, done } ==> (
        input matches LoadingInput::Configured(Ok(settings)) ==> after == (Loading::Probing {
            task,
            done,
            component: Component::Llm,
            settings: Some(settings),
        }) && (action matches LoadingAction::Probe { spec } && is_file_of(
            spec,
            Component::Llm,
            config,
        ))),
        before matches Loading::Probing { task, done, component, settings } ==> input is Cached ==> (
        after matches Loading::Fetching { task: t, done: d, component: c, settings: s, .. } && t
            == task && d == done && c == component && s == settings) && (
        action matches LoadingAction::Fetch { spec, .. } && is_file_of(spec, component, config)),
        before matches Loading::Fetching { task, done, component, settings, .. } ==> input
            == LoadingInput::Fetched(Ok(())) ==> after == (Loading::Building {
            task,
            done,
            component,
        }) && (action matches LoadingAction::Build { component: c, settings: s, .. } && c
            == component && s == settings),
        before matches Loading::Building { task, done, component } ==> (
        input matches LoadingInput::Built(Ok(dimension)) ==> component == Component::Embedder
            ==> after == (Loading::Initializing { task, done }) && action == (
        LoadingAction::Initialize { dimension })),
        ({
            let passed = match before {
                Loading::Looking { task, done, .. } => if input == LoadingInput::Loaded(true) {
                    Some((task, done))
                } else {
                    None
                },
                Loading::Building { task, done, component } => if input is Built
                    && input->Built_0 is Ok && component != Component::Embedder {
                    Some((task, done))
                } else {
                    None
                },
                Loading::Initializing { task, done } => if input == LoadingInput::Initialized(
                    Ok(()),
                ) {
                    Some((task, done))
                } else {
                    None
                },
                _ => None,
            };
            passed matches Some((task, done)) ==> {
                &&& done + 1 < needed(task).len() ==> action == (LoadingAction::Look {
                    component: needed(task)[done + 1],
                }) && after == (Loading::Looking {
                    task,
                    done: (done + 1) as usize,
                    component: needed(task)[done + 1],
                })
                &&& done + 1 >= needed(task).len() ==> action == LoadingAction::Return(Ok(()))
                    && after == Loading::Done
            }
        }),
        input matches LoadingInput::Configured(Err(e)) ==> before is Configuring ==> action
            == LoadingAction::Return(Err(e)),
        input matches LoadingInput::Fetched(Err(e)) ==> before is Fetching ==> action
            == LoadingAction::Return(Err(e)),
        input matches LoadingInput::Built(Err(e)) ==> before is Building ==> action
            == LoadingAction::Return(Err(e)),
        input matches LoadingInput::Initialized(Err(e)) ==> before is Initializing ==> action
            == LoadingAction::Return(Err(e)),
{
}

/// What is reported of a download names the file of the component, and its end the
/// whole milliseconds since its start, by a clock that counts nanoseconds.
pub proof fn law_download_reports(
    before: Loading,
    input: LoadingInput,
    config: DocqConfig,
    now: u64,
    after: Loading,
    action: LoadingAction,
)
    requires
        loading_steps(before, input, config, now, after, action),
    ensures
        before matches Loading::Probing { component, .. } ==> input == LoadingInput::Cached(false)
            ==> (after matches Loading::Fetching { since, .. } && since == Some(now)) && (
        action matches LoadingAction::Fetch { download: Some(d), .. } && is_file_of(
            d.spec,
            component,
            config,
        )),
        before matches Loading::Fetching { component, since: Some(start), .. } ==> input
            == LoadingInput::Fetched(Ok(())) && start <= now ==> (
        action matches LoadingAction::Build { download: Some(d), .. } && is_file_of(
            d.spec,
            component,
            config,
        ) && (d.phase matches DownloadPhase::Complete { elapsed_ms } && elapsed_ms == (now - start)
            / 1_000_000)),
{
}

} // verus!
