//! The time series that are exported, and what each served request adds to them.
use crate::text;
use vstd::prelude::*;

verus! {

/// The shape of a time series. The bounds of the buckets of a histogram are in microseconds.
#[derive(Debug)]
pub enum MetricKind {
    Gauge,
    Counter,
    LabelledCounter { label: String },
    Histogram { bounds: Vec<u64> },
}

/// A time series that is exported.
#[derive(Debug)]
pub struct MetricDefinition {
    pub name: String,
    pub help: String,
    pub kind: MetricKind,
}

/// What the shape of a time series says.
#[verifier::ext_equal]
pub enum KindView {
    Gauge,
    Counter,
    LabelledCounter { label: Seq<char> },
    Histogram { bounds: Seq<u64> },
}

/// What the definition of a time series says.
#[verifier::ext_equal]
pub struct DefinitionView {
    pub name: Seq<char>,
    pub help: Seq<char>,
    pub kind: KindView,
}

impl View for MetricDefinition {
    type V = DefinitionView;

    open spec fn view(&self) -> DefinitionView {
        DefinitionView {
            name: self.name@,
            help: self.help@,
            kind: match self.kind {
                MetricKind::Gauge => KindView::Gauge,
                MetricKind::Counter => KindView::Counter,
                MetricKind::LabelledCounter { label } => KindView::LabelledCounter {
                    label: label@,
                },
                MetricKind::Histogram { bounds } => KindView::Histogram { bounds: bounds@ },
            },
        }
    }
}

/// What each definition of a sequence says.
pub open spec fn definition_views(definitions: Seq<MetricDefinition>) -> Seq<DefinitionView> {
    Seq::new(definitions.len(), |i: int| definitions[i]@)
}

/// The time series that are exported, in the order in which they are registered.
pub open spec fn catalogue() -> Seq<DefinitionView> {
    seq![
        DefinitionView {
            name: "infercache_estimated_usd_saved_usd"@,
            help:
                "Estimated USD saved by serving cached responses (based on gpt-4o-mini pricing)"@,
            kind: KindView::Gauge,
        },
        DefinitionView {
            name: "infercache_cache_operations_total"@,
            help: "Total cache operations (hit, miss, coalesced)"@,
            kind: KindView::LabelledCounter { label: "status"@ },
        },
        DefinitionView {
            name: "infercache_request_duration_seconds"@,
            help: "Total end-to-end request latency"@,
            kind: KindView::Histogram {
                bounds: seq![
                    5_000u64,
                    10_000,
                    25_000,
                    50_000,
                    100_000,
                    250_000,
                    500_000,
                    1_000_000,
                    2_500_000,
                ],
            },
        },
        DefinitionView {
            name: "infercache_embedding_duration_seconds"@,
            help: "Local Candle embedding inference latency"@,
            kind: KindView::Histogram {
                bounds: seq![1_000u64, 2_000, 3_000, 5_000, 10_000, 25_000],
            },
        },
        DefinitionView {
            name: "infercache_vector_search_duration_seconds"@,
            help: "Vector store search latency"@,
            kind: KindView::Histogram { bounds: seq![500u64, 1_000, 2_000, 5_000, 10_000, 25_000] },
        },
        DefinitionView {
            name: "infercache_process_memory_bytes"@,
            help: "Current RAM usage of the InferCache process in bytes"@,
            kind: KindView::Gauge,
        },
        DefinitionView {
            name: "infercache_coalesced_requests_total"@,
            help: "Requests served via broadcast fanout"@,
            kind: KindView::LabelledCounter { label: "model"@ },
        },
        DefinitionView {
            name: "infercache_vector_store_size"@,
            help: "Total cached prompts stored in vector database"@,
            kind: KindView::Gauge,
        },
        DefinitionView {
            name: "infercache_encrypted_payloads_served_total"@,
            help: "Total secure/encrypted cache payloads served"@,
            kind: KindView::Counter,
        },
    ]
}

/// A definition of a time series.
fn define(name: &str, help: &str, kind: MetricKind) -> (r: MetricDefinition)
    ensures
        r@.name == name@,
        r@.help == help@,
        r.kind == kind,
{
    MetricDefinition { name: name.to_owned(), help: help.to_owned(), kind }
}

/// The time series that are exported, in the order in which they are registered.
pub fn all_metrics() -> (r: Vec<MetricDefinition>)
    ensures
        definition_views(r@) == catalogue(),
{
    let mut all: Vec<MetricDefinition> = Vec::new();
    all.push(
        define(
            "infercache_estimated_usd_saved_usd",
            "Estimated USD saved by serving cached responses (based on gpt-4o-mini pricing)",
            MetricKind::Gauge,
        ),
    );
    all.push(
        define(
            "infercache_cache_operations_total",
            "Total cache operations (hit, miss, coalesced)",
            MetricKind::LabelledCounter { label: "status".to_owned() },
        ),
    );
    all.push(
        define(
            "infercache_request_duration_seconds",
            "Total end-to-end request latency",
            MetricKind::Histogram {
                bounds: vec![
                    5_000,
                    10_000,
                    25_000,
                    50_000,
                    100_000,
                    250_000,
                    500_000,
                    1_000_000,
                    2_500_000,
                ],
            },
        ),
    );
    all.push(
        define(
            "infercache_embedding_duration_seconds",
            "Local Candle embedding inference latency",
            MetricKind::Histogram { bounds: vec![1_000, 2_000, 3_000, 5_000, 10_000, 25_000] },
        ),
    );
    all.push(
        define(
            "infercache_vector_search_duration_seconds",
            "Vector store search latency",
            MetricKind::Histogram { bounds: vec![500, 1_000, 2_000, 5_000, 10_000, 25_000] },
        ),
    );
    all.push(
        define(
            "infercache_process_memory_bytes",
            "Current RAM usage of the InferCache process in bytes",
            MetricKind::Gauge,
        ),
    );
    all.push(
        define(
            "infercache_coalesced_requests_total",
            "Requests served via broadcast fanout",
            MetricKind::LabelledCounter { label: "model".to_owned() },
        ),
    );
    all.push(
        define(
            "infercache_vector_store_size",
            "Total cached prompts stored in vector database",
            MetricKind::Gauge,
        ),
    );
    all.push(
        define(
            "infercache_encrypted_payloads_served_total",
            "Total secure/encrypted cache payloads served",
            MetricKind::Counter,
        ),
    );
    assert(definition_views(all@) =~= catalogue());
    all
}

/// The names of some time series.
pub open spec fn names_of(definitions: Seq<DefinitionView>) -> Seq<Seq<char>> {
    definitions.map_values(|definition: DefinitionView| definition.name)
}

/// The time series whose names are not among those that are given, in their order.
pub open spec fn unregistered(names: Seq<Seq<char>>) -> Seq<DefinitionView> {
    catalogue().filter(|definition: DefinitionView| !names.contains(definition.name))
}

/// The names that are registered after the time series are registered once more.
pub open spec fn after_init(names: Seq<Seq<char>>) -> Seq<Seq<char>> {
    names + names_of(unregistered(names))
}

/// Which time series are registered, by their names.
#[derive(Debug)]
pub struct Registration {
    names: Vec<String>,
}

impl View for Registration {
    type V = Seq<Seq<char>>;

    closed spec fn view(&self) -> Seq<Seq<char>> {
        text::texts(self.names@)
    }
}

impl Registration {
    /// Nothing is registered.
    pub fn new() -> (r: Self)
        ensures
            r@ == Seq::<Seq<char>>::empty(),
    {
        let r = Registration { names: Vec::new() };
        assert(r@ =~= Seq::<Seq<char>>::empty());
        r
    }
}

/// Registers all time series: gives those that are to be made and registered now, which are
/// the ones that are not registered yet, in their order. The others stay as they are.
pub fn init_metrics(registration: &mut Registration) -> (r: Vec<MetricDefinition>)
    ensures
        definition_views(r@) == unregistered(old(registration)@),
        final(registration)@ == after_init(old(registration)@),
{
    let ghost before = registration@;
    let ghost wanted = |definition: DefinitionView| !before.contains(definition.name);
    let mut rest = all_metrics();
    let mut added: Vec<MetricDefinition> = Vec::new();
    let mut names: Vec<String> = Vec::new();
    let ghost mut done: int = 0;
    proof {
        reveal(Seq::filter);
        assert(catalogue().take(0) =~= Seq::<DefinitionView>::empty());
        assert(definition_views(added@) =~= Seq::<DefinitionView>::empty());
        assert(text::texts(names@) =~= names_of(definition_views(added@)));
        assert(definition_views(rest@) =~= catalogue().skip(0));
    }
    while rest.len() > 0
        invariant
            before == registration@,
            wanted == (|definition: DefinitionView| !before.contains(definition.name)),
            0 <= done <= catalogue().len(),
            definition_views(rest@) == catalogue().skip(done),
            definition_views(added@) == catalogue().take(done).filter(wanted),
            text::texts(names@) == names_of(definition_views(added@)),
        decreases rest@.len(),
    {
        let ghost rest_before = rest@;
        let ghost added_before = definition_views(added@);
        let ghost names_before = text::texts(names@);
        let definition = rest.remove(0);
        proof {
            assert(rest_before.len() == catalogue().skip(done).len());
            assert(definition@ == catalogue().skip(done)[0]);
            assert(definition_views(rest@) =~= catalogue().skip(done + 1)) by {
                assert forall|i: int| 0 <= i < rest@.len() implies definition_views(rest@)[i]
                    == catalogue().skip(done + 1)[i] by {
                    assert(definition_views(rest_before)[i + 1] == catalogue().skip(done)[i + 1]);
                }
            }
            reveal(Seq::filter);
            assert(catalogue().take(done + 1).drop_last() =~= catalogue().take(done));
            assert(catalogue().take(done + 1).last() == definition@);
        }
        if !text::listed(&registration.names, definition.name.as_str()) {
            let ghost view = definition@;
            names.push(definition.name.clone());
            added.push(definition);
            assert(definition_views(added@) =~= added_before.push(view));
            assert(text::texts(names@) =~= names_before.push(view.name));
            assert(names_of(definition_views(added@)) =~= names_before.push(view.name));
        }
        proof {
            done = done + 1;
        }
    }
    assert(catalogue().take(done) =~= catalogue());
    let ghost new_names = text::texts(names@);
    registration.names.append(&mut names);
    assert(registration@ =~= before + new_names);
    added
}

/// What a request, or a look at the process, adds to one time series.
#[derive(Debug)]
pub enum MetricUpdate {
    /// One more operation with that status.
    CacheOperation { status: String },
    /// The time that the request took.
    RequestDuration,
    /// So many millionths of a dollar saved.
    UsdSaved { millionths: u64 },
    /// One more payload served.
    EncryptedPayloadServed,
    /// One more coalesced request for that model.
    CoalescedRequest { model: String },
    /// So many answers are stored.
    VectorStoreSize { entries: u64 },
    /// So many bytes are used by the process.
    MemoryUsage { bytes: u64 },
}

/// What an addition to a time series says.
#[verifier::ext_equal]
pub enum UpdateView {
    CacheOperation { status: Seq<char> },
    RequestDuration,
    UsdSaved { millionths: u64 },
    EncryptedPayloadServed,
    CoalescedRequest { model: Seq<char> },
    VectorStoreSize { entries: u64 },
    MemoryUsage { bytes: u64 },
}

impl View for MetricUpdate {
    type V = UpdateView;

    open spec fn view(&self) -> UpdateView {
        match self {
            MetricUpdate::CacheOperation { status } => UpdateView::CacheOperation {
                status: status@,
            },
            MetricUpdate::RequestDuration => UpdateView::RequestDuration,
            MetricUpdate::UsdSaved { millionths } => UpdateView::UsdSaved {
                millionths: *millionths,
            },
            MetricUpdate::EncryptedPayloadServed => UpdateView::EncryptedPayloadServed,
            MetricUpdate::CoalescedRequest { model } => UpdateView::CoalescedRequest {
                model: model@,
            },
            MetricUpdate::VectorStoreSize { entries } => UpdateView::VectorStoreSize {
                entries: *entries,
            },
            MetricUpdate::MemoryUsage { bytes } => UpdateView::MemoryUsage { bytes: *bytes },
        }
    }
}

/// What each addition of a sequence says.
pub open spec fn update_views(updates: Seq<MetricUpdate>) -> Seq<UpdateView> {
    Seq::new(updates.len(), |i: int| updates[i]@)
}

/// What an answer that is not asked for upstream saves, in millionths of a dollar.
pub const SAVED_PER_ANSWER: u64 = 350;

/// What a hit adds.
pub open spec fn hit_updates() -> Seq<UpdateView> {
    seq![
        UpdateView::CacheOperation { status: "hit"@ },
        UpdateView::RequestDuration,
        UpdateView::UsdSaved { millionths: SAVED_PER_ANSWER },
        UpdateView::EncryptedPayloadServed,
    ]
}

/// What a miss adds.
pub open spec fn miss_updates() -> Seq<UpdateView> {
    seq![UpdateView::CacheOperation { status: "miss"@ }, UpdateView::RequestDuration]
}

/// What a request adds that listens to another.
pub open spec fn coalesced_updates(model: Seq<char>) -> Seq<UpdateView> {
    seq![
        UpdateView::CacheOperation { status: "coalesced"@ },
        UpdateView::CoalescedRequest { model },
        UpdateView::RequestDuration,
        UpdateView::UsdSaved { millionths: SAVED_PER_ANSWER },
    ]
}

/// What a hit adds.
pub fn record_cache_hit() -> (r: Vec<MetricUpdate>)
    ensures
        update_views(r@) == hit_updates(),
{
    let mut updates: Vec<MetricUpdate> = Vec::new();
    updates.push(MetricUpdate::CacheOperation { status: "hit".to_owned() });
    updates.push(MetricUpdate::RequestDuration);
    updates.push(MetricUpdate::UsdSaved { millionths: SAVED_PER_ANSWER });
    updates.push(MetricUpdate::EncryptedPayloadServed);
    assert(update_views(updates@) =~= hit_updates());
    updates
}

/// What a miss adds.
pub fn record_cache_miss() -> (r: Vec<MetricUpdate>)
    ensures
        update_views(r@) == miss_updates(),
{
    let mut updates: Vec<MetricUpdate> = Vec::new();
    updates.push(MetricUpdate::CacheOperation { status: "miss".to_owned() });
    updates.push(MetricUpdate::RequestDuration);
    assert(update_views(updates@) =~= miss_updates());
    updates
}

/// What a request adds that listens to another.
pub fn record_coalesced(model: &str) -> (r: Vec<MetricUpdate>)
    ensures
        update_views(r@) == coalesced_updates(model@),
{
    let mut updates: Vec<MetricUpdate> = Vec::new();
    updates.push(MetricUpdate::CacheOperation { status: "coalesced".to_owned() });
    updates.push(MetricUpdate::CoalescedRequest { model: model.to_owned() });
    updates.push(MetricUpdate::RequestDuration);
    updates.push(MetricUpdate::UsdSaved { millionths: SAVED_PER_ANSWER });
    assert(update_views(updates@) =~= coalesced_updates(model@));
    updates
}

/// What the number of stored answers adds.
pub fn record_store_size(entries: usize) -> (r: Vec<MetricUpdate>)
    ensures
        update_views(r@) == seq![UpdateView::VectorStoreSize { entries: entries as u64 }],
{
    let mut updates: Vec<MetricUpdate> = Vec::new();
    updates.push(MetricUpdate::VectorStoreSize { entries: entries as u64 });
    assert(update_views(updates@) =~= seq![UpdateView::VectorStoreSize { entries: entries as u64 }]);
    updates
}

/// The number of seconds for which a reading of the memory usage is good.
pub const MEMORY_READING_SECONDS: u64 = 2;

/// Whether the memory usage is to be read again: where there was no reading, or where that
/// many whole seconds went by since the last one. Times are in milliseconds.
pub open spec fn reading_due(last: Option<u64>, now: u64) -> bool {
    match last {
        Some(time) => now >= time && (now - time) / 1000 >= MEMORY_READING_SECONDS,
        None => true,
    }
}

/// When the memory usage was read last.
#[derive(Debug)]
pub struct MemoryWatch {
    last: Option<u64>,
}

impl View for MemoryWatch {
    type V = Option<u64>;

    closed spec fn view(&self) -> Option<u64> {
        self.last
    }
}

impl MemoryWatch {
    /// Nothing was read yet.
    pub fn new() -> (r: Self)
        ensures
            r@ is None,
    {
        MemoryWatch { last: None }
    }

    /// Whether the memory usage is to be read again, at a time in milliseconds.
    pub fn is_due(&self, now: u64) -> (r: bool)
        ensures
            r == reading_due(self@, now),
    {
        match self.last {
            Some(time) => now >= time && (now - time) / 1000 >= MEMORY_READING_SECONDS,
            None => true,
        }
    }

    /// Takes up what came of a reading at a time in milliseconds, and says what it adds. Only
    /// where the number of bytes came does the time count as that of a reading.
    pub fn record(&mut self, reading: Option<u64>, now: u64) -> (r: Vec<MetricUpdate>)
        ensures
            match reading {
                Some(bytes) => final(self)@ == Some(now) && update_views(r@)
                    == seq![UpdateView::MemoryUsage { bytes }],
                None => final(self)@ == old(self)@ && r@.len() == 0,
            },
    {
        let mut updates: Vec<MetricUpdate> = Vec::new();
        if let Some(bytes) = reading {
            self.last = Some(now);
            updates.push(MetricUpdate::MemoryUsage { bytes });
            assert(update_views(updates@) =~= seq![UpdateView::MemoryUsage { bytes }]);
        }
        updates
    }
}

/// Two readings are at least two seconds apart, and after a reading none is due before.
pub proof fn law_readings_are_apart(last: u64, now: u64)
    ensures
        reading_due(Some(last), now) <==> now >= last + 1000 * MEMORY_READING_SECONDS,
{
}

/// The definitions that all pass a test are all kept.
proof fn lemma_filter_keeps_all(
    definitions: Seq<DefinitionView>,
    test: spec_fn(DefinitionView) -> bool,
)
    requires
        forall|i: int| 0 <= i < definitions.len() ==> test(#[trigger] definitions[i]),
    ensures
        definitions.filter(test) == definitions,
    decreases definitions.len(),
{
    reveal(Seq::filter);
    if definitions.len() > 0 {
        let rest = definitions.drop_last();
        assert forall|i: int| 0 <= i < rest.len() implies test(#[trigger] rest[i]) by {
            assert(test(definitions[i]));
        }
        lemma_filter_keeps_all(rest, test);
        assert(test(definitions[definitions.len() - 1]));
        assert(rest.push(definitions.last()) =~= definitions);
    }
}

/// The definitions none of which passes a test are all left out.
proof fn lemma_filter_keeps_none(
    definitions: Seq<DefinitionView>,
    test: spec_fn(DefinitionView) -> bool,
)
    requires
        forall|i: int| 0 <= i < definitions.len() ==> !test(#[trigger] definitions[i]),
    ensures
        definitions.filter(test) == Seq::<DefinitionView>::empty(),
    decreases definitions.len(),
{
    reveal(Seq::filter);
    if definitions.len() > 0 {
        let rest = definitions.drop_last();
        assert forall|i: int| 0 <= i < rest.len() implies !test(#[trigger] rest[i]) by {
            assert(!test(definitions[i]));
        }
        lemma_filter_keeps_none(rest, test);
        assert(!test(definitions[definitions.len() - 1]));
    } else {
        assert(definitions =~= Seq::<DefinitionView>::empty());
    }
}

/// The names that are registered after so many calls, where none was before.
pub open spec fn after_inits(calls: nat) -> Seq<Seq<char>>
    decreases calls,
{
    if calls == 0 {
        Seq::empty()
    } else {
        after_init(after_inits((calls - 1) as nat))
    }
}

/// However often the time series are registered, each is registered exactly once: the first
/// call registers all of them, and every later one registers nothing and leaves what is
/// registered alone.
pub proof fn law_registered_once(calls: nat)
    requires
        calls > 0,
    ensures
        unregistered(after_inits(0)) == catalogue(),
        after_inits(calls) == names_of(catalogue()),
        after_inits(calls).no_duplicates(),
        unregistered(after_inits(calls)).len() == 0,
    decreases calls,
{
    let none = Seq::<Seq<char>>::empty();
    lemma_filter_keeps_all(
        catalogue(),
        |definition: DefinitionView| !none.contains(definition.name),
    );
    if calls == 1 {
        assert(after_inits(0) =~= none);
        assert(after_inits(1) =~= names_of(catalogue()));
    } else {
        law_registered_once((calls - 1) as nat);
        assert(after_inits(calls) =~= after_inits((calls - 1) as nat));
    }
    let names = names_of(catalogue());
    assert forall|i: int, j: int| 0 <= i < j < names.len() implies names[i] != names[j] by {
        law_names_differ(i, j);
    }
    assert forall|i: int| 0 <= i < catalogue().len() implies names.contains(
        (#[trigger] catalogue()[i]).name,
    ) by {
        assert(names[i] == catalogue()[i].name);
    }
    lemma_filter_keeps_none(
        catalogue(),
        |definition: DefinitionView| !names.contains(definition.name),
    );
}

/// Two of the nine time series have a label, one by the status and one by the model.
pub proof fn law_two_are_labelled(i: int)
    requires
        0 <= i < catalogue().len(),
    ensures
        catalogue().len() == 9,
        catalogue()[i].kind is LabelledCounter <==> i == 1 || i == 6,
{
}

/// No two time series have the same name.
pub proof fn law_names_differ(i: int, j: int)
    requires
        0 <= i < j < catalogue().len(),
    ensures
        catalogue()[i].name != catalogue()[j].name,
{
    reveal_strlit("infercache_estimated_usd_saved_usd");
    reveal_strlit("infercache_cache_operations_total");
    reveal_strlit("infercache_request_duration_seconds");
    reveal_strlit("infercache_embedding_duration_seconds");
    reveal_strlit("infercache_vector_search_duration_seconds");
    reveal_strlit("infercache_process_memory_bytes");
    reveal_strlit("infercache_coalesced_requests_total");
    reveal_strlit("infercache_vector_store_size");
    reveal_strlit("infercache_encrypted_payloads_served_total");
    let lengths = seq![34int, 33, 35, 37, 41, 31, 35, 28, 42];
    assert(forall|k: int|
        0 <= k < lengths.len() ==> (#[trigger] catalogue()[k]).name.len() == lengths[k]);
    assert(catalogue()[2].name[11] == 'r');
    assert(catalogue()[6].name[11] == 'c');
}

/// The time series that are exported, by name, help and shape.
pub proof fn law_exported_series()
    ensures
        names_of(catalogue()) == seq![
            "infercache_estimated_usd_saved_usd"@,
            "infercache_cache_operations_total"@,
            "infercache_request_duration_seconds"@,
            "infercache_embedding_duration_seconds"@,
            "infercache_vector_search_duration_seconds"@,
            "infercache_process_memory_bytes"@,
            "infercache_coalesced_requests_total"@,
            "infercache_vector_store_size"@,
            "infercache_encrypted_payloads_served_total"@,
        ],
        catalogue().map_values(|definition: DefinitionView| definition.help) == seq![
            "Estimated USD saved by serving cached responses (based on gpt-4o-mini pricing)"@,
            "Total cache operations (hit, miss, coalesced)"@,
            "Total end-to-end request latency"@,
            "Local Candle embedding inference latency"@,
            "Vector store search latency"@,
            "Current RAM usage of the InferCache process in bytes"@,
            "Requests served via broadcast fanout"@,
            "Total cached prompts stored in vector database"@,
            "Total secure/encrypted cache payloads served"@,
        ],
        catalogue()[0].kind is Gauge,
        catalogue()[1].kind == (KindView::LabelledCounter { label: "status"@ }),
        catalogue()[2].kind is Histogram && catalogue()[2].kind->bounds == seq![
            5_000u64,
            10_000,
            25_000,
            50_000,
            100_000,
            250_000,
            500_000,
            1_000_000,
            2_500_000,
        ],
        catalogue()[3].kind is Histogram && catalogue()[3].kind->bounds == seq![
            1_000u64,
            2_000,
            3_000,
            5_000,
            10_000,
            25_000,
        ],
        catalogue()[4].kind is Histogram && catalogue()[4].kind->bounds == seq![
            500u64,
            1_000,
            2_000,
            5_000,
            10_000,
            25_000,
        ],
        catalogue()[5].kind is Gauge,
        catalogue()[6].kind == (KindView::LabelledCounter { label: "model"@ }),
        catalogue()[7].kind is Gauge,
        catalogue()[8].kind is Counter,
{
    assert(names_of(catalogue()) =~= seq![
        "infercache_estimated_usd_saved_usd"@,
        "infercache_cache_operations_total"@,
        "infercache_request_duration_seconds"@,
        "infercache_embedding_duration_seconds"@,
        "infercache_vector_search_duration_seconds"@,
        "infercache_process_memory_bytes"@,
        "infercache_coalesced_requests_total"@,
        "infercache_vector_store_size"@,
        "infercache_encrypted_payloads_served_total"@,
    ]);
}

/// A definition says what its fields hold.
pub proof fn law_definitions_say(definitions: Seq<MetricDefinition>, i: int)
    requires
        0 <= i < definitions.len(),
    ensures
        definition_views(definitions).len() == definitions.len(),
        definition_views(definitions)[i].name == definitions[i].name@,
        definition_views(definitions)[i].help == definitions[i].help@,
        match definitions[i].kind {
            MetricKind::Gauge => definition_views(definitions)[i].kind is Gauge,
            MetricKind::Counter => definition_views(definitions)[i].kind is Counter,
            MetricKind::LabelledCounter { label } => definition_views(definitions)[i].kind == (
            KindView::LabelledCounter { label: label@ }),
            MetricKind::Histogram { bounds } => definition_views(definitions)[i].kind == (
            KindView::Histogram { bounds: bounds@ }),
        },
{
}

/// An addition says what its fields hold.
pub proof fn law_updates_say(updates: Seq<MetricUpdate>, i: int)
    requires
        0 <= i < updates.len(),
    ensures
        update_views(updates).len() == updates.len(),
        match updates[i] {
            MetricUpdate::CacheOperation { status } => update_views(updates)[i] == (
            UpdateView::CacheOperation { status: status@ }),
            MetricUpdate::RequestDuration => update_views(updates)[i] is RequestDuration,
            MetricUpdate::UsdSaved { millionths } => update_views(updates)[i] == (
            UpdateView::UsdSaved { millionths }),
            MetricUpdate::EncryptedPayloadServed => update_views(updates)[i]
                is EncryptedPayloadServed,
            MetricUpdate::CoalescedRequest { model } => update_views(updates)[i] == (
            UpdateView::CoalescedRequest { model: model@ }),
            MetricUpdate::VectorStoreSize { entries } => update_views(updates)[i] == (
            UpdateView::VectorStoreSize { entries }),
            MetricUpdate::MemoryUsage { bytes } => update_views(updates)[i] == (
            UpdateView::MemoryUsage { bytes }),
        },
{
}

/// Every request adds one operation and its duration; those that upstream was spared also add
/// what they saved, a hit a payload served, and a coalesced one itself under its model.
pub proof fn law_what_requests_add(model: Seq<char>)
    ensures
        hit_updates() == seq![
            UpdateView::CacheOperation { status: "hit"@ },
            UpdateView::RequestDuration,
            UpdateView::UsdSaved { millionths: 350 },
            UpdateView::EncryptedPayloadServed,
        ],
        miss_updates() == seq![
            UpdateView::CacheOperation { status: "miss"@ },
            UpdateView::RequestDuration,
        ],
        coalesced_updates(model) == seq![
            UpdateView::CacheOperation { status: "coalesced"@ },
            UpdateView::CoalescedRequest { model },
            UpdateView::RequestDuration,
            UpdateView::UsdSaved { millionths: 350 },
        ],
{
}

/// A time series is registered now exactly where its name is not registered yet, and what is
/// registered stays so.
pub proof fn law_missing_series_are_registered(names: Seq<Seq<char>>, definition: DefinitionView)
    ensures
        unregistered(names).contains(definition) <==> catalogue().contains(definition)
            && !names.contains(definition.name),
        after_init(names).take(names.len() as int) == names,
        after_init(names).skip(names.len() as int) == unregistered(names).map_values(
            |each: DefinitionView| each.name,
        ),
        catalogue().contains(definition) ==> after_init(names).contains(definition.name),
{
    let test = |each: DefinitionView| !names.contains(each.name);
    assert(after_init(names).take(names.len() as int) =~= names);
    assert(after_init(names).skip(names.len() as int) =~= names_of(unregistered(names)));
    if unregistered(names).contains(definition) {
        catalogue().lemma_filter_contains_rev(test, definition);
        let k = choose|k: int|
            0 <= k < unregistered(names).len() && unregistered(names)[k] == definition;
        catalogue().lemma_filter_pred(test, k);
    }
    if catalogue().contains(definition) && !names.contains(definition.name) {
        let k = choose|k: int| 0 <= k < catalogue().len() && catalogue()[k] == definition;
        catalogue().lemma_filter_contains(test, k);
        let j = choose|j: int|
            0 <= j < unregistered(names).len() && unregistered(names)[j] == definition;
        assert(names_of(unregistered(names))[j] == definition.name);
        assert(after_init(names)[names.len() + j] == definition.name);
    } else if names.contains(definition.name) {
        let k = choose|k: int| 0 <= k < names.len() && names[k] == definition.name;
        assert(after_init(names)[k] == definition.name);
    }
}

/// A first reading is always due.
pub proof fn law_first_reading_is_due(now: u64)
    ensures
        reading_due(None, now),
        MEMORY_READING_SECONDS == 2,
{
}

}
