//! Which blocks are read, in which order, and which are ready.

use crate::compute::routing::ExpertRoute;
use crate::direct_io::BlockKind;
use crate::direct_io::BlockSpan;
use crate::direct_io::BufferPool;
use crate::direct_io::DirectIoError;
use crate::direct_io::PoolView;
use crate::direct_io::ReadTicket;
use crate::model_format::ExpertBlockDescDisk;
use crate::model_format::LayerView;
use crate::model_format::MoELayerBlockDesc;
use crate::model_format::ModelManifest;
use std::collections::VecDeque;
use vstd::multiset::Multiset;
use vstd::prelude::*;

verus! {

/// Why a read was not scheduled.
#[derive(Clone, Copy, Debug, PartialEq, Eq, Structural)]
pub enum SchedulerError {
    DirectIo(DirectIoError),
    InvalidExpert { layer_id: u32, expert_id: u32 },
}

/// A block that was read, with what the read returned.
#[derive(Clone, Copy, Debug, PartialEq, Eq, Structural)]
pub struct ReadyBlock {
    pub ticket: ReadTicket,
    pub result: i32,
}

/// A block that is to be read.
#[derive(Clone, Debug)]
pub struct ReadRequest {
    pub kind: BlockKind,
    pub layer_id: u32,
    pub expert_id: u32,
    pub file_offset: u64,
    pub disk_bytes: u64,
    pub payload_bytes: u64,
    /// The file that the block stands in alone.
    pub external_path: Option<String>,
    /// The file in the ring: the model, or the pack.
    pub fixed_file: u32,
}

/// The expert `expert_id` among `experts` from index `from` on: the first.
pub open spec fn expert_at(
    experts: Seq<ExpertBlockDescDisk>,
    expert_id: u32,
    from: int,
) -> Option<int>
    decreases experts.len() - from,
{
    if from < 0 || from >= experts.len() {
        None
    } else if experts[from].expert_id == expert_id {
        Some(from)
    } else {
        expert_at(experts, expert_id, from + 1)
    }
}

fn find_expert(experts: &[ExpertBlockDescDisk], expert_id: u32) -> (found: Option<usize>)
    ensures
        match expert_at(experts@, expert_id, 0) {
            Some(index) => found == Some(index as usize) && 0 <= index < experts.len()
                && experts[index].expert_id == expert_id,
            None => found is None,
        },
{
    let mut i: usize = 0;
    while i < experts.len()
        invariant
            i <= experts.len(),
            expert_at(experts@, expert_id, 0) == expert_at(experts@, expert_id, i as int),
        decreases experts.len() - i,
    {
        if experts[i].expert_id == expert_id {
            return Some(i);
        }
        i += 1;
    }
    None
}

/// The read of the dense block of a layer.
pub open spec fn dense_request(layer: LayerView) -> ReadRequest {
    ReadRequest {
        kind: BlockKind::Dense,
        layer_id: layer.layer_id,
        expert_id: u32::MAX,
        file_offset: layer.dense_offset,
        disk_bytes: layer.dense_disk_bytes,
        payload_bytes: layer.dense_payload_bytes,
        external_path: None,
        fixed_file: 0,
    }
}

/// The read of an expert of a layer, from its shard if it has one.
pub open spec fn shard_request(
    manifest: ModelManifest,
    layer_id: u32,
    expert_id: u32,
    expert: ExpertBlockDescDisk,
) -> ReadRequest {
    ReadRequest {
        kind: BlockKind::Expert,
        layer_id,
        expert_id,
        file_offset: expert.disk_offset,
        disk_bytes: expert.disk_bytes,
        payload_bytes: expert.payload_bytes,
        external_path: if manifest.expert_shards@.contains_key((layer_id, expert_id)) {
            Some(manifest.expert_shards@[(layer_id, expert_id)].path)
        } else {
            None
        },
        fixed_file: 0,
    }
}

/// The read of an expert of a layer: from the pack where the pack has it.
pub open spec fn expert_request(
    manifest: ModelManifest,
    layer_id: u32,
    expert_id: u32,
    expert: ExpertBlockDescDisk,
) -> ReadRequest {
    match manifest.packed(layer_id, expert_id) {
        Some(entry) => ReadRequest {
            kind: BlockKind::Expert,
            layer_id,
            expert_id,
            file_offset: entry.offset,
            disk_bytes: entry.disk_bytes,
            payload_bytes: entry.payload_bytes,
            external_path: None,
            fixed_file: 1,
        },
        None => shard_request(manifest, layer_id, expert_id, expert),
    }
}

fn dense_read(layer: &MoELayerBlockDesc) -> (request: ReadRequest)
    ensures
        request == dense_request(layer@),
{
    ReadRequest {
        kind: BlockKind::Dense,
        layer_id: layer.layer_id,
        expert_id: u32::MAX,
        file_offset: layer.dense_offset,
        disk_bytes: layer.dense_disk_bytes,
        payload_bytes: layer.dense_payload_bytes,
        external_path: None,
        fixed_file: 0,
    }
}

fn shard_read(
    manifest: &ModelManifest,
    layer_id: u32,
    expert_id: u32,
    expert: &ExpertBlockDescDisk,
) -> (request: ReadRequest)
    ensures
        request == shard_request(*manifest, layer_id, expert_id, *expert),
{
    let external_path: Option<String> = match manifest.expert_shard(layer_id, expert_id) {
        Some(shard) => Some(shard.path.clone()),
        None => None,
    };
    ReadRequest {
        kind: BlockKind::Expert,
        layer_id,
        expert_id,
        file_offset: expert.disk_offset,
        disk_bytes: expert.disk_bytes,
        payload_bytes: expert.payload_bytes,
        external_path,
        fixed_file: 0,
    }
}

/// What a request reads.
pub open spec fn span_of(request: ReadRequest) -> BlockSpan {
    BlockSpan {
        kind: request.kind,
        layer_id: request.layer_id,
        expert_id: request.expert_id,
        file_offset: request.file_offset,
        disk_bytes: request.disk_bytes,
        payload_bytes: request.payload_bytes,
    }
}

/// What a request reads of a file: of one that the block stands in alone, from
/// its start.
pub open spec fn loaded_span(request: ReadRequest, batch: Batch) -> BlockSpan {
    match batch {
        Batch::Pack => span_of(request),
        Batch::External => BlockSpan { file_offset: 0, ..span_of(request) },
    }
}

fn request_span(request: &ReadRequest) -> (span: BlockSpan)
    ensures
        span == span_of(*request),
{
    BlockSpan {
        kind: request.kind,
        layer_id: request.layer_id,
        expert_id: request.expert_id,
        file_offset: request.file_offset,
        disk_bytes: request.disk_bytes,
        payload_bytes: request.payload_bytes,
    }
}

/// Reads that are made at once, apart from the ring.
#[derive(Clone, Copy, Debug, PartialEq, Eq, Structural)]
pub enum Batch {
    /// Ranges of the pack.
    Pack,
    /// Files that hold one block each.
    External,
}

/// What became of a read apart from the ring.
#[derive(Clone, Copy, Debug, PartialEq, Eq, Structural)]
pub enum LoadOutcome {
    Loaded(ReadTicket),
    NoFreeBuffer,
    Failed,
}

/// A round of submissions: the reads that it took off the queue.
pub struct SubmitRound {
    max: usize,
    submitted: usize,
    external: VecDeque<ReadRequest>,
    pack: VecDeque<ReadRequest>,
    loading: Vec<ReadRequest>,
    waiting: Option<ReadRequest>,
    stopped: bool,
}

/// A round, as contents.
#[verifier::ext_equal]
pub struct RoundView {
    /// How many reads the round may make.
    pub max: nat,
    /// How many it made.
    pub submitted: nat,
    /// Reads of files that are to be made at once.
    pub external: Seq<ReadRequest>,
    /// Reads of the pack that are to be made at once.
    pub pack: Seq<ReadRequest>,
    /// Reads that are being made.
    pub loading: Seq<ReadRequest>,
    /// The read whose answer from the ring is awaited.
    pub waiting: Option<ReadRequest>,
    /// The ring takes no more.
    pub stopped: bool,
}

impl View for SubmitRound {
    type V = RoundView;

    closed spec fn view(&self) -> RoundView {
        RoundView {
            max: self.max as nat,
            submitted: self.submitted as nat,
            external: self.external@,
            pack: self.pack@,
            loading: self.loading@,
            waiting: self.waiting,
            stopped: self.stopped,
        }
    }
}

impl RoundView {
    /// How many reads the round made or holds.
    pub open spec fn taken(self) -> nat {
        self.submitted + self.external.len() + self.pack.len() + self.loading.len() + (
        if self.waiting is Some {
            1nat
        } else {
            0nat
        })
    }

    /// The round holds no more than it may.
    pub open spec fn wf(self) -> bool {
        self.taken() <= self.max <= usize::MAX
    }

    /// The round asks for no more reads.
    pub open spec fn full(self) -> bool {
        self.stopped || self.submitted + self.external.len() + self.pack.len() >= self.max
    }

    /// The reads of a batch.
    pub open spec fn queue(self, batch: Batch) -> Seq<ReadRequest> {
        match batch {
            Batch::Pack => self.pack,
            Batch::External => self.external,
        }
    }

    /// The round with other reads in a batch.
    pub open spec fn with_queue(self, batch: Batch, queue: Seq<ReadRequest>) -> RoundView {
        match batch {
            Batch::Pack => RoundView { pack: queue, ..self },
            Batch::External => RoundView { external: queue, ..self },
        }
    }

    /// The reads that the round holds.
    pub open spec fn held(self) -> Multiset<ReadRequest> {
        self.external.to_multiset().add(self.pack.to_multiset()).add(
            self.loading.to_multiset(),
        ).add(
            match self.waiting {
                Some(request) => Multiset::singleton(request),
                None => Multiset::empty(),
            },
        )
    }
}

/// The scheduler: the buffers, the reads that wait, and the blocks that are
/// ready.
pub struct MoEIoScheduler {
    pool: BufferPool,
    manifest: ModelManifest,
    pending: VecDeque<ReadRequest>,
    ready: VecDeque<ReadyBlock>,
    submitted_reads: u64,
}

/// A scheduler, as contents.
#[verifier::ext_equal]
pub struct SchedulerView {
    pub pool: PoolView,
    pub manifest: ModelManifest,
    pub pending: Seq<ReadRequest>,
    pub ready: Seq<ReadyBlock>,
    /// How many reads were submitted so far.
    pub submitted_reads: u64,
}

impl View for MoEIoScheduler {
    type V = SchedulerView;

    closed spec fn view(&self) -> SchedulerView {
        SchedulerView {
            pool: self.pool@,
            manifest: self.manifest,
            pending: self.pending@,
            ready: self.ready@,
            submitted_reads: self.submitted_reads,
        }
    }
}

/// One more, from the largest back to zero.
pub open spec fn counted(count: u64) -> u64 {
    if count == u64::MAX {
        0
    } else {
        (count + 1) as u64
    }
}

impl SchedulerView {
    pub open spec fn wf(self) -> bool {
        self.pool.wf()
    }

    /// The layer at an index.
    pub open spec fn layer(self, layer_id: u32) -> LayerView {
        self.manifest.layers@[layer_id as int]@
    }

    /// The expert that a layer lists under a number: the first.
    pub open spec fn expert(self, layer_id: u32, expert_id: u32) -> Result<
        ExpertBlockDescDisk,
        SchedulerError,
    > {
        let experts = self.layer(layer_id).experts;
        match expert_at(experts, expert_id, 0) {
            Some(index) => Ok(experts[index]),
            None => Err(SchedulerError::InvalidExpert { layer_id, expert_id }),
        }
    }

    /// The scheduler with a read behind those that wait.
    pub open spec fn enqueued(self, request: ReadRequest) -> SchedulerView {
        SchedulerView { pending: self.pending.push(request), ..self }
    }

    /// The first `n` experts of `routes` one after the other: those before one
    /// that the layer does not list are queued.
    pub open spec fn enqueued_experts(
        self,
        layer_id: u32,
        routes: Seq<ExpertRoute>,
        n: int,
    ) -> (SchedulerView, Result<(), SchedulerError>)
        decreases n,
    {
        if n <= 0 {
            (self, Ok(()))
        } else {
            let (before, result) = self.enqueued_experts(layer_id, routes, n - 1);
            let expert_id = routes[n - 1].expert_id;
            if result is Err {
                (before, result)
            } else {
                match self.expert(layer_id, expert_id) {
                    Err(error) => (before, Err(error)),
                    Ok(expert) => (
                        before.enqueued(
                            expert_request(
                                self.manifest,
                                self.layer(layer_id).layer_id,
                                expert_id,
                                expert,
                            ),
                        ),
                        Ok(()),
                    ),
                }
            }
        }
    }

    /// The reads of a layer with the first `n` experts of `routes`, and their
    /// bytes.
    pub open spec fn layer_plan(self, layer_id: u32, routes: Seq<ExpertRoute>, n: int) -> Result<
        (Seq<ReadRequest>, nat),
        SchedulerError,
    >
        decreases n,
    {
        let layer = self.layer(layer_id);
        if n <= 0 {
            Ok((seq![dense_request(layer)], layer.dense_disk_bytes as nat))
        } else {
            let expert_id = routes[n - 1].expert_id;
            match self.layer_plan(layer_id, routes, n - 1) {
                Err(error) => Err(error),
                Ok((requests, bytes)) => match self.expert(layer_id, expert_id) {
                    Err(error) => Err(error),
                    Ok(expert) => Ok(
                        (
                            requests.push(
                                shard_request(self.manifest, layer.layer_id, expert_id, expert),
                            ),
                            bytes + expert.disk_bytes as nat,
                        ),
                    ),
                },
            }
        }
    }

    /// The read of a dense block at once.
    pub open spec fn dense_span(self, layer_id: u32) -> BlockSpan {
        span_of(dense_request(self.layer(layer_id)))
    }

    /// The read of an expert at once, from the model.
    pub open spec fn expert_span(self, layer_id: u32, expert_id: u32) -> Result<
        BlockSpan,
        SchedulerError,
    > {
        match self.expert(layer_id, expert_id) {
            Err(error) => Err(error),
            Ok(expert) => Ok(
                BlockSpan {
                    kind: BlockKind::Expert,
                    layer_id: self.layer(layer_id).layer_id,
                    expert_id,
                    file_offset: expert.disk_offset,
                    disk_bytes: expert.disk_bytes,
                    payload_bytes: expert.payload_bytes,
                },
            ),
        }
    }
}

proof fn lemma_enqueued_error(
    view: SchedulerView,
    layer_id: u32,
    routes: Seq<ExpertRoute>,
    k: int,
    n: int,
)
    requires
        0 <= k <= n,
        view.enqueued_experts(layer_id, routes, k).1 is Err,
    ensures
        view.enqueued_experts(layer_id, routes, n) == view.enqueued_experts(layer_id, routes, k),
    decreases n,
{
    if k < n {
        lemma_enqueued_error(view, layer_id, routes, k, n - 1);
    }
}

proof fn lemma_enqueued_frame(
    view: SchedulerView,
    layer_id: u32,
    routes: Seq<ExpertRoute>,
    n: int,
)
    ensures
        view.enqueued_experts(layer_id, routes, n).0 == (SchedulerView {
            pending: view.enqueued_experts(layer_id, routes, n).0.pending,
            ..view
        }),
    decreases n,
{
    if n > 0 {
        lemma_enqueued_frame(view, layer_id, routes, n - 1);
    }
}

proof fn lemma_plan_error(
    view: SchedulerView,
    layer_id: u32,
    routes: Seq<ExpertRoute>,
    k: int,
    n: int,
)
    requires
        0 <= k <= n,
    ensures
        view.layer_plan(layer_id, routes, k) is Err ==> view.layer_plan(layer_id, routes, n)
            == view.layer_plan(layer_id, routes, k),
        view.layer_plan(layer_id, routes, n) matches Ok(whole) ==> (view.layer_plan(
            layer_id,
            routes,
            k,
        ) matches Ok(part) && part.1 <= whole.1),
    decreases n,
{
    if k < n {
        lemma_plan_error(view, layer_id, routes, k, n - 1);
    }
}

impl MoEIoScheduler {
    /// A scheduler without reads.
    pub fn new(pool: BufferPool, manifest: ModelManifest) -> (scheduler: Self)
        ensures
            scheduler@ == (SchedulerView {
                pool: pool@,
                manifest,
                pending: Seq::empty(),
                ready: Seq::empty(),
                submitted_reads: 0,
            }),
    {
        MoEIoScheduler {
            pool,
            manifest,
            pending: VecDeque::new(),
            ready: VecDeque::new(),
            submitted_reads: 0,
        }
    }

    /// The model.
    pub fn manifest(&self) -> (manifest: &ModelManifest)
        ensures
            *manifest == self@.manifest,
    {
        &self.manifest
    }

    /// The layer at an index.
    pub fn layer(&self, layer_id: u32) -> (layer: &MoELayerBlockDesc)
        requires
            layer_id < self@.manifest.layers@.len(),
        ensures
            layer@ == self@.layer(layer_id),
    {
        &self.manifest.layers[layer_id as usize]
    }

    /// Number of reads that wait.
    pub fn pending_len(&self) -> (len: usize)
        ensures
            len == self@.pending.len(),
    {
        self.pending.len()
    }

    /// Number of reads in the ring.
    pub fn in_flight(&self) -> (count: u64)
        ensures
            count == self@.pool.in_flight,
    {
        self.pool.in_flight()
    }

    /// Number of free buffers.
    pub fn available_buffers(&self) -> (count: usize)
        ensures
            count == self@.pool.free(),
    {
        self.pool.available_buffers()
    }

    /// Number of reads that were submitted so far.
    pub fn submitted_reads(&self) -> (count: u64)
        ensures
            count == self@.submitted_reads,
    {
        self.submitted_reads
    }

    fn find(&self, layer_id: u32, expert_id: u32) -> (result: Result<
        ExpertBlockDescDisk,
        SchedulerError,
    >)
        requires
            layer_id < self@.manifest.layers@.len(),
        ensures
            result == self@.expert(layer_id, expert_id),
    {
        let layer: &MoELayerBlockDesc = &self.manifest.layers[layer_id as usize];
        match find_expert(layer.experts.as_slice(), expert_id) {
            Some(index) => Ok(layer.experts[index]),
            None => Err(SchedulerError::InvalidExpert { layer_id, expert_id }),
        }
    }

    /// Queues the dense block of a layer.
    pub fn enqueue_dense_read(&mut self, layer_id: u32)
        requires
            layer_id < old(self)@.manifest.layers@.len(),
        ensures
            final(self)@ == old(self)@.enqueued(dense_request(old(self)@.layer(layer_id))),
    {
        let request = dense_read(&self.manifest.layers[layer_id as usize]);
        self.pending.push_back(request);
    }

    /// Queues an expert of a layer.
    pub fn enqueue_expert_read(&mut self, layer_id: u32, expert_id: u32) -> (result: Result<
        (),
        SchedulerError,
    >)
        requires
            layer_id < old(self)@.manifest.layers@.len(),
        ensures
            match old(self)@.expert(layer_id, expert_id) {
                Ok(expert) => result is Ok && final(self)@ == old(self)@.enqueued(
                    expert_request(
                        old(self)@.manifest,
                        old(self)@.layer(layer_id).layer_id,
                        expert_id,
                        expert,
                    ),
                ),
                Err(error) => result == Err::<(), SchedulerError>(error) && final(self)@ == old(
                    self,
                )@,
            },
    {
        let expert = self.find(layer_id, expert_id)?;
        let layer_id: u32 = self.manifest.layers[layer_id as usize].layer_id;
        if let Some(entry) = self.manifest.expert_pack_entry(layer_id, expert_id) {
            self.pending.push_back(
                ReadRequest {
                    kind: BlockKind::Expert,
                    layer_id,
                    expert_id,
                    file_offset: entry.offset,
                    disk_bytes: entry.disk_bytes,
                    payload_bytes: entry.payload_bytes,
                    external_path: None,
                    fixed_file: 1,
                },
            );
            return Ok(());
        }
        let request = shard_read(&self.manifest, layer_id, expert_id, &expert);
        self.pending.push_back(request);
        Ok(())
    }

    /// Queues experts of a layer, up to the first that the layer does not list.
    pub fn enqueue_selected_experts(&mut self, layer_id: u32, routes: &[ExpertRoute]) -> (result:
        Result<(), SchedulerError>)
        requires
            layer_id < old(self)@.manifest.layers@.len(),
        ensures
            (final(self)@, result) == old(self)@.enqueued_experts(
                layer_id,
                routes@,
                routes@.len() as int,
            ),
    {
        let ghost before = self@;
        let mut i: usize = 0;
        while i < routes.len()
            invariant
                i <= routes.len(),
                before == old(self)@,
                layer_id < before.manifest.layers@.len(),
                (self@, Ok::<(), SchedulerError>(())) == before.enqueued_experts(
                    layer_id,
                    routes@,
                    i as int,
                ),
            decreases routes.len() - i,
        {
            proof {
                lemma_enqueued_frame(before, layer_id, routes@, i as int);
                if before.enqueued_experts(layer_id, routes@, i + 1).1 is Err {
                    lemma_enqueued_error(
                        before,
                        layer_id,
                        routes@,
                        i + 1,
                        routes@.len() as int,
                    );
                }
            }
            self.enqueue_expert_read(layer_id, routes[i].expert_id)?;
            i += 1;
        }
        Ok(())
    }

    /// Queues a layer with experts: all of them, or none where one is not listed.
    /// Returns the bytes that will be read.
    pub fn enqueue_layer_io_plan(&mut self, layer_id: u32, routes: &[ExpertRoute]) -> (result:
        Result<u64, SchedulerError>)
        requires
            layer_id < old(self)@.manifest.layers@.len(),
            old(self)@.layer_plan(layer_id, routes@, routes@.len() as int) matches Ok(plan)
                ==> plan.1 <= u64::MAX,
        ensures
            match old(self)@.layer_plan(layer_id, routes@, routes@.len() as int) {
                Ok((requests, bytes)) => result == Ok::<u64, SchedulerError>(bytes as u64)
                    && final(self)@ == (SchedulerView {
                    pending: old(self)@.pending + requests,
                    ..old(self)@
                }),
                Err(error) => result == Err::<u64, SchedulerError>(error) && final(self)@ == old(
                    self,
                )@,
            },
    {
        let ghost before = self@;
        let count: usize = routes.len();
        let layer: &MoELayerBlockDesc = &self.manifest.layers[layer_id as usize];
        let mut bytes: u128 = layer.dense_disk_bytes as u128;
        let mut requests: Vec<ReadRequest> = Vec::new();
        requests.push(dense_read(layer));
        proof {
            assert(requests@ =~= seq![dense_request(before.layer(layer_id))]);
        }
        let mut i: usize = 0;
        while i < count
            invariant
                i <= count,
                count == routes@.len(),
                before == old(self)@,
                self@ == before,
                self.manifest == before.manifest,
                layer_id < before.manifest.layers@.len(),
                layer@ == before.layer(layer_id),
                bytes <= (i + 1) * u64::MAX,
                before.layer_plan(layer_id, routes@, i as int) == Ok::<
                    (Seq<ReadRequest>, nat),
                    SchedulerError,
                >((requests@, bytes as nat)),
            decreases count - i,
        {
            proof {
                lemma_plan_error(before, layer_id, routes@, i + 1, count as int);
                assert((i + 1) * u64::MAX <= usize::MAX * u64::MAX) by (nonlinear_arith)
                    requires
                        i + 1 <= usize::MAX,
                ;
                assert((i + 1) * u64::MAX + u64::MAX == (i + 2) * u64::MAX) by (nonlinear_arith);
                assert(usize::MAX * u64::MAX + u64::MAX <= u128::MAX) by (nonlinear_arith)
                    requires
                        usize::MAX <= u64::MAX,
                ;
            }
            let expert_id: u32 = routes[i].expert_id;
            let expert = self.find(layer_id, expert_id)?;
            bytes = bytes + expert.disk_bytes as u128;
            requests.push(shard_read(&self.manifest, layer.layer_id, expert_id, &expert));
            i += 1;
        }
        let ghost added = requests@;
        let mut requests: VecDeque<ReadRequest> = queue_of(requests);
        self.pending.append(&mut requests);
        proof {
            assert(self@.pending =~= before.pending + added);
        }
        Ok(bytes as u64)
    }

    /// Takes a buffer for the dense block of a layer, which is read at once.
    pub fn begin_dense_read(&mut self, layer_id: u32) -> (result: Result<
        ReadTicket,
        SchedulerError,
    >)
        requires
            old(self)@.wf(),
            layer_id < old(self)@.manifest.layers@.len(),
        ensures
            ({
                let (pool, taken) = old(self)@.pool.taken(old(self)@.dense_span(layer_id));
                &&& final(self)@ == (SchedulerView { pool, ..old(self)@ })
                &&& result == match taken {
                    Ok(ticket) => Ok(ticket),
                    Err(error) => Err(SchedulerError::DirectIo(error)),
                }
            }),
    {
        let span = request_span(&dense_read(&self.manifest.layers[layer_id as usize]));
        match self.pool.begin_read(0, false, span) {
            Ok(ticket) => Ok(ticket),
            Err(error) => Err(SchedulerError::DirectIo(error)),
        }
    }

    /// Takes a buffer for an expert of a layer, which is read at once.
    pub fn begin_expert_read(&mut self, layer_id: u32, expert_id: u32) -> (result: Result<
        ReadTicket,
        SchedulerError,
    >)
        requires
            old(self)@.wf(),
            layer_id < old(self)@.manifest.layers@.len(),
        ensures
            match old(self)@.expert_span(layer_id, expert_id) {
                Err(error) => result == Err::<ReadTicket, SchedulerError>(error) && final(self)@
                    == old(self)@,
                Ok(span) => {
                    let (pool, taken) = old(self)@.pool.taken(span);
                    &&& final(self)@ == (SchedulerView { pool, ..old(self)@ })
                    &&& result == match taken {
                        Ok(ticket) => Ok(ticket),
                        Err(error) => Err(SchedulerError::DirectIo(error)),
                    }
                },
            },
    {
        let expert = self.find(layer_id, expert_id)?;
        let span = BlockSpan {
            kind: BlockKind::Expert,
            layer_id: self.manifest.layers[layer_id as usize].layer_id,
            expert_id,
            file_offset: expert.disk_offset,
            disk_bytes: expert.disk_bytes,
            payload_bytes: expert.payload_bytes,
        };
        match self.pool.begin_read(0, false, span) {
            Ok(ticket) => Ok(ticket),
            Err(error) => Err(SchedulerError::DirectIo(error)),
        }
    }

    /// The ring took a read that was begun.
    pub fn read_queued(&mut self)
        ensures
            final(self)@ == (SchedulerView { pool: old(self)@.pool.ring_queued(), ..old(self)@ }),
    {
        self.pool.queued();
    }

    /// The ring had no room for a read that was begun.
    pub fn read_refused(&mut self, ticket: &ReadTicket) -> (error: SchedulerError)
        requires
            ticket.fixed_buffer_index < old(self)@.pool.slots.len(),
        ensures
            error == SchedulerError::DirectIo(DirectIoError::SubmissionQueueFull),
            final(self)@ == (SchedulerView {
                pool: old(self)@.pool.marked(
                    ticket.fixed_buffer_index as int,
                    crate::direct_io::BUFFER_FREE,
                ),
                ..old(self)@
            }),
    {
        SchedulerError::DirectIo(self.pool.refused(ticket.fixed_buffer_index))
    }

    /// A read in the ring was submitted.
    pub fn count_submitted(&mut self)
        ensures
            final(self)@ == (SchedulerView {
                submitted_reads: counted(old(self)@.submitted_reads),
                ..old(self)@
            }),
    {
        self.submitted_reads = if self.submitted_reads == u64::MAX {
            0
        } else {
            self.submitted_reads + 1
        };
    }

    /// A read came back from the ring: its block stands behind those that are
    /// ready.
    pub fn read_completed(&mut self, ticket: ReadTicket, result: i32)
        requires
            ticket.fixed_buffer_index < old(self)@.pool.slots.len(),
        ensures
            final(self)@ == (SchedulerView {
                pool: old(self)@.pool.completed(ticket, result),
                ready: old(self)@.ready.push(ReadyBlock { ticket, result }),
                ..old(self)@
            }),
    {
        self.pool.complete(ticket, result);
        self.ready.push_back(ReadyBlock { ticket, result });
    }

    /// The block that is ready longest.
    pub fn pop_ready(&mut self) -> (block: Option<ReadyBlock>)
        ensures
            if old(self)@.ready.len() == 0 {
                block is None && final(self)@ == old(self)@
            } else {
                block == Some(old(self)@.ready[0]) && final(self)@ == (SchedulerView {
                    ready: old(self)@.ready.skip(1),
                    ..old(self)@
                })
            },
    {
        let ghost before = self@;
        let block = self.ready.pop_front();
        proof {
            if before.ready.len() > 0 {
                assert(self@.ready =~= before.ready.skip(1));
            }
        }
        block
    }

    /// Frees the buffer of a block.
    pub fn release_ready_block(&mut self, block: &ReadyBlock) -> (result: Result<
        (),
        SchedulerError,
    >)
        ensures
            ({
                let index = block.ticket.fixed_buffer_index;
                if index < old(self)@.pool.slots.len() {
                    result is Ok && final(self)@ == (SchedulerView {
                        pool: old(self)@.pool.with_slot(
                            index as int,
                            crate::direct_io::free_slot(),
                        ),
                        ..old(self)@
                    })
                } else {
                    result == Err::<(), SchedulerError>(
                        SchedulerError::DirectIo(DirectIoError::InvalidBufferIndex(index as usize)),
                    ) && final(self)@ == old(self)@
                }
            }),
    {
        match self.pool.release_buffer(block.ticket.fixed_buffer_index) {
            Ok(_) => Ok(()),
            Err(error) => Err(SchedulerError::DirectIo(error)),
        }
    }

    /// The layer whose reads are made ahead of time behind those of `layer_id`:
    /// the next one, where experts of it are predicted.
    pub fn prefetch_layer(&self, layer_id: u32, predicted: &[ExpertRoute]) -> (next: Option<u32>)
        requires
            layer_id < u32::MAX,
        ensures
            next == if predicted@.len() > 0 && layer_id + 1 < self@.manifest.layers@.len() {
                Some((layer_id + 1) as u32)
            } else {
                None
            },
    {
        let next_layer: u32 = layer_id + 1;
        if predicted.len() > 0 && (next_layer as usize) < self.manifest.layers.len() {
            Some(next_layer)
        } else {
            None
        }
    }
}

/// What a round does next: the state after the reads that it took, and the read
/// that the ring gets.
#[verifier::ext_equal]
pub struct Drained {
    pub pool: PoolView,
    pub pending: Seq<ReadRequest>,
    pub round: RoundView,
    pub step: Result<Option<ReadTicket>, SchedulerError>,
}

/// Takes reads off the front of the queue, up to one for the ring. Reads of files
/// and of the pack are put aside. The round ends where nothing waits, where it
/// has taken all it may, or where no buffer is free: then the read stays at the
/// front.
pub open spec fn drained(
    pool: PoolView,
    pending: Seq<ReadRequest>,
    round: RoundView,
    has_pack: bool,
) -> Drained
    decreases pending.len(),
{
    if round.full() || pending.len() == 0 {
        Drained { pool, pending, round, step: Ok(None) }
    } else {
        let request = pending[0];
        let rest = pending.skip(1);
        if request.external_path is Some {
            drained(
                pool,
                rest,
                RoundView { external: round.external.push(request), ..round },
                has_pack,
            )
        } else if request.fixed_file == 1 {
            drained(pool, rest, RoundView { pack: round.pack.push(request), ..round }, has_pack)
        } else {
            let (pool, taken) = pool.ring_taken(request.fixed_file, has_pack, span_of(request));
            match taken {
                Ok(ticket) => Drained {
                    pool,
                    pending: rest,
                    round: RoundView { waiting: Some(request), ..round },
                    step: Ok(Some(ticket)),
                },
                Err(DirectIoError::NoFreeBuffer) => Drained {
                    pool,
                    pending,
                    round: RoundView { stopped: true, ..round },
                    step: Ok(None),
                },
                Err(error) => Drained {
                    pool,
                    pending: rest,
                    round,
                    step: Err(SchedulerError::DirectIo(error)),
                },
            }
        }
    }
}

/// The scheduler and the round once the outcomes of the first `n` reads that
/// were being made are known. Blocks that were read are ready; reads without a
/// buffer go back to the front, one before the other.
pub open spec fn settled(
    view: SchedulerView,
    round: RoundView,
    outcomes: Seq<LoadOutcome>,
    n: int,
) -> (SchedulerView, RoundView)
    decreases n,
{
    if n <= 0 {
        (view, RoundView { loading: Seq::empty(), ..round })
    } else {
        let (view, after) = settled(view, round, outcomes, n - 1);
        let request = round.loading[n - 1];
        match outcomes[n - 1] {
            LoadOutcome::Loaded(ticket) => (
                SchedulerView {
                    ready: view.ready.push(
                        ReadyBlock { ticket, result: request.disk_bytes as i32 },
                    ),
                    submitted_reads: counted(view.submitted_reads),
                    ..view
                },
                RoundView { submitted: after.submitted + 1, ..after },
            ),
            LoadOutcome::NoFreeBuffer => (
                SchedulerView { pending: seq![request] + view.pending, ..view },
                after,
            ),
            LoadOutcome::Failed => (view, after),
        }
    }
}

/// The scheduler and the round once the ring took the read that is awaited, or
/// had no room for it.
pub open spec fn answered(
    view: SchedulerView,
    round: RoundView,
    ticket: ReadTicket,
    queued: bool,
) -> (SchedulerView, RoundView) {
    if queued {
        (
            SchedulerView {
                pool: view.pool.ring_queued(),
                submitted_reads: counted(view.submitted_reads),
                ..view
            },
            RoundView { submitted: round.submitted + 1, waiting: None, ..round },
        )
    } else {
        (
            SchedulerView {
                pool: view.pool.marked(
                    ticket.fixed_buffer_index as int,
                    crate::direct_io::BUFFER_FREE,
                ),
                pending: seq![round.waiting->0] + view.pending,
                ..view
            },
            RoundView { waiting: None, stopped: true, ..round },
        )
    }
}

/// How many reads of a batch a chunk takes: as many as buffers are free.
pub open spec fn chunk_len(view: SchedulerView, round: RoundView, batch: Batch) -> int {
    if view.pool.free() < round.queue(batch).len() {
        view.pool.free() as int
    } else {
        round.queue(batch).len() as int
    }
}

/// The round once a chunk of a batch was taken.
pub open spec fn chunk_taken(view: SchedulerView, round: RoundView, batch: Batch) -> RoundView {
    let n = chunk_len(view, round, batch);
    RoundView {
        loading: round.queue(batch).take(n),
        ..round.with_queue(batch, round.queue(batch).skip(n))
    }
}

/// The scheduler and the round once the reads left of a batch wait again.
pub open spec fn requeued(view: SchedulerView, round: RoundView, batch: Batch) -> (
    SchedulerView,
    RoundView,
) {
    (
        SchedulerView { pending: round.queue(batch) + view.pending, ..view },
        round.with_queue(batch, Seq::empty()),
    )
}

/// The first read that failed among the outcomes from `from` on.
pub open spec fn failed_from(outcomes: Seq<LoadOutcome>, from: int) -> Option<int>
    decreases outcomes.len() - from,
{
    if from < 0 || from >= outcomes.len() {
        None
    } else if outcomes[from] is Failed {
        Some(from)
    } else {
        failed_from(outcomes, from + 1)
    }
}

/// Some outcome of the first `n` found no buffer.
pub open spec fn starved(outcomes: Seq<LoadOutcome>, n: int) -> bool {
    exists|i: int| 0 <= i < n && #[trigger] outcomes[i] is NoFreeBuffer
}

/// The buffers once the first `n` reads of a batch got theirs, and what each got.
/// Without a pack no read of the pack gets one.
pub open spec fn begun(
    pool: PoolView,
    loading: Seq<ReadRequest>,
    batch: Batch,
    has_pack: bool,
    n: int,
) -> (PoolView, Seq<Result<ReadTicket, DirectIoError>>)
    decreases n,
{
    if n <= 0 {
        (pool, Seq::empty())
    } else if batch is Pack && !has_pack {
        (
            pool,
            begun(pool, loading, batch, has_pack, n - 1).1.push(Err(DirectIoError::PackNotOpen)),
        )
    } else {
        let (before, results) = begun(pool, loading, batch, has_pack, n - 1);
        let (after, result) = before.taken(loaded_span(loading[n - 1], batch));
        (after, results.push(result))
    }
}

impl SubmitRound {
    /// A round that may make `max` reads.
    pub fn new(max: usize) -> (round: Self)
        ensures
            round@ == (RoundView {
                max: max as nat,
                submitted: 0,
                external: Seq::empty(),
                pack: Seq::empty(),
                loading: Seq::empty(),
                waiting: None,
                stopped: false,
            }),
            round@.wf(),
    {
        SubmitRound {
            max,
            submitted: 0,
            external: VecDeque::new(),
            pack: VecDeque::new(),
            loading: Vec::new(),
            waiting: None,
            stopped: false,
        }
    }

    /// How many reads the round made.
    pub fn submitted(&self) -> (count: usize)
        ensures
            count == self@.submitted,
    {
        self.submitted
    }

    /// Number of reads in a batch.
    pub fn queue_len(&self, batch: Batch) -> (len: usize)
        ensures
            len == self@.queue(batch).len(),
    {
        match batch {
            Batch::Pack => self.pack.len(),
            Batch::External => self.external.len(),
        }
    }

    /// A read of a file, which is to be made.
    pub fn external_request(&self, index: usize) -> (request: &ReadRequest)
        requires
            index < self@.external.len(),
        ensures
            *request == self@.external[index as int],
    {
        &self.external[index]
    }

    /// The reads that are being made.
    pub fn loading(&self) -> (requests: &[ReadRequest])
        ensures
            requests@ == self@.loading,
    {
        self.loading.as_slice()
    }

    fn pop_front(&mut self, batch: Batch) -> (request: Option<ReadRequest>)
        ensures
            if old(self)@.queue(batch).len() == 0 {
                request is None && final(self)@ == old(self)@
            } else {
                request == Some(old(self)@.queue(batch)[0]) && final(self)@ == old(
                    self,
                )@.with_queue(batch, old(self)@.queue(batch).skip(1))
            },
    {
        let ghost before = self@;
        let request = match batch {
            Batch::Pack => self.pack.pop_front(),
            Batch::External => self.external.pop_front(),
        };
        proof {
            if before.queue(batch).len() > 0 {
                assert(self@.queue(batch) =~= before.queue(batch).skip(1));
            }
        }
        request
    }

    fn pop_back(&mut self, batch: Batch) -> (request: Option<ReadRequest>)
        ensures
            if old(self)@.queue(batch).len() == 0 {
                request is None && final(self)@ == old(self)@
            } else {
                request == Some(old(self)@.queue(batch).last()) && final(self)@ == old(
                    self,
                )@.with_queue(batch, old(self)@.queue(batch).drop_last())
            },
    {
        let ghost before = self@;
        let request = match batch {
            Batch::Pack => self.pack.pop_back(),
            Batch::External => self.external.pop_back(),
        };
        proof {
            if before.queue(batch).len() > 0 {
                assert(self@.queue(batch) =~= before.queue(batch).drop_last());
            }
        }
        request
    }
}

impl MoEIoScheduler {
    /// Takes reads off the queue up to one for the ring, which gets a buffer.
    /// `None` where the ring gets no more in this round.
    pub fn next_ring_read(&mut self, round: &mut SubmitRound, has_pack: bool) -> (step: Result<
        Option<ReadTicket>,
        SchedulerError,
    >)
        requires
            old(self)@.wf(),
            old(round)@.wf(),
            old(round)@.waiting is None,
            old(round)@.loading.len() == 0,
        ensures
            ({
                let after = drained(
                    old(self)@.pool,
                    old(self)@.pending,
                    old(round)@,
                    has_pack,
                );
                &&& final(self)@ == (SchedulerView {
                    pool: after.pool,
                    pending: after.pending,
                    ..old(self)@
                })
                &&& final(round)@ == after.round
                &&& step == after.step
            }),
            final(self)@.wf(),
            final(round)@.wf(),
            step matches Ok(Some(ticket)) ==> final(round)@.waiting is Some
                && ticket.fixed_buffer_index < final(self)@.pool.slots.len(),
    {
        let ghost goal = drained(self@.pool, self@.pending, round@, has_pack);
        while !round.stopped && round.submitted + round.external.len() + round.pack.len()
            < round.max
            invariant
                self@.wf(),
                round@.wf(),
                round@.waiting is None,
                round@.loading.len() == 0,
                self@ == (SchedulerView {
                    pool: self@.pool,
                    pending: self@.pending,
                    ..old(self)@
                }),
                goal == drained(old(self)@.pool, old(self)@.pending, old(round)@, has_pack),
                goal == drained(self@.pool, self@.pending, round@, has_pack),
            decreases self@.pending.len(),
        {
            let ghost before = self@;
            let ghost pending = self.pending@;
            let request: ReadRequest = match self.pending.pop_front() {
                Some(request) => request,
                None => {
                    return Ok(None);
                },
            };
            proof {
                assert(self.pending@ =~= pending.skip(1));
                crate::direct_io::law_tickets_name_buffers(self@.pool, span_of(request));
            }
            if request.external_path.is_some() {
                round.external.push_back(request);
            } else if request.fixed_file == 1 {
                round.pack.push_back(request);
            } else {
                match self.pool.begin_read(
                    request.fixed_file,
                    has_pack,
                    request_span(&request),
                ) {
                    Ok(ticket) => {
                        round.waiting = Some(request);
                        return Ok(Some(ticket));
                    },
                    Err(DirectIoError::NoFreeBuffer) => {
                        self.pending.push_front(request);
                        proof {
                            assert(self.pending@ =~= pending);
                        }
                        round.stopped = true;
                        return Ok(None);
                    },
                    Err(error) => {
                        return Err(SchedulerError::DirectIo(error));
                    },
                }
            }
        }
        Ok(None)
    }

    /// The ring took the read that it got, or had no room for it: then the read
    /// is at the front again and the ring gets no more.
    pub fn ring_answered(&mut self, round: &mut SubmitRound, ticket: &ReadTicket, queued: bool)
        requires
            old(self)@.wf(),
            old(round)@.wf(),
            old(round)@.waiting is Some,
            ticket.fixed_buffer_index < old(self)@.pool.slots.len(),
        ensures
            (final(self)@, final(round)@) == answered(old(self)@, old(round)@, *ticket, queued),
            final(self)@.wf(),
            final(round)@.wf(),
    {
        let waiting: Option<ReadRequest> = round.waiting.take();
        if queued {
            self.pool.queued();
            self.count_submitted();
            round.submitted = round.submitted + 1;
        } else {
            let _ = self.pool.refused(ticket.fixed_buffer_index);
            if let Some(request) = waiting {
                self.pending.push_front(request);
            }
            round.stopped = true;
        }
    }

    /// Takes the next reads of a batch: as many as buffers are free. Returns how
    /// many; with none the batch is over for this round.
    pub fn take_chunk(&self, round: &mut SubmitRound, batch: Batch) -> (count: usize)
        requires
            old(round)@.wf(),
            old(round)@.loading.len() == 0,
        ensures
            count == chunk_len(self@, old(round)@, batch),
            final(round)@ == chunk_taken(self@, old(round)@, batch),
            final(round)@.wf(),
    {
        let free: usize = self.pool.available_buffers();
        let ghost queue = round@.queue(batch);
        let len: usize = round.queue_len(batch);
        let count: usize = if free < len {
            free
        } else {
            len
        };
        let mut i: usize = 0;
        while i < count
            invariant
                i <= count <= queue.len(),
                queue == old(round)@.queue(batch),
                round@ == (RoundView {
                    loading: queue.take(i as int),
                    ..old(round)@.with_queue(batch, queue.skip(i as int))
                }),
            decreases count - i,
        {
            if let Some(request) = round.pop_front(batch) {
                round.loading.push(request);
                proof {
                    assert(queue.take(i as int).push(queue[i as int]) =~= queue.take(i + 1));
                    assert(queue.skip(i as int).skip(1) =~= queue.skip(i + 1));
                }
            }
            i += 1;
        }
        count
    }

    /// Gives a buffer to each read that is being made, one after the other. Reads
    /// of the pack are all refused where no pack is open.
    pub fn begin_chunk(&mut self, round: &SubmitRound, batch: Batch, has_pack: bool) -> (results:
        Vec<Result<ReadTicket, DirectIoError>>)
        requires
            old(self)@.wf(),
        ensures
            ({
                let (pool, given) = begun(
                    old(self)@.pool,
                    round@.loading,
                    batch,
                    has_pack,
                    round@.loading.len() as int,
                );
                &&& results@ == given
                &&& final(self)@ == (SchedulerView { pool, ..old(self)@ })
            }),
            final(self)@.wf(),
    {
        let mut results: Vec<Result<ReadTicket, DirectIoError>> = Vec::new();
        let mut i: usize = 0;
        while i < round.loading.len()
            invariant
                i <= round.loading@.len(),
                round.loading@ == round@.loading,
                self@.wf(),
                (self@.pool, results@) == begun(
                    old(self)@.pool,
                    round@.loading,
                    batch,
                    has_pack,
                    i as int,
                ),
                self@ == (SchedulerView { pool: self@.pool, ..old(self)@ }),
                batch is Pack && !has_pack ==> self@.pool == old(self)@.pool,
            decreases round.loading@.len() - i,
        {
            let mut span = request_span(&round.loading[i]);
            let refused: bool = match batch {
                Batch::Pack => !has_pack,
                Batch::External => {
                    span.file_offset = 0;
                    false
                },
            };
            if refused {
                results.push(Err(DirectIoError::PackNotOpen));
            } else {
                proof {
                    crate::direct_io::law_tickets_name_buffers(self@.pool, span);
                }
                let result = self.pool.begin_load(span);
                results.push(result);
            }
            i += 1;
        }
        results
    }

    /// A read of a file or of the pack ended with `read` bytes in its buffer.
    pub fn finish_load(&mut self, ticket: &ReadTicket, disk_bytes: u64, read: usize) -> (result:
        Result<(), DirectIoError>)
        requires
            ticket.fixed_buffer_index < old(self)@.pool.slots.len(),
        ensures
            ({
                let (pool, done) = old(self)@.pool.loaded(
                    ticket.fixed_buffer_index as int,
                    disk_bytes,
                    read,
                );
                &&& final(self)@ == (SchedulerView { pool, ..old(self)@ })
                &&& result == done
            }),
    {
        self.pool.finish_load(ticket.fixed_buffer_index, disk_bytes, read)
    }

    /// What became of the reads that were being made. `Err` with the first that
    /// failed: those behind it are dropped. Otherwise, whether one found no
    /// buffer.
    pub fn finish_chunk(&mut self, round: &mut SubmitRound, outcomes: &[LoadOutcome]) -> (result:
        Result<bool, usize>)
        requires
            old(round)@.wf(),
            outcomes@.len() == old(round)@.loading.len(),
        ensures
            ({
                let n = match failed_from(outcomes@, 0) {
                    Some(index) => index,
                    None => outcomes@.len() as int,
                };
                &&& (final(self)@, final(round)@) == settled(
                    old(self)@,
                    old(round)@,
                    outcomes@,
                    n,
                )
                &&& match failed_from(outcomes@, 0) {
                    Some(index) => result == Err::<bool, usize>(index as usize),
                    None => result == Ok::<bool, usize>(starved(outcomes@, n)),
                }
            }),
            final(round)@.wf(),
    {
        let mut loading: Vec<ReadRequest> = Vec::new();
        let ghost first = round@;
        std::mem::swap(&mut loading, &mut round.loading);
        let mut loading: VecDeque<ReadRequest> = queue_of(loading);
        let mut out_of_buffers: bool = false;
        let mut i: usize = 0;
        while i < outcomes.len()
            invariant
                i <= outcomes.len(),
                first == old(round)@,
                first.wf(),
                outcomes@.len() == first.loading.len(),
                loading@ == first.loading.skip(i as int),
                (self@, round@) == settled(old(self)@, first, outcomes@, i as int),
                round@ == (RoundView {
                    loading: Seq::empty(),
                    submitted: round@.submitted,
                    ..first
                }),
                first.submitted <= round@.submitted <= first.submitted + i,
                failed_from(outcomes@, 0) == failed_from(outcomes@, i as int),
                out_of_buffers == starved(outcomes@, i as int),
            decreases outcomes.len() - i,
        {
            proof {
                assert(first.loading.skip(i as int).skip(1) =~= first.loading.skip(i + 1));
            }
            if let Some(request) = loading.pop_front() {
                match outcomes[i] {
                    LoadOutcome::Loaded(ticket) => {
                        self.ready.push_back(
                            ReadyBlock { ticket, result: request.disk_bytes as i32 },
                        );
                        self.count_submitted();
                        round.submitted = round.submitted + 1;
                    },
                    LoadOutcome::NoFreeBuffer => {
                        self.pending.push_front(request);
                        out_of_buffers = true;
                    },
                    LoadOutcome::Failed => {
                        return Err(i);
                    },
                }
            }
            i += 1;
        }
        Ok(out_of_buffers)
    }

    /// Puts the reads that are left of a batch back to the front, in their order.
    pub fn requeue(&mut self, round: &mut SubmitRound, batch: Batch)
        requires
            old(round)@.wf(),
        ensures
            (final(self)@, final(round)@) == requeued(old(self)@, old(round)@, batch),
            final(round)@.wf(),
    {
        let ghost goal = round@.queue(batch) + self@.pending;
        while round.queue_len(batch) > 0
            invariant
                round@ == old(round)@.with_queue(batch, round@.queue(batch)),
                self@ == (SchedulerView { pending: self@.pending, ..old(self)@ }),
                round@.queue(batch) + self@.pending == goal,
                goal == old(round)@.queue(batch) + old(self)@.pending,
            decreases round@.queue(batch).len(),
        {
            let ghost queue = round@.queue(batch);
            let ghost pending = self@.pending;
            if let Some(request) = round.pop_back(batch) {
                self.pending.push_front(request);
                proof {
                    assert(round@.queue(batch) + self@.pending =~= queue + pending);
                }
            }
        }
        proof {
            assert(round@.queue(batch) =~= Seq::empty());
            assert(self@.pending =~= goal);
        }
    }
}

fn queue_of(requests: Vec<ReadRequest>) -> (queue: VecDeque<ReadRequest>)
    ensures
        queue@ == requests@,
{
    let ghost all = requests@;
    let mut requests: Vec<ReadRequest> = requests;
    let mut queue: VecDeque<ReadRequest> = VecDeque::new();
    while requests.len() > 0
        invariant
            requests@ + queue@ == all,
        decreases requests@.len(),
    {
        let ghost before = requests@;
        let ghost queued = queue@;
        if let Some(request) = requests.pop() {
            queue.push_front(request);
            proof {
                assert(requests@ + queue@ =~= before + queued);
            }
        }
    }
    proof {
        assert(queue@ =~= all);
    }
    queue
}

/// The reads among the first `n` that brought a block.
pub open spec fn brought(loading: Seq<ReadRequest>, outcomes: Seq<LoadOutcome>, n: int) -> Multiset<
    ReadRequest,
>
    decreases n,
{
    if n <= 0 {
        Multiset::empty()
    } else if outcomes[n - 1] is Loaded {
        brought(loading, outcomes, n - 1).insert(loading[n - 1])
    } else {
        brought(loading, outcomes, n - 1)
    }
}

proof fn lemma_front<T>(first: T, rest: Seq<T>)
    ensures
        (seq![first] + rest).to_multiset() =~= rest.to_multiset().insert(first),
{
    vstd::seq_lib::lemma_multiset_commutative(seq![first], rest);
    assert(seq![first].to_multiset() =~= Multiset::singleton(first)) by {
        broadcast use vstd::seq_lib::group_to_multiset_ensures;

        assert(seq![first] =~= Seq::empty().push(first));
    }
}

/// Taking reads off the queue loses and doubles none, as long as none is
/// refused: each still waits or is held by the round.
pub proof fn law_draining_keeps_reads(
    pool: PoolView,
    pending: Seq<ReadRequest>,
    round: RoundView,
    has_pack: bool,
)
    requires
        round.waiting is None,
        drained(pool, pending, round, has_pack).step is Ok,
    ensures
        ({
            let after = drained(pool, pending, round, has_pack);
            after.pending.to_multiset().add(after.round.held()) == pending.to_multiset().add(
                round.held(),
            )
        }),
    decreases pending.len(),
{
    if !round.full() && pending.len() > 0 {
        let request = pending[0];
        let rest = pending.skip(1);
        let external = RoundView { external: round.external.push(request), ..round };
        let pack = RoundView { pack: round.pack.push(request), ..round };
        assert(seq![request] + rest =~= pending);
        lemma_front(request, rest);
        assert(pending.to_multiset() =~= rest.to_multiset().insert(request));
        broadcast use vstd::seq_lib::group_to_multiset_ensures;

        if request.external_path is Some {
            law_draining_keeps_reads(pool, rest, external, has_pack);
            assert(rest.to_multiset().add(external.held()) =~= pending.to_multiset().add(
                round.held(),
            ));
        } else if request.fixed_file == 1 {
            law_draining_keeps_reads(pool, rest, pack, has_pack);
            assert(rest.to_multiset().add(pack.held()) =~= pending.to_multiset().add(
                round.held(),
            ));
        } else {
            let after = drained(pool, pending, round, has_pack);
            assert(after.pending.to_multiset().add(after.round.held())
                =~= pending.to_multiset().add(round.held()));
        }
    }
}

/// Reads are taken from the front of the queue, and those put aside keep their
/// order.
pub proof fn law_draining_takes_the_front(
    pool: PoolView,
    pending: Seq<ReadRequest>,
    round: RoundView,
    has_pack: bool,
)
    ensures
        ({
            let after = drained(pool, pending, round, has_pack);
            &&& exists|n: int| 0 <= n <= pending.len() && #[trigger] pending.skip(n) == after.pending
            &&& round.external.is_prefix_of(after.round.external)
            &&& round.pack.is_prefix_of(after.round.pack)
        }),
    decreases pending.len(),
{
    let after = drained(pool, pending, round, has_pack);
    assert(pending.skip(0) =~= pending);
    assert(round.external.is_prefix_of(round.external));
    assert(round.pack.is_prefix_of(round.pack));
    if !round.full() && pending.len() > 0 {
        let request = pending[0];
        let rest = pending.skip(1);
        if request.external_path is Some {
            let next = RoundView { external: round.external.push(request), ..round };
            law_draining_takes_the_front(pool, rest, next, has_pack);
            let n = choose|n: int|
                0 <= n <= rest.len() && #[trigger] rest.skip(n) == after.pending;
            assert(pending.skip(n + 1) =~= rest.skip(n));
            assert(round.external.is_prefix_of(after.round.external)) by {
                assert forall|i: int| 0 <= i < round.external.len() implies round.external[i]
                    == after.round.external[i] by {
                    assert(next.external[i] == after.round.external[i]);
                }
            }
        } else if request.fixed_file == 1 {
            let next = RoundView { pack: round.pack.push(request), ..round };
            law_draining_takes_the_front(pool, rest, next, has_pack);
            let n = choose|n: int|
                0 <= n <= rest.len() && #[trigger] rest.skip(n) == after.pending;
            assert(pending.skip(n + 1) =~= rest.skip(n));
            assert(round.pack.is_prefix_of(after.round.pack)) by {
                assert forall|i: int| 0 <= i < round.pack.len() implies round.pack[i]
                    == after.round.pack[i] by {
                    assert(next.pack[i] == after.round.pack[i]);
                }
            }
        }
    }
}

/// The reads of a chunk end: each brought a block or waits again, and the blocks
/// that were brought are ready.
pub proof fn law_settling_keeps_reads(
    view: SchedulerView,
    round: RoundView,
    outcomes: Seq<LoadOutcome>,
    n: int,
)
    requires
        0 <= n <= outcomes.len(),
        outcomes.len() == round.loading.len(),
        forall|i: int| 0 <= i < n ==> !(#[trigger] outcomes[i] is Failed),
    ensures
        ({
            let (after, left) = settled(view, round, outcomes, n);
            &&& after.pending.to_multiset().add(brought(round.loading, outcomes, n))
                == view.pending.to_multiset().add(round.loading.take(n).to_multiset())
            &&& after.ready.len() - view.ready.len() == left.submitted - round.submitted
            &&& view.ready.is_prefix_of(after.ready)
        }),
    decreases n,
{
    broadcast use vstd::seq_lib::group_to_multiset_ensures;

    if n <= 0 {
        assert(round.loading.take(0) =~= Seq::empty());
        let (after, left) = settled(view, round, outcomes, n);
        assert(after.pending.to_multiset().add(brought(round.loading, outcomes, n))
            =~= view.pending.to_multiset().add(round.loading.take(n).to_multiset()));
    } else {
        law_settling_keeps_reads(view, round, outcomes, n - 1);
        let request = round.loading[n - 1];
        let (before, _) = settled(view, round, outcomes, n - 1);
        let (after, left) = settled(view, round, outcomes, n);
        assert(round.loading.take(n) =~= round.loading.take(n - 1).push(request));
        lemma_front(request, before.pending);
        assert(!(outcomes[n - 1] is Failed));
        assert(view.pending.to_multiset().add(round.loading.take(n).to_multiset())
            =~= view.pending.to_multiset().add(round.loading.take(n - 1).to_multiset()).insert(
            request,
        ));
        assert(after.pending.to_multiset().add(brought(round.loading, outcomes, n))
            =~= before.pending.to_multiset().add(brought(round.loading, outcomes, n - 1)).insert(
            request,
        ));
    }
}

proof fn lemma_taken_free(pool: PoolView, span: BlockSpan)
    requires
        pool.wf(),
        pool.free() > 0,
    ensures
        pool.taken(span).0.wf(),
        pool.taken(span).0.free() >= pool.free() - 1,
        pool.taken(span).1 != Err::<ReadTicket, DirectIoError>(DirectIoError::NoFreeBuffer),
{
    crate::direct_io::law_search_finds_free(pool);
    crate::direct_io::law_tickets_name_buffers(pool, span);
    let index = pool.next_free()->0;
    crate::direct_io::law_taken_once(pool, index);
    crate::direct_io::law_marking_in_use(pool.acquired(), index);
}

/// A chunk is no larger than the number of free buffers, so each of its reads
/// finds one. Reads of a pack that is not open take none.
pub proof fn law_chunks_find_buffers(
    pool: PoolView,
    loading: Seq<ReadRequest>,
    batch: Batch,
    has_pack: bool,
    n: int,
)
    requires
        pool.wf(),
        0 <= n <= loading.len() <= pool.free(),
    ensures
        ({
            let (after, results) = begun(pool, loading, batch, has_pack, n);
            &&& after.wf()
            &&& after.free() >= pool.free() - n
            &&& results.len() == n
            &&& forall|i: int|
                0 <= i < n ==> #[trigger] results[i] != Err::<ReadTicket, DirectIoError>(
                    DirectIoError::NoFreeBuffer,
                )
            &&& batch is Pack && !has_pack ==> after == pool && forall|i: int|
                0 <= i < n ==> #[trigger] results[i] == Err::<ReadTicket, DirectIoError>(
                    DirectIoError::PackNotOpen,
                )
        }),
    decreases n,
{
    if n > 0 {
        law_chunks_find_buffers(pool, loading, batch, has_pack, n - 1);
        if !(batch is Pack) || has_pack {
            lemma_taken_free(
                begun(pool, loading, batch, has_pack, n - 1).0,
                loaded_span(loading[n - 1], batch),
            );
        }
    }
}

/// A step of a round.
pub enum RoundStep {
    /// Reads are taken off the queue, up to one for the ring.
    Drain { has_pack: bool },
    /// The ring answers.
    Answer { ticket: ReadTicket, queued: bool },
    /// A chunk of a batch is taken.
    Take { batch: Batch },
    /// The reads of a chunk get their buffers.
    Begin { batch: Batch, has_pack: bool },
    /// A read of a chunk ends.
    Load { ticket: ReadTicket, disk_bytes: u64, read: usize },
    /// What became of a chunk is known.
    Finish { outcomes: Seq<LoadOutcome> },
    /// The reads left of a batch wait again.
    Requeue { batch: Batch },
}

/// The scheduler and a round, with the reads that the round made.
#[verifier::ext_equal]
pub struct RoundState {
    pub view: SchedulerView,
    pub round: RoundView,
    pub made: Multiset<ReadRequest>,
}

impl RoundState {
    /// The step can be taken, and no read of it fails.
    pub open spec fn allows(self, step: RoundStep) -> bool {
        match step {
            RoundStep::Drain { has_pack } => self.round.waiting is None && drained(
                self.view.pool,
                self.view.pending,
                self.round,
                has_pack,
            ).step is Ok,
            RoundStep::Answer { .. } => self.round.waiting is Some,
            RoundStep::Take { .. } => self.round.loading.len() == 0,
            RoundStep::Begin { .. } => true,
            RoundStep::Load { .. } => true,
            RoundStep::Finish { outcomes } => outcomes.len() == self.round.loading.len()
                && failed_from(outcomes, 0) is None,
            RoundStep::Requeue { .. } => true,
        }
    }

    /// The state behind a step.
    pub open spec fn after(self, step: RoundStep) -> RoundState {
        match step {
            RoundStep::Drain { has_pack } => {
                let after = drained(self.view.pool, self.view.pending, self.round, has_pack);
                RoundState {
                    view: SchedulerView { pool: after.pool, pending: after.pending, ..self.view },
                    round: after.round,
                    made: self.made,
                }
            },
            RoundStep::Answer { ticket, queued } => {
                let (view, round) = answered(self.view, self.round, ticket, queued);
                RoundState {
                    view,
                    round,
                    made: if queued {
                        self.made.insert(self.round.waiting->0)
                    } else {
                        self.made
                    },
                }
            },
            RoundStep::Take { batch } => RoundState {
                round: chunk_taken(self.view, self.round, batch),
                ..self
            },
            RoundStep::Begin { batch, has_pack } => RoundState {
                view: SchedulerView {
                    pool: begun(
                        self.view.pool,
                        self.round.loading,
                        batch,
                        has_pack,
                        self.round.loading.len() as int,
                    ).0,
                    ..self.view
                },
                ..self
            },
            RoundStep::Load { ticket, disk_bytes, read } => RoundState {
                view: SchedulerView {
                    pool: self.view.pool.loaded(
                        ticket.fixed_buffer_index as int,
                        disk_bytes,
                        read,
                    ).0,
                    ..self.view
                },
                ..self
            },
            RoundStep::Finish { outcomes } => {
                let n = outcomes.len() as int;
                let (view, round) = settled(self.view, self.round, outcomes, n);
                RoundState {
                    view,
                    round,
                    made: self.made.add(brought(self.round.loading, outcomes, n)),
                }
            },
            RoundStep::Requeue { batch } => {
                let (view, round) = requeued(self.view, self.round, batch);
                RoundState { view, round, made: self.made }
            },
        }
    }

    /// The steps can be taken one after the other, and no read of them fails.
    pub open spec fn allows_run(self, steps: Seq<RoundStep>) -> bool
        decreases steps.len(),
    {
        steps.len() == 0 || self.allows(steps[0]) && self.after(steps[0]).allows_run(steps.skip(1))
    }

    /// The state behind all steps.
    pub open spec fn after_run(self, steps: Seq<RoundStep>) -> RoundState
        decreases steps.len(),
    {
        if steps.len() == 0 {
            self
        } else {
            self.after(steps[0]).after_run(steps.skip(1))
        }
    }

    /// All reads: those that wait, those that the round holds, and those that it
    /// made.
    pub open spec fn reads(self) -> Multiset<ReadRequest> {
        self.view.pending.to_multiset().add(self.round.held()).add(self.made)
    }

    /// How many reads wait, or were taken by the round.
    pub open spec fn count(self) -> nat {
        self.view.pending.len() + self.round.taken()
    }
}

proof fn lemma_drained_count(
    pool: PoolView,
    pending: Seq<ReadRequest>,
    round: RoundView,
    has_pack: bool,
)
    requires
        round.waiting is None,
        drained(pool, pending, round, has_pack).step is Ok,
    ensures
        ({
            let after = drained(pool, pending, round, has_pack);
            &&& after.pending.len() + after.round.taken() == pending.len() + round.taken()
            &&& after.round.submitted == round.submitted
        }),
    decreases pending.len(),
{
    if !round.full() && pending.len() > 0 {
        let request = pending[0];
        let rest = pending.skip(1);
        if request.external_path is Some {
            let next = RoundView { external: round.external.push(request), ..round };
            lemma_drained_count(pool, rest, next, has_pack);
        } else if request.fixed_file == 1 {
            let next = RoundView { pack: round.pack.push(request), ..round };
            lemma_drained_count(pool, rest, next, has_pack);
        }
    }
}

proof fn lemma_none_failed(outcomes: Seq<LoadOutcome>, from: int)
    requires
        0 <= from,
        failed_from(outcomes, from) is None,
    ensures
        forall|i: int| from <= i < outcomes.len() ==> !(#[trigger] outcomes[i] is Failed),
    decreases outcomes.len() - from,
{
    if from < outcomes.len() {
        lemma_none_failed(outcomes, from + 1);
    }
}

proof fn lemma_settled_count(
    view: SchedulerView,
    round: RoundView,
    outcomes: Seq<LoadOutcome>,
    n: int,
)
    requires
        0 <= n <= outcomes.len(),
        outcomes.len() == round.loading.len(),
        forall|i: int| 0 <= i < n ==> !(#[trigger] outcomes[i] is Failed),
    ensures
        ({
            let (after, left) = settled(view, round, outcomes, n);
            let made = brought(round.loading, outcomes, n).len();
            &&& left == (RoundView {
                loading: Seq::empty(),
                submitted: round.submitted + made,
                ..round
            })
            &&& after.pending.len() + made == view.pending.len() + n
        }),
    decreases n,
{
    if n > 0 {
        lemma_settled_count(view, round, outcomes, n - 1);
        assert(!(outcomes[n - 1] is Failed));
    }
}

proof fn lemma_step_keeps_reads(state: RoundState, step: RoundStep)
    requires
        state.allows(step),
    ensures
        state.after(step).reads() == state.reads(),
        state.after(step).count() == state.count(),
        state.after(step).made.len() - state.made.len() == state.after(step).round.submitted
            - state.round.submitted,
{
    broadcast use vstd::seq_lib::group_to_multiset_ensures;

    let after = state.after(step);
    let round = state.round;
    match step {
        RoundStep::Drain { has_pack } => {
            law_draining_keeps_reads(state.view.pool, state.view.pending, round, has_pack);
            lemma_drained_count(state.view.pool, state.view.pending, round, has_pack);
        },
        RoundStep::Answer { ticket, queued } => {
            lemma_front(round.waiting->0, state.view.pending);
            assert(after.reads() =~= state.reads());
        },
        RoundStep::Take { batch } => {
            let queue = round.queue(batch);
            let n = chunk_len(state.view, round, batch);
            assert(queue.take(n) + queue.skip(n) =~= queue);
            vstd::seq_lib::lemma_multiset_commutative(queue.take(n), queue.skip(n));
            assert(round.loading =~= Seq::empty());
            assert(after.reads() =~= state.reads());
        },
        RoundStep::Begin { .. } => {},
        RoundStep::Load { .. } => {},
        RoundStep::Finish { outcomes } => {
            let n = outcomes.len() as int;
            lemma_none_failed(outcomes, 0);
            law_settling_keeps_reads(state.view, round, outcomes, n);
            lemma_settled_count(state.view, round, outcomes, n);
            assert(round.loading.take(n) =~= round.loading);
            let made = brought(round.loading, outcomes, n);
            assert(after.view.pending.to_multiset().add(made)
                =~= state.view.pending.to_multiset().add(round.loading.to_multiset()));
            assert(after.reads() =~= state.view.pending.to_multiset().add(
                round.loading.to_multiset(),
            ).add(after.round.held()).add(state.made));
            assert(after.reads() =~= state.reads());
        },
        RoundStep::Requeue { batch } => {
            vstd::seq_lib::lemma_multiset_commutative(round.queue(batch), state.view.pending);
            assert(after.reads() =~= state.reads());
        },
    }
}

/// Over a whole round, whatever steps it takes, no read is lost or doubled as
/// long as none fails: each waits, is held by the round or was made by it. So the
/// number that wait and the number that the round took add up to the same, and
/// the round counts exactly the reads that it made.
pub proof fn law_rounds_keep_reads(state: RoundState, steps: Seq<RoundStep>)
    requires
        state.allows_run(steps),
    ensures
        state.after_run(steps).reads() == state.reads(),
        state.after_run(steps).count() == state.count(),
        state.after_run(steps).made.len() - state.made.len() == state.after_run(
            steps,
        ).round.submitted - state.round.submitted,
    decreases steps.len(),
{
    if steps.len() > 0 {
        lemma_step_keeps_reads(state, steps[0]);
        law_rounds_keep_reads(state.after(steps[0]), steps.skip(1));
    }
}

/// The read queued for an expert stands behind those that wait already, which
/// stay as they are. Where the pack lists the expert of that layer, the read is
/// the range of the pack that its index gives, whatever the table of the model
/// says. Otherwise it is the range of the table: in the file that holds this
/// expert alone, if the shards name one, or else in the model.
pub proof fn law_packed_experts_come_from_the_pack(
    view: SchedulerView,
    layer_id: u32,
    expert_id: u32,
    expert: ExpertBlockDescDisk,
)
    requires
        layer_id < view.manifest.layers@.len(),
    ensures
        ({
            let named = view.manifest.layers@[layer_id as int].layer_id;
            let after = view.enqueued(expert_request(view.manifest, named, expert_id, expert));
            let read = after.pending.last();
            &&& after.pending.len() == view.pending.len() + 1
            &&& after.pending.drop_last() == view.pending
            &&& after.pool == view.pool
            &&& after.ready == view.ready
            &&& read.kind == BlockKind::Expert
            &&& read.layer_id == named
            &&& read.expert_id == expert_id
            &&& (view.manifest.expert_pack matches Some(pack)
                && pack.entries@.contains_key((named, expert_id))) ==> {
                let entry = view.manifest.expert_pack->0.entries@[(named, expert_id)];
                &&& read.fixed_file == 1
                &&& read.external_path is None
                &&& read.file_offset == entry.offset
                &&& read.disk_bytes == entry.disk_bytes
                &&& read.payload_bytes == entry.payload_bytes
            }
            &&& !(view.manifest.expert_pack matches Some(pack)
                && pack.entries@.contains_key((named, expert_id))) ==> {
                &&& read.fixed_file == 0
                &&& read.file_offset == expert.disk_offset
                &&& read.disk_bytes == expert.disk_bytes
                &&& read.payload_bytes == expert.payload_bytes
                &&& read.external_path is Some == view.manifest.expert_shards@.contains_key(
                    (named, expert_id),
                )
                &&& read.external_path matches Some(path) ==> path
                    == view.manifest.expert_shards@[(named, expert_id)].path
            }
        }),
{
    let named = view.manifest.layers@[layer_id as int].layer_id;
    let after = view.enqueued(expert_request(view.manifest, named, expert_id, expert));
    assert(after.pending.drop_last() =~= view.pending);
}

/// The read of a dense block is the dense range of the layer in the model.
pub proof fn law_dense_blocks_come_from_the_model(view: SchedulerView, layer_id: u32)
    requires
        layer_id < view.manifest.layers@.len(),
    ensures
        ({
            let layer = view.manifest.layers@[layer_id as int];
            let after = view.enqueued(dense_request(view.layer(layer_id)));
            let read = after.pending.last();
            &&& after.pending.drop_last() == view.pending
            &&& after.pending.len() == view.pending.len() + 1
            &&& read.kind == BlockKind::Dense
            &&& read.layer_id == layer.layer_id
            &&& read.expert_id == u32::MAX
            &&& read.file_offset == layer.dense_offset
            &&& read.disk_bytes == layer.dense_disk_bytes
            &&& read.payload_bytes == layer.dense_payload_bytes
            &&& read.external_path is None
            &&& read.fixed_file == 0
            &&& view.dense_span(layer_id).file_offset == layer.dense_offset
            &&& view.dense_span(layer_id).disk_bytes == layer.dense_disk_bytes
            &&& view.dense_span(layer_id).payload_bytes == layer.dense_payload_bytes
            &&& view.dense_span(layer_id).layer_id == layer.layer_id
            &&& view.dense_span(layer_id).kind == BlockKind::Dense
        }),
{
    let after = view.enqueued(dense_request(view.layer(layer_id)));
    assert(after.pending.drop_last() =~= view.pending);
}

proof fn lemma_expert_at(experts: Seq<ExpertBlockDescDisk>, expert_id: u32, from: int)
    requires
        0 <= from <= experts.len(),
    ensures
        match expert_at(experts, expert_id, from) {
            Some(index) => from <= index < experts.len() && experts[index].expert_id == expert_id
                && forall|i: int|
                from <= i < index ==> (#[trigger] experts[i]).expert_id != expert_id,
            None => forall|i: int|
                from <= i < experts.len() ==> (#[trigger] experts[i]).expert_id != expert_id,
        },
    decreases experts.len() - from,
{
    if from < experts.len() && experts[from].expert_id != expert_id {
        lemma_expert_at(experts, expert_id, from + 1);
    }
}

/// The expert of a layer with a number is the first of its table that carries
/// it; there is an error exactly where none does, which names what was asked
/// for. Read at once, it is read from where the table says.
pub proof fn law_experts_go_by_number(view: SchedulerView, layer_id: u32, expert_id: u32)
    requires
        layer_id < view.manifest.layers@.len(),
    ensures
        ({
            let table = view.manifest.layers@[layer_id as int].experts@;
            match view.expert(layer_id, expert_id) {
                Ok(expert) => {
                    &&& expert.expert_id == expert_id
                    &&& exists|index: int|
                        0 <= index < table.len() && #[trigger] table[index] == expert && forall|
                            i: int,
                        |
                            0 <= i < index ==> (#[trigger] table[i]).expert_id != expert_id
                    &&& view.expert_span(layer_id, expert_id) matches Ok(span) && span.kind
                        == BlockKind::Expert && span.layer_id
                        == view.manifest.layers@[layer_id as int].layer_id && span.expert_id
                        == expert_id && span.file_offset == expert.disk_offset && span.disk_bytes
                        == expert.disk_bytes && span.payload_bytes == expert.payload_bytes
                },
                Err(error) => {
                    &&& error == (SchedulerError::InvalidExpert { layer_id, expert_id })
                    &&& forall|i: int|
                        0 <= i < table.len() ==> (#[trigger] table[i]).expert_id != expert_id
                    &&& view.expert_span(layer_id, expert_id) == Err::<BlockSpan, SchedulerError>(
                        error,
                    )
                },
            }
        }),
{
    lemma_expert_at(view.layer(layer_id).experts, expert_id, 0);
}

/// Queueing experts adds one read for each, in the order of the routes, behind
/// those that wait; it stops in front of the first expert that the layer does
/// not list.
pub proof fn law_selected_experts_queue_in_order(
    view: SchedulerView,
    layer_id: u32,
    routes: Seq<ExpertRoute>,
    n: int,
) -> (queued: int)
    requires
        layer_id < view.manifest.layers@.len(),
        0 <= n <= routes.len(),
    ensures
        ({
            let (after, result) = view.enqueued_experts(layer_id, routes, n);
            &&& 0 <= queued <= n
            &&& after.pending.len() == view.pending.len() + queued
            &&& forall|i: int|
                0 <= i < view.pending.len() ==> #[trigger] after.pending[i] == view.pending[i]
            &&& forall|i: int|
                0 <= i < queued ==> {
                    let read = #[trigger] after.pending[view.pending.len() + i];
                    &&& view.expert(layer_id, routes[i].expert_id) is Ok
                    &&& read == expert_request(
                        view.manifest,
                        view.manifest.layers@[layer_id as int].layer_id,
                        routes[i].expert_id,
                        view.expert(layer_id, routes[i].expert_id)->Ok_0,
                    )
                }
            &&& result is Ok == (queued == n)
            &&& queued < n ==> view.expert(layer_id, routes[queued].expert_id) is Err && result
                == Err::<(), SchedulerError>(
                view.expert(layer_id, routes[queued].expert_id)->Err_0,
            )
            &&& after.pool == view.pool
            &&& after.ready == view.ready
        }),
    decreases n,
{
    if n <= 0 {
        0
    } else {
        let before_n = law_selected_experts_queue_in_order(view, layer_id, routes, n - 1);
        let (before, result) = view.enqueued_experts(layer_id, routes, n - 1);
        let (after, _) = view.enqueued_experts(layer_id, routes, n);
        if result is Err || view.expert(layer_id, routes[n - 1].expert_id) is Err {
            before_n
        } else {
            assert forall|i: int| 0 <= i < before.pending.len() implies #[trigger] after.pending[i]
                == before.pending[i] by {}
            n
        }
    }
}

/// How many bytes reads take together.
pub open spec fn disk_bytes_of(reads: Seq<ReadRequest>) -> nat
    decreases reads.len(),
{
    if reads.len() == 0 {
        0
    } else {
        disk_bytes_of(reads.drop_last()) + reads.last().disk_bytes as nat
    }
}

/// The reads of a layer are its dense block and one expert for each route, in
/// that order, each from its range in the table, or in the file of its shard; the
/// bytes are those of all of them. There are none where an expert is not listed.
pub proof fn law_layer_reads_are_complete(
    view: SchedulerView,
    layer_id: u32,
    routes: Seq<ExpertRoute>,
    n: int,
)
    requires
        layer_id < view.manifest.layers@.len(),
        0 <= n <= routes.len(),
    ensures
        view.layer_plan(layer_id, routes, n) is Ok == (forall|i: int|
            0 <= i < n ==> view.expert(layer_id, (#[trigger] routes[i]).expert_id) is Ok),
        view.layer_plan(layer_id, routes, n) matches Ok((reads, bytes)) ==> {
            &&& reads.len() == n + 1
            &&& reads[0] == dense_request(view.layer(layer_id))
            &&& bytes == disk_bytes_of(reads)
            &&& forall|i: int|
                0 <= i < n ==> {
                    let read = #[trigger] reads[i + 1];
                    let expert = view.expert(layer_id, routes[i].expert_id)->Ok_0;
                    let named = view.manifest.layers@[layer_id as int].layer_id;
                    &&& read.kind == BlockKind::Expert
                    &&& read.layer_id == named
                    &&& read.expert_id == routes[i].expert_id
                    &&& read.file_offset == expert.disk_offset
                    &&& read.disk_bytes == expert.disk_bytes
                    &&& read.payload_bytes == expert.payload_bytes
                    &&& read.fixed_file == 0
                    &&& read.external_path is Some == view.manifest.expert_shards@.contains_key(
                        (named, routes[i].expert_id),
                    )
                }
        },
    decreases n,
{
    let layer = view.layer(layer_id);
    if n <= 0 {
        let reads = seq![dense_request(layer)];
        assert(reads.drop_last() =~= Seq::<ReadRequest>::empty());
        assert(disk_bytes_of(reads.drop_last()) == 0);
    } else {
        law_layer_reads_are_complete(view, layer_id, routes, n - 1);
        match view.layer_plan(layer_id, routes, n) {
            Ok((reads, bytes)) => {
                let before = view.layer_plan(layer_id, routes, n - 1)->Ok_0.0;
                assert(reads.drop_last() =~= before);
                assert forall|i: int| 0 <= i < n - 1 implies #[trigger] reads[i + 1] == before[i
                    + 1] by {}
            },
            Err(_) => {
                assert(view.layer_plan(layer_id, routes, n - 1) is Err || view.expert(
                    layer_id,
                    routes[n - 1].expert_id,
                ) is Err);
            },
        }
    }
}

/// A read asks for the range that was queued; from a file that holds one block
/// it reads that block from the start.
pub proof fn law_reads_ask_for_what_was_queued(request: ReadRequest, batch: Batch)
    ensures
        span_of(request).kind == request.kind,
        span_of(request).layer_id == request.layer_id,
        span_of(request).expert_id == request.expert_id,
        span_of(request).file_offset == request.file_offset,
        span_of(request).disk_bytes == request.disk_bytes,
        span_of(request).payload_bytes == request.payload_bytes,
        loaded_span(request, batch).kind == request.kind,
        loaded_span(request, batch).layer_id == request.layer_id,
        loaded_span(request, batch).expert_id == request.expert_id,
        loaded_span(request, batch).disk_bytes == request.disk_bytes,
        loaded_span(request, batch).payload_bytes == request.payload_bytes,
        loaded_span(request, batch).file_offset == if batch is External {
            0
        } else {
            request.file_offset
        },
{
}

/// Draining sorts the reads: what it puts aside as a file is a file, what it puts
/// aside for the pack is in the pack, and the ring gets the first read that is
/// neither, with a ticket for that very read.
pub proof fn law_draining_sorts_reads(
    pool: PoolView,
    pending: Seq<ReadRequest>,
    round: RoundView,
    has_pack: bool,
)
    requires
        pool.wf(),
        round.waiting is None,
        forall|i: int| 0 <= i < pending.len() ==> (#[trigger] pending[i]).disk_bytes <= u32::MAX,
        forall|i: int|
            0 <= i < round.external.len() ==> (#[trigger] round.external[i]).external_path is Some,
        forall|i: int|
            0 <= i < round.pack.len() ==> (#[trigger] round.pack[i]).external_path is None
                && round.pack[i].fixed_file == 1,
    ensures
        ({
            let after = drained(pool, pending, round, has_pack);
            &&& forall|i: int|
                0 <= i < after.round.external.len() ==> (
                #[trigger] after.round.external[i]).external_path is Some
            &&& forall|i: int|
                0 <= i < after.round.pack.len() ==> (#[trigger] after.round.pack[i]).external_path
                    is None && after.round.pack[i].fixed_file == 1
            &&& after.step matches Ok(Some(ticket)) ==> {
                &&& after.round.waiting matches Some(read) && read.external_path is None
                    && read.fixed_file != 1 && ticket.kind == read.kind && ticket.layer_id
                    == read.layer_id && ticket.expert_id == read.expert_id && ticket.file_offset
                    == read.file_offset && ticket.disk_bytes == read.disk_bytes
            }
            &&& !(after.step matches Ok(Some(ticket))) ==> after.round.waiting is None
        }),
    decreases pending.len(),
{
    if !round.full() && pending.len() > 0 {
        let request = pending[0];
        let rest = pending.skip(1);
        assert(request.disk_bytes <= u32::MAX);
        assert forall|i: int| 0 <= i < rest.len() implies (#[trigger] rest[i]).disk_bytes
            <= u32::MAX by {
            assert(rest[i] == pending[i + 1]);
        }
        if request.external_path is Some {
            law_draining_sorts_reads(
                pool,
                rest,
                RoundView { external: round.external.push(request), ..round },
                has_pack,
            );
        } else if request.fixed_file == 1 {
            law_draining_sorts_reads(
                pool,
                rest,
                RoundView { pack: round.pack.push(request), ..round },
                has_pack,
            );
        } else {
            crate::direct_io::law_reads_hold_their_buffer(pool, span_of(request));
        }
    }
}

/// A read that the ring has no room for waits in front of all others, and its
/// buffer is free again; one that it took waits no longer.
pub proof fn law_refused_reads_come_first(
    view: SchedulerView,
    round: RoundView,
    ticket: ReadTicket,
    read: ReadRequest,
)
    requires
        round.waiting == Some(read),
        ticket.fixed_buffer_index < view.pool.slots.len(),
    ensures
        ({
            let (after, left) = answered(view, round, ticket, false);
            &&& after.pending.len() == view.pending.len() + 1
            &&& after.pending[0] == read
            &&& after.pending.skip(1) == view.pending
            &&& after.pool.slots[ticket.fixed_buffer_index as int].state
                == crate::direct_io::BUFFER_FREE
            &&& after.submitted_reads == view.submitted_reads
            &&& left.waiting is None
            &&& left.full()
            &&& left.submitted == round.submitted
        }),
        ({
            let (after, left) = answered(view, round, ticket, true);
            &&& after.pending == view.pending
            &&& after.pool.slots == view.pool.slots
            &&& view.submitted_reads < u64::MAX ==> after.submitted_reads == view.submitted_reads
                + 1
            &&& left.waiting is None
            &&& left.submitted == round.submitted + 1
            &&& left.stopped == round.stopped
        }),
{
    let (after, left) = answered(view, round, ticket, false);
    assert(after.pending.skip(1) =~= view.pending);
}

/// A chunk takes reads from the front of a batch, as many as buffers are free,
/// and the rest stays; reads that are put back stand in front of those that
/// wait, in their order.
pub proof fn law_chunks_take_the_front(view: SchedulerView, round: RoundView, batch: Batch)
    ensures
        ({
            let after = chunk_taken(view, round, batch);
            &&& after.loading + after.queue(batch) == round.queue(batch)
            &&& after.loading.len() <= view.pool.free()
            &&& after.loading.len() < view.pool.free() ==> after.queue(batch).len() == 0
            &&& batch is Pack ==> after.external == round.external
            &&& batch is External ==> after.pack == round.pack
        }),
        ({
            let (after, left) = requeued(view, round, batch);
            &&& after.pending == round.queue(batch) + view.pending
            &&& left.queue(batch).len() == 0
            &&& after.ready == view.ready
            &&& batch is Pack ==> left.external == round.external
            &&& batch is External ==> left.pack == round.pack
        }),
        round.queue(Batch::Pack) == round.pack,
        round.queue(Batch::External) == round.external,
{
    let after = chunk_taken(view, round, batch);
    assert(after.loading + after.queue(batch) =~= round.queue(batch));
}

/// Each read of a chunk that gets a buffer gets a ticket of its own: the i-th
/// ticket is for the i-th read.
pub proof fn law_chunk_tickets_name_their_reads(
    pool: PoolView,
    loading: Seq<ReadRequest>,
    batch: Batch,
    has_pack: bool,
    n: int,
)
    requires
        pool.wf(),
        0 <= n <= loading.len(),
        forall|i: int| 0 <= i < loading.len() ==> (#[trigger] loading[i]).disk_bytes <= u32::MAX,
    ensures
        ({
            let (after, results) = begun(pool, loading, batch, has_pack, n);
            &&& after.wf()
            &&& results.len() == n
            &&& forall|i: int|
                0 <= i < n ==> (#[trigger] results[i] matches Ok(ticket) ==> {
                    &&& ticket.kind == loading[i].kind
                    &&& ticket.layer_id == loading[i].layer_id
                    &&& ticket.expert_id == loading[i].expert_id
                    &&& ticket.disk_bytes == loading[i].disk_bytes
                    &&& ticket.file_offset == if batch is External {
                        0
                    } else {
                        loading[i].file_offset
                    }
                })
        }),
    decreases n,
{
    if n > 0 {
        law_chunk_tickets_name_their_reads(pool, loading, batch, has_pack, n - 1);
        let (before, old_results) = begun(pool, loading, batch, has_pack, n - 1);
        let (after, results) = begun(pool, loading, batch, has_pack, n);
        assert(loading[n - 1].disk_bytes <= u32::MAX);
        crate::direct_io::law_reads_hold_their_buffer(before, loaded_span(loading[n - 1], batch));
        assert forall|i: int| 0 <= i < n - 1 implies #[trigger] results[i] == old_results[i] by {}
    }
}

/// How many of the first `n` reads brought a block.
pub open spec fn loaded_before(outcomes: Seq<LoadOutcome>, n: int) -> nat
    decreases n,
{
    if n <= 0 {
        0
    } else if outcomes[n - 1] is Loaded {
        loaded_before(outcomes, n - 1) + 1
    } else {
        loaded_before(outcomes, n - 1)
    }
}

/// Blocks become ready in the order of their reads, behind those that are, each
/// with its ticket and with all its bytes as the result.
pub proof fn law_blocks_become_ready_in_order(
    view: SchedulerView,
    round: RoundView,
    outcomes: Seq<LoadOutcome>,
    n: int,
)
    requires
        0 <= n <= outcomes.len(),
        outcomes.len() == round.loading.len(),
    ensures
        ({
            let (after, left) = settled(view, round, outcomes, n);
            &&& after.ready.len() == view.ready.len() + loaded_before(outcomes, n)
            &&& view.ready.is_prefix_of(after.ready)
            &&& forall|i: int|
                0 <= i < n ==> loaded_before(outcomes, i) <= loaded_before(outcomes, n) && (
                #[trigger] outcomes[i] matches LoadOutcome::Loaded(ticket) ==> {
                    let at = view.ready.len() + loaded_before(outcomes, i);
                    &&& at < after.ready.len()
                    &&& after.ready[at as int].ticket == ticket
                    &&& round.loading[i].disk_bytes <= i32::MAX ==> after.ready[at as int].result
                        == round.loading[i].disk_bytes
                })
            &&& after.pool == view.pool
            &&& left.submitted == round.submitted + loaded_before(outcomes, n)
            &&& left.loading.len() == 0
        }),
    decreases n,
{
    if n > 0 {
        law_blocks_become_ready_in_order(view, round, outcomes, n - 1);
        let (before, _) = settled(view, round, outcomes, n - 1);
        let (after, _) = settled(view, round, outcomes, n);
        assert forall|i: int| 0 <= i < before.ready.len() implies after.ready[i]
            == before.ready[i] by {}
        assert forall|i: int| 0 <= i < view.ready.len() implies view.ready[i]
            == after.ready[i] by {
            assert(view.ready[i] == before.ready[i]);
        }
        assert forall|i: int| 0 <= i < n implies loaded_before(outcomes, i) <= loaded_before(
            outcomes,
            n,
        ) && (#[trigger] outcomes[i] matches LoadOutcome::Loaded(ticket) ==> {
            let at = view.ready.len() + loaded_before(outcomes, i);
            &&& at < after.ready.len()
            &&& after.ready[at as int].ticket == ticket
            &&& round.loading[i].disk_bytes <= i32::MAX ==> after.ready[at as int].result
                == round.loading[i].disk_bytes
        }) by {
            if i < n - 1 {
                assert(loaded_before(outcomes, i) <= loaded_before(outcomes, n - 1));
            }
        }
    }
}

/// Reads that found no buffer wait again in front of those that wait: the last
/// of them comes first, and with none of them the queue is as it was.
pub proof fn law_starved_reads_wait_in_front(
    view: SchedulerView,
    round: RoundView,
    outcomes: Seq<LoadOutcome>,
    n: int,
    last: int,
)
    requires
        0 <= n <= outcomes.len(),
        outcomes.len() == round.loading.len(),
        -1 <= last < n,
        last >= 0 ==> outcomes[last] is NoFreeBuffer,
        forall|i: int| last < i < n ==> !(#[trigger] outcomes[i] is NoFreeBuffer),
    ensures
        last < 0 ==> settled(view, round, outcomes, n).0.pending == view.pending,
        last >= 0 ==> settled(view, round, outcomes, n).0.pending == seq![round.loading[last]]
            + settled(view, round, outcomes, last).0.pending,
    decreases n,
{
    if n > 0 && last < n - 1 {
        law_starved_reads_wait_in_front(view, round, outcomes, n - 1, last);
        assert(!(outcomes[n - 1] is NoFreeBuffer));
    }
}

/// What `enqueue_expert_read` leaves: behind the reads that wait stands the read of
/// this expert. Where the pack lists the expert of that layer, it is the range of
/// the pack that its index gives; otherwise it is the range that the layer lists
/// for the first expert with that number.
pub proof fn law_enqueue_expert_read(
    scheduler: &mut MoEIoScheduler,
    layer_id: u32,
    expert_id: u32,
    result: Result<(), SchedulerError>,
)
    requires
        layer_id < scheduler@.manifest.layers@.len(),
        call_ensures(
            MoEIoScheduler::enqueue_expert_read,
            (scheduler, layer_id, expert_id),
            result,
        ),
    ensures
        ({
            let manifest = old(scheduler)@.manifest;
            let layer = manifest.layers@[layer_id as int];
            let before = old(scheduler)@.pending;
            let after = final(scheduler)@.pending;
            let listed = manifest.expert_pack matches Some(pack) && pack.entries@.contains_key(
                (layer.layer_id, expert_id),
            );
            &&& result is Ok == exists|e: int|
                0 <= e < layer.experts@.len() && (#[trigger] layer.experts@[e]).expert_id
                    == expert_id
            &&& result is Err ==> after == before
            &&& result is Ok ==> {
                let read = after.last();
                &&& after == before.push(read)
                &&& read.kind == BlockKind::Expert
                &&& read.layer_id == layer.layer_id
                &&& read.expert_id == expert_id
                &&& listed ==> {
                    let entry = manifest.expert_pack->0.entries@[(layer.layer_id, expert_id)];
                    &&& read.fixed_file == 1 && read.external_path is None
                    &&& read.file_offset == entry.offset
                    &&& read.disk_bytes == entry.disk_bytes
                    &&& read.payload_bytes == entry.payload_bytes
                }
                &&& !listed ==> {
                    &&& read.fixed_file == 0
                    &&& read.external_path is Some == manifest.expert_shards@.contains_key(
                        (layer.layer_id, expert_id),
                    )
                    &&& exists|e: int|
                        0 <= e < layer.experts@.len() && (#[trigger] layer.experts@[e]).expert_id
                            == expert_id && layer.experts@[e].disk_offset == read.file_offset
                            && layer.experts@[e].disk_bytes == read.disk_bytes
                            && layer.experts@[e].payload_bytes == read.payload_bytes
                }
            }
            &&& final(scheduler)@.pool == old(scheduler)@.pool
            &&& final(scheduler)@.ready == old(scheduler)@.ready
            &&& final(scheduler)@.manifest == manifest
        }),
{
    let view = old(scheduler)@;
    let layer = view.manifest.layers@[layer_id as int];
    law_experts_go_by_number(view, layer_id, expert_id);
    lemma_expert_at(layer.experts@, expert_id, 0);
    if let Ok(expert) = view.expert(layer_id, expert_id) {
        law_packed_experts_come_from_the_pack(view, layer_id, expert_id, expert);
        assert(final(scheduler)@.pending =~= view.pending.push(final(scheduler)@.pending.last()));
    }
}

/// Blocks that are ready come out in the order in which their reads came back, each
/// once.
pub proof fn law_ready_blocks_come_in_order(
    scheduler: &mut MoEIoScheduler,
    ticket: ReadTicket,
    result: i32,
)
    requires
        call_ensures(MoEIoScheduler::read_completed, (scheduler, ticket, result), ()),
    ensures
        final(scheduler)@.ready.len() == old(scheduler)@.ready.len() + 1,
        final(scheduler)@.ready.last() == (ReadyBlock { ticket, result }),
        final(scheduler)@.ready.drop_last() == old(scheduler)@.ready,
        final(scheduler)@.pending == old(scheduler)@.pending,
{
    assert(final(scheduler)@.ready.drop_last() =~= old(scheduler)@.ready);
}

/// What `pop_ready` takes: the first of the blocks that are ready, and the others
/// stay.
pub proof fn law_pop_ready_takes_the_first(
    scheduler: &mut MoEIoScheduler,
    block: Option<ReadyBlock>,
)
    requires
        call_ensures(MoEIoScheduler::pop_ready, (scheduler,), block),
    ensures
        block is None == (old(scheduler)@.ready.len() == 0),
        block matches Some(first) ==> seq![first] + final(scheduler)@.ready == old(
            scheduler,
        )@.ready,
        block is None ==> final(scheduler)@.ready == old(scheduler)@.ready,
        final(scheduler)@.pending == old(scheduler)@.pending,
        final(scheduler)@.pool == old(scheduler)@.pool,
{
    if block is Some {
        assert(seq![block->0] + final(scheduler)@.ready =~= old(scheduler)@.ready);
    }
}

/// A block that is released frees its buffer, and that one only.
pub proof fn law_released_blocks_free_their_buffer(
    scheduler: &mut MoEIoScheduler,
    block: &ReadyBlock,
    other: int,
)
    requires
        0 <= other < scheduler@.pool.slots.len(),
        call_ensures(
            MoEIoScheduler::release_ready_block,
            (scheduler, block),
            Ok::<(), SchedulerError>(()),
        ),
    ensures
        ({
            let index = block.ticket.fixed_buffer_index as int;
            &&& index < old(scheduler)@.pool.slots.len()
            &&& final(scheduler)@.pool.slots[index].state == crate::direct_io::BUFFER_FREE
            &&& other != index ==> final(scheduler)@.pool.slots[other] == old(
                scheduler,
            )@.pool.slots[other]
            &&& final(scheduler)@.pending == old(scheduler)@.pending
            &&& final(scheduler)@.ready == old(scheduler)@.ready
        }),
{
}

/// The layer that is read ahead is the one right behind, where there is one and
/// something is predicted for it.
pub proof fn law_prefetch_looks_one_layer_ahead(
    scheduler: &MoEIoScheduler,
    layer_id: u32,
    predicted: &[ExpertRoute],
    next: Option<u32>,
)
    requires
        layer_id < u32::MAX,
        call_ensures(MoEIoScheduler::prefetch_layer, (scheduler, layer_id, predicted), next),
    ensures
        next matches Some(ahead) ==> ahead == layer_id + 1 && ahead
            < scheduler@.manifest.layers@.len() && predicted@.len() > 0,
        next is None ==> predicted@.len() == 0 || layer_id + 1 >= scheduler@.manifest.layers@.len(),
{
}

/// What `enqueue_dense_read` leaves: behind the reads that wait stands the dense
/// range of the layer in the model.
pub proof fn law_enqueue_dense_read(scheduler: &mut MoEIoScheduler, layer_id: u32)
    requires
        layer_id < scheduler@.manifest.layers@.len(),
        call_ensures(MoEIoScheduler::enqueue_dense_read, (scheduler, layer_id), ()),
    ensures
        ({
            let layer = old(scheduler)@.manifest.layers@[layer_id as int];
            let read = final(scheduler)@.pending.last();
            &&& final(scheduler)@.pending == old(scheduler)@.pending.push(read)
            &&& read.kind == BlockKind::Dense
            &&& read.layer_id == layer.layer_id
            &&& read.file_offset == layer.dense_offset
            &&& read.disk_bytes == layer.dense_disk_bytes
            &&& read.payload_bytes == layer.dense_payload_bytes
            &&& read.external_path is None
            &&& read.fixed_file == 0
        }),
{
    assert(final(scheduler)@.pending =~= old(scheduler)@.pending.push(
        final(scheduler)@.pending.last(),
    ));
}

/// What `begin_expert_read` takes a buffer for: the range that the layer lists for
/// the expert.
pub proof fn law_begin_expert_read(
    scheduler: &mut MoEIoScheduler,
    layer_id: u32,
    expert_id: u32,
    ticket: ReadTicket,
)
    requires
        scheduler@.wf(),
        layer_id < scheduler@.manifest.layers@.len(),
        call_ensures(
            MoEIoScheduler::begin_expert_read,
            (scheduler, layer_id, expert_id),
            Ok::<ReadTicket, SchedulerError>(ticket),
        ),
        old(scheduler)@.expert(layer_id, expert_id) matches Ok(expert) ==> expert.disk_bytes
            <= u32::MAX,
    ensures
        old(scheduler)@.expert(layer_id, expert_id) matches Ok(expert) && expert.expert_id
            == expert_id && ticket.kind == BlockKind::Expert && ticket.layer_id == old(
            scheduler,
        )@.manifest.layers@[layer_id as int].layer_id && ticket.expert_id == expert_id
            && ticket.file_offset == expert.disk_offset && ticket.disk_bytes == expert.disk_bytes,
        final(scheduler)@.pending == old(scheduler)@.pending,
        final(scheduler)@.pool.slots[ticket.fixed_buffer_index as int].ticket_id == ticket.id,
{
    let view = old(scheduler)@;
    law_experts_go_by_number(view, layer_id, expert_id);
    if view.expert_span(layer_id, expert_id) is Ok {
        crate::direct_io::law_reads_hold_their_buffer(
            view.pool,
            view.expert_span(layer_id, expert_id)->Ok_0,
        );
    }
}

} // verus!
