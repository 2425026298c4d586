//! The local cache of experts: which files it holds, which it drops, and how a
//! missing one is asked for.

use crate::bytes::{bytes_equal, bytes_find, bytes_rfind, bytes_start_with, parse_decimal};
use crate::bytes::{push_bytes, push_decimal};
use vstd::prelude::*;
use vstd::slice::slice_subrange;

verus! {

use crate::bytes::{decimal, digits_of, first_match, last_match, starts_with_bytes};
use vstd::string::StringSliceAdditionalSpecFns;

/// Where the cache is, how large it may grow, and where missing experts are.
#[derive(Clone, Debug)]
pub struct ExpertCacheConfig {
    pub cache_dir: Vec<u8>,
    pub max_bytes: u64,
    pub remote_endpoint: Option<Vec<u8>>,
}

impl Default for ExpertCacheConfig {
    fn default() -> (config: Self)
        ensures
            config.cache_dir@ == "cache/experts".spec_bytes(),
            config.max_bytes == 100 * 1024 * 1024 * 1024,
            config.remote_endpoint is None,
    {
        let mut cache_dir: Vec<u8> = Vec::new();
        push_bytes(&mut cache_dir, "cache/experts".as_bytes());
        ExpertCacheConfig { cache_dir, max_bytes: 107374182400, remote_endpoint: None }
    }
}

/// An expert in the cache.
#[derive(Clone, Copy, Debug, PartialEq, Eq, Structural)]
pub struct ExpertCacheEntry {
    pub layer_id: u32,
    pub expert_id: u32,
    pub bytes: u64,
    pub last_used_epoch_ms: u128,
}

/// Why an expert cannot be had.
#[derive(Clone, Debug)]
pub enum ExpertCacheError {
    InvalidRemoteEndpoint(Vec<u8>),
    HttpStatus { status: u16, url: Vec<u8> },
    InvalidHttpResponse(&'static str),
    MissingRemoteHook { layer_id: u32, expert_id: u32 },
}

/// Why an expert cannot be had, as contents.
#[verifier::ext_equal]
pub enum CacheErrorView {
    InvalidRemoteEndpoint(Seq<u8>),
    HttpStatus { status: u16, url: Seq<u8> },
    InvalidHttpResponse(&'static str),
    MissingRemoteHook { layer_id: u32, expert_id: u32 },
}

impl View for ExpertCacheError {
    type V = CacheErrorView;

    open spec fn view(&self) -> CacheErrorView {
        match self {
            ExpertCacheError::InvalidRemoteEndpoint(url) => CacheErrorView::InvalidRemoteEndpoint(
                url@,
            ),
            ExpertCacheError::HttpStatus { status, url } => CacheErrorView::HttpStatus {
                status: *status,
                url: url@,
            },
            ExpertCacheError::InvalidHttpResponse(what) => CacheErrorView::InvalidHttpResponse(
                *what,
            ),
            ExpertCacheError::MissingRemoteHook { layer_id, expert_id } =>
                CacheErrorView::MissingRemoteHook { layer_id: *layer_id, expert_id: *expert_id },
        }
    }
}

/// The name of the file of an expert.
pub open spec fn file_name(layer_id: u32, expert_id: u32) -> Seq<u8> {
    "layer".spec_bytes() + digits_of(layer_id as nat) + "_expert".spec_bytes() + digits_of(
        expert_id as nat,
    ) + ".zcblk".spec_bytes()
}

/// The name of the file of an expert.
pub fn expert_file_name(layer_id: u32, expert_id: u32) -> (name: Vec<u8>)
    ensures
        name@ == file_name(layer_id, expert_id),
{
    let mut name: Vec<u8> = Vec::new();
    push_bytes(&mut name, "layer".as_bytes());
    push_decimal(&mut name, layer_id as u64);
    push_bytes(&mut name, "_expert".as_bytes());
    push_decimal(&mut name, expert_id as u64);
    push_bytes(&mut name, ".zcblk".as_bytes());
    proof {
        assert(name@ =~= file_name(layer_id, expert_id));
    }
    name
}

/// A file below a directory.
pub open spec fn below(directory: Seq<u8>, name: Seq<u8>) -> Seq<u8> {
    if directory.len() == 0 || directory.last() == 47 {
        directory + name
    } else {
        directory.push(47) + name
    }
}

/// Bytes of all entries.
pub open spec fn bytes_of(entries: Seq<ExpertCacheEntry>) -> nat
    decreases entries.len(),
{
    if entries.len() == 0 {
        0
    } else {
        bytes_of(entries.drop_last()) + entries.last().bytes as nat
    }
}

/// An entry is that of an expert.
pub open spec fn is_of(entry: ExpertCacheEntry, layer_id: u32, expert_id: u32) -> bool {
    entry.layer_id == layer_id && entry.expert_id == expert_id
}

/// No expert has two entries.
pub open spec fn entries_differ(entries: Seq<ExpertCacheEntry>) -> bool {
    forall|i: int, j: int|
        0 <= i < j < entries.len() ==> !is_of(
            #[trigger] entries[i],
            (#[trigger] entries[j]).layer_id,
            entries[j].expert_id,
        )
}

/// The entry of an expert among those from index `from` on.
pub open spec fn entry_at(
    entries: Seq<ExpertCacheEntry>,
    layer_id: u32,
    expert_id: u32,
    from: int,
) -> Option<int>
    decreases entries.len() - from,
{
    if from < 0 || from >= entries.len() {
        None
    } else if is_of(entries[from], layer_id, expert_id) {
        Some(from)
    } else {
        entry_at(entries, layer_id, expert_id, from + 1)
    }
}

/// The entries with one more, in place of the one that its expert had.
pub open spec fn with_entry(entries: Seq<ExpertCacheEntry>, entry: ExpertCacheEntry) -> Seq<
    ExpertCacheEntry,
> {
    match entry_at(entries, entry.layer_id, entry.expert_id, 0) {
        Some(at) => entries.update(at, entry),
        None => entries.push(entry),
    }
}

/// The entries without that of an expert.
pub open spec fn without_entry(
    entries: Seq<ExpertCacheEntry>,
    layer_id: u32,
    expert_id: u32,
) -> Seq<ExpertCacheEntry> {
    match entry_at(entries, layer_id, expert_id, 0) {
        Some(at) => entries.remove(at),
        None => entries,
    }
}

/// The entry among the first `n` that was used longest ago: the first of them.
pub open spec fn oldest(entries: Seq<ExpertCacheEntry>, n: int) -> int
    decreases n,
{
    if n <= 1 {
        0
    } else {
        let before = oldest(entries, n - 1);
        if entries[n - 1].last_used_epoch_ms < entries[before].last_used_epoch_ms {
            n - 1
        } else {
            before
        }
    }
}

/// What the cache drops next: nothing as long as it is not too large.
pub open spec fn victim(entries: Seq<ExpertCacheEntry>, max_bytes: u64) -> Option<
    ExpertCacheEntry,
> {
    if bytes_of(entries) <= max_bytes || entries.len() == 0 {
        None
    } else {
        Some(entries[oldest(entries, entries.len() as int)])
    }
}

/// The entries once nothing more is dropped.
pub open spec fn pruned(entries: Seq<ExpertCacheEntry>, max_bytes: u64) -> Seq<ExpertCacheEntry>
    decreases entries.len(),
{
    match victim(entries, max_bytes) {
        None => entries,
        Some(entry) => {
            let left = without_entry(entries, entry.layer_id, entry.expert_id);
            if left.len() < entries.len() {
                pruned(left, max_bytes)
            } else {
                entries
            }
        },
    }
}

/// What is done for an expert.
#[derive(Clone, Copy, Debug, PartialEq, Eq, Structural)]
pub enum ExpertAction {
    /// The file is there.
    UseCached,
    /// The file is written: from the model's own files, or from afar. One that is
    /// there already goes first.
    Fill { remove: bool, copy: bool },
}

/// The cache.
pub struct ExpertLruCache {
    config: ExpertCacheConfig,
    entries: Vec<ExpertCacheEntry>,
}

/// The cache, as contents.
#[verifier::ext_equal]
pub struct CacheView {
    pub cache_dir: Seq<u8>,
    pub max_bytes: u64,
    pub remote_endpoint: Option<Seq<u8>>,
    pub entries: Seq<ExpertCacheEntry>,
}

impl View for ExpertLruCache {
    type V = CacheView;

    closed spec fn view(&self) -> CacheView {
        CacheView {
            cache_dir: self.config.cache_dir@,
            max_bytes: self.config.max_bytes,
            remote_endpoint: match self.config.remote_endpoint {
                Some(endpoint) => Some(endpoint@),
                None => None,
            },
            entries: self.entries@,
        }
    }
}

/// A text without the slashes at its end.
pub open spec fn without_slashes(text: Seq<u8>) -> Seq<u8>
    decreases text.len(),
{
    if text.len() > 0 && text.last() == 47 {
        without_slashes(text.drop_last())
    } else {
        text
    }
}

/// Where an expert can be fetched.
pub open spec fn remote_url(endpoint: Seq<u8>, layer_id: u32, expert_id: u32) -> Seq<u8> {
    without_slashes(endpoint) + "/experts/".spec_bytes() + file_name(layer_id, expert_id)
}

fn find_entry(entries: &[ExpertCacheEntry], layer_id: u32, expert_id: u32) -> (found: Option<usize>)
    ensures
        match entry_at(entries@, layer_id, expert_id, 0) {
            Some(at) => found == Some(at as usize) && 0 <= at < entries.len(),
            None => found is None,
        },
{
    let mut i: usize = 0;
    while i < entries.len()
        invariant
            i <= entries.len(),
            entry_at(entries@, layer_id, expert_id, 0) == entry_at(
                entries@,
                layer_id,
                expert_id,
                i as int,
            ),
        decreases entries.len() - i,
    {
        if entries[i].layer_id == layer_id && entries[i].expert_id == expert_id {
            return Some(i);
        }
        i += 1;
    }
    None
}

impl ExpertLruCache {
    #[verifier::type_invariant]
    closed spec fn inv(self) -> bool {
        entries_differ(self.entries@)
    }

    /// A cache without entries.
    pub fn new(config: ExpertCacheConfig) -> (cache: Self)
        ensures
            cache@ == (CacheView {
                cache_dir: config.cache_dir@,
                max_bytes: config.max_bytes,
                remote_endpoint: match config.remote_endpoint {
                    Some(endpoint) => Some(endpoint@),
                    None => None,
                },
                entries: Seq::empty(),
            }),
    {
        ExpertLruCache { config, entries: Vec::new() }
    }

    /// The file of an expert.
    pub fn cache_path(&self, layer_id: u32, expert_id: u32) -> (path: Vec<u8>)
        ensures
            path@ == below(self@.cache_dir, file_name(layer_id, expert_id)),
    {
        let mut path: Vec<u8> = Vec::new();
        push_bytes(&mut path, self.config.cache_dir.as_slice());
        let len: usize = path.len();
        proof {
            assert(path@ =~= self@.cache_dir);
        }
        if len > 0 && path[len - 1] != 47 {
            path.push(47);
        }
        let name: Vec<u8> = expert_file_name(layer_id, expert_id);
        push_bytes(&mut path, name.as_slice());
        path
    }

    /// What is done for an expert whose file has `existing` bytes, if it is
    /// there. A file of another length than expected is not used.
    pub fn ensure_expert(
        &self,
        existing: Option<u64>,
        expected: Option<u64>,
        has_source: bool,
    ) -> (action: ExpertAction)
        ensures
            action == match existing {
                Some(actual) => if expected is None || expected == Some(actual) {
                    ExpertAction::UseCached
                } else {
                    ExpertAction::Fill { remove: true, copy: has_source }
                },
                None => ExpertAction::Fill { remove: false, copy: has_source },
            },
    {
        match existing {
            Some(actual) => {
                let usable: bool = match expected {
                    Some(bytes) => bytes == actual,
                    None => true,
                };
                if usable {
                    ExpertAction::UseCached
                } else {
                    ExpertAction::Fill { remove: true, copy: has_source }
                }
            },
            None => ExpertAction::Fill { remove: false, copy: has_source },
        }
    }

    /// The file of an expert was used at `now`.
    pub fn touch(&mut self, layer_id: u32, expert_id: u32, bytes: u64, now: u128)
        ensures
            final(self)@ == (CacheView {
                entries: with_entry(
                    old(self)@.entries,
                    ExpertCacheEntry { layer_id, expert_id, bytes, last_used_epoch_ms: now },
                ),
                ..old(self)@
            }),
    {
        proof {
            use_type_invariant(&*self);
            lemma_with_entry(
                self.entries@,
                ExpertCacheEntry { layer_id, expert_id, bytes, last_used_epoch_ms: now },
            );
        }
        let entry = ExpertCacheEntry { layer_id, expert_id, bytes, last_used_epoch_ms: now };
        let mut entries: Vec<ExpertCacheEntry> = Vec::new();
        std::mem::swap(&mut entries, &mut self.entries);
        match find_entry(entries.as_slice(), layer_id, expert_id) {
            Some(at) => {
                entries.set(at, entry);
            },
            None => {
                entries.push(entry);
            },
        }
        self.entries = entries;
    }

    /// Number of entries.
    pub fn len(&self) -> (count: usize)
        ensures
            count == self@.entries.len(),
    {
        self.entries.len()
    }

    /// Bytes of all entries.
    pub fn total_bytes(&self) -> (total: u64)
        requires
            bytes_of(self@.entries) <= u64::MAX,
        ensures
            total == bytes_of(self@.entries),
    {
        self.sum() as u64
    }

    fn sum(&self) -> (total: u128)
        ensures
            total == bytes_of(self@.entries),
    {
        let count: usize = self.entries.len();
        let mut total: u128 = 0;
        let mut i: usize = 0;
        while i < count
            invariant
                i <= count == self.entries@.len(),
                total == bytes_of(self.entries@.take(i as int)),
                total <= i * u64::MAX,
            decreases count - i,
        {
            proof {
                assert(self.entries@.take(i + 1).drop_last() =~= self.entries@.take(i as int));
                assert(i * u64::MAX + u64::MAX == (i + 1) * u64::MAX) by (nonlinear_arith);
                assert((i + 1) * u64::MAX <= u128::MAX) by (nonlinear_arith)
                    requires
                        i + 1 <= usize::MAX,
                        usize::MAX <= u64::MAX,
                ;
            }
            total = total + self.entries[i].bytes as u128;
            i += 1;
        }
        proof {
            assert(self.entries@.take(i as int) =~= self.entries@);
        }
        total
    }

    /// The expert that the cache drops next, if it is too large.
    pub fn next_victim(&self) -> (entry: Option<ExpertCacheEntry>)
        ensures
            entry == victim(self@.entries, self@.max_bytes),
    {
        if self.sum() <= self.config.max_bytes as u128 || self.entries.len() == 0 {
            return None;
        }
        let mut found: usize = 0;
        let mut i: usize = 1;
        while i < self.entries.len()
            invariant
                1 <= i <= self.entries@.len(),
                found < i,
                found == oldest(self.entries@, i as int),
            decreases self.entries@.len() - i,
        {
            if self.entries[i].last_used_epoch_ms < self.entries[found].last_used_epoch_ms {
                found = i;
            }
            i += 1;
        }
        Some(self.entries[found])
    }

    /// Drops the entry of an expert.
    pub fn evict(&mut self, layer_id: u32, expert_id: u32)
        ensures
            final(self)@ == (CacheView {
                entries: without_entry(old(self)@.entries, layer_id, expert_id),
                ..old(self)@
            }),
    {
        proof {
            use_type_invariant(&*self);
            lemma_without_entry(self.entries@, layer_id, expert_id);
        }
        let mut entries: Vec<ExpertCacheEntry> = Vec::new();
        std::mem::swap(&mut entries, &mut self.entries);
        if let Some(at) = find_entry(entries.as_slice(), layer_id, expert_id) {
            let _ = entries.remove(at);
        }
        self.entries = entries;
    }

    /// Where an expert is fetched from, if it can be.
    pub fn fetch_remote(&self, layer_id: u32, expert_id: u32) -> (result: Result<
        Vec<u8>,
        ExpertCacheError,
    >)
        ensures
            match self@.remote_endpoint {
                Some(endpoint) => result matches Ok(url) && url@ == remote_url(
                    endpoint,
                    layer_id,
                    expert_id,
                ),
                None => result matches Err(error) && error@
                    == (CacheErrorView::MissingRemoteHook { layer_id, expert_id }),
            },
    {
        match &self.config.remote_endpoint {
            None => Err(ExpertCacheError::MissingRemoteHook { layer_id, expert_id }),
            Some(endpoint) => {
                let mut len: usize = endpoint.len();
                proof {
                    assert(endpoint@.take(len as int) =~= endpoint@);
                }
                while len > 0 && endpoint[len - 1] == 47
                    invariant
                        len <= endpoint@.len(),
                        without_slashes(endpoint@) == without_slashes(endpoint@.take(len as int)),
                    decreases len,
                {
                    proof {
                        assert(endpoint@.take(len as int).drop_last() =~= endpoint@.take(len - 1));
                    }
                    len -= 1;
                }
                let mut url: Vec<u8> = Vec::new();
                push_bytes(&mut url, slice_subrange(endpoint.as_slice(), 0, len));
                proof {
                    assert(endpoint@.subrange(0, len as int) =~= endpoint@.take(len as int));
                    assert(url@ =~= without_slashes(endpoint@));
                }
                push_bytes(&mut url, "/experts/".as_bytes());
                let name: Vec<u8> = expert_file_name(layer_id, expert_id);
                push_bytes(&mut url, name.as_slice());
                Ok(url)
            },
        }
    }
}

proof fn lemma_entry_at(
    entries: Seq<ExpertCacheEntry>,
    layer_id: u32,
    expert_id: u32,
    from: int,
)
    requires
        0 <= from,
    ensures
        match entry_at(entries, layer_id, expert_id, from) {
            Some(at) => from <= at < entries.len() && is_of(entries[at], layer_id, expert_id),
            None => forall|i: int|
                from <= i < entries.len() ==> !is_of(#[trigger] entries[i], layer_id, expert_id),
        },
    decreases entries.len() - from,
{
    if from < entries.len() && !is_of(entries[from], layer_id, expert_id) {
        lemma_entry_at(entries, layer_id, expert_id, from + 1);
    }
}

proof fn lemma_with_entry(entries: Seq<ExpertCacheEntry>, entry: ExpertCacheEntry)
    requires
        entries_differ(entries),
    ensures
        entries_differ(with_entry(entries, entry)),
{
    let after = with_entry(entries, entry);
    lemma_entry_at(entries, entry.layer_id, entry.expert_id, 0);
    match entry_at(entries, entry.layer_id, entry.expert_id, 0) {
        Some(at) => {
            assert forall|i: int, j: int| 0 <= i < j < after.len() implies !is_of(
                #[trigger] after[i],
                (#[trigger] after[j]).layer_id,
                after[j].expert_id,
            ) by {
                assert(!is_of(entries[i], entries[j].layer_id, entries[j].expert_id));
            }
        },
        None => {
            assert forall|i: int, j: int| 0 <= i < j < after.len() implies !is_of(
                #[trigger] after[i],
                (#[trigger] after[j]).layer_id,
                after[j].expert_id,
            ) by {
                assert(after[i] == entries[i]);
                if j < entries.len() {
                    assert(after[j] == entries[j]);
                }
            }
        },
    }
}

proof fn lemma_without_entry(entries: Seq<ExpertCacheEntry>, layer_id: u32, expert_id: u32)
    requires
        entries_differ(entries),
    ensures
        entries_differ(without_entry(entries, layer_id, expert_id)),
{
    let after = without_entry(entries, layer_id, expert_id);
    lemma_entry_at(entries, layer_id, expert_id, 0);
    if let Some(at) = entry_at(entries, layer_id, expert_id, 0) {
        assert forall|i: int, j: int| 0 <= i < j < after.len() implies !is_of(
            #[trigger] after[i],
            (#[trigger] after[j]).layer_id,
            after[j].expert_id,
        ) by {
            let a = if i < at {
                i
            } else {
                i + 1
            };
            let b = if j < at {
                j
            } else {
                j + 1
            };
            assert(after[i] == entries[a] && after[j] == entries[b]);
        }
    }
}

proof fn lemma_oldest(entries: Seq<ExpertCacheEntry>, n: int)
    requires
        1 <= n <= entries.len(),
    ensures
        0 <= oldest(entries, n) < n,
        forall|i: int|
            0 <= i < n ==> entries[oldest(entries, n)].last_used_epoch_ms <= (
            #[trigger] entries[i]).last_used_epoch_ms,
    decreases n,
{
    if n > 1 {
        lemma_oldest(entries, n - 1);
    }
}

/// What the cache drops was used no later than anything that it keeps.
pub proof fn law_victim_is_oldest(entries: Seq<ExpertCacheEntry>, max_bytes: u64, i: int)
    requires
        victim(entries, max_bytes) is Some,
        0 <= i < entries.len(),
    ensures
        (victim(entries, max_bytes)->0).last_used_epoch_ms <= entries[i].last_used_epoch_ms,
        entries.contains(victim(entries, max_bytes)->0),
{
    lemma_oldest(entries, entries.len() as int);
}

/// Once nothing more is dropped, the cache is within its size.
pub proof fn law_pruning_ends_within_size(entries: Seq<ExpertCacheEntry>, max_bytes: u64)
    ensures
        bytes_of(pruned(entries, max_bytes)) <= max_bytes,
    decreases entries.len(),
{
    if let Some(entry) = victim(entries, max_bytes) {
        lemma_oldest(entries, entries.len() as int);
        lemma_entry_at(entries, entry.layer_id, entry.expert_id, 0);
        let left = without_entry(entries, entry.layer_id, entry.expert_id);
        assert(entries[oldest(entries, entries.len() as int)] == entry);
        assert(left.len() < entries.len());
        law_pruning_ends_within_size(left, max_bytes);
    }
}

/// What pruning leaves was used no earlier than what it dropped.
pub proof fn law_pruning_keeps_latest(
    entries: Seq<ExpertCacheEntry>,
    max_bytes: u64,
    kept: ExpertCacheEntry,
    dropped: ExpertCacheEntry,
)
    requires
        entries_differ(entries),
        pruned(entries, max_bytes).contains(kept),
        entries.contains(dropped),
        !pruned(entries, max_bytes).contains(dropped),
    ensures
        dropped.last_used_epoch_ms <= kept.last_used_epoch_ms,
        entries.contains(kept),
    decreases entries.len(),
{
    if let Some(entry) = victim(entries, max_bytes) {
        let at = oldest(entries, entries.len() as int);
        lemma_oldest(entries, entries.len() as int);
        lemma_entry_at(entries, entry.layer_id, entry.expert_id, 0);
        lemma_without_entry(entries, entry.layer_id, entry.expert_id);
        let found = entry_at(entries, entry.layer_id, entry.expert_id, 0)->0;
        if found != at {
            if found < at {
                assert(!is_of(entries[found], entries[at].layer_id, entries[at].expert_id));
            } else {
                assert(!is_of(entries[at], entries[found].layer_id, entries[found].expert_id));
            }
        }
        let left = without_entry(entries, entry.layer_id, entry.expert_id);
        lemma_pruned_within(left, max_bytes, kept);
        let k = choose|k: int| 0 <= k < left.len() && left[k] == kept;
        assert(entries[if k < at {
            k
        } else {
            k + 1
        }] == kept);
        if dropped == entry {
        } else {
            let d = choose|d: int| 0 <= d < entries.len() && entries[d] == dropped;
            assert(left[if d < at {
                d
            } else {
                d - 1
            }] == dropped);
            law_pruning_keeps_latest(left, max_bytes, kept, dropped);
        }
    }
}

proof fn lemma_pruned_within(
    entries: Seq<ExpertCacheEntry>,
    max_bytes: u64,
    kept: ExpertCacheEntry,
)
    requires
        pruned(entries, max_bytes).contains(kept),
    ensures
        entries.contains(kept),
    decreases entries.len(),
{
    if let Some(entry) = victim(entries, max_bytes) {
        let left = without_entry(entries, entry.layer_id, entry.expert_id);
        lemma_entry_at(entries, entry.layer_id, entry.expert_id, 0);
        if left.len() < entries.len() {
            lemma_pruned_within(left, max_bytes, kept);
            let at = entry_at(entries, entry.layer_id, entry.expert_id, 0)->0;
            let k = choose|k: int| 0 <= k < left.len() && left[k] == kept;
            assert(entries[if k < at {
                k
            } else {
                k + 1
            }] == kept);
        }
    }
}

/// An address, in parts.
#[derive(Clone, Debug)]
pub struct ParsedHttpUrl {
    pub host: Vec<u8>,
    pub port: u16,
    pub path: Vec<u8>,
}

/// An address in parts, as contents.
#[verifier::ext_equal]
pub struct UrlView {
    pub host: Seq<u8>,
    pub port: u16,
    pub path: Seq<u8>,
}

impl View for ParsedHttpUrl {
    type V = UrlView;

    open spec fn view(&self) -> UrlView {
        UrlView { host: self.host@, port: self.port, path: self.path@ }
    }
}

/// Host and port of an address: what stands behind the last colon is the port,
/// unless nothing stands before it.
pub open spec fn host_and_port(authority: Seq<u8>) -> Option<(Seq<u8>, u16)> {
    match last_match(authority, seq![58u8]) {
        Some(colon) => if colon > 0 {
            match decimal(authority.skip(colon + 1)) {
                Some(port) => if port <= u16::MAX {
                    Some((authority.take(colon), port as u16))
                } else {
                    None
                },
                None => None,
            }
        } else {
            Some((authority, 80))
        },
        None => Some((authority, 80)),
    }
}

/// The parts of an address: host and port stand behind the scheme up to the
/// first slash, and the path from there on.
pub open spec fn url_of(url: Seq<u8>) -> Option<UrlView> {
    let scheme = "http://".spec_bytes();
    if !starts_with_bytes(url, scheme) {
        None
    } else {
        let rest = url.skip(scheme.len() as int);
        let (authority, path) = match first_match(rest, seq![47u8]) {
            Some(slash) => (rest.take(slash), rest.skip(slash)),
            None => (rest, seq![47u8]),
        };
        if authority.len() == 0 {
            None
        } else {
            match host_and_port(authority) {
                Some((host, port)) => Some(UrlView { host, port, path }),
                None => None,
            }
        }
    }
}

fn copied(bytes: &[u8]) -> (copy: Vec<u8>)
    ensures
        copy@ == bytes@,
{
    let mut copy: Vec<u8> = Vec::new();
    push_bytes(&mut copy, bytes);
    proof {
        assert(copy@ =~= bytes@);
    }
    copy
}

fn split_host(authority: &[u8]) -> (parts: Option<(Vec<u8>, u16)>)
    ensures
        match host_and_port(authority@) {
            Some((host, port)) => parts matches Some(found) && found.0@ == host && found.1 == port,
            None => parts is None,
        },
{
    let colon: [u8; 1] = [58];
    proof {
        assert(colon@ =~= seq![58u8]);
    }
    match bytes_rfind(authority, &colon) {
        Some(at) => {
            if at == 0 {
                return Some((copied(authority), 80));
            }
            let len: usize = authority.len();
            let port: &[u8] = slice_subrange(authority, at + 1, len);
            proof {
                assert(authority@.subrange(at + 1, len as int) =~= authority@.skip(at + 1));
                assert(authority@.subrange(0, at as int) =~= authority@.take(at as int));
            }
            match parse_decimal(port, 65535) {
                Some(port) => Some((copied(slice_subrange(authority, 0, at)), port as u16)),
                None => None,
            }
        },
        None => Some((copied(authority), 80)),
    }
}

/// Takes an address apart.
pub fn parse_http_url(url: &[u8]) -> (result: Result<ParsedHttpUrl, ExpertCacheError>)
    ensures
        match url_of(url@) {
            Some(parts) => result matches Ok(found) && found@ == parts,
            None => result matches Err(error) && error@ == CacheErrorView::InvalidRemoteEndpoint(
                url@,
            ),
        },
{
    let scheme: &[u8] = "http://".as_bytes();
    let len: usize = url.len();
    if !bytes_start_with(url, scheme) {
        return Err(ExpertCacheError::InvalidRemoteEndpoint(copied(url)));
    }
    let rest: &[u8] = slice_subrange(url, scheme.len(), len);
    let slash: [u8; 1] = [47];
    proof {
        assert(slash@ =~= seq![47u8]);
        assert(rest@ =~= url@.skip("http://".spec_bytes().len() as int));
    }
    let rest_len: usize = rest.len();
    let (authority, path): (&[u8], Vec<u8>) = match bytes_find(rest, &slash) {
        Some(at) => {
            proof {
                assert(rest@.subrange(0, at as int) =~= rest@.take(at as int));
                assert(rest@.subrange(at as int, rest_len as int) =~= rest@.skip(at as int));
            }
            (slice_subrange(rest, 0, at), copied(slice_subrange(rest, at, rest_len)))
        },
        None => (rest, copied(&slash)),
    };
    if authority.len() == 0 {
        return Err(ExpertCacheError::InvalidRemoteEndpoint(copied(url)));
    }
    match split_host(authority) {
        Some((host, port)) => Ok(ParsedHttpUrl { host, port, path }),
        None => Err(ExpertCacheError::InvalidRemoteEndpoint(copied(url))),
    }
}

/// What is sent to ask for a file.
pub open spec fn request_text(url: UrlView) -> Seq<u8> {
    "GET ".spec_bytes() + url.path + " HTTP/1.1\r\nHost: ".spec_bytes() + url.host
        + "\r\nConnection: close\r\nAccept: application/octet-stream\r\n\r\n".spec_bytes()
}

/// What is sent to ask for a file.
pub fn http_request(url: &ParsedHttpUrl) -> (request: Vec<u8>)
    ensures
        request@ == request_text(url@),
{
    let mut request: Vec<u8> = Vec::new();
    push_bytes(&mut request, "GET ".as_bytes());
    push_bytes(&mut request, url.path.as_slice());
    push_bytes(&mut request, " HTTP/1.1\r\nHost: ".as_bytes());
    push_bytes(&mut request, url.host.as_slice());
    push_bytes(
        &mut request,
        "\r\nConnection: close\r\nAccept: application/octet-stream\r\n\r\n".as_bytes(),
    );
    proof {
        assert(request@ =~= request_text(url@));
    }
    request
}

/// A character counts as white space.
pub open spec fn is_space(c: char) -> bool {
    let code = c as u32;
    9 <= code <= 13 || code == 0x20 || code == 0x85 || code == 0xA0 || code == 0x1680 || 0x2000
        <= code <= 0x200A || code == 0x2028 || code == 0x2029 || code == 0x202F || code == 0x205F
        || code == 0x3000
}

pub(crate) fn char_is_space(c: char) -> (space: bool)
    ensures
        space == is_space(c),
{
    let code: u32 = c as u32;
    (9 <= code && code <= 13) || code == 0x20 || code == 0x85 || code == 0xA0 || code == 0x1680
        || (0x2000 <= code && code <= 0x200A) || code == 0x2028 || code == 0x2029 || code == 0x202F
        || code == 0x205F || code == 0x3000
}

/// The first place from `at` on where white space begins or ends.
pub open spec fn run_end(text: Seq<char>, spaces: bool, at: int) -> int
    decreases text.len() - at,
{
    if at < 0 || at >= text.len() || is_space(text[at]) != spaces {
        at
    } else {
        run_end(text, spaces, at + 1)
    }
}

/// The second word of a text.
pub open spec fn second_word(text: Seq<char>) -> Seq<char> {
    let start = run_end(text, true, run_end(text, false, run_end(text, true, 0)));
    text.subrange(start, run_end(text, false, start))
}

/// Characters as bytes, where they are ASCII.
pub open spec fn ascii(text: Seq<char>) -> Seq<u8> {
    text.map_values(
        |c: char|
            if (c as u32) < 128 {
                (c as u32) as u8
            } else {
                255u8
            },
    )
}

/// The status of an answer: the second word of its first line, where it is a
/// number.
pub open spec fn status_of(line: Seq<char>) -> Option<u16> {
    match decimal(ascii(second_word(line))) {
        Some(code) => if code <= u16::MAX {
            Some(code as u16)
        } else {
            None
        },
        None => None,
    }
}

/// The characters of a text.
pub(crate) fn chars_of(line: &str) -> (text: Vec<char>)
    ensures
        text@ == line@,
{
    broadcast use vstd::string::axiom_spec_iter;

    let mut text: Vec<char> = Vec::new();
    for c in chars: line.chars()
        invariant
            chars.seq() == line@,
            text@ == line@.take(chars.index() as int),
    {
        text.push(c);
        proof {
            assert(text@ =~= line@.take(chars.index() + 1));
        }
    }
    proof {
        assert(text@ =~= line@);
    }
    text
}

pub(crate) fn end_of_run(text: &[char], spaces: bool, at: usize) -> (end: usize)
    requires
        at <= text.len(),
    ensures
        end == run_end(text@, spaces, at as int),
        at <= end <= text.len(),
{
    let mut end: usize = at;
    while end < text.len() && char_is_space(text[end]) == spaces
        invariant
            at <= end <= text.len(),
            run_end(text@, spaces, at as int) == run_end(text@, spaces, end as int),
        decreases text.len() - end,
    {
        end += 1;
    }
    end
}

/// A part of a text as bytes, where it is ASCII.
pub(crate) fn ascii_part(text: &[char], start: usize, end: usize) -> (bytes: Vec<u8>)
    requires
        start <= end <= text.len(),
    ensures
        bytes@ == ascii(text@.subrange(start as int, end as int)),
{
    let mut bytes: Vec<u8> = Vec::new();
    let mut i: usize = start;
    while i < end
        invariant
            start <= i <= end <= text.len(),
            bytes@ == ascii(text@.subrange(start as int, i as int)),
        decreases end - i,
    {
        let code: u32 = text[i] as u32;
        bytes.push(
            if code < 128 {
                code as u8
            } else {
                255
            },
        );
        proof {
            assert(bytes@ =~= ascii(text@.subrange(start as int, i + 1)));
        }
        i += 1;
    }
    bytes
}

/// The status of an answer, from its first line.
pub fn parse_status_line(line: &str) -> (result: Result<u16, ExpertCacheError>)
    ensures
        match status_of(line@) {
            Some(status) => result matches Ok(found) && found == status,
            None => result matches Err(error) && error@ == CacheErrorView::InvalidHttpResponse(
                "missing status line",
            ),
        },
{
    let text: Vec<char> = chars_of(line);
    let lead: usize = end_of_run(text.as_slice(), true, 0);
    let first: usize = end_of_run(text.as_slice(), false, lead);
    let start: usize = end_of_run(text.as_slice(), true, first);
    let end: usize = end_of_run(text.as_slice(), false, start);
    let word: Vec<u8> = ascii_part(text.as_slice(), start, end);
    match parse_decimal(word.as_slice(), 65535) {
        Some(status) => Ok(status as u16),
        None => Err(ExpertCacheError::InvalidHttpResponse("missing status line")),
    }
}

/// Reads a line of the head of an answer: whether the head ends with it. `None`
/// where the answer ends before its head.
pub fn ends_head(line: Option<&[u8]>) -> (result: Result<bool, ExpertCacheError>)
    ensures
        match line {
            Some(line) => result matches Ok(ends) && ends == (line@ == "\r\n".spec_bytes()),
            None => result matches Err(error) && error@ == CacheErrorView::InvalidHttpResponse(
                "missing header terminator",
            ),
        },
{
    match line {
        Some(line) => Ok(bytes_equal(line, "\r\n".as_bytes())),
        None => Err(ExpertCacheError::InvalidHttpResponse("missing header terminator")),
    }
}

/// Checks the status of an answer from `url`.
pub fn check_status(status: u16, url: &[u8]) -> (result: Result<(), ExpertCacheError>)
    ensures
        if status == 200 {
            result is Ok
        } else {
            result matches Err(error) && error@ == (CacheErrorView::HttpStatus {
                status,
                url: url@,
            })
        },
{
    if status != 200 {
        return Err(ExpertCacheError::HttpStatus { status, url: copied(url) });
    }
    Ok(())
}

/// The time of an entry: the milliseconds since the epoch, or zero where the
/// clock stands before it.
pub fn now_ms(since_epoch: Option<u128>) -> (now: u128)
    ensures
        now == match since_epoch {
            Some(ms) => ms,
            None => 0,
        },
{
    match since_epoch {
        Some(ms) => ms,
        None => 0,
    }
}

/// Touching an expert notes its size and its time, once, and changes no other
/// expert.
pub proof fn law_touching_notes_one_expert(entries: Seq<ExpertCacheEntry>, entry: ExpertCacheEntry)
    requires
        entries_differ(entries),
    ensures
        ({
            let after = with_entry(entries, entry);
            &&& entries_differ(after)
            &&& after.contains(entry)
            &&& forall|other: ExpertCacheEntry|
                !is_of(other, entry.layer_id, entry.expert_id) ==> #[trigger] after.contains(other)
                    == entries.contains(other)
            &&& forall|other: ExpertCacheEntry|
                #[trigger] after.contains(other) && is_of(other, entry.layer_id, entry.expert_id)
                    ==> other == entry
        }),
{
    let after = with_entry(entries, entry);
    lemma_with_entry(entries, entry);
    lemma_entry_at(entries, entry.layer_id, entry.expert_id, 0);
    match entry_at(entries, entry.layer_id, entry.expert_id, 0) {
        Some(at) => {
            assert(after[at] == entry);
            assert forall|other: ExpertCacheEntry|
                !is_of(other, entry.layer_id, entry.expert_id) implies #[trigger] after.contains(
                other,
            ) == entries.contains(other) by {
                if entries.contains(other) {
                    let i = choose|i: int| 0 <= i < entries.len() && entries[i] == other;
                    assert(after[i] == other);
                }
                if after.contains(other) {
                    let i = choose|i: int| 0 <= i < after.len() && after[i] == other;
                    assert(entries[i] == other);
                }
            }
            assert forall|other: ExpertCacheEntry|
                #[trigger] after.contains(other) && is_of(
                    other,
                    entry.layer_id,
                    entry.expert_id,
                ) implies other == entry by {
                let i = choose|i: int| 0 <= i < after.len() && after[i] == other;
                if i < at {
                    assert(!is_of(after[i], after[at].layer_id, after[at].expert_id));
                } else if i > at {
                    assert(!is_of(after[at], after[i].layer_id, after[i].expert_id));
                }
            }
        },
        None => {
            assert(after[entries.len() as int] == entry);
            assert forall|other: ExpertCacheEntry|
                !is_of(other, entry.layer_id, entry.expert_id) implies #[trigger] after.contains(
                other,
            ) == entries.contains(other) by {
                if entries.contains(other) {
                    let i = choose|i: int| 0 <= i < entries.len() && entries[i] == other;
                    assert(after[i] == other);
                }
                if after.contains(other) {
                    let i = choose|i: int| 0 <= i < after.len() && after[i] == other;
                    assert(entries[i] == other);
                }
            }
            assert forall|other: ExpertCacheEntry|
                #[trigger] after.contains(other) && is_of(
                    other,
                    entry.layer_id,
                    entry.expert_id,
                ) implies other == entry by {
                let i = choose|i: int| 0 <= i < after.len() && after[i] == other;
                if i < entries.len() {
                    assert(entries[i] == other);
                }
            }
        },
    }
}

/// Evicting an expert leaves every other one, and that one no longer.
pub proof fn law_evicting_drops_one_expert(
    entries: Seq<ExpertCacheEntry>,
    layer_id: u32,
    expert_id: u32,
    other: ExpertCacheEntry,
)
    requires
        entries_differ(entries),
    ensures
        without_entry(entries, layer_id, expert_id).contains(other) == (entries.contains(other)
            && !is_of(other, layer_id, expert_id)),
{
    let after = without_entry(entries, layer_id, expert_id);
    lemma_entry_at(entries, layer_id, expert_id, 0);
    match entry_at(entries, layer_id, expert_id, 0) {
        Some(at) => {
            if entries.contains(other) && !is_of(other, layer_id, expert_id) {
                let i = choose|i: int| 0 <= i < entries.len() && entries[i] == other;
                if i < at {
                    assert(after[i] == other);
                } else {
                    assert(after[i - 1] == other);
                }
            }
            if after.contains(other) {
                let i = choose|i: int| 0 <= i < after.len() && after[i] == other;
                let k = if i < at {
                    i
                } else {
                    i + 1
                };
                assert(entries[k] == other);
                if k < at {
                    assert(!is_of(entries[k], entries[at].layer_id, entries[at].expert_id));
                } else {
                    assert(!is_of(entries[at], entries[k].layer_id, entries[k].expert_id));
                }
            }
        },
        None => {
            if entries.contains(other) {
                let i = choose|i: int| 0 <= i < entries.len() && entries[i] == other;
                assert(!is_of(entries[i], layer_id, expert_id));
            }
        },
    }
}

/// Something is evicted exactly where the files are larger than they may be, and
/// what they take is what each of them takes.
pub proof fn law_victims_are_due_to_size(
    entries: Seq<ExpertCacheEntry>,
    max_bytes: u64,
    entry: ExpertCacheEntry,
)
    ensures
        victim(entries, max_bytes) is Some == (bytes_of(entries) > max_bytes),
        bytes_of(entries.push(entry)) == bytes_of(entries) + entry.bytes,
        bytes_of(Seq::empty()) == 0,
{
    assert(entries.push(entry).drop_last() =~= entries);
}

proof fn lemma_run(text: Seq<char>, spaces: bool, from: int, end: int)
    requires
        0 <= from <= end <= text.len(),
        forall|i: int| from <= i < end ==> is_space(#[trigger] text[i]) == spaces,
        end == text.len() || is_space(text[end]) != spaces,
    ensures
        run_end(text, spaces, from) == end,
    decreases end - from,
{
    if from < end {
        lemma_run(text, spaces, from + 1, end);
    }
}

/// The second word of a line is what stands between the second and the third run
/// of spaces, whatever stands around.
pub proof fn law_second_words_are_found(
    lead: Seq<char>,
    first: Seq<char>,
    gap: Seq<char>,
    second: Seq<char>,
    rest: Seq<char>,
)
    requires
        forall|i: int| 0 <= i < lead.len() ==> is_space(#[trigger] lead[i]),
        forall|i: int| 0 <= i < first.len() ==> !is_space(#[trigger] first[i]),
        forall|i: int| 0 <= i < gap.len() ==> is_space(#[trigger] gap[i]),
        forall|i: int| 0 <= i < second.len() ==> !is_space(#[trigger] second[i]),
        first.len() > 0,
        gap.len() > 0,
        second.len() > 0,
        rest.len() > 0 ==> is_space(rest[0]),
    ensures
        second_word(lead + first + gap + second + rest) == second,
{
    let text = lead + first + gap + second + rest;
    let a = lead.len() as int;
    let b = a + first.len();
    let c = b + gap.len();
    let d = c + second.len();
    lemma_run(text, true, 0, a);
    lemma_run(text, false, a, b);
    lemma_run(text, true, b, c);
    lemma_run(text, false, c, d);
    assert(text.subrange(c, d) =~= second);
}

/// An address falls into its scheme, its host, its port and its path: the host
/// holds no slash, the path starts with one, and without a port it is the usual
/// one.
#[verifier::spinoff_prover]
#[verifier::rlimit(60)]
pub proof fn law_addresses_fall_into_parts(url: Seq<u8>)
    ensures
        url_of(url) matches Some(parts) ==> {
            &&& parts.path.len() > 0 && parts.path[0] == 47
            &&& parts.host.len() > 0
            &&& forall|i: int| 0 <= i < parts.host.len() ==> #[trigger] parts.host[i] != 47
            &&& exists|between: Seq<u8>, shown: Seq<u8>|
                {
                    &&& url == #[trigger] ("http://".spec_bytes() + parts.host + between + shown)
                    &&& shown == parts.path || (shown.len() == 0 && parts.path.len() == 1)
                    &&& between.len() == 0 ==> parts.port == 80
                    &&& between.len() > 0 ==> between[0] == 58 && decimal(between.skip(1)) == Some(
                        parts.port as nat,
                    )
                }
        },
{
    let scheme = "http://".spec_bytes();
    if url_of(url) is Some {
        let parts = url_of(url)->0;
        let rest = url.skip(scheme.len() as int);
        crate::bytes::law_searches_find_the_ends(rest, seq![47u8]);
        let (authority, shown) = match first_match(rest, seq![47u8]) {
            Some(slash) => (rest.take(slash), rest.skip(slash)),
            None => (rest, Seq::<u8>::empty()),
        };
        assert(url.subrange(0, scheme.len() as int) == scheme);
        assert(url =~= scheme + rest) by {
            assert forall|i: int| 0 <= i < scheme.len() implies url[i] == scheme[i] by {
                assert(url.subrange(0, scheme.len() as int)[i] == url[i]);
            }
        }
        assert(rest =~= authority + shown);
        assert forall|i: int| 0 <= i < authority.len() implies #[trigger] authority[i] != 47 by {
            assert(authority[i] == rest[i]);
            if rest[i] == 47 {
                assert(rest.subrange(i, i + 1) =~= seq![47u8]);
                assert(crate::bytes::matches_at(rest, seq![47u8], i));
            }
        }
        if let Some(slash) = first_match(rest, seq![47u8]) {
            assert(rest.subrange(slash, slash + 1)[0] == seq![47u8][0]);
            assert(shown[0] == 47);
        }
        crate::bytes::law_searches_find_the_ends(authority, seq![58u8]);
        let between = authority.skip(parts.host.len() as int);
        assert(authority =~= parts.host + between);
        if between.len() > 0 {
            let colon = last_match(authority, seq![58u8])->0;
            assert(authority.subrange(colon, colon + 1)[0] == seq![58u8][0]);
            assert(between[0] == authority[colon]);
            assert(between.skip(1) =~= authority.skip(colon + 1));
        }
        assert(url =~= scheme + parts.host + between + shown);
    }
}

/// What is done for an expert: a file that is there with the size that is expected,
/// or with any size where none is, is used; any other goes first, and a new one is
/// written, from the files of the model where they have it.
pub proof fn law_files_of_the_wrong_size_go(
    cache: &ExpertLruCache,
    existing: Option<u64>,
    expected: Option<u64>,
    has_source: bool,
    action: ExpertAction,
)
    requires
        call_ensures(ExpertLruCache::ensure_expert, (cache, existing, expected, has_source), action),
    ensures
        action is UseCached == (existing is Some && (expected is None || expected == existing)),
        action matches ExpertAction::Fill { remove, copy } ==> remove == existing is Some && copy
            == has_source,
{
}

/// What `touch` leaves: the expert with its size and time, and all others as they
/// were.
pub proof fn law_touch(
    cache: &mut ExpertLruCache,
    layer_id: u32,
    expert_id: u32,
    bytes: u64,
    now: u128,
    other: ExpertCacheEntry,
)
    requires
        entries_differ(cache@.entries),
        !is_of(other, layer_id, expert_id),
        call_ensures(ExpertLruCache::touch, (cache, layer_id, expert_id, bytes, now), ()),
    ensures
        final(cache)@.entries.contains(
            ExpertCacheEntry { layer_id, expert_id, bytes, last_used_epoch_ms: now },
        ),
        final(cache)@.entries.contains(other) == old(cache)@.entries.contains(other),
        entries_differ(final(cache)@.entries),
        final(cache)@.max_bytes == old(cache)@.max_bytes,
{
    law_touching_notes_one_expert(
        old(cache)@.entries,
        ExpertCacheEntry { layer_id, expert_id, bytes, last_used_epoch_ms: now },
    );
}

/// What `next_victim` names: the expert that was used least recently, where the files
/// take more than they may.
pub proof fn law_next_victim(cache: &ExpertLruCache, entry: Option<ExpertCacheEntry>, i: int)
    requires
        0 <= i < cache@.entries.len(),
        call_ensures(ExpertLruCache::next_victim, (cache,), entry),
    ensures
        entry is Some == (bytes_of(cache@.entries) > cache@.max_bytes),
        entry matches Some(found) ==> cache@.entries.contains(found) && found.last_used_epoch_ms
            <= cache@.entries[i].last_used_epoch_ms,
{
    law_victims_are_due_to_size(cache@.entries, cache@.max_bytes, cache@.entries[i]);
    if entry is Some {
        law_victim_is_oldest(cache@.entries, cache@.max_bytes, i);
    }
}

/// What `evict` leaves: every expert but the one that goes.
pub proof fn law_evict(
    cache: &mut ExpertLruCache,
    layer_id: u32,
    expert_id: u32,
    other: ExpertCacheEntry,
)
    requires
        entries_differ(cache@.entries),
        call_ensures(ExpertLruCache::evict, (cache, layer_id, expert_id), ()),
    ensures
        final(cache)@.entries.contains(other) == (old(cache)@.entries.contains(other) && !is_of(
            other,
            layer_id,
            expert_id,
        )),
{
    law_evicting_drops_one_expert(old(cache)@.entries, layer_id, expert_id, other);
}

} // verus!
