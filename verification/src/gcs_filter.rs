//! The golomb-coded-set filter protocol: peers ask for the filters of a
//! range of blocks, for the hashes of those filters, or for the filter
//! hashes at checkpoints.
use vstd::prelude::*;
use crate::types::Byte32;
use crate::hash::{blake2b_256, ckb_hash_of};

verus! {

/// The most blocks one request covers.
pub const MAX_FILTER_RANGE_SIZE: usize = 2000;

/// The least interval between two checkpoints a peer may ask for.
pub const MIN_CHECK_POINT_INTERVAL: u32 = 200_000;

/// The messages of the golomb-coded-set filter protocol.
pub enum GcsFilterMessage {
    /// Ask for the filters of the blocks from `start_number` to the block
    /// `stop_hash`.
    GetGcsFilters { start_number: u64, stop_hash: Byte32 },
    /// The filter of a block; only the node sends it.
    GcsFilter { block_hash: Byte32, filter: Vec<u8> },
    /// Ask for the hashes of the filters of the blocks from `start_number` to
    /// the block `stop_hash`.
    GetGcsFilterHashes { start_number: u64, stop_hash: Byte32 },
    /// The hashes of filters, with the parent of the first block; only the
    /// node sends it.
    GcsFilterHashes { stop_hash: Byte32, parent_hash: Byte32, filter_hashes: Vec<Byte32> },
    /// Ask for the filter hashes of every `interval`-th block up to the block
    /// `stop_hash`, and of that block.
    GetGcsFilterCheckPoint { stop_hash: Byte32, interval: u32 },
    /// The filter hashes at checkpoints; only the node sends it.
    GcsFilterCheckPoint { stop_hash: Byte32, filter_hashes: Vec<Byte32> },
}

impl GcsFilterMessage {
    /// The name of the message's kind.
    pub fn item_name(&self) -> (r: &'static str)
        ensures
            r@ == match *self {
                GcsFilterMessage::GetGcsFilters { .. } => "GetGcsFilters"@,
                GcsFilterMessage::GcsFilter { .. } => "GcsFilter"@,
                GcsFilterMessage::GetGcsFilterHashes { .. } => "GetGcsFilterHashes"@,
                GcsFilterMessage::GcsFilterHashes { .. } => "GcsFilterHashes"@,
                GcsFilterMessage::GetGcsFilterCheckPoint { .. } => "GetGcsFilterCheckPoint"@,
                GcsFilterMessage::GcsFilterCheckPoint { .. } => "GcsFilterCheckPoint"@,
            },
    {
        match self {
            GcsFilterMessage::GetGcsFilters { .. } => "GetGcsFilters",
            GcsFilterMessage::GcsFilter { .. } => "GcsFilter",
            GcsFilterMessage::GetGcsFilterHashes { .. } => "GetGcsFilterHashes",
            GcsFilterMessage::GcsFilterHashes { .. } => "GcsFilterHashes",
            GcsFilterMessage::GetGcsFilterCheckPoint { .. } => "GetGcsFilterCheckPoint",
            GcsFilterMessage::GcsFilterCheckPoint { .. } => "GcsFilterCheckPoint",
        }
    }
}

/// Why a peer is banned.
pub enum GcsFilterBanReason {
    /// It asked for checkpoints closer than `MIN_CHECK_POINT_INTERVAL`; the
    /// interval it asked for.
    InvalidCheckPointInterval(u32),
    /// It sent a message that only the node sends.
    UnexpectedMessage,
}

/// What the node does after a message of the golomb-coded-set protocol.
pub enum GcsFilterAction {
    /// Ban the peer.
    Ban(GcsFilterBanReason),
    /// Look up the number of the block `stop_hash`, then the hash and
    /// filter of each block of `range_numbers(start_number, end)`, and send
    /// what `serve_gcs_filters` makes of them.
    ServeFilters { start_number: u64, stop_hash: Byte32 },
    /// Look up the number of the block `stop_hash` and the parent of block
    /// `start_number`, then the filters of `range_numbers(start_number,
    /// end)`, and send what `serve_gcs_filter_hashes` makes of them.
    ServeFilterHashes { start_number: u64, stop_hash: Byte32 },
    /// Look up the number of the block `stop_hash`, then the filters of
    /// `checkpoint_numbers_of(end, interval)`, and send what
    /// `serve_gcs_checkpoint` makes of them.
    ServeCheckPoint { stop_hash: Byte32, interval: u32 },
}

/// The node's side of the golomb-coded-set filter protocol.
pub struct GcsFilterProtocol {}

impl GcsFilterProtocol {
    pub fn new() -> (r: Self) {
        GcsFilterProtocol {}
    }

    /// Decides what to do with a message from a peer.
    pub fn process(&self, message: &GcsFilterMessage) -> (r: GcsFilterAction)
        ensures
            match *message {
                GcsFilterMessage::GetGcsFilters { start_number, stop_hash } =>
                    r == GcsFilterAction::ServeFilters { start_number, stop_hash },
                GcsFilterMessage::GetGcsFilterHashes { start_number, stop_hash } =>
                    r == GcsFilterAction::ServeFilterHashes { start_number, stop_hash },
                GcsFilterMessage::GetGcsFilterCheckPoint { stop_hash, interval } =>
                    if interval >= MIN_CHECK_POINT_INTERVAL {
                        r == GcsFilterAction::ServeCheckPoint { stop_hash, interval }
                    } else {
                        r == GcsFilterAction::Ban(GcsFilterBanReason::InvalidCheckPointInterval(interval))
                    },
                _ => r == GcsFilterAction::Ban(GcsFilterBanReason::UnexpectedMessage),
            },
    {
        match message {
            GcsFilterMessage::GetGcsFilters { start_number, stop_hash } =>
                GcsFilterAction::ServeFilters { start_number: *start_number, stop_hash: *stop_hash },
            GcsFilterMessage::GetGcsFilterHashes { start_number, stop_hash } =>
                GcsFilterAction::ServeFilterHashes { start_number: *start_number, stop_hash: *stop_hash },
            GcsFilterMessage::GetGcsFilterCheckPoint { stop_hash, interval } => {
                if *interval >= MIN_CHECK_POINT_INTERVAL {
                    GcsFilterAction::ServeCheckPoint { stop_hash: *stop_hash, interval: *interval }
                } else {
                    GcsFilterAction::Ban(GcsFilterBanReason::InvalidCheckPointInterval(*interval))
                }
            },
            _ => GcsFilterAction::Ban(GcsFilterBanReason::UnexpectedMessage),
        }
    }
}

/// How many blocks a request from `start` to `end` covers: all of
/// `start..=end`, but no more than `MAX_FILTER_RANGE_SIZE`.
pub open spec fn range_len(start: u64, end: u64) -> int {
    if start > end {
        0
    } else if end - start + 1 > MAX_FILTER_RANGE_SIZE {
        MAX_FILTER_RANGE_SIZE as int
    } else {
        end - start + 1
    }
}

/// The block numbers a request from `start` to `end` covers, in order.
pub fn gcs_filter_range(start: u64, end: u64) -> (r: Vec<u64>)
    ensures
        r@.len() == range_len(start, end),
        forall|i: int| 0 <= i < r@.len() ==> #[trigger] r@[i] == start + i,
        r@ == range_numbers(start, end),
{
    let mut r: Vec<u64> = Vec::new();
    if start > end {
        assert(r@ =~= range_numbers(start, end));
        return r;
    }
    let mut n: u64 = start;
    let mut count: usize = 0;
    loop
        invariant_except_break
            count == n - start,
            count < MAX_FILTER_RANGE_SIZE,
            r@.len() == count,
        invariant
            start <= end,
            start <= n <= end,
            forall|i: int| 0 <= i < r@.len() ==> #[trigger] r@[i] == start + i,
        ensures
            r@.len() == range_len(start, end),
            forall|i: int| 0 <= i < r@.len() ==> #[trigger] r@[i] == start + i,
        decreases end - n,
    {
        r.push(n);
        count = count + 1;
        if n == end || count == MAX_FILTER_RANGE_SIZE {
            break;
        }
        n = n + 1;
    }
    assert(r@ =~= range_numbers(start, end));
    r
}

/// The block numbers of the checkpoints up to block `end`: every
/// `interval`-th number below `end`, starting at 0, then `end`.
pub open spec fn checkpoint_numbers_of(end: u64, interval: u32) -> Seq<u64> {
    Seq::new(((end + interval - 1) / (interval as int)) as nat, |i: int| (i * interval) as u64).push(end)
}

proof fn lemma_checkpoint_start(end: int, interval: int)
    requires
        interval > 0,
        end >= 0,
    ensures
        end == 0 ==> (end + interval - 1) / interval == 0,
        end > 0 ==> (end + interval - 1) / interval >= 1,
{
    if end == 0 {
        assert((interval - 1) / interval == 0) by (nonlinear_arith)
            requires
                interval > 0,
        {
            let q = (interval - 1) / interval;
            let r = (interval - 1) % interval;
            assert(interval - 1 == q * interval + r);
            assert(0 <= r < interval);
        }
    } else {
        assert((end + interval - 1) / interval >= 1) by (nonlinear_arith)
            requires
                interval > 0,
                end > 0,
        {
            let q = (end + interval - 1) / interval;
            let r = (end + interval - 1) % interval;
            assert(end + interval - 1 == q * interval + r);
            assert(0 <= r < interval);
        }
    }
}

/// The block numbers of the checkpoints up to block `end`.
pub fn checkpoint_numbers(end: u64, interval: u32) -> (r: Vec<u64>)
    requires
        interval > 0,
    ensures
        r@ == checkpoint_numbers_of(end, interval),
{
    let mut r: Vec<u64> = Vec::new();
    let step = interval as u64;
    let mut n: u64 = 0;
    let ghost count = ((end + interval - 1) / (interval as int)) as nat;
    proof {
        lemma_checkpoint_start(end as int, interval as int);
        assert(end > 0 ==> count >= 1);
        assert(0 * interval == 0);
    }
    while n < end
        invariant
            step == interval,
            interval > 0,
            count == ((end + interval - 1) / (interval as int)) as nat,
            n < end ==> n as int == r@.len() * interval && r@.len() < count,
            n >= end ==> r@.len() == count,
            forall|i: int| 0 <= i < r@.len() ==> #[trigger] r@[i] as int == i * interval,
        decreases end - n,
    {
        let ghost k = r@.len();
        r.push(n);
        proof {
            lemma_checkpoint_step(end as int, interval as int, k as int);
            assert((k + 1) * interval == k * interval + interval) by (nonlinear_arith);
        }
        if end - n <= step {
            n = end;
            proof {
                assert(r@.len() == count);
            }
        } else {
            n = n + step;
        }
    }
    r.push(end);
    assert forall|i: int| 0 <= i < r@.len() implies #[trigger] r@[i] == checkpoint_numbers_of(end, interval)[i] by {
        if i < r@.len() - 1 {
            assert(r@[i] as int == i * interval);
        }
    }
    assert(r@ =~= checkpoint_numbers_of(end, interval));
    r
}

proof fn lemma_checkpoint_step(end: int, interval: int, k: int)
    requires
        interval > 0,
        k >= 0,
        k * interval < end,
    ensures
        (k + 1) * interval >= end ==> (end + interval - 1) / interval == k + 1,
        (k + 1) * interval < end ==> k + 1 < (end + interval - 1) / interval,
{
    assert((k + 1) * interval == k * interval + interval) by (nonlinear_arith);
    if (k + 1) * interval >= end {
        assert((end + interval - 1) / interval == k + 1) by (nonlinear_arith)
            requires
                interval > 0,
                k * interval < end,
                (k + 1) * interval >= end,
        {
            let q = (end + interval - 1) / interval;
            let r = (end + interval - 1) % interval;
            assert(end + interval - 1 == q * interval + r);
            assert(0 <= r < interval);
        }
    } else {
        assert(k + 1 < (end + interval - 1) / interval) by (nonlinear_arith)
            requires
                interval > 0,
                (k + 1) * interval < end,
        {
            let q = (end + interval - 1) / interval;
            let r = (end + interval - 1) % interval;
            assert(end + interval - 1 == q * interval + r);
            assert(0 <= r < interval);
        }
    }
}

} // verus!

verus! {

/// The hashes of the filters among the first `k` lookups that found one, in
/// order.
pub open spec fn present_filter_hashes(filters: Seq<Option<Vec<u8>>>, k: int) -> Seq<Seq<u8>>
    decreases k,
{
    if k <= 0 {
        seq![]
    } else {
        let s = present_filter_hashes(filters, k - 1);
        match filters[k - 1] {
            Some(f) => s.push(ckb_hash_of(f@)),
            None => s,
        }
    }
}

/// How many of the first `k` lookups found a filter.
pub open spec fn found_count(filters: Seq<Option<Vec<u8>>>, k: int) -> int
    decreases k,
{
    if k <= 0 {
        0
    } else {
        found_count(filters, k - 1) + if filters[k - 1] is Some { 1int } else { 0int }
    }
}

proof fn lemma_found_count_mono(filters: Seq<Option<Vec<u8>>>, i: int, k: int)
    requires
        0 <= i <= k,
    ensures
        found_count(filters, i) <= found_count(filters, k),
    decreases k - i,
{
    if i < k {
        lemma_found_count_mono(filters, i, k - 1);
    }
}

/// The filter hashes of the first `k` lookups are, in order, the chain's
/// hashes of all the bytes of each filter found: one per filter found, the
/// filter of lookup `i` giving the hash at the place of the number of
/// filters found before it.
pub proof fn law_filter_hashes_whole(filters: Seq<Option<Vec<u8>>>, k: int)
    requires
        0 <= k <= filters.len(),
    ensures
        present_filter_hashes(filters, k).len() == found_count(filters, k),
        forall|i: int| 0 <= i < k && #[trigger] filters[i] is Some ==>
            0 <= found_count(filters, i) < present_filter_hashes(filters, k).len()
                && present_filter_hashes(filters, k)[found_count(filters, i)] == ckb_hash_of(filters[i]->0@),
    decreases k,
{
    if k > 0 {
        law_filter_hashes_whole(filters, k - 1);
        assert forall|i: int| 0 <= i < k && #[trigger] filters[i] is Some implies
            0 <= found_count(filters, i) < present_filter_hashes(filters, k).len()
                && present_filter_hashes(filters, k)[found_count(filters, i)] == ckb_hash_of(filters[i]->0@) by {
            let prev_hashes = present_filter_hashes(filters, k - 1);
            lemma_found_count_mono(filters, 0, i);
            if i < k - 1 {
                lemma_found_count_mono(filters, i + 1, k - 1);
                assert(found_count(filters, i + 1) == found_count(filters, i) + 1);
                assert(found_count(filters, i) < prev_hashes.len());
                assert(present_filter_hashes(filters, k)[found_count(filters, i)] == prev_hashes[found_count(filters, i)]);
            } else {
                assert(found_count(filters, i) == prev_hashes.len());
            }
            lemma_found_count_mono(filters, i + 1, k);
            assert(found_count(filters, i + 1) == found_count(filters, i) + 1);
        }
    }
}

/// The views of hashes.
pub open spec fn hashes_view(hs: Seq<Byte32>) -> Seq<Seq<u8>> {
    hs.map_values(|h: Byte32| h@)
}

/// The hashes of the filters that the lookups found, in order; `filters[i]`
/// is the filter of the `i`-th block asked for, `None` where the store holds
/// no block of that number or no filter for it.
pub fn filter_hashes(filters: &Vec<Option<Vec<u8>>>) -> (r: Vec<Byte32>)
    ensures
        hashes_view(r@) == present_filter_hashes(filters@, filters@.len() as int),
        r@.len() == found_count(filters@, filters@.len() as int),
        forall|i: int| 0 <= i < filters@.len() && #[trigger] filters@[i] is Some ==>
            r@[found_count(filters@, i)]@ == ckb_hash_of(filters@[i]->0@),
{
    let mut r: Vec<Byte32> = Vec::new();
    let mut i: usize = 0;
    while i < filters.len()
        invariant
            i <= filters@.len(),
            hashes_view(r@) == present_filter_hashes(filters@, i as int),
        decreases filters@.len() - i,
    {
        match &filters[i] {
            Some(f) => {
                let h = blake2b_256(f.as_slice());
                r.push(h);
            },
            None => {},
        }
        i = i + 1;
        assert(hashes_view(r@) =~= present_filter_hashes(filters@, i as int));
    }
    proof {
        law_filter_hashes_whole(filters@, filters@.len() as int);
        assert(hashes_view(r@).len() == r@.len());
        assert forall|i: int| 0 <= i < filters@.len() && #[trigger] filters@[i] is Some implies
            r@[found_count(filters@, i)]@ == ckb_hash_of(filters@[i]->0@) by {
            lemma_found_count_mono(filters@, i + 1, filters@.len() as int);
            lemma_found_count_mono(filters@, 0, i);
            assert(found_count(filters@, i + 1) == found_count(filters@, i) + 1);
            assert(hashes_view(r@)[found_count(filters@, i)] == r@[found_count(filters@, i)]@);
        }
    }
    r
}

/// `r` is the reply to `GetGcsFilterHashes` for these lookups: the hashes of
/// the filters found, with the parent of the first block asked for; nothing
/// when no filter was found.
pub open spec fn hashes_reply_is(r: Option<GcsFilterMessage>, parent_hash: Byte32, stop_hash: Byte32, filters: Seq<Option<Vec<u8>>>) -> bool {
    let hs = present_filter_hashes(filters, filters.len() as int);
    match r {
        None => hs.len() == 0,
        Some(m) => hs.len() > 0 && (m matches GcsFilterMessage::GcsFilterHashes { stop_hash: s, parent_hash: p, filter_hashes: fh }
            && s == stop_hash && p == parent_hash && hashes_view(fh@) == hs),
    }
}

/// `r` is the reply to `GetGcsFilterCheckPoint` for these lookups: the
/// hashes of the filters found; nothing when no filter was found.
pub open spec fn checkpoint_reply_is(r: Option<GcsFilterMessage>, stop_hash: Byte32, filters: Seq<Option<Vec<u8>>>) -> bool {
    let hs = present_filter_hashes(filters, filters.len() as int);
    match r {
        None => hs.len() == 0,
        Some(m) => hs.len() > 0 && (m matches GcsFilterMessage::GcsFilterCheckPoint { stop_hash: s, filter_hashes: fh }
            && s == stop_hash && hashes_view(fh@) == hs),
    }
}

/// The reply to `GetGcsFilterHashes`: the hashes of the filters found, with
/// the parent of the first block asked for; nothing when no filter was
/// found.
pub fn gcs_filter_hashes_reply(parent_hash: Byte32, stop_hash: Byte32, filters: &Vec<Option<Vec<u8>>>) -> (r: Option<GcsFilterMessage>)
    ensures
        hashes_reply_is(r, parent_hash, stop_hash, filters@),
{
    let filter_hashes = filter_hashes(filters);
    if filter_hashes.len() == 0 {
        None
    } else {
        Some(GcsFilterMessage::GcsFilterHashes { stop_hash, parent_hash, filter_hashes })
    }
}

/// The reply to `GetGcsFilterCheckPoint`: the hashes of the filters found at
/// the checkpoints; nothing when no filter was found.
pub fn gcs_checkpoint_reply(stop_hash: Byte32, filters: &Vec<Option<Vec<u8>>>) -> (r: Option<GcsFilterMessage>)
    ensures
        checkpoint_reply_is(r, stop_hash, filters@),
{
    let filter_hashes = filter_hashes(filters);
    if filter_hashes.len() == 0 {
        None
    } else {
        Some(GcsFilterMessage::GcsFilterCheckPoint { stop_hash, filter_hashes })
    }
}

/// The `GcsFilter` messages for the first `k` lookups that found a block and
/// its filter, in order.
pub open spec fn filter_messages_are(out: Seq<GcsFilterMessage>, found: Seq<Option<(Byte32, Vec<u8>)>>, k: int) -> bool
    decreases k,
{
    if k <= 0 {
        out.len() == 0
    } else {
        match found[k - 1] {
            Some(e) => out.len() > 0 && (out.last() matches GcsFilterMessage::GcsFilter { block_hash, filter }
                && block_hash == e.0 && filter@ == e.1@) && filter_messages_are(out.drop_last(), found, k - 1),
            None => filter_messages_are(out, found, k - 1),
        }
    }
}

/// The replies to `GetGcsFilters`: one `GcsFilter` message for each block
/// whose hash and filter the store holds, in order; `found[i]` is the hash
/// and filter of the `i`-th block asked for.
pub fn gcs_filter_messages(found: Vec<Option<(Byte32, Vec<u8>)>>) -> (r: Vec<GcsFilterMessage>)
    ensures
        filter_messages_are(r@, found@, found@.len() as int),
{
    let ghost f0 = found@;
    let n = found.len();
    let mut found = found;
    let mut r: Vec<GcsFilterMessage> = Vec::new();
    let mut i: usize = 0;
    while i < n
        invariant
            n == f0.len(),
            found@.len() == n,
            i <= n,
            forall|k: int| i <= k < n ==> found@[k] == f0[k],
            filter_messages_are(r@, f0, i as int),
        decreases n - i,
    {
        let mut item: Option<(Byte32, Vec<u8>)> = None;
        found.set_and_swap(i, &mut item);
        let ghost before = r@;
        match item {
            Some(e) => {
                let (block_hash, filter) = e;
                r.push(GcsFilterMessage::GcsFilter { block_hash, filter });
                assert(r@.drop_last() == before);
            },
            None => {},
        }
        i = i + 1;
    }
    r
}

} // verus!

verus! {

/// A request never covers more than `MAX_FILTER_RANGE_SIZE` blocks, covers
/// only blocks from `start` to `end`, in order from `start` on, covers all
/// of them when there are no more than that, exactly that many when there
/// are more, and none when `start` is past `end`.
pub proof fn law_range_bounded(start: u64, end: u64)
    ensures
        0 <= range_len(start, end) <= MAX_FILTER_RANGE_SIZE,
        forall|i: int| 0 <= i < range_len(start, end) ==> start <= #[trigger] (start + i) <= end,
        start <= end && end - start < MAX_FILTER_RANGE_SIZE ==> range_len(start, end) == end - start + 1,
        start <= end && end - start >= MAX_FILTER_RANGE_SIZE ==> range_len(start, end) == MAX_FILTER_RANGE_SIZE,
        start > end ==> range_len(start, end) == 0,
        range_numbers(start, end).len() == range_len(start, end),
        forall|i: int| 0 <= i < range_len(start, end) ==> #[trigger] range_numbers(start, end)[i] == start + i,
{
}

/// How many of the first `k` lookups found a block and its filter.
pub open spec fn found_blocks(found: Seq<Option<(Byte32, Vec<u8>)>>, k: int) -> int
    decreases k,
{
    if k <= 0 {
        0
    } else {
        found_blocks(found, k - 1) + if found[k - 1] is Some { 1int } else { 0int }
    }
}

proof fn lemma_found_blocks_mono(found: Seq<Option<(Byte32, Vec<u8>)>>, i: int, k: int)
    requires
        0 <= i <= k,
    ensures
        0 <= found_blocks(found, i) <= found_blocks(found, k),
    decreases k,
{
    if k > 0 {
        if i < k {
            lemma_found_blocks_mono(found, i, k - 1);
        } else {
            lemma_found_blocks_mono(found, k - 1, k - 1);
        }
    }
}

/// The `GcsFilter` messages for the first `k` lookups are one per lookup
/// that found a block and its filter, in order: the lookup `i` that found
/// the hash `h` and filter `f` gives the message at the place of the number
/// of lookups before it that found one, carrying `h` and all of `f`.
pub proof fn law_filter_messages_in_order(out: Seq<GcsFilterMessage>, found: Seq<Option<(Byte32, Vec<u8>)>>, k: int)
    requires
        0 <= k <= found.len(),
        filter_messages_are(out, found, k),
    ensures
        out.len() == found_blocks(found, k),
        forall|i: int| 0 <= i < k && #[trigger] found[i] is Some ==> {
            &&& 0 <= found_blocks(found, i) < out.len()
            &&& out[found_blocks(found, i)] matches GcsFilterMessage::GcsFilter { block_hash, filter }
            &&& block_hash == (found[i]->0).0
            &&& filter@ == (found[i]->0).1@
        },
    decreases k,
{
    if k > 0 {
        let rest = if found[k - 1] is Some { out.drop_last() } else { out };
        law_filter_messages_in_order(rest, found, k - 1);
        assert forall|i: int| 0 <= i < k && #[trigger] found[i] is Some implies {
            &&& 0 <= found_blocks(found, i) < out.len()
            &&& out[found_blocks(found, i)] matches GcsFilterMessage::GcsFilter { block_hash, filter }
            &&& block_hash == (found[i]->0).0
            &&& filter@ == (found[i]->0).1@
        } by {
            lemma_found_blocks_mono(found, 0, i);
            if i < k - 1 {
                lemma_found_blocks_mono(found, i + 1, k - 1);
                assert(found_blocks(found, i + 1) == found_blocks(found, i) + 1);
                assert(out[found_blocks(found, i)] == rest[found_blocks(found, i)]);
            } else {
                assert(found_blocks(found, i) == rest.len());
            }
        }
    }
}

proof fn lemma_multiple_index(end: int, interval: int, m: int)
    requires
        interval > 0,
        0 <= m < end,
        m % interval == 0,
    ensures
        0 <= m / interval < (end + interval - 1) / interval,
        (m / interval) * interval == m,
{
    assert(0 <= m / interval < (end + interval - 1) / interval && (m / interval) * interval == m) by (nonlinear_arith)
        requires
            interval > 0,
            0 <= m < end,
            m % interval == 0,
    {
        let q = m / interval;
        assert(m == q * interval + m % interval);
        let q2 = (end + interval - 1) / interval;
        let r2 = (end + interval - 1) % interval;
        assert(end + interval - 1 == q2 * interval + r2);
        assert(0 <= r2 < interval);
        assert(q * interval < end);
        assert(q2 * interval >= end);
        assert(q < q2) by (nonlinear_arith)
            requires
                q * interval < q2 * interval,
                interval > 0,
        ;
    }
}

proof fn lemma_checkpoint_len(end: int, interval: int)
    requires
        interval > 0,
        end >= 0,
    ensures
        ((end + interval - 1) / interval) * interval >= end,
        ((end + interval - 1) / interval - 1) * interval < end,
{
    assert(((end + interval - 1) / interval) * interval >= end
        && ((end + interval - 1) / interval - 1) * interval < end) by (nonlinear_arith)
        requires
            interval > 0,
            end >= 0,
    {
        let q = (end + interval - 1) / interval;
        let r = (end + interval - 1) % interval;
        assert(end + interval - 1 == q * interval + r);
        assert(0 <= r < interval);
        assert((q - 1) * interval == q * interval - interval) by (nonlinear_arith);
    }
}

proof fn lemma_below_end(end: int, interval: int, i: int)
    requires
        interval > 0,
        0 <= i < (end + interval - 1) / interval,
    ensures
        i * interval < end,
{
    assert(i * interval < end) by (nonlinear_arith)
        requires
            interval > 0,
            0 <= i < (end + interval - 1) / interval,
    {
        let q = (end + interval - 1) / interval;
        let r = (end + interval - 1) % interval;
        assert(end + interval - 1 == q * interval + r);
        assert(i + 1 <= q);
        assert((i + 1) * interval <= q * interval);
    }
}

/// The checkpoints are increasing, end at `end`, and all others are the
/// multiples of `interval` below `end`; every such multiple is one of them,
/// so there are as many as `end / interval` rounded up, and one more.
pub proof fn law_checkpoints(end: u64, interval: u32)
    requires
        interval > 0,
    ensures
        ({
            let c = checkpoint_numbers_of(end, interval);
            &&& c.len() >= 1
            &&& c.last() == end
            &&& forall|i: int| 0 <= i < c.len() - 1 ==> (#[trigger] c[i]) < end && c[i] % (interval as u64) == 0
            &&& forall|i: int, j: int| 0 <= i < j < c.len() ==> (#[trigger] c[i]) < (#[trigger] c[j])
            &&& forall|m: u64| m < end && #[trigger] (m % (interval as u64)) == 0 ==> c.contains(m)
            &&& c.len() * (interval as int) >= end
            &&& (c.len() - 2) * (interval as int) < end
        }),
{
    let c = checkpoint_numbers_of(end, interval);
    assert forall|i: int| 0 <= i < c.len() - 1 implies (#[trigger] c[i]) < end && c[i] % (interval as u64) == 0 by {
        lemma_below_end(end as int, interval as int, i);
        assert(c[i] == i * interval);
        assert((i * interval) % (interval as int) == 0) by (nonlinear_arith)
            requires
                interval > 0,
                i >= 0,
        {
            vstd::arithmetic::div_mod::lemma_mod_multiples_basic(i, interval as int);
        }
    }
    assert forall|m: u64| m < end && #[trigger] (m % (interval as u64)) == 0 implies c.contains(m) by {
        let q = (m as int) / (interval as int);
        lemma_multiple_index(end as int, interval as int, m as int);
        assert(c[q] == (q * interval) as u64);
        assert(q * interval == m as int);
    }
    lemma_checkpoint_len(end as int, interval as int);
    let q = (end + interval - 1) / (interval as int);
    assert(c.len() == q + 1);
    assert(c.len() * (interval as int) == q * interval + interval) by (nonlinear_arith)
        requires
            c.len() == q + 1,
    ;
    assert((c.len() - 2) * (interval as int) == (q - 1) * interval) by (nonlinear_arith)
        requires
            c.len() == q + 1,
    ;
    assert forall|i: int, j: int| 0 <= i < j < c.len() implies (#[trigger] c[i]) < (#[trigger] c[j]) by {
        lemma_below_end(end as int, interval as int, i);
        if j < c.len() - 1 {
            lemma_below_end(end as int, interval as int, j);
            assert(i * interval < j * interval) by (nonlinear_arith)
                requires
                    interval > 0,
                    i < j,
            ;
        }
    }
}

} // verus!

verus! {

/// The block numbers a request from `start` to `end` covers, in order.
pub open spec fn range_numbers(start: u64, end: u64) -> Seq<u64> {
    Seq::new(range_len(start, end) as nat, |i: int| (start + i) as u64)
}

proof fn lemma_present_len(filters: Seq<Option<Vec<u8>>>, k: int)
    requires
        k >= 0,
    ensures
        present_filter_hashes(filters, k).len() <= k,
    decreases k,
{
    if k > 0 {
        lemma_present_len(filters, k - 1);
    }
}

proof fn lemma_messages_len(out: Seq<GcsFilterMessage>, found: Seq<Option<(Byte32, Vec<u8>)>>, k: int)
    requires
        k >= 0,
        filter_messages_are(out, found, k),
    ensures
        out.len() <= k,
    decreases k,
{
    if k > 0 {
        match found[k - 1] {
            Some(e) => lemma_messages_len(out.drop_last(), found, k - 1),
            None => lemma_messages_len(out, found, k - 1),
        }
    }
}

/// The replies to `GetGcsFilters { start_number, stop_hash }`. `end` is the
/// number of the block `stop_hash`, `None` when the store does not know it;
/// `found[i]` is the hash and filter of block `range_numbers(start_number,
/// end)[i]`, `None` where the store holds no such block or no filter for it.
/// Nothing is sent for an unknown stop block; else one `GcsFilter` message
/// per block found, in order, so never more than `MAX_FILTER_RANGE_SIZE`.
pub fn serve_gcs_filters(start_number: u64, end: Option<u64>, found: Vec<Option<(Byte32, Vec<u8>)>>) -> (r: Vec<GcsFilterMessage>)
    requires
        end matches Some(e) ==> found@.len() == range_numbers(start_number, e).len(),
    ensures
        end is None ==> r@.len() == 0,
        end is Some ==> filter_messages_are(r@, found@, found@.len() as int),
        end is Some ==> r@.len() == found_blocks(found@, found@.len() as int),
        end is Some ==> forall|i: int| 0 <= i < found@.len() && #[trigger] found@[i] is Some ==> {
            &&& 0 <= found_blocks(found@, i) < r@.len()
            &&& r@[found_blocks(found@, i)] matches GcsFilterMessage::GcsFilter { block_hash, filter }
            &&& block_hash == (found@[i]->0).0
            &&& filter@ == (found@[i]->0).1@
        },
        r@.len() <= MAX_FILTER_RANGE_SIZE,
{
    match end {
        Some(e) => {
            let ghost f0 = found@;
            let r = gcs_filter_messages(found);
            proof {
                lemma_messages_len(r@, f0, f0.len() as int);
                law_filter_messages_in_order(r@, f0, f0.len() as int);
            }
            r
        },
        None => Vec::new(),
    }
}

/// The reply to `GetGcsFilterHashes { start_number, stop_hash }`. `end` is
/// the number of the block `stop_hash` and `parent_hash` the parent of block
/// `start_number`, each `None` when the store does not know it; `filters[i]`
/// is the filter of block `range_numbers(start_number, end)[i]`, `None`
/// where the store holds no such block or no filter for it. Nothing is sent
/// when either lookup failed (the filters are then not looked up); else
/// what `gcs_filter_hashes_reply` makes, with at most
/// `MAX_FILTER_RANGE_SIZE` hashes.
pub fn serve_gcs_filter_hashes(
    start_number: u64,
    stop_hash: Byte32,
    end: Option<u64>,
    parent_hash: Option<Byte32>,
    filters: &Vec<Option<Vec<u8>>>,
) -> (r: Option<GcsFilterMessage>)
    requires
        end matches Some(e) ==> (parent_hash is Some ==> filters@.len() == range_numbers(start_number, e).len()),
    ensures
        (end is None || parent_hash is None) ==> r is None,
        end is Some && parent_hash is Some ==> hashes_reply_is(r, parent_hash->0, stop_hash, filters@),
        r matches Some(m) ==> (m matches GcsFilterMessage::GcsFilterHashes { filter_hashes: fh, .. }
            && fh@.len() <= MAX_FILTER_RANGE_SIZE),
{
    match end {
        Some(e) => match parent_hash {
            Some(p) => {
                let r = gcs_filter_hashes_reply(p, stop_hash, filters);
                proof {
                    lemma_present_len(filters@, filters@.len() as int);
                }
                r
            },
            None => None,
        },
        None => None,
    }
}

proof fn lemma_checkpoint_count(end: int, interval: int)
    requires
        interval > 0,
        end >= 0,
    ensures
        (end + interval - 1) / interval <= end / interval + 1,
{
    assert((end + interval - 1) / interval <= end / interval + 1) by (nonlinear_arith)
        requires
            interval > 0,
            end >= 0,
    {
        let q = (end + interval - 1) / interval;
        let r = (end + interval - 1) % interval;
        let q2 = end / interval;
        let r2 = end % interval;
        assert(end + interval - 1 == q * interval + r);
        assert(end == q2 * interval + r2);
        assert(0 <= r < interval);
        assert(0 <= r2 < interval);
        assert(q * interval < (q2 + 2) * interval);
    }
}

/// The reply to `GetGcsFilterCheckPoint { stop_hash, interval }` (an
/// interval the node takes). `end` is the number of the block `stop_hash`,
/// `None` when the store does not know it; `filters[i]` is the filter of
/// block `checkpoint_numbers_of(end, interval)[i]`, `None` where the store
/// holds no such block or no filter for it. Nothing is sent for an unknown
/// stop block; else what `gcs_checkpoint_reply` makes, with at most
/// `end / interval + 2` hashes.
pub fn serve_gcs_checkpoint(
    stop_hash: Byte32,
    interval: u32,
    end: Option<u64>,
    filters: &Vec<Option<Vec<u8>>>,
) -> (r: Option<GcsFilterMessage>)
    requires
        interval > 0,
        end matches Some(e) ==> filters@.len() == checkpoint_numbers_of(e, interval).len(),
    ensures
        end is None ==> r is None,
        end is Some ==> checkpoint_reply_is(r, stop_hash, filters@),
        end matches Some(e) ==> (r matches Some(m) ==> (m matches GcsFilterMessage::GcsFilterCheckPoint { filter_hashes: fh, .. }
            && fh@.len() <= (e as int) / (interval as int) + 2)),
{
    match end {
        Some(e) => {
            let r = gcs_checkpoint_reply(stop_hash, filters);
            proof {
                lemma_present_len(filters@, filters@.len() as int);
                lemma_checkpoint_count(e as int, interval as int);
            }
            r
        },
        None => None,
    }
}

} // verus!
