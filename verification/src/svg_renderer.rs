//! The asynchronous render cache: requests for rich cell content go out on
//! a bounded channel to a background worker, finished pixel buffers come
//! back on another, and the service deduplicates both in-flight work (one
//! outstanding request per coordinate) and finished output (one buffer per
//! distinct content digest).

use vstd::prelude::*;

use std::collections::{HashMap, HashSet};

use crate::grid_state::{coord_key, coord_key_of};
use vstd::string::StringSliceAdditionalSpecFns;

verus! {

broadcast use vstd::std_specs::hash::group_hash_axioms;

/// `crossbeam_channel::Sender`, the producing end of a channel; opaque to
/// Verus.
#[verifier::external_type_specification]
#[verifier::external_body]
#[verifier::reject_recursive_types(T)]
pub struct ExSender<T>(crossbeam_channel::Sender<T>);

/// `crossbeam_channel::Receiver`, the consuming end of a channel; opaque
/// to Verus.
#[verifier::external_type_specification]
#[verifier::external_body]
#[verifier::reject_recursive_types(T)]
pub struct ExReceiver<T>(crossbeam_channel::Receiver<T>);

/// `crossbeam_channel::TrySendError`, why a non-blocking send was refused.
#[verifier::external_type_specification]
#[verifier::external_body]
#[verifier::reject_recursive_types(T)]
pub struct ExTrySendError<T>(crossbeam_channel::TrySendError<T>);

/// `crossbeam_channel::TryRecvError`, why a non-blocking receive returned
/// nothing.
#[verifier::external_type_specification]
#[verifier::external_body]
pub struct ExTryRecvError(crossbeam_channel::TryRecvError);

/// Relies on `crossbeam_channel::Sender::try_send`: hands the message to
/// the channel, or returns it inside the error when the channel is full or
/// disconnected; never blocks.
pub assume_specification<T>[ crossbeam_channel::Sender::<T>::try_send ](
    s: &crossbeam_channel::Sender<T>,
    msg: T,
) -> Result<(), crossbeam_channel::TrySendError<T>>;

/// Relies on `crossbeam_channel::Receiver::try_recv`: takes one pending
/// message if there is one; never blocks.
pub assume_specification<T>[ crossbeam_channel::Receiver::<T>::try_recv ](
    r: &crossbeam_channel::Receiver<T>,
) -> Result<T, crossbeam_channel::TryRecvError>;

/// The channel a request sender feeds.
pub uninterp spec fn req_tx_channel(tx: crossbeam_channel::Sender<SvgRenderRequest>) -> int;

/// The channel a request receiver drains.
pub uninterp spec fn req_rx_channel(rx: crossbeam_channel::Receiver<SvgRenderRequest>) -> int;

/// The capacity a request sender's channel was created with.
pub uninterp spec fn req_tx_capacity(tx: crossbeam_channel::Sender<SvgRenderRequest>) -> nat;

/// The channel a result sender feeds.
pub uninterp spec fn res_tx_channel(tx: crossbeam_channel::Sender<SvgRenderResult>) -> int;

/// The channel a result receiver drains.
pub uninterp spec fn res_rx_channel(rx: crossbeam_channel::Receiver<SvgRenderResult>) -> int;

/// The capacity a result sender's channel was created with.
pub uninterp spec fn res_tx_capacity(tx: crossbeam_channel::Sender<SvgRenderResult>) -> nat;

/// Relies on `crossbeam_channel::bounded`: the two endpoints of one
/// bounded request channel, created with the given capacity. crossbeam
/// panics on a capacity too large to initialize, so only modest ones are
/// admitted; the service uses 100.
#[verifier::external_body]
fn bounded_request_channel(cap: usize) -> (r: (
    crossbeam_channel::Sender<SvgRenderRequest>,
    crossbeam_channel::Receiver<SvgRenderRequest>,
))
    requires
        cap <= 0x10000,
    ensures
        req_tx_channel(r.0) == req_rx_channel(r.1),
        req_tx_capacity(r.0) == cap,
{
    crossbeam_channel::bounded(cap)
}

/// Relies on `crossbeam_channel::bounded`: the two endpoints of one
/// bounded result channel, created with the given capacity. crossbeam
/// panics on a capacity too large to initialize, so only modest ones are
/// admitted; the service uses 100.
#[verifier::external_body]
fn bounded_result_channel(cap: usize) -> (r: (
    crossbeam_channel::Sender<SvgRenderResult>,
    crossbeam_channel::Receiver<SvgRenderResult>,
))
    requires
        cap <= 0x10000,
    ensures
        res_tx_channel(r.0) == res_rx_channel(r.1),
        res_tx_capacity(r.0) == cap,
{
    crossbeam_channel::bounded(cap)
}

/// A request to rasterize one cell's rich content.
pub struct SvgRenderRequest {
    /// The cell the request is for.
    pub cell_coord: (i32, i32),
    /// The markup to rasterize.
    pub svg: String,
    /// Target width in pixels.
    pub width: u32,
    /// Target height in pixels.
    pub height: u32,
    /// Digest of the markup, the cache key of the finished buffer.
    pub content_hash: u64,
}

/// A finished rasterization.
pub struct SvgRenderResult {
    /// The cell the request was for.
    pub cell_coord: (i32, i32),
    /// RGBA pixels, four bytes per pixel.
    pub rgba_buffer: Vec<u8>,
    /// Width in pixels.
    pub width: u32,
    /// Height in pixels.
    pub height: u32,
    /// Digest of the markup that was rasterized.
    pub content_hash: u64,
}

/// The digest under which a piece of rich content is cached. Relies on
/// seahash's prechosen seed: the digest is a function of the bytes alone.
pub uninterp spec fn content_digest(bytes: Seq<u8>) -> u64;

/// Relies on `seahash::hash`: a deterministic digest of the text's bytes.
#[verifier::external_body]
pub(crate) fn content_hash_of(s: &str) -> (h: u64)
    ensures
        h == content_digest(s.spec_bytes()),
{
    seahash::hash(s.as_bytes())
}

/// Whether some result in a batch carries the given content digest.
pub open spec fn batch_has_hash(rs: Seq<SvgRenderResult>, h: u64) -> bool {
    exists|i: int| 0 <= i < rs.len() && (#[trigger] rs[i]).content_hash == h
}

/// Whether some result in a batch is for the coordinate with the given
/// packed key.
pub open spec fn batch_has_coord(rs: Seq<SvgRenderResult>, k: u64) -> bool {
    exists|i: int|
        0 <= i < rs.len() && coord_key_of(
            (#[trigger] rs[i]).cell_coord.0,
            rs[i].cell_coord.1,
        ) == k
}

/// Caller-side state of the render cache service.
pub struct SvgRenderer {
    /// Producing end of the request channel; the worker holds the other.
    pub request_tx: crossbeam_channel::Sender<SvgRenderRequest>,
    /// Consuming end of the result channel; the worker holds the other.
    pub result_rx: crossbeam_channel::Receiver<SvgRenderResult>,
    /// Packed coordinates with an outstanding request, to suppress
    /// duplicates.
    pub pending_renders: HashSet<u64>,
    /// Finished RGBA buffers by content digest, never evicted.
    pub pixel_cache: HashMap<u64, Vec<u8>>,
}

impl SvgRenderer {
    /// Create the service: both bounded channels and empty caller-side
    /// state. Returns, beside the service, the worker's ends: the request
    /// receiver and the result sender, for the caller to hand to a worker
    /// it runs. The returned receiver drains the service's own request
    /// channel and the returned sender feeds its result channel, both
    /// bounded at 100 entries.
    pub fn new() -> (r: (
        SvgRenderer,
        crossbeam_channel::Receiver<SvgRenderRequest>,
        crossbeam_channel::Sender<SvgRenderResult>,
    ))
        ensures
            r.0.pending_renders@ == Set::<u64>::empty(),
            r.0.pixel_cache@ == Map::<u64, Vec<u8>>::empty(),
            req_rx_channel(r.1) == req_tx_channel(r.0.request_tx),
            res_tx_channel(r.2) == res_rx_channel(r.0.result_rx),
            req_tx_capacity(r.0.request_tx) == 100,
            res_tx_capacity(r.2) == 100,
    {
        let (req_tx, req_rx) = bounded_request_channel(100);
        let (res_tx, res_rx) = bounded_result_channel(100);
        (
            SvgRenderer {
                request_tx: req_tx,
                result_rx: res_rx,
                pending_renders: HashSet::new(),
                pixel_cache: HashMap::new(),
            },
            req_rx,
            res_tx,
        )
    }

    /// Submit a render request, unless one is already outstanding for the
    /// same coordinate — then the call is a strict no-op on the service's
    /// state, so at most one request per coordinate is ever in flight.
    /// The coordinate is marked pending only when the channel accepted the
    /// request, so a request dropped on a full channel can be retried by a
    /// later call. The cache and the channel endpoints are not touched.
    pub fn request_render(&mut self, req: SvgRenderRequest)
        ensures
            final(self).pixel_cache@ == old(self).pixel_cache@,
            final(self).request_tx == old(self).request_tx,
            final(self).result_rx == old(self).result_rx,
            old(self).pending_renders@.contains(
                coord_key_of(req.cell_coord.0, req.cell_coord.1),
            ) ==> *final(self) == *old(self),
            !old(self).pending_renders@.contains(
                coord_key_of(req.cell_coord.0, req.cell_coord.1),
            ) ==> (final(self).pending_renders@ == old(self).pending_renders@
                || final(self).pending_renders@ == old(self).pending_renders@.insert(
                coord_key_of(req.cell_coord.0, req.cell_coord.1),
            )),
    {
        let k = coord_key(req.cell_coord.0, req.cell_coord.1);
        if !self.pending_renders.contains(&k) {
            if self.request_tx.try_send(req).is_ok() {
                self.pending_renders.insert(k);
            }
        }
    }

    /// Non-blocking drain of the finished results, up to one channel
    /// capacity per call (a later call picks up the rest): each drained
    /// result clears its coordinate's pending marker and is cached under
    /// its content digest (two results with one digest leave the later
    /// buffer), and the full batch is returned. Cache entries for digests
    /// outside the batch are untouched, and no pending marker appears.
    pub fn poll_results(&mut self) -> (results: Vec<SvgRenderResult>)
        ensures
            forall|h: u64|
                #[trigger] final(self).pixel_cache@.contains_key(h)
                    <==> (old(self).pixel_cache@.contains_key(h) || batch_has_hash(results@, h)),
            forall|h: u64|
                old(self).pixel_cache@.contains_key(h) && !batch_has_hash(results@, h)
                    ==> final(self).pixel_cache@[h] == old(self).pixel_cache@[h],
            forall|i: int|
                0 <= i < results@.len() && (forall|j: int|
                    i < j < results@.len() ==> (#[trigger] results@[j]).content_hash
                        != results@[i].content_hash) ==> final(self).pixel_cache@[(
                    #[trigger] results@[i]).content_hash]@ == results@[i].rgba_buffer@,
            forall|k: u64|
                #[trigger] final(self).pending_renders@.contains(k)
                    <==> (old(self).pending_renders@.contains(k) && !batch_has_coord(results@, k)),
            final(self).request_tx == old(self).request_tx,
            final(self).result_rx == old(self).result_rx,
    {
        let mut results: Vec<SvgRenderResult> = Vec::new();
        let ghost pend0 = self.pending_renders@;
        let ghost cache0 = self.pixel_cache@;
        let mut rounds: usize = 0;
        while rounds < 100
            invariant
                0 <= rounds <= 100,
                forall|h: u64|
                    #[trigger] self.pixel_cache@.contains_key(h) <==> (cache0.contains_key(h)
                        || batch_has_hash(results@, h)),
                forall|h: u64|
                    cache0.contains_key(h) && !batch_has_hash(results@, h)
                        ==> self.pixel_cache@[h] == cache0[h],
                forall|i: int|
                    0 <= i < results@.len() && (forall|j: int|
                        i < j < results@.len() ==> (#[trigger] results@[j]).content_hash
                            != results@[i].content_hash) ==> self.pixel_cache@[(
                    #[trigger] results@[i]).content_hash]@ == results@[i].rgba_buffer@,
                forall|k: u64|
                    #[trigger] self.pending_renders@.contains(k) <==> (pend0.contains(k)
                        && !batch_has_coord(results@, k)),
                self.request_tx == old(self).request_tx,
                self.result_rx == old(self).result_rx,
            decreases 100 - rounds,
        {
            rounds = rounds + 1;
            let res = match self.result_rx.try_recv() {
                Ok(res) => res,
                Err(_) => {
                    break ;
                },
            };
            let ghost rs0 = results@;
            let k = coord_key(res.cell_coord.0, res.cell_coord.1);
            self.pending_renders.remove(&k);
            let buffer = res.rgba_buffer.clone();
            let ghost bufv = buffer@;
            let ghost resbuf = res.rgba_buffer@;
            proof {
                assert(bufv == resbuf) by {
                    assert forall|ix: int|
                        0 <= ix < resbuf.len() implies resbuf[ix] == bufv.index(ix) by {
                        assert(cloned::<u8>(res.rgba_buffer@[ix], buffer@[ix]));
                    }
                    assert(resbuf =~= bufv);
                }
            }
            let h = res.content_hash;
            let ghost cache_prev = self.pixel_cache@;
            self.pixel_cache.insert(h, buffer);
            results.push(res);
            proof {
                let rs1 = results@;
                assert(rs1 == rs0.push(rs1[rs1.len() - 1]));
                assert forall|h2: u64| #[trigger] batch_has_hash(rs1, h2) <==> (batch_has_hash(
                    rs0,
                    h2,
                ) || rs1[rs1.len() - 1].content_hash == h2) by {
                    if batch_has_hash(rs1, h2) {
                        let i = choose|i: int|
                            0 <= i < rs1.len() && (#[trigger] rs1[i]).content_hash == h2;
                        if i < rs0.len() {
                            assert(rs0[i].content_hash == h2);
                        }
                    }
                    if batch_has_hash(rs0, h2) {
                        let i = choose|i: int|
                            0 <= i < rs0.len() && (#[trigger] rs0[i]).content_hash == h2;
                        assert(rs1[i].content_hash == h2);
                    }
                    if rs1[rs1.len() - 1].content_hash == h2 {
                        assert((#[trigger] rs1[rs1.len() - 1]).content_hash == h2);
                    }
                }
                assert forall|k2: u64| #[trigger] batch_has_coord(rs1, k2) <==> (batch_has_coord(
                    rs0,
                    k2,
                ) || coord_key_of(
                    rs1[rs1.len() - 1].cell_coord.0,
                    rs1[rs1.len() - 1].cell_coord.1,
                ) == k2) by {
                    if batch_has_coord(rs1, k2) {
                        let i = choose|i: int|
                            0 <= i < rs1.len() && coord_key_of(
                                (#[trigger] rs1[i]).cell_coord.0,
                                rs1[i].cell_coord.1,
                            ) == k2;
                        if i < rs0.len() {
                            assert(coord_key_of(rs0[i].cell_coord.0, rs0[i].cell_coord.1) == k2);
                        }
                    }
                    if batch_has_coord(rs0, k2) {
                        let i = choose|i: int|
                            0 <= i < rs0.len() && coord_key_of(
                                (#[trigger] rs0[i]).cell_coord.0,
                                rs0[i].cell_coord.1,
                            ) == k2;
                        assert(coord_key_of(
                            (#[trigger] rs1[i]).cell_coord.0,
                            rs1[i].cell_coord.1,
                        ) == k2);
                    }
                }
                assert forall|i: int|
                    0 <= i < rs1.len() && (forall|j: int|
                        i < j < rs1.len() ==> (#[trigger] rs1[j]).content_hash
                            != rs1[i].content_hash) implies self.pixel_cache@[(
                    #[trigger] rs1[i]).content_hash]@ == rs1[i].rgba_buffer@ by {
                    if i == rs1.len() - 1 {
                        assert(self.pixel_cache@[h]@ == bufv);
                        assert(rs1[i].rgba_buffer@ == resbuf);
                    } else {
                        assert(rs1[i] == rs0[i]);
                        assert(rs1[i].content_hash != h);
                        assert forall|j: int|
                            i < j < rs0.len() implies (#[trigger] rs0[j]).content_hash
                            != rs0.index(i).content_hash by {
                            assert(rs0[j] == rs1[j]);
                            assert(rs1[j].content_hash != rs1[i].content_hash);
                        }
                        assert(self.pixel_cache@[rs0[i].content_hash] == cache_prev.index(
                            rs0[i].content_hash,
                        ));
                    }
                }
            }
        }
        results
    }

    /// Whether a buffer for this exact content digest is already cached.
    pub fn is_cached(&self, hash: u64) -> (r: bool)
        ensures
            r == self.pixel_cache@.contains_key(hash),
    {
        self.pixel_cache.contains_key(&hash)
    }
}

/// Fully transparent pixels.
pub open spec fn transparent(bs: Seq<u8>) -> bool {
    forall|i: int| 0 <= i < bs.len() ==> #[trigger] bs[i] == 0
}

/// Build the result the worker sends back for one request: the
/// rasterizer's pixels when they have exactly the requested size, and
/// otherwise — rasterization failed or produced the wrong amount — a fully
/// transparent buffer of the requested dimensions, so the caller always
/// receives a well-formed result for the right cell and digest.
pub fn complete_request(req: SvgRenderRequest, pixels: Option<Vec<u8>>) -> (res: SvgRenderResult)
    requires
        4 * req.width * req.height <= usize::MAX,
    ensures
        res.cell_coord == req.cell_coord,
        res.content_hash == req.content_hash,
        res.width == req.width,
        res.height == req.height,
        res.rgba_buffer@.len() == 4 * req.width * req.height,
        match pixels {
            Some(p) => if p@.len() == 4 * req.width * req.height {
                res.rgba_buffer@ == p@
            } else {
                transparent(res.rgba_buffer@)
            },
            None => transparent(res.rgba_buffer@),
        },
{
    proof {
        let w = req.width as int;
        let hh = req.height as int;
        assert(w * hh * 4 == 4 * w * hh) by (nonlinear_arith);
        assert(w * hh <= w * hh * 4) by (nonlinear_arith)
            requires
                w >= 0,
                hh >= 0,
        ;
    }
    let len: usize = (req.width as usize) * (req.height as usize) * 4;
    let rgba_buffer: Vec<u8> = match pixels {
        Some(p) => if p.len() == len {
            p
        } else {
            vec![0u8; len]
        },
        None => vec![0u8; len],
    };
    SvgRenderResult {
        cell_coord: req.cell_coord,
        rgba_buffer,
        width: req.width,
        height: req.height,
        content_hash: req.content_hash,
    }
}

} // verus!
