//! The clipboard cache: what passes through `wl_data_source.send` is kept, so
//! that a selection outlives a compositor crash and the client that made it.
//!
//! After a reconnect the first real input serial is borrowed to offer the
//! cached content again, from a data source of the proxy's own that the client
//! never sees.
use crate::schema::same_text;
use crate::shadow_table::{ShadowTable, TableModel};
use crate::text;
use crate::wire;
use crate::wire::{build_message, put_str, put_u32, read_str, HEADER_LEN};
use std::collections::VecDeque;
use std::sync::Arc;
use vstd::prelude::*;
use vstd::slice::slice_subrange;
use vstd::utf8::*;

verus! {

/// The most that is kept of one transfer.
pub const MAX_CACHED_BYTES: usize = 5_242_880;

/// The content types worth keeping: small, well-understood text and images.
pub open spec fn cacheable(mime_type: Seq<char>) -> bool {
    ||| mime_type == "text/plain"@
    ||| mime_type == "text/plain;charset=utf-8"@
    ||| mime_type == "UTF8_STRING"@
    ||| mime_type == "STRING"@
    ||| mime_type == "TEXT"@
    ||| mime_type == "image/png"@
}

/// Whether content of this type is kept.
pub fn is_cacheable_mime(mime_type: &str) -> (r: bool)
    ensures
        r == cacheable(mime_type@),
{
    same_text(mime_type, "text/plain") || same_text(mime_type, "text/plain;charset=utf-8")
        || same_text(mime_type, "UTF8_STRING") || same_text(mime_type, "STRING") || same_text(
        mime_type,
        "TEXT",
    ) || same_text(mime_type, "image/png")
}

/// Cached content by type, each type once, in the order of first arrival.
pub struct ClipboardCache {
    entries: Vec<(String, Vec<u8>)>,
}

/// The position from `from` on at which `mime_type` stands.
pub open spec fn entry_from(entries: Seq<(Seq<char>, Seq<u8>)>, mime_type: Seq<char>, from: int) -> Option<
    int,
>
    decreases entries.len() - from,
{
    if from >= entries.len() {
        None
    } else if entries[from].0 == mime_type {
        Some(from)
    } else {
        entry_from(entries, mime_type, from + 1)
    }
}

/// The content cached under `mime_type`.
pub open spec fn cached(entries: Seq<(Seq<char>, Seq<u8>)>, mime_type: Seq<char>) -> Option<
    Seq<u8>,
> {
    match entry_from(entries, mime_type, 0) {
        Some(i) => Some(entries[i].1),
        None => None,
    }
}

/// The cache after `bytes` were stored under `mime_type`.
pub open spec fn stored(
    entries: Seq<(Seq<char>, Seq<u8>)>,
    mime_type: Seq<char>,
    bytes: Seq<u8>,
) -> Seq<(Seq<char>, Seq<u8>)> {
    match entry_from(entries, mime_type, 0) {
        Some(i) => entries.update(i, (mime_type, bytes)),
        None => entries.push((mime_type, bytes)),
    }
}

/// The types under which something is cached.
pub open spec fn mime_types(entries: Seq<(Seq<char>, Seq<u8>)>) -> Seq<Seq<char>> {
    entries.map_values(|e: (Seq<char>, Seq<u8>)| e.0)
}

/// Whether a string fits a string argument.
pub open spec fn fits_argument(s: Seq<char>) -> bool {
    encode_utf8(s).len() < u32::MAX
}

/// Each type stands in the cache once, and its name fits a string argument.
pub open spec fn cache_wf(entries: Seq<(Seq<char>, Seq<u8>)>) -> bool {
    &&& forall|i: int, j: int|
        0 <= i < j < entries.len() ==> (#[trigger] entries[i]).0 != (#[trigger] entries[j]).0
    &&& forall|i: int| 0 <= i < entries.len() ==> fits_argument((#[trigger] entries[i]).0)
}

/// [`entry_from`] finds the first match.
proof fn lemma_entry_from(entries: Seq<(Seq<char>, Seq<u8>)>, mime_type: Seq<char>, from: int)
    requires
        0 <= from,
    ensures
        match entry_from(entries, mime_type, from) {
            Some(i) => from <= i < entries.len() && entries[i].0 == mime_type && forall|j: int|
                from <= j < i ==> (#[trigger] entries[j]).0 != mime_type,
            None => forall|j: int|
                from <= j < entries.len() ==> (#[trigger] entries[j]).0 != mime_type,
        },
    decreases entries.len() - from,
{
    if from < entries.len() && entries[from].0 != mime_type {
        lemma_entry_from(entries, mime_type, from + 1);
    }
}

/// What is stored is what is found; what is cached under other types stays,
/// and no type comes to stand in the cache twice.
pub proof fn lemma_stored_is_cached(
    entries: Seq<(Seq<char>, Seq<u8>)>,
    mime_type: Seq<char>,
    bytes: Seq<u8>,
    other: Seq<char>,
)
    ensures
        cached(stored(entries, mime_type, bytes), mime_type) == Some(bytes),
        other != mime_type ==> cached(stored(entries, mime_type, bytes), other) == cached(
            entries,
            other,
        ),
        cache_wf(entries) && fits_argument(mime_type) ==> cache_wf(
            stored(entries, mime_type, bytes),
        ),
{
    let new = stored(entries, mime_type, bytes);
    lemma_entry_from(entries, mime_type, 0);
    lemma_entry_from(new, mime_type, 0);
    lemma_entry_from(entries, other, 0);
    lemma_entry_from(new, other, 0);
    assert(forall|i: int| 0 <= i < entries.len() ==> new[i].0 == (#[trigger] entries[i]).0);
    if entry_from(entries, mime_type, 0) is None {
        assert(new[entries.len() as int] == (mime_type, bytes));
    } else {
        let i = entry_from(entries, mime_type, 0)->0;
        assert(new[i] == (mime_type, bytes));
    }
    if other != mime_type {
        match (entry_from(entries, other, 0), entry_from(new, other, 0)) {
            (Some(i), Some(j)) => {
                assert(new[i].0 == other && entries[j].0 == other);
            },
            (Some(i), None) => {
                assert(new[i].0 == other);
            },
            (None, Some(j)) => {
                assert(j < entries.len() ==> entries[j].0 == other);
            },
            (None, None) => {},
        }
    }
}

/// What a list of cache entries holds.
pub open spec fn entry_models(entries: Seq<(String, Vec<u8>)>) -> Seq<(Seq<char>, Seq<u8>)> {
    entries.map_values(|e: (String, Vec<u8>)| (e.0@, e.1@))
}

impl View for ClipboardCache {
    type V = Seq<(Seq<char>, Seq<u8>)>;

    closed spec fn view(&self) -> Seq<(Seq<char>, Seq<u8>)> {
        entry_models(self.entries@)
    }
}

impl ClipboardCache {
    /// An empty cache.
    pub fn new() -> (r: ClipboardCache)
        ensures
            r@ == Seq::<(Seq<char>, Seq<u8>)>::empty(),
            cache_wf(r@),
    {
        let cache = ClipboardCache { entries: Vec::new() };
        assert(cache@ =~= Seq::empty());
        cache
    }

    fn position(&self, mime_type: &str) -> (r: Option<usize>)
        ensures
            match r {
                Some(i) => entry_from(self@, mime_type@, 0) == Some(i as int) && i
                    < self.entries@.len(),
                None => entry_from(self@, mime_type@, 0) is None,
            },
    {
        let mut i: usize = 0;
        while i < self.entries.len()
            invariant
                i <= self.entries@.len(),
                entry_from(self@, mime_type@, 0) == entry_from(self@, mime_type@, i as int),
            decreases self.entries.len() - i,
        {
            if same_text(self.entries[i].0.as_str(), mime_type) {
                return Some(i);
            }
            i += 1;
        }
        None
    }

    /// Keeps `bytes` as the content of that type, in place of what was there.
    pub fn store(&mut self, mime_type: String, bytes: Vec<u8>)
        requires
            cache_wf(old(self)@),
            fits_argument(mime_type@),
        ensures
            final(self)@ == stored(old(self)@, mime_type@, bytes@),
            cache_wf(final(self)@),
    {
        proof {
            lemma_stored_is_cached(self@, mime_type@, bytes@, mime_type@);
        }
        match self.position(mime_type.as_str()) {
            Some(i) => {
                self.entries.set(i, (mime_type, bytes));
            },
            None => {
                self.entries.push((mime_type, bytes));
            },
        }
        assert(self@ =~= stored(old(self)@, mime_type@, bytes@));
    }

    /// The content of that type.
    pub fn get(&self, mime_type: &str) -> (r: Option<Vec<u8>>)
        ensures
            match r {
                Some(bytes) => cached(self@, mime_type@) == Some(bytes@),
                None => cached(self@, mime_type@) is None,
            },
    {
        match self.position(mime_type) {
            Some(i) => {
                let bytes = self.entries[i].1.clone();
                assert(bytes@ =~= self@[i as int].1);
                Some(bytes)
            },
            None => None,
        }
    }

    /// The types under which something is cached.
    pub fn cached_mime_types(&self) -> (r: Vec<String>)
        ensures
            text::texts(r@) == mime_types(self@),
    {
        let mut out: Vec<String> = Vec::new();
        let mut i: usize = 0;
        while i < self.entries.len()
            invariant
                i <= self.entries@.len(),
                out@.len() == i,
                forall|j: int| 0 <= j < i ==> (#[trigger] out@[j])@ == self@[j].0,
            decreases self.entries.len() - i,
        {
            out.push(self.entries[i].0.clone());
            i += 1;
        }
        assert(text::texts(out@) =~= mime_types(self@));
        out
    }
}

/// Collects one transfer as its chunks go by, as long as it stays small
/// enough to keep.
pub struct TeeCollector {
    collected: Option<Vec<u8>>,
}

/// What a collector holds after another chunk.
pub open spec fn with_chunk(collected: Option<Seq<u8>>, chunk: Seq<u8>) -> Option<Seq<u8>> {
    match collected {
        Some(so_far) if so_far.len() + chunk.len() <= MAX_CACHED_BYTES => Some(so_far + chunk),
        _ => None,
    }
}

/// What a collector holds after the first `n` chunks.
pub open spec fn collected_from(chunks: Seq<Seq<u8>>, n: int) -> Option<Seq<u8>>
    decreases n,
{
    if n <= 0 {
        Some(Seq::empty())
    } else {
        with_chunk(collected_from(chunks, n - 1), chunks[n - 1])
    }
}

/// The first `n` chunks in one piece.
pub open spec fn joined(chunks: Seq<Seq<u8>>, n: int) -> Seq<u8>
    decreases n,
{
    if n <= 0 {
        Seq::empty()
    } else {
        joined(chunks, n - 1) + chunks[n - 1]
    }
}

/// A transfer is collected whole if it is small enough, and not at all
/// otherwise, however it was cut into chunks.
pub proof fn lemma_collected_whole_or_not_at_all(chunks: Seq<Seq<u8>>, n: int)
    requires
        0 <= n <= chunks.len(),
    ensures
        collected_from(chunks, n) == (if joined(chunks, n).len() <= MAX_CACHED_BYTES {
            Some(joined(chunks, n))
        } else {
            None
        }),
    decreases n,
{
    if n > 0 {
        lemma_collected_whole_or_not_at_all(chunks, n - 1);
    }
}

/// The cache after a transfer has ended: what was collected is stored, if that
/// is anything.
pub open spec fn after_transfer(
    entries: Seq<(Seq<char>, Seq<u8>)>,
    mime_type: Seq<char>,
    collected: Option<Seq<u8>>,
) -> Seq<(Seq<char>, Seq<u8>)> {
    match collected {
        Some(bytes) if bytes.len() > 0 => stored(entries, mime_type, bytes),
        _ => entries,
    }
}

impl View for TeeCollector {
    type V = Option<Seq<u8>>;

    closed spec fn view(&self) -> Option<Seq<u8>> {
        match self.collected {
            Some(bytes) => Some(bytes@),
            None => None,
        }
    }
}

impl TeeCollector {
    /// A collector at the start of a transfer.
    pub fn new() -> (r: TeeCollector)
        ensures
            r@ == Some(Seq::<u8>::empty()),
    {
        TeeCollector { collected: Some(Vec::new()) }
    }

    /// Takes note of a chunk.  Once the transfer is too large to keep, nothing
    /// of it is.
    pub fn push(&mut self, chunk: &[u8])
        ensures
            final(self)@ == with_chunk(old(self)@, chunk@),
    {
        let mut collected: Option<Vec<u8>> = None;
        std::mem::swap(&mut collected, &mut self.collected);
        if let Some(mut so_far) = collected {
            if chunk.len() <= MAX_CACHED_BYTES && so_far.len() <= MAX_CACHED_BYTES - chunk.len() {
                so_far.extend_from_slice(chunk);
                self.collected = Some(so_far);
            }
        }
    }

    /// Ends the transfer: stores what was collected, if that is anything.
    pub fn finish(self, mime_type: String, cache: &mut ClipboardCache)
        requires
            cache_wf(old(cache)@),
            fits_argument(mime_type@),
        ensures
            final(cache)@ == after_transfer(old(cache)@, mime_type@, self@),
            cache_wf(final(cache)@),
    {
        if let Some(bytes) = self.collected {
            if bytes.len() > 0 {
                cache.store(mime_type, bytes);
            }
        }
    }
}

/// Where a connection stands in offering cached content again.
#[derive(Debug, Clone, Copy)]
pub struct ReclaimState {
    /// Whether the next real input serial is to be spent on it: one attempt
    /// per reconnect.
    pub pending: bool,
    /// Name and version of the `wl_data_device_manager` global.
    pub data_device_manager_global: Option<(u32, u32)>,
    /// The host id of the proxy's own data source, once it was offered.
    pub active_source_host_id: Option<u32>,
}

impl ReclaimState {
    /// Nothing to offer yet.
    pub open spec fn idle() -> ReclaimState {
        ReclaimState {
            pending: false,
            data_device_manager_global: None,
            active_source_host_id: None,
        }
    }
}

impl Default for ReclaimState {
    fn default() -> (r: ReclaimState)
        ensures
            r == ReclaimState::idle(),
    {
        ReclaimState {
            pending: false,
            data_device_manager_global: None,
            active_source_host_id: None,
        }
    }
}

/// The messages that offer the cached types again, to be sent in order until
/// one fails.
pub struct SplicePlan {
    pub messages: Vec<Vec<u8>>,
    /// The host id of the proxy's own data source.
    pub source_host_id: u32,
}

/// What a [`SplicePlan`] says.
#[verifier::ext_equal]
pub struct SpliceModel {
    pub messages: Seq<Seq<u8>>,
    pub source_host_id: u32,
}

/// The bytes of a list of messages.
pub open spec fn message_list(messages: Seq<Vec<u8>>) -> Seq<Seq<u8>> {
    messages.map_values(|m: Vec<u8>| m@)
}

impl View for SplicePlan {
    type V = SpliceModel;

    open spec fn view(&self) -> SpliceModel {
        SpliceModel {
            messages: message_list(self.messages@),
            source_host_id: self.source_host_id,
        }
    }
}

/// One `wl_data_source.offer` per type.
pub open spec fn offers(source: u32, mimes: Seq<Seq<char>>) -> Seq<Seq<u8>> {
    mimes.map_values(|m: Seq<char>| wire::message_bytes(source, 0, wire::str_bytes(m)))
}

/// The messages that make the proxy the owner of the selection: bind the data
/// device manager, make a source, offer every type, make a device for the
/// seat, and set the selection with the borrowed serial.  The three objects
/// get the host ids `first` and the two behind it.
pub open spec fn splice_messages(
    global: (u32, u32),
    registry_host: u32,
    seat_host: u32,
    first: u32,
    mimes: Seq<Seq<char>>,
    serial: u32,
) -> Seq<Seq<u8>> {
    let manager = first;
    let source = (first + 1) as u32;
    let device = (first + 2) as u32;
    seq![
        wire::message_bytes(
            registry_host,
            0,
            wire::word_bytes(global.0) + wire::str_bytes("wl_data_device_manager"@)
                + wire::word_bytes(global.1) + wire::word_bytes(manager),
        ),
        wire::message_bytes(manager, 0, wire::word_bytes(source)),
    ] + offers(source, mimes) + seq![
        wire::message_bytes(manager, 1, wire::word_bytes(device) + wire::word_bytes(seat_host)),
        wire::message_bytes(device, 1, wire::word_bytes(source) + wire::word_bytes(serial)),
    ]
}

/// Which messages offer the cached content again, if it can be done: something
/// is cached, the compositor has a data device manager, and the registry and a
/// seat translate.
pub open spec fn splice_plan(
    objects: TableModel,
    global: Option<(u32, u32)>,
    mimes: Seq<Seq<char>>,
    serial: u32,
) -> Option<SpliceModel> {
    match (global, objects.first_named("wl_registry"@), objects.first_named("wl_seat"@)) {
        (Some(global), Some(registry), Some(seat)) if mimes.len() > 0 => match (
            objects.host_id(registry),
            objects.host_id(seat),
        ) {
            (Some(registry_host), Some(seat_host)) => Some(
                SpliceModel {
                    messages: splice_messages(
                        global,
                        registry_host,
                        seat_host,
                        objects.next_host_id,
                        mimes,
                        serial,
                    ),
                    source_host_id: (objects.next_host_id + 1) as u32,
                },
            ),
            _ => None,
        },
        _ => None,
    }
}

/// The table after a splice was planned: three host ids are spent, and the
/// objects behind them stay unmapped.
pub open spec fn spliced(objects: TableModel, plan: Option<SpliceModel>) -> TableModel {
    if plan is Some {
        objects.allocate_host_ids(3)
    } else {
        objects
    }
}

/// The cached types fit a string argument.
proof fn lemma_mimes_fit(entries: Seq<(Seq<char>, Seq<u8>)>, mimes: Seq<String>)
    requires
        cache_wf(entries),
        text::texts(mimes) == mime_types(entries),
    ensures
        forall|i: int| 0 <= i < mimes.len() ==> fits_argument((#[trigger] mimes[i])@),
{
    assert(text::texts(mimes).len() == mimes.len());
    assert(mime_types(entries).len() == entries.len());
    assert forall|i: int| 0 <= i < mimes.len() implies fits_argument((#[trigger] mimes[i])@) by {
        assert(text::texts(mimes)[i] == mime_types(entries)[i]);
        assert(fits_argument(entries[i].0));
    }
}

/// Appends one `wl_data_source.offer` per type.
fn put_offers(messages: &mut Vec<Vec<u8>>, source: u32, mimes: &Vec<String>)
    requires
        forall|i: int| 0 <= i < mimes@.len() ==> fits_argument((#[trigger] mimes@[i])@),
    ensures
        message_list(final(messages)@) == message_list(old(messages)@) + offers(
            source,
            text::texts(mimes@),
        ),
{
    let ghost head = message_list(messages@);
    let ghost models = text::texts(mimes@);
    let mut i: usize = 0;
    assert(head =~= head + offers(source, models.take(0)));
    while i < mimes.len()
        invariant
            i <= mimes@.len(),
            models == text::texts(mimes@),
            forall|j: int| 0 <= j < mimes@.len() ==> fits_argument((#[trigger] mimes@[j])@),
            message_list(messages@) == head + offers(source, models.take(i as int)),
        decreases mimes.len() - i,
    {
        let ghost before = message_list(messages@);
        let ghost message = wire::message_bytes(source, 0, wire::str_bytes(models[i as int]));
        assert(fits_argument(mimes@[i as int]@));
        let mut offer: Vec<u8> = Vec::new();
        put_str(&mut offer, mimes[i].as_str());
        assert(offer@ =~= wire::str_bytes(models[i as int]));
        messages.push(build_message(source, 0, offer.as_slice()));
        assert(message_list(messages@) =~= before.push(message));
        assert(models.take(i + 1) =~= models.take(i as int).push(models[i as int]));
        assert(offers(source, models.take(i + 1)) =~= offers(source, models.take(i as int)).push(
            message,
        ));
        i += 1;
        assert(message_list(messages@) =~= head + offers(source, models.take(i as int)));
    }
    assert(models.take(mimes@.len() as int) =~= models);
}

/// A message with two words as its payload.
fn two_words(sender_id: u32, opcode: u16, a: u32, b: u32) -> (r: Vec<u8>)
    ensures
        r@ == wire::message_bytes(sender_id, opcode, wire::word_bytes(a) + wire::word_bytes(b)),
{
    let mut payload: Vec<u8> = Vec::new();
    put_u32(&mut payload, a);
    put_u32(&mut payload, b);
    assert(payload@ =~= wire::word_bytes(a) + wire::word_bytes(b));
    build_message(sender_id, opcode, payload.as_slice())
}

/// Builds the messages of [`splice_messages`].
fn build_splice(
    global: (u32, u32),
    registry_host: u32,
    seat_host: u32,
    first: u32,
    mimes: &Vec<String>,
    serial: u32,
) -> (r: Vec<Vec<u8>>)
    requires
        first <= u32::MAX - 2,
        forall|i: int| 0 <= i < mimes@.len() ==> fits_argument((#[trigger] mimes@[i])@),
    ensures
        message_list(r@) == splice_messages(
            global,
            registry_host,
            seat_host,
            first,
            text::texts(mimes@),
            serial,
        ),
{
    let source: u32 = first + 1;
    let device: u32 = first + 2;
    let mut messages: Vec<Vec<u8>> = Vec::new();
    let mut bind: Vec<u8> = Vec::new();
    put_u32(&mut bind, global.0);
    proof {
        lemma_manager_name_fits();
    }
    put_str(&mut bind, "wl_data_device_manager");
    put_u32(&mut bind, global.1);
    put_u32(&mut bind, first);
    assert(bind@ =~= wire::word_bytes(global.0) + wire::str_bytes("wl_data_device_manager"@)
        + wire::word_bytes(global.1) + wire::word_bytes(first));
    messages.push(build_message(registry_host, 0, bind.as_slice()));
    let mut create_source: Vec<u8> = Vec::new();
    put_u32(&mut create_source, source);
    assert(create_source@ =~= wire::word_bytes(source));
    messages.push(build_message(first, 0, create_source.as_slice()));
    let ghost a = wire::message_bytes(registry_host, 0, bind@);
    let ghost b = wire::message_bytes(first, 0, wire::word_bytes(source));
    assert(message_list(messages@) =~= seq![a, b]);
    put_offers(&mut messages, source, mimes);
    let ghost offered = seq![a, b] + offers(source, text::texts(mimes@));
    assert(message_list(messages@) == offered);
    messages.push(two_words(first, 1, device, seat_host));
    let ghost c = messages@.last()@;
    assert(message_list(messages@) =~= offered.push(c));
    messages.push(two_words(device, 1, source, serial));
    let ghost d = messages@.last()@;
    assert(message_list(messages@) =~= offered.push(c).push(d));
    assert(offered.push(c).push(d) =~= offered + seq![c, d]);
    messages
}

/// Plans to offer the cached content again with a borrowed input serial.
/// Whatever comes of it, there is no second attempt on this connection.
pub fn attempt_clipboard_splice(
    objects: &mut ShadowTable,
    reclaim: &mut ReclaimState,
    cache: &ClipboardCache,
    serial: u32,
) -> (r: Option<SplicePlan>)
    requires
        old(objects)@.wf(),
        old(objects)@.next_host_id <= u32::MAX - 3,
        cache_wf(cache@),
    ensures
        ({
            let plan = splice_plan(
                old(objects)@,
                old(reclaim).data_device_manager_global,
                mime_types(cache@),
                serial,
            );
            &&& match r {
                Some(p) => plan == Some(p@),
                None => plan is None,
            }
            &&& final(objects)@ == spliced(old(objects)@, plan)
        }),
        final(objects)@.wf(),
        *final(reclaim) == (ReclaimState { pending: false, ..*old(reclaim) }),
{
    reclaim.pending = false;
    let mimes = cache.cached_mime_types();
    assert(mimes@.len() == text::texts(mimes@).len());
    if mimes.len() == 0 {
        return None;
    }
    let (ddm_name, ddm_version): (u32, u32) = match reclaim.data_device_manager_global {
        Some(global) => global,
        None => return None,
    };
    let (registry, seat): (u32, u32) = match (
        objects.find_guest_id_by_interface_name("wl_registry"),
        objects.find_guest_id_by_interface_name("wl_seat"),
    ) {
        (Some(registry), Some(seat)) => (registry, seat),
        _ => return None,
    };
    let (registry_host, seat_host): (u32, u32) = match (
        objects.host_id(registry),
        objects.host_id(seat),
    ) {
        (Some(registry_host), Some(seat_host)) => (registry_host, seat_host),
        _ => return None,
    };
    let manager: u32 = objects.allocate_host_id();
    let source: u32 = objects.allocate_host_id();
    let _device: u32 = objects.allocate_host_id();
    assert(objects@ =~= old(objects)@.allocate_host_ids(3));
    proof {
        lemma_mimes_fit(cache@, mimes@);
    }
    let messages = build_splice(
        (ddm_name, ddm_version),
        registry_host,
        seat_host,
        manager,
        &mimes,
        serial,
    );
    Some(SplicePlan { messages, source_host_id: source })
}

/// The name of the data device manager fits a string argument.
proof fn lemma_manager_name_fits()
    ensures
        fits_argument("wl_data_device_manager"@),
{
    reveal_strlit("wl_data_device_manager");
    is_ascii_chars_encode_utf8("wl_data_device_manager"@);
}

/// Where reclaiming stands once a source of the proxy's own was offered.
pub open spec fn with_source(reclaim: ReclaimState, source_host_id: u32) -> ReclaimState {
    ReclaimState { active_source_host_id: Some(source_host_id), ..reclaim }
}

/// Every message of a plan was sent: events of the proxy's own data source are
/// expected from now on.
pub fn splice_sent(reclaim: &mut ReclaimState, source_host_id: u32)
    ensures
        *final(reclaim) == with_source(*old(reclaim), source_host_id),
{
    reclaim.active_source_host_id = Some(source_host_id);
}

/// Cached content to be written into a pipe the compositor handed over.
pub struct ClipboardReply<F> {
    pub fd: Arc<F>,
    pub mime_type: String,
    pub bytes: Vec<u8>,
}

/// What a [`ClipboardReply`] says.
#[verifier::ext_equal]
pub struct ReplyModel<F> {
    pub fd: Arc<F>,
    pub mime_type: Seq<char>,
    pub bytes: Seq<u8>,
}

impl<F> View for ClipboardReply<F> {
    type V = ReplyModel<F>;

    open spec fn view(&self) -> ReplyModel<F> {
        ReplyModel { fd: self.fd, mime_type: self.mime_type@, bytes: self.bytes@ }
    }
}

/// The answer to an event of the proxy's own data source: a `send` (opcode 1)
/// that names a cached type and brings a pipe is answered with the content.
pub open spec fn clipboard_reply<F>(
    fds: Seq<Arc<F>>,
    msg: Seq<u8>,
    opcode: u16,
    entries: Seq<(Seq<char>, Seq<u8>)>,
) -> Option<ReplyModel<F>> {
    match wire::str_opt(msg.skip(HEADER_LEN as int), 0) {
        Some((mime_type, _)) if opcode == 1 && fds.len() > 0 => match cached(entries, mime_type) {
            Some(bytes) => Some(ReplyModel { fd: fds[0], mime_type, bytes }),
            None => None,
        },
        _ => None,
    }
}

/// The descriptors left after such an event: a `send` takes one.
pub open spec fn fds_after_clipboard_event<F>(fds: Seq<Arc<F>>, opcode: u16) -> Seq<Arc<F>> {
    if opcode == 1 && fds.len() > 0 {
        fds.skip(1)
    } else {
        fds
    }
}

/// Where reclaiming stands after such an event: `cancelled` (opcode 2) ends it.
pub open spec fn reclaim_after_clipboard_event(reclaim: ReclaimState, opcode: u16) -> ReclaimState {
    if opcode == 2 {
        ReclaimState { active_source_host_id: None, ..reclaim }
    } else {
        reclaim
    }
}

/// Handles an event addressed to the proxy's own data source.
pub fn handle_synthetic_clipboard_event<F>(
    fds: &mut VecDeque<Arc<F>>,
    msg: &[u8],
    opcode: u16,
    cache: &ClipboardCache,
    reclaim: &mut ReclaimState,
) -> (r: Option<ClipboardReply<F>>)
    requires
        msg@.len() >= HEADER_LEN,
    ensures
        match r {
            Some(reply) => clipboard_reply(old(fds)@, msg@, opcode, cache@) == Some(reply@),
            None => clipboard_reply(old(fds)@, msg@, opcode, cache@) is None,
        },
        final(fds)@ == fds_after_clipboard_event(old(fds)@, opcode),
        *final(reclaim) == reclaim_after_clipboard_event(*old(reclaim), opcode),
{
    if opcode == 1 {
        let payload = slice_subrange(msg, HEADER_LEN, msg.len());
        assert(payload@ =~= msg@.skip(HEADER_LEN as int));
        let named = read_str(payload, 0);
        let fd = match fds.pop_front() {
            Some(fd) => fd,
            None => return None,
        };
        assert(fds@ =~= old(fds)@.skip(1));
        let mime_type = match named {
            Some((mime_type, _)) => mime_type,
            None => return None,
        };
        match cache.get(mime_type.as_str()) {
            Some(bytes) => Some(ClipboardReply { fd, mime_type, bytes }),
            None => None,
        }
    } else {
        if opcode == 2 {
            reclaim.active_source_host_id = None;
        }
        None
    }
}

} // verus!
