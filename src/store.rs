//! The storage root: every bin with its descriptor and its captured
//! requests, and the retention sweep over them.
use vstd::prelude::*;
use crate::headers::{flatten_headers, flattened};
use crate::model::{
    bin_url, body_of, creation_body, creation_config, entry_body,
    fallback_body, fallback_config, reply_for, time_text, time_text_of, url_of, LogEntry, ResponseConfig,
};

verus! {

/// One bin: its identifier, when it was made, its descriptor and when that
/// was last written, and its captured requests in order of arrival.
pub struct Bin {
    pub id: String,
    pub created_ms: i64,
    pub config: Option<ResponseConfig>,
    pub config_ms: i64,
    pub entries: Vec<LogEntry>,
}

/// A bin as plain values.
pub struct BinView {
    pub created: int,
    pub config: Option<(u16, Seq<char>)>,
    pub config_ms: int,
    pub entries: Seq<LogEntry>,
}

/// What is shown of a bin in a listing: identifier, path and the time it
/// was made (or "unknown").
pub struct BinInfo {
    pub id: String,
    pub url: String,
    pub created: String,
}

/// What is shown of one bin: identifier, path, descriptor and the newest
/// entries, newest first.
pub struct BinDetail {
    pub id: String,
    pub url: String,
    pub response: ResponseConfig,
    pub recent_logs: Vec<LogEntry>,
}

/// The number of entries that a bin's detail shows.
pub const DETAIL_LOGS: usize = 10;

/// The one way an operation on a bin fails: the bin does not exist.
pub enum BinError {
    NotFound,
}

/// A reply carries the bin's descriptor as stored; where the bin has none,
/// the fallback descriptor.
pub open spec fn reply_matches(config: Option<(u16, Seq<char>)>, status: u16, body: Seq<char>) -> bool {
    match config {
        Some(c) => status == c.0 && body == c.1,
        None => status == 200 && body == fallback_body(),
    }
}

/// All bins, at most one per identifier.
pub struct BinStore {
    bins: Vec<Bin>,
}

impl Bin {
    pub open spec fn view(&self) -> BinView {
        BinView {
            created: self.created_ms as int,
            config: match self.config {
                Some(c) => Some(c@),
                None => None,
            },
            config_ms: self.config_ms as int,
            entries: self.entries@,
        }
    }
}

/// Some bin of the sequence has this identifier.
pub open spec fn holds_id(s: Seq<Bin>, id: Seq<char>) -> bool {
    exists|i: int| 0 <= i < s.len() && #[trigger] s[i].id@ == id
}

/// No two bins share an identifier.
pub open spec fn ids_distinct(s: Seq<Bin>) -> bool {
    forall|i: int, j: int|
        0 <= i < s.len() && 0 <= j < s.len() && i != j ==> #[trigger] s[i].id@ != #[trigger] s[j].id@
}

/// The bins keyed by identifier.
pub open spec fn bins_map(s: Seq<Bin>) -> Map<Seq<char>, BinView> {
    Map::new(
        |id: Seq<char>| holds_id(s, id),
        |id: Seq<char>| s[choose|i: int| 0 <= i < s.len() && #[trigger] s[i].id@ == id]@,
    )
}

/// An entry is past retention when it is older than the threshold.
pub open spec fn expired(now: int, stamp: int, threshold: int) -> bool {
    now - stamp > threshold
}

/// The entries that a sweep keeps, in their order.
pub open spec fn fresh_entries(s: Seq<LogEntry>, now: int, threshold: int) -> Seq<LogEntry>
    decreases s.len(),
{
    if s.len() == 0 {
        s
    } else {
        let kept = fresh_entries(s.drop_last(), now, threshold);
        if expired(now, s.last().millis as int, threshold) {
            kept
        } else {
            kept.push(s.last())
        }
    }
}

/// What a sweep leaves of one bin, before empty bins are pruned.
pub open spec fn swept_bin(b: BinView, now: int, threshold: int) -> BinView {
    BinView {
        created: b.created,
        config: if expired(now, b.config_ms, threshold) {
            None
        } else {
            b.config
        },
        config_ms: b.config_ms,
        entries: fresh_entries(b.entries, now, threshold),
    }
}

/// A bin is pruned when nothing is left in it.
pub open spec fn is_empty_bin(b: BinView) -> bool {
    b.config is None && b.entries.len() == 0
}

/// The store after one sweep: aged entries and descriptors gone, then every
/// bin left empty gone.
pub open spec fn swept(m: Map<Seq<char>, BinView>, now: int, threshold: int) -> Map<
    Seq<char>,
    BinView,
> {
    Map::new(
        |id: Seq<char>| m.contains_key(id) && !is_empty_bin(swept_bin(m[id], now, threshold)),
        |id: Seq<char>| swept_bin(m[id], now, threshold),
    )
}

/// The entry that a capture records at a time, from a method, the headers
/// and the raw body.
pub open spec fn recorded_as(
    e: LogEntry,
    now: int,
    method: Seq<char>,
    headers: Seq<(String, String)>,
    raw: Seq<char>,
) -> bool {
    &&& e.millis == now
    &&& time_text_of(now, e.timestamp@)
    &&& e.method@ == method
    &&& flattened(headers, headers.len() as int, e.headers@)
    &&& e.body@ == body_of(raw)
}

/// Some item of a listing names this bin.
pub open spec fn has_info(r: Seq<BinInfo>, id: Seq<char>) -> bool {
    exists|k: int| 0 <= k < r.len() && #[trigger] r[k].id@ == id
}

/// The text shown for when a bin was made.
pub open spec fn created_text(created: int, text: Seq<char>) -> bool {
    time_text_of(created, text)
}

/// A listing names every bin of the store, only those, each once, with its
/// path and the time it was made.
pub open spec fn listed(m: Map<Seq<char>, BinView>, r: Seq<BinInfo>) -> bool {
    &&& forall|i: int, j: int|
        0 <= i < r.len() && 0 <= j < r.len() && i != j ==> #[trigger] r[i].id@ != #[trigger] r[j].id@
    &&& forall|id: Seq<char>| m.contains_key(id) <==> has_info(r, id)
    &&& forall|k: int| 0 <= k < r.len() ==> #[trigger] m.contains_key(r[k].id@)
        && r[k].url@ == url_of(r[k].id@) && created_text(m[r[k].id@].created, r[k].created@)
}

/// One capture on a bin as the store sees it: where it found the bin, one
/// entry more in that bin and nothing else changed; where it did not,
/// nothing changed.
pub open spec fn capture_step(
    before: Map<Seq<char>, BinView>,
    after: Map<Seq<char>, BinView>,
    id: Seq<char>,
    found: bool,
) -> bool {
    &&& found == before.contains_key(id)
    &&& found ==> after == before.insert(id, after[id]) && after[id].entries.len()
        == before[id].entries.len() + 1
    &&& !found ==> after == before
}

/// The `n` entries that arrived last, the latest first.
pub open spec fn newest(s: Seq<LogEntry>, n: int) -> Seq<LogEntry> {
    let k = if n < s.len() {
        n
    } else {
        s.len() as int
    };
    Seq::new(k as nat, |i: int| s[s.len() - 1 - i])
}

proof fn lemma_bins_map_at(s: Seq<Bin>, i: int)
    requires
        ids_distinct(s),
        0 <= i < s.len(),
    ensures
        bins_map(s).contains_key(s[i].id@),
        bins_map(s)[s[i].id@] == s[i]@,
{
    assert(holds_id(s, s[i].id@));
}

proof fn lemma_bins_map_push(s: Seq<Bin>, b: Bin)
    requires
        ids_distinct(s),
        !holds_id(s, b.id@),
    ensures
        ids_distinct(s.push(b)),
        bins_map(s.push(b)) == bins_map(s).insert(b.id@, b@),
{
    let t = s.push(b);
    assert forall|i: int, j: int|
        0 <= i < t.len() && 0 <= j < t.len() && i != j implies #[trigger] t[i].id@
        != #[trigger] t[j].id@ by {
        if i < s.len() && j < s.len() {
            assert(t[i] == s[i] && t[j] == s[j]);
        } else if i < s.len() {
            assert(t[i] == s[i]);
        } else {
            assert(t[j] == s[j]);
        }
    }
    assert forall|id: Seq<char>| holds_id(t, id) <==> (holds_id(s, id) || id == b.id@) by {
        if holds_id(s, id) {
            let w = choose|w: int| 0 <= w < s.len() && #[trigger] s[w].id@ == id;
            assert(t[w] == s[w]);
        }
        if id == b.id@ {
            assert(t[s.len() as int] == b);
        }
        if holds_id(t, id) && id != b.id@ {
            let w = choose|w: int| 0 <= w < t.len() && #[trigger] t[w].id@ == id;
            assert(w < s.len());
            assert(t[w] == s[w]);
        }
    }
    assert forall|id: Seq<char>| #[trigger] bins_map(t).contains_key(id) implies bins_map(t)[id]
        == bins_map(s).insert(b.id@, b@)[id] by {
        let w = choose|w: int| 0 <= w < t.len() && #[trigger] t[w].id@ == id;
        lemma_bins_map_at(t, w);
        if w < s.len() {
            assert(t[w] == s[w]);
            lemma_bins_map_at(s, w);
        }
    }
    assert(bins_map(t) =~= bins_map(s).insert(b.id@, b@));
}

proof fn lemma_bins_map_update(s: Seq<Bin>, i: int, b: Bin)
    requires
        ids_distinct(s),
        0 <= i < s.len(),
        b.id@ == s[i].id@,
    ensures
        ids_distinct(s.update(i, b)),
        bins_map(s.update(i, b)) == bins_map(s).insert(b.id@, b@),
{
    let t = s.update(i, b);
    assert forall|x: int, y: int|
        0 <= x < t.len() && 0 <= y < t.len() && x != y implies #[trigger] t[x].id@
        != #[trigger] t[y].id@ by {
        assert(t[x].id@ == s[x].id@ && t[y].id@ == s[y].id@);
    }
    assert forall|id: Seq<char>| holds_id(t, id) <==> holds_id(s, id) by {
        if holds_id(s, id) {
            let w = choose|w: int| 0 <= w < s.len() && #[trigger] s[w].id@ == id;
            assert(t[w].id@ == s[w].id@);
        }
        if holds_id(t, id) {
            let w = choose|w: int| 0 <= w < t.len() && #[trigger] t[w].id@ == id;
            assert(t[w].id@ == s[w].id@);
        }
    }
    lemma_bins_map_at(s, i);
    assert forall|id: Seq<char>| #[trigger] bins_map(t).contains_key(id) implies bins_map(t)[id]
        == bins_map(s).insert(b.id@, b@)[id] by {
        let w = choose|w: int| 0 <= w < t.len() && #[trigger] t[w].id@ == id;
        lemma_bins_map_at(t, w);
        if w != i {
            lemma_bins_map_at(s, w);
        }
    }
    assert(bins_map(t) =~= bins_map(s).insert(b.id@, b@));
}

proof fn lemma_swept_insert(m: Map<Seq<char>, BinView>, id: Seq<char>, v: BinView, now: int, th: int)
    requires
        !m.contains_key(id),
    ensures
        is_empty_bin(swept_bin(v, now, th)) ==> swept(m.insert(id, v), now, th) == swept(m, now, th),
        !is_empty_bin(swept_bin(v, now, th)) ==> swept(m.insert(id, v), now, th) == swept(m, now, th).insert(
            id,
            swept_bin(v, now, th),
        ),
{
    if is_empty_bin(swept_bin(v, now, th)) {
        assert(swept(m.insert(id, v), now, th) =~= swept(m, now, th));
    } else {
        assert(swept(m.insert(id, v), now, th) =~= swept(m, now, th).insert(id, swept_bin(v, now, th)));
    }
}

/// The entries that a sweep keeps.
fn sweep_entries(entries: Vec<LogEntry>, now_ms: i64, threshold_ms: u64) -> (r: Vec<LogEntry>)
    ensures
        r@ == fresh_entries(entries@, now_ms as int, threshold_ms as int),
{
    let ghost orig = entries@;
    let n = entries.len();
    let mut rest = entries;
    let mut kept: Vec<LogEntry> = Vec::new();
    let mut k: usize = 0;
    while rest.len() > 0
        invariant
            0 <= k <= orig.len(),
            orig.len() == n,
            rest@ == orig.subrange(k as int, orig.len() as int),
            kept@ == fresh_entries(orig.take(k as int), now_ms as int, threshold_ms as int),
        decreases rest@.len(),
    {
        let e = rest.remove(0);
        proof {
            assert(orig.take(k + 1).drop_last() =~= orig.take(k as int));
            assert(orig.take(k + 1).last() == e);
            assert(rest@ =~= orig.subrange(k + 1, orig.len() as int));
        }
        if !is_expired(now_ms, e.millis, threshold_ms) {
            kept.push(e);
        }
        k = k + 1;
    }
    assert(orig.take(k as int) =~= orig);
    kept
}

/// Whether an entry stamped at `stamp` is past retention at `now`.
pub fn is_expired(now_ms: i64, stamp_ms: i64, threshold_ms: u64) -> (r: bool)
    ensures
        r == expired(now_ms as int, stamp_ms as int, threshold_ms as int),
{
    (now_ms as i128) - (stamp_ms as i128) > threshold_ms as i128
}

impl BinStore {
    /// The bins in the order in which they were made.
    pub closed spec fn bins(&self) -> Seq<Bin> {
        self.bins@
    }

    /// The bins keyed by identifier.
    pub open spec fn view(&self) -> Map<Seq<char>, BinView> {
        bins_map(self.bins())
    }

    /// No two bins share an identifier.
    pub open spec fn wf(&self) -> bool {
        ids_distinct(self.bins())
    }

    /// A store with no bins.
    pub fn new() -> (r: BinStore)
        ensures
            r.wf(),
            r@ == Map::<Seq<char>, BinView>::empty(),
    {
        let r = BinStore { bins: Vec::new() };
        assert(r@ =~= Map::<Seq<char>, BinView>::empty());
        r
    }

    /// The position of the bin with this identifier.
    fn find(&self, id: &str) -> (r: Option<usize>)
        requires
            self.wf(),
        ensures
            r matches Some(i) ==> i < self.bins().len() && self.bins()[i as int].id@ == id@
                && self@.contains_key(id@) && self@[id@] == self.bins()[i as int]@,
            r is None ==> !self@.contains_key(id@),
    {
        let key = String::from_str(id);
        let mut i: usize = 0;
        while i < self.bins.len()
            invariant
                ids_distinct(self.bins@),
                key@ == id@,
                0 <= i <= self.bins@.len(),
                forall|k: int| 0 <= k < i ==> #[trigger] self.bins@[k].id@ != id@,
            decreases self.bins@.len() - i,
        {
            if self.bins[i].id == key {
                proof {
                    lemma_bins_map_at(self.bins@, i as int);
                }
                return Some(i);
            }
            i = i + 1;
        }
        None
    }

    /// Whether a bin with this identifier exists.
    pub fn has_bin(&self, id: &str) -> (r: bool)
        requires
            self.wf(),
        ensures
            r == self@.contains_key(id@),
    {
        self.find(id).is_some()
    }

    /// Makes a bin under a given identifier at a given time, with the
    /// descriptor that names it and no entries. Fails, changing nothing,
    /// where the identifier is taken.
    pub fn create_with_id(&mut self, id: String, now_ms: i64) -> (r: bool)
        requires
            old(self).wf(),
        ensures
            final(self).wf(),
            r == !old(self)@.contains_key(id@),
            r ==> final(self)@ == old(self)@.insert(
                id@,
                BinView {
                    created: now_ms as int,
                    config: Some((200u16, creation_body(id@))),
                    config_ms: now_ms as int,
                    entries: Seq::empty(),
                },
            ),
            !r ==> final(self)@ == old(self)@,
    {
        if self.find(id.as_str()).is_some() {
            return false;
        }
        let config = creation_config(id.as_str());
        let b = Bin { id, created_ms: now_ms, config: Some(config), config_ms: now_ms, entries: Vec::new() };
        proof {
            lemma_bins_map_push(self.bins@, b);
        }
        self.bins.push(b);
        true
    }

    /// Enters a bin that has no descriptor, made at a given time, with no
    /// entries: a bin whose descriptor is missing or cannot be read. Its
    /// captures and its detail then use the fallback descriptor. Fails,
    /// changing nothing, where the identifier is taken.
    pub fn restore_bin(&mut self, id: String, created_ms: i64) -> (r: bool)
        requires
            old(self).wf(),
        ensures
            final(self).wf(),
            r == !old(self)@.contains_key(id@),
            r ==> final(self)@ == old(self)@.insert(
                id@,
                BinView {
                    created: created_ms as int,
                    config: None,
                    config_ms: created_ms as int,
                    entries: Seq::empty(),
                },
            ),
            !r ==> final(self)@ == old(self)@,
    {
        if self.find(id.as_str()).is_some() {
            return false;
        }
        let b = Bin { id, created_ms, config: None, config_ms: created_ms, entries: Vec::new() };
        proof {
            lemma_bins_map_push(self.bins@, b);
        }
        self.bins.push(b);
        true
    }

    /// Makes a bin under a fresh random identifier, at the current time, and
    /// returns the identifier. The bin exists, with the descriptor that names
    /// it and no entries, when this returns. Where the identifier drawn is
    /// taken already, nothing changes and none is returned.
    pub fn create(&mut self) -> (r: Option<String>)
        requires
            old(self).wf(),
        ensures
            final(self).wf(),
            r matches Some(id) ==> !old(self)@.contains_key(id@) && final(self)@.contains_key(id@)
                && final(self)@
                == old(self)@.insert(id@, final(self)@[id@]) && final(self)@[id@].config == Some(
                (200u16, creation_body(id@)),
            ) && final(self)@[id@].entries.len() == 0,
            r is None ==> final(self)@ == old(self)@,
            old(self)@ == Map::<Seq<char>, BinView>::empty() ==> r is Some,
    {
        let id = crate::ext::new_bin_id();
        let now = crate::ext::now_millis();
        if self.create_with_id(id.clone(), now) {
            Some(id)
        } else {
            None
        }
    }

    /// Replaces a bin's descriptor, written at a given time. Fails with
    /// `NotFound`, changing nothing, where the bin does not exist.
    pub fn update_at(&mut self, id: &str, status: u16, body: String, now_ms: i64) -> (r: Result<(), BinError>)
        requires
            old(self).wf(),
        ensures
            final(self).wf(),
            r is Ok <==> old(self)@.contains_key(id@),
            r is Ok ==> final(self)@ == old(self)@.insert(
                id@,
                BinView {
                    config: Some((status, body@)),
                    config_ms: now_ms as int,
                    ..old(self)@[id@]
                },
            ),
            r is Err ==> final(self)@ == old(self)@,
    {
        match self.find(id) {
            None => Err(BinError::NotFound),
            Some(i) => {
                let mut b = self.bins.remove(i);
                b.config = Some(ResponseConfig { status, body });
                b.config_ms = now_ms;
                proof {
                    lemma_bins_map_update(old(self).bins@, i as int, b);
                    assert(self.bins@.insert(i as int, b) =~= old(self).bins@.update(i as int, b));
                }
                self.bins.insert(i, b);
                Ok(())
            }
        }
    }

    /// Replaces a bin's descriptor, written now. Fails with `NotFound`,
    /// changing nothing, where the bin does not exist.
    pub fn update(&mut self, id: &str, status: u16, body: String) -> (r: Result<(), BinError>)
        requires
            old(self).wf(),
        ensures
            final(self).wf(),
            r is Ok <==> old(self)@.contains_key(id@),
            r is Ok ==> final(self)@ == old(self)@.insert(id@, final(self)@[id@])
                && final(self)@[id@].config == Some((status, body@))
                && final(self)@[id@].created == old(self)@[id@].created
                && final(self)@[id@].entries == old(self)@[id@].entries,
            r is Err ==> final(self)@ == old(self)@,
    {
        let now = crate::ext::now_millis();
        self.update_at(id, status, body, now)
    }

    /// Records a request to a bin at a given time and returns the reply the
    /// bin's descriptor calls for. Fails with `NotFound`, recording nothing,
    /// where the bin does not exist.
    pub fn capture_at(
        &mut self,
        id: &str,
        method: String,
        headers: &Vec<(String, String)>,
        raw_body: String,
        now_ms: i64,
    ) -> (r: Result<(u16, String), BinError>)
        requires
            old(self).wf(),
        ensures
            final(self).wf(),
            r is Ok <==> old(self)@.contains_key(id@),
            r is Err ==> final(self)@ == old(self)@,
            capture_step(old(self)@, final(self)@, id@, r is Ok),
            r matches Ok(reply) ==> {
                let before = old(self)@[id@];
                let after = final(self)@[id@];
                &&& final(self)@ == old(self)@.insert(id@, after)
                &&& after == BinView { entries: after.entries, ..before }
                &&& after.entries.len() == before.entries.len() + 1
                &&& after.entries.drop_last() == before.entries
                &&& recorded_as(after.entries.last(), now_ms as int, method@, headers@, raw_body@)
                &&& reply_matches(before.config, reply.0, reply.1@)
            },
    {
        match self.find(id) {
            None => Err(BinError::NotFound),
            Some(i) => {
                let timestamp = time_text(now_ms);
                let entry = LogEntry {
                    millis: now_ms,
                    timestamp,
                    method,
                    headers: flatten_headers(headers),
                    body: entry_body(raw_body),
                };
                let mut b = self.bins.remove(i);
                b.entries.push(entry);
                let reply = reply_for(b.config.as_ref());
                proof {
                    lemma_bins_map_update(old(self).bins@, i as int, b);
                    assert(self.bins@.insert(i as int, b) =~= old(self).bins@.update(i as int, b));
                    assert(b.entries@.drop_last() =~= old(self).bins@[i as int].entries@);
                }
                self.bins.insert(i, b);
                Ok(reply)
            }
        }
    }

    /// Records a request to a bin now and returns the reply the bin's
    /// descriptor calls for. Fails with `NotFound`, recording nothing, where
    /// the bin does not exist.
    pub fn capture(
        &mut self,
        id: &str,
        method: String,
        headers: &Vec<(String, String)>,
        raw_body: String,
    ) -> (r: Result<(u16, String), BinError>)
        requires
            old(self).wf(),
        ensures
            final(self).wf(),
            r is Ok <==> old(self)@.contains_key(id@),
            r is Err ==> final(self)@ == old(self)@,
            capture_step(old(self)@, final(self)@, id@, r is Ok),
            r matches Ok(reply) ==> {
                let before = old(self)@[id@];
                let after = final(self)@[id@];
                &&& final(self)@ == old(self)@.insert(id@, after)
                &&& after == BinView { entries: after.entries, ..before }
                &&& after.entries.len() == before.entries.len() + 1
                &&& after.entries.drop_last() == before.entries
                &&& recorded_as(after.entries.last(), after.entries.last().millis as int, method@, headers@, raw_body@)
                &&& reply_matches(before.config, reply.0, reply.1@)
            },
    {
        let now = crate::ext::now_millis();
        self.capture_at(id, method, headers, raw_body, now)
    }

    /// The newest `n` entries of a bin, the latest to arrive first. Fails with `NotFound`
    /// where the bin does not exist; a bin with no entries gives none.
    pub fn recent(&self, id: &str, n: usize) -> (r: Result<Vec<LogEntry>, BinError>)
        requires
            self.wf(),
        ensures
            r is Ok <==> self@.contains_key(id@),
            r matches Ok(v) ==> v@.len() == newest(self@[id@].entries, n as int).len() && forall|j: int|
                0 <= j < v@.len() ==> #[trigger] v@[j]@ == newest(self@[id@].entries, n as int)[j]@,
    {
        match self.find(id) {
            None => Err(BinError::NotFound),
            Some(i) => {
                let entries = &self.bins[i].entries;
                let len = entries.len();
                let k = if n < len {
                    n
                } else {
                    len
                };
                let ghost want = newest(entries@, n as int);
                let mut v: Vec<LogEntry> = Vec::new();
                let mut j: usize = 0;
                while j < k
                    invariant
                        0 <= j <= k,
                        k == want.len(),
                        k <= len,
                        len == entries@.len(),
                        want == newest(entries@, n as int),
                        v@.len() == j,
                        forall|m: int| 0 <= m < j ==> #[trigger] v@[m]@ == want[m]@,
                    decreases k - j,
                {
                    v.push(entries[len - 1 - j].duplicate());
                    j = j + 1;
                }
                Ok(v)
            }
        }
    }

    /// A bin's identifier, path, descriptor (or the fallback one where it
    /// has none) and its newest entries. Fails with `NotFound` where the bin
    /// does not exist.
    pub fn detail(&self, id: &str) -> (r: Result<BinDetail, BinError>)
        requires
            self.wf(),
        ensures
            r is Ok <==> self@.contains_key(id@),
            r matches Ok(d) ==> {
                let b = self@[id@];
                &&& d.id@ == id@
                &&& d.url@ == url_of(id@)
                &&& d.response@ == match b.config {
                    Some(c) => c,
                    None => (200u16, fallback_body()),
                }
                &&& d.recent_logs@.len() == newest(b.entries, DETAIL_LOGS as int).len()
                &&& forall|j: int| 0 <= j < d.recent_logs@.len() ==> #[trigger] d.recent_logs@[j]@
                    == newest(b.entries, DETAIL_LOGS as int)[j]@
            },
    {
        match self.find(id) {
            None => Err(BinError::NotFound),
            Some(i) => {
                let response = match &self.bins[i].config {
                    Some(c) => c.duplicate(),
                    None => fallback_config(),
                };
                match self.recent(id, DETAIL_LOGS) {
                    Ok(recent_logs) => Ok(
                        BinDetail { id: String::from_str(id), url: bin_url(id), response, recent_logs },
                    ),
                    Err(e) => Err(e),
                }
            }
        }
    }

    /// Every bin, once each, with its path and the time it was made, in no
    /// promised order.
    pub fn list(&self) -> (r: Vec<BinInfo>)
        requires
            self.wf(),
        ensures
            listed(self@, r@),
    {
        let mut r: Vec<BinInfo> = Vec::new();
        let mut i: usize = 0;
        while i < self.bins.len()
            invariant
                ids_distinct(self.bins@),
                0 <= i <= self.bins@.len(),
                r@.len() == i,
                forall|k: int| 0 <= k < i ==> #[trigger] r@[k].id@ == self.bins@[k].id@
                    && r@[k].url@ == url_of(r@[k].id@) && created_text(
                    self.bins@[k].created_ms as int,
                    r@[k].created@,
                ),
            decreases self.bins@.len() - i,
        {
            let b = &self.bins[i];
            r.push(BinInfo { id: b.id.clone(), url: bin_url(b.id.as_str()), created: time_text(b.created_ms) });
            i = i + 1;
        }
        let ghost m = self@;
        assert forall|id: Seq<char>| m.contains_key(id) <==> has_info(r@, id) by {
            if m.contains_key(id) {
                let w = choose|w: int| 0 <= w < self.bins@.len() && #[trigger] self.bins@[w].id@ == id;
                assert(r@[w].id@ == id);
            }
            if has_info(r@, id) {
                let w = choose|w: int| 0 <= w < r@.len() && #[trigger] r@[w].id@ == id;
                assert(self.bins@[w].id@ == id);
            }
        }
        assert forall|k: int| 0 <= k < r@.len() implies #[trigger] m.contains_key(r@[k].id@)
            && created_text(m[r@[k].id@].created, r@[k].created@) by {
            lemma_bins_map_at(self.bins@, k);
        }
        r
    }

    /// One retention sweep at a given time: every entry and descriptor older
    /// than the threshold goes, then every bin left with neither goes.
    pub fn sweep_at(&mut self, now_ms: i64, threshold_ms: u64)
        requires
            old(self).wf(),
        ensures
            final(self).wf(),
            final(self)@ == swept(old(self)@, now_ms as int, threshold_ms as int),
    {
        let ghost now = now_ms as int;
        let ghost th = threshold_ms as int;
        let mut rest: Vec<Bin> = Vec::new();
        std::mem::swap(&mut self.bins, &mut rest);
        let ghost orig = rest@;
        let n = rest.len();
        let mut k: usize = 0;
        assert(bins_map(orig.take(0)) =~= Map::<Seq<char>, BinView>::empty());
        assert(self.bins@ =~= Seq::<Bin>::empty());
        assert(bins_map(self.bins@) =~= swept(bins_map(orig.take(0)), now, th));
        while rest.len() > 0
            invariant
                ids_distinct(orig),
                now == now_ms as int,
                th == threshold_ms as int,
                0 <= k <= orig.len(),
                orig.len() == n,
                rest@ == orig.subrange(k as int, orig.len() as int),
                ids_distinct(self.bins@),
                forall|id: Seq<char>| holds_id(self.bins@, id) ==> holds_id(orig.take(k as int), id),
                bins_map(self.bins@) == swept(bins_map(orig.take(k as int)), now, th),
            decreases rest@.len(),
        {
            let b = rest.remove(0);
            let ghost pre = orig.take(k as int);
            proof {
                assert(orig.take(k + 1) =~= pre.push(b));
                assert(rest@ =~= orig.subrange(k + 1, orig.len() as int));
                assert(ids_distinct(pre));
                if holds_id(pre, b.id@) {
                    let w = choose|w: int| 0 <= w < pre.len() && #[trigger] pre[w].id@ == b.id@;
                    assert(orig[w].id@ == orig[k as int].id@);
                }
                lemma_bins_map_push(pre, b);
                lemma_swept_insert(bins_map(pre), b.id@, b@, now, th);
            }
            let config_kept = !is_expired(now_ms, b.config_ms, threshold_ms);
            let ghost bv = b@;
            let ghost want = swept_bin(bv, now, th);
            let Bin { id, created_ms, config, config_ms, entries } = b;
            assert(entries@ == bv.entries);
            let entries = sweep_entries(entries, now_ms, threshold_ms);
            let config = if config_kept {
                config
            } else {
                None
            };
            assert(want.entries == entries@);
            assert(want.config == match config {
                Some(c) => Some(c@),
                None => None,
            });
            if config.is_some() || entries.len() > 0 {
                let nb = Bin { id, created_ms, config, config_ms, entries };
                proof {
                    assert(nb@ == swept_bin(b@, now, th));
                    if holds_id(self.bins@, nb.id@) {
                        assert(holds_id(pre, nb.id@));
                    }
                    lemma_bins_map_push(self.bins@, nb);
                    assert forall|x: Seq<char>| holds_id(self.bins@.push(nb), x) implies holds_id(
                        orig.take(k + 1),
                        x,
                    ) by {
                        let w = choose|w: int| 0 <= w < self.bins@.len() + 1 && #[trigger] self.bins@.push(nb)[w].id@ == x;
                        if w < self.bins@.len() {
                            assert(self.bins@.push(nb)[w] == self.bins@[w]);
                            assert(holds_id(pre, x));
                            let w2 = choose|w2: int| 0 <= w2 < pre.len() && #[trigger] pre[w2].id@ == x;
                            assert(orig.take(k + 1)[w2] == pre[w2]);
                        } else {
                            assert(orig.take(k + 1)[k as int].id@ == x);
                        }
                    }
                }
                self.bins.push(nb);
            } else {
                proof {
                    assert(is_empty_bin(swept_bin(b@, now, th)));
                    assert forall|x: Seq<char>| holds_id(self.bins@, x) implies holds_id(
                        orig.take(k + 1),
                        x,
                    ) by {
                        let w2 = choose|w2: int| 0 <= w2 < pre.len() && #[trigger] pre[w2].id@ == x;
                        assert(orig.take(k + 1)[w2] == pre[w2]);
                    }
                }
            }
            k = k + 1;
        }
        assert(orig.take(k as int) =~= orig);
    }

    /// One retention sweep now.
    pub fn sweep(&mut self, threshold_ms: u64)
        requires
            old(self).wf(),
        ensures
            final(self).wf(),
            exists|now: i64| final(self)@ == swept(old(self)@, now as int, threshold_ms as int),
    {
        let now = crate::ext::now_millis();
        self.sweep_at(now, threshold_ms);
    }
}

} // verus!
