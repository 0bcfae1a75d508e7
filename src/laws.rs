//! Laws that relate the operations of the store.
use vstd::prelude::*;
use crate::model::LogEntry;
use crate::store::{
    capture_step, expired, fresh_entries, has_info, is_empty_bin, listed, newest, reply_matches, swept,
    swept_bin, BinView,
};

verus! {

/// At most `n` entries are read back from a bin, each of them one of its
/// stored entries: the i-th is the i-th newest.
pub proof fn lemma_recent_bounded(entries: Seq<LogEntry>, n: int)
    requires
        0 <= n,
    ensures
        newest(entries, n).len() <= n,
        newest(entries, n).len() <= entries.len(),
        forall|i: int|
            0 <= i < newest(entries, n).len() ==> 0 <= entries.len() - 1 - i < entries.len()
                && #[trigger] newest(entries, n)[i] == entries[entries.len() - 1 - i],
{
}

/// Two listings of one store name the same bins.
pub proof fn lemma_list_stable(
    m: Map<Seq<char>, BinView>,
    first: Seq<crate::store::BinInfo>,
    second: Seq<crate::store::BinInfo>,
)
    requires
        listed(m, first),
        listed(m, second),
    ensures
        forall|id: Seq<char>| has_info(first, id) <==> has_info(second, id),
{
}

/// After a descriptor is written, a capture on the bin replies with exactly
/// that status and body.
pub proof fn lemma_update_then_capture(
    updated: BinView,
    status: u16,
    body: Seq<char>,
    reply_status: u16,
    reply_body: Seq<char>,
)
    requires
        updated.config == Some((status, body)),
        reply_matches(updated.config, reply_status, reply_body),
    ensures
        reply_status == status,
        reply_body == body,
{
}

/// An entry survives a sweep exactly when it is not past retention.
pub proof fn lemma_fresh_entries_member(s: Seq<LogEntry>, now: int, threshold: int, e: LogEntry)
    ensures
        fresh_entries(s, now, threshold).contains(e) <==> (s.contains(e) && !expired(
            now,
            e.millis as int,
            threshold,
        )),
    decreases s.len(),
{
    if s.len() > 0 {
        let init = s.drop_last();
        lemma_fresh_entries_member(init, now, threshold, e);
        assert(s =~= init.push(s.last()));
        if s.contains(e) && e != s.last() {
            let j = choose|j: int| 0 <= j < s.len() && s[j] == e;
            assert(init[j] == e);
        }
        if init.contains(e) {
            let j = choose|j: int| 0 <= j < init.len() && init[j] == e;
            assert(s[j] == e);
        }
        let kept = fresh_entries(init, now, threshold);
        if !expired(now, s.last().millis as int, threshold) {
            assert(kept.push(s.last())[kept.len() as int] == s.last());
            if kept.contains(e) {
                let j = choose|j: int| 0 <= j < kept.len() && kept[j] == e;
                assert(kept.push(s.last())[j] == e);
            }
            if kept.push(s.last()).contains(e) && e != s.last() {
                let j = choose|j: int| 0 <= j < kept.len() + 1 && kept.push(s.last())[j] == e;
                assert(kept[j] == e);
            }
        }
    }
}

/// One sweep: of two entries of a bin, the one past retention is gone and
/// the other remains, and so do the bin and its descriptor where that is
/// not past retention; a bin whose entries and descriptor are all past
/// retention is gone; any bin left with no entries and no descriptor is
/// gone, and a bin left with an entry is still there.
pub proof fn lemma_sweep_correct(
    m: Map<Seq<char>, BinView>,
    id: Seq<char>,
    older: LogEntry,
    newer: LogEntry,
    now: int,
    threshold: int,
)
    requires
        m.contains_key(id),
        m[id].entries.contains(older),
        m[id].entries.contains(newer),
        expired(now, older.millis as int, threshold),
        !expired(now, newer.millis as int, threshold),
    ensures
        swept(m, now, threshold).contains_key(id),
        !swept(m, now, threshold)[id].entries.contains(older),
        swept(m, now, threshold)[id].entries.contains(newer),
        !expired(now, m[id].config_ms, threshold) ==> swept(m, now, threshold)[id].config
            == m[id].config,
        forall|other: Seq<char>|
            #![trigger swept(m, now, threshold).contains_key(other)]
            m.contains_key(other) && expired(now, m[other].config_ms, threshold) && (forall|e: LogEntry|
                #[trigger] m[other].entries.contains(e) ==> expired(now, e.millis as int, threshold))
                ==> !swept(m, now, threshold).contains_key(other),
        forall|other: Seq<char>|
            #![trigger swept(m, now, threshold).contains_key(other)]
            m.contains_key(other) ==> (swept(m, now, threshold).contains_key(other) <==> !is_empty_bin(
                swept_bin(m[other], now, threshold),
            )),
        forall|other: Seq<char>|
            #![trigger swept(m, now, threshold).contains_key(other)]
            m.contains_key(other) && swept_bin(m[other], now, threshold).entries.len() > 0
                ==> swept(m, now, threshold).contains_key(other),
{
    let entries = m[id].entries;
    lemma_fresh_entries_member(entries, now, threshold, older);
    lemma_fresh_entries_member(entries, now, threshold, newer);
    let kept = fresh_entries(entries, now, threshold);
    let j = choose|j: int| 0 <= j < kept.len() && kept[j] == newer;
    assert(kept.len() > 0);
    assert forall|other: Seq<char>|
        #![trigger swept(m, now, threshold).contains_key(other)]
        m.contains_key(other) && expired(now, m[other].config_ms, threshold) && (forall|e: LogEntry|
            #[trigger] m[other].entries.contains(e) ==> expired(now, e.millis as int, threshold))
            implies !swept(m, now, threshold).contains_key(other) by {
        let left = fresh_entries(m[other].entries, now, threshold);
        if left.len() > 0 {
            lemma_fresh_entries_member(m[other].entries, now, threshold, left[0]);
            assert(left.contains(left[0]));
        }
    }
}

/// How many captures of a run found their bin.
pub open spec fn found_count(found: Seq<bool>) -> int
    decreases found.len(),
{
    if found.len() == 0 {
        0
    } else {
        found_count(found.drop_last()) + if found.last() {
            1int
        } else {
            0int
        }
    }
}

/// Over a run of captures on one bin, each as `BinStore::capture` and
/// `BinStore::capture_at` state it, the bin gains exactly one entry for each
/// capture that found it, and a capture that did not find it adds none.
pub proof fn lemma_captures_counted(
    states: Seq<Map<Seq<char>, BinView>>,
    found: Seq<bool>,
    id: Seq<char>,
)
    requires
        states.len() == found.len() + 1,
        forall|i: int|
            0 <= i < found.len() ==> capture_step(states[i], #[trigger] states[i + 1], id, found[i]),
    ensures
        states.last().contains_key(id) == states[0].contains_key(id),
        states[0].contains_key(id) ==> states.last()[id].entries.len() == states[0][id].entries.len()
            + found_count(found),
        !states[0].contains_key(id) ==> found_count(found) == 0 && states.last() == states[0],
    decreases found.len(),
{
    if found.len() > 0 {
        let k = found.len() - 1;
        let prefix = states.drop_last();
        assert forall|i: int| 0 <= i < found.drop_last().len() implies capture_step(
            prefix[i],
            #[trigger] prefix[i + 1],
            id,
            found.drop_last()[i],
        ) by {
            assert(capture_step(states[i], states[i + 1], id, found[i]));
        }
        lemma_captures_counted(prefix, found.drop_last(), id);
        assert(capture_step(states[k], states[k + 1], id, found[k]));
        assert(prefix.last() == states[k]);
        if states[k].contains_key(id) {
            assert(states[k + 1].contains_key(id));
        }
    }
}

} // verus!
