//! Flattening of request headers: one value per name, the last one seen.
use vstd::prelude::*;

verus! {

/// A header as a pair of name and value texts.
pub open spec fn pair_view(p: (String, String)) -> (Seq<char>, Seq<char>) {
    (p.0@, p.1@)
}

/// No two pairs share a name.
pub open spec fn names_distinct(s: Seq<(String, String)>) -> bool {
    forall|i: int, j: int|
        0 <= i < s.len() && 0 <= j < s.len() && i != j ==> #[trigger] s[i].0@ != #[trigger] s[j].0@
}

/// Some pair among the first `n` has this name.
pub open spec fn has_name(s: Seq<(String, String)>, n: int, name: Seq<char>) -> bool {
    exists|i: int| 0 <= i < n && #[trigger] s[i].0@ == name
}

/// The last pair among the first `n` with this name has this value.
pub open spec fn last_value_is(
    s: Seq<(String, String)>,
    n: int,
    name: Seq<char>,
    value: Seq<char>,
) -> bool {
    exists|i: int|
        0 <= i < n && #[trigger] s[i].0@ == name && s[i].1@ == value && forall|k: int|
            i < k < n ==> #[trigger] s[k].0@ != name
}

/// `r` holds one pair for each name among the first `n` pairs of `s`, with
/// the value of the last pair of that name.
pub open spec fn flattened(s: Seq<(String, String)>, n: int, r: Seq<(String, String)>) -> bool {
    &&& names_distinct(r)
    &&& forall|name: Seq<char>| has_name(s, n, name) <==> has_name(r, r.len() as int, name)
    &&& forall|j: int| 0 <= j < r.len() ==> last_value_is(s, n, #[trigger] r[j].0@, r[j].1@)
}

/// The headers with one value per name: where a name repeats, the last value
/// wins. Names keep the order in which they first appear.
pub fn flatten_headers(pairs: &Vec<(String, String)>) -> (r: Vec<(String, String)>)
    ensures
        flattened(pairs@, pairs@.len() as int, r@),
{
    let mut r: Vec<(String, String)> = Vec::new();
    let mut i: usize = 0;
    while i < pairs.len()
        invariant
            0 <= i <= pairs@.len(),
            flattened(pairs@, i as int, r@),
        decreases pairs@.len() - i,
    {
        let name = pairs[i].0.clone();
        let value = pairs[i].1.clone();
        let mut j: usize = 0;
        let mut found = false;
        while j < r.len() && !found
            invariant
                0 <= i < pairs@.len(),
                name@ == pairs@[i as int].0@,
                value@ == pairs@[i as int].1@,
                flattened(pairs@, i as int, r@),
                0 <= j <= r@.len(),
                found ==> j < r@.len() && r@[j as int].0@ == name@,
                forall|m: int| 0 <= m < j ==> #[trigger] r@[m].0@ != name@,
            decreases r@.len() - j, if found { 0int } else { 1int },
        {
            if r[j].0 == name {
                found = true;
            } else {
                j = j + 1;
            }
        }
        let ghost old_r = r@;
        if found {
            r.set(j, (name, value));
            assert forall|nm: Seq<char>|
                has_name(pairs@, i + 1, nm) <==> has_name(r@, r@.len() as int, nm) by {
                if has_name(pairs@, i + 1, nm) {
                    if nm == name@ {
                        assert(r@[j as int].0@ == nm);
                    } else {
                        let w = choose|w: int| 0 <= w < i + 1 && #[trigger] pairs@[w].0@ == nm;
                        assert(has_name(pairs@, i as int, nm));
                        let w2 = choose|w2: int| 0 <= w2 < old_r.len() && #[trigger] old_r[w2].0@ == nm;
                        assert(r@[w2].0@ == nm);
                    }
                }
                if has_name(r@, r@.len() as int, nm) {
                    let w = choose|w: int| 0 <= w < r@.len() && #[trigger] r@[w].0@ == nm;
                    if w == j {
                        assert(pairs@[i as int].0@ == nm);
                    } else {
                        assert(old_r[w].0@ == nm);
                        assert(has_name(old_r, old_r.len() as int, nm));
                    }
                }
            }
        } else {
            r.push((name, value));
            assert forall|nm: Seq<char>|
                has_name(pairs@, i + 1, nm) <==> has_name(r@, r@.len() as int, nm) by {
                if has_name(pairs@, i + 1, nm) {
                    if nm == name@ {
                        assert(r@[old_r.len() as int].0@ == nm);
                    } else {
                        assert(has_name(pairs@, i as int, nm));
                        let w2 = choose|w2: int| 0 <= w2 < old_r.len() && #[trigger] old_r[w2].0@ == nm;
                        assert(r@[w2].0@ == nm);
                    }
                }
                if has_name(r@, r@.len() as int, nm) {
                    let w = choose|w: int| 0 <= w < r@.len() && #[trigger] r@[w].0@ == nm;
                    if w == old_r.len() {
                        assert(pairs@[i as int].0@ == nm);
                    } else {
                        assert(old_r[w].0@ == nm);
                        assert(has_name(old_r, old_r.len() as int, nm));
                    }
                }
            }
        }
        assert forall|m: int| 0 <= m < r@.len() implies last_value_is(
            pairs@,
            i + 1,
            #[trigger] r@[m].0@,
            r@[m].1@,
        ) by {
            if r@[m].0@ == name@ {
                assert(pairs@[i as int].0@ == r@[m].0@);
            } else {
                assert(old_r[m] == r@[m]);
                assert(last_value_is(pairs@, i as int, old_r[m].0@, old_r[m].1@));
                let w = choose|w: int|
                    0 <= w < i && #[trigger] pairs@[w].0@ == old_r[m].0@ && pairs@[w].1@
                        == old_r[m].1@ && forall|k: int| w < k < i ==> #[trigger] pairs@[k].0@
                        != old_r[m].0@;
                assert(forall|k: int| w < k < i + 1 ==> #[trigger] pairs@[k].0@ != old_r[m].0@);
            }
        }
        i = i + 1;
    }
    r
}

} // verus!
