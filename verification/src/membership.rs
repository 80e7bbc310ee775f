//! The membership view: the mapping from peer id to endpoint that the
//! registry owns and every process caches.
//!
//! Entries are kept in a vector ordered by strictly increasing id, which
//! gives unique ids and a canonical order for the wire encoding.
use vstd::prelude::*;

verus! {

/// A mapping from peer id to endpoint, with strictly increasing ids.
pub struct MembershipView {
    entries: Vec<(u32, String)>,
}

impl View for MembershipView {
    type V = Seq<(u32, Seq<char>)>;

    closed spec fn view(&self) -> Seq<(u32, Seq<char>)> {
        Seq::new(self.entries@.len(), |i: int| (self.entries@[i].0, self.entries@[i].1@))
    }
}

/// The endpoint filed under `id` in `s`, if any: the first entry wins.
pub open spec fn seq_get(s: Seq<(u32, Seq<char>)>, id: u32) -> Option<Seq<char>>
    decreases s.len(),
{
    if s.len() == 0 {
        None
    } else if s[0].0 == id {
        Some(s[0].1)
    } else {
        seq_get(s.drop_first(), id)
    }
}

/// True when the ids of `s` are strictly increasing.
pub open spec fn ids_increasing(s: Seq<(u32, Seq<char>)>) -> bool {
    forall|i: int, j: int| 0 <= i < j < s.len() ==> #[trigger] s[i].0 < #[trigger] s[j].0
}

impl MembershipView {
    /// Well-formed: ids strictly increase, so no id occurs twice.
    pub open spec fn wf(&self) -> bool {
        ids_increasing(self@)
    }

    pub open spec fn spec_contains_id(&self, id: u32) -> bool {
        exists|i: int| 0 <= i < self@.len() && (#[trigger] self@[i]).0 == id
    }

    pub open spec fn spec_get(&self, id: u32) -> Option<Seq<char>> {
        seq_get(self@, id)
    }

    /// An empty view.
    pub fn new() -> (r: Self)
        ensures
            r@ == Seq::<(u32, Seq<char>)>::empty(),
            r.wf(),
    {
        let r = MembershipView { entries: Vec::new() };
        proof {
            assert(r@ =~= Seq::<(u32, Seq<char>)>::empty());
        }
        r
    }

    pub fn len(&self) -> (n: usize)
        ensures
            n == self@.len(),
    {
        self.entries.len()
    }

    pub fn id_at(&self, i: usize) -> (id: u32)
        requires
            i < self@.len(),
        ensures
            id == self@[i as int].0,
    {
        self.entries[i].0
    }

    pub fn addr_at(&self, i: usize) -> (addr: &String)
        requires
            i < self@.len(),
        ensures
            addr@ == self@[i as int].1,
    {
        &self.entries[i].1
    }

    /// Files `addr` under `id`, which must be larger than every present id.
    pub fn push_entry(&mut self, id: u32, addr: String)
        requires
            forall|i: int| 0 <= i < old(self)@.len() ==> (#[trigger] old(self)@[i]).0 < id,
        ensures
            final(self)@ == old(self)@ + seq![(id, addr@)],
            old(self).wf() ==> final(self).wf(),
    {
        let ghost pre = self@;
        self.entries.push((id, addr));
        proof {
            assert(self@ =~= pre + seq![(id, self.entries@.last().1@)]);
        }
    }

    /// The endpoint filed under `id`, copied out, if any.
    pub fn get(&self, id: u32) -> (r: Option<String>)
        ensures
            r is Some <==> self.spec_contains_id(id),
            r matches Some(a) ==> self.spec_get(id) == Some(a@),
    {
        let n = self.entries.len();
        let mut i: usize = 0;
        while i < n
            invariant
                0 <= i <= n,
                n == self@.len(),
                forall|k: int| 0 <= k < i ==> (#[trigger] self@[k]).0 != id,
            decreases n - i,
        {
            if self.entries[i].0 == id {
                proof {
                    lemma_seq_get_found(self@, id, i as int);
                }
                return Some(self.entries[i].1.clone());
            }
            i = i + 1;
        }
        proof {
            lemma_seq_get_missing(self@, id);
        }
        None
    }

    /// Builds a view from entries that must already be in strictly
    /// increasing id order; anything else is refused.
    pub fn from_entries(entries: Vec<(u32, String)>) -> (r: Option<MembershipView>)
        ensures
            r is Some <==> ids_increasing(view_of(entries@)),
            r matches Some(v) ==> v@ == view_of(entries@) && v.wf(),
    {
        let ghost vs = view_of(entries@);
        let n = entries.len();
        let mut i: usize = 0;
        while n > 0 && i < n - 1
            invariant
                0 <= i,
                n == entries@.len(),
                vs == view_of(entries@),
                n > 0 ==> i < n,
                n == 0 ==> i == 0,
                forall|k: int| 0 <= k < i ==> (#[trigger] vs[k]).0 < vs[k + 1].0,
            decreases n - i,
        {
            if entries[i].0 >= entries[i + 1].0 {
                assert(!ids_increasing(vs)) by {
                    assert(vs[i as int].0 >= vs[i + 1].0);
                }
                return None;
            }
            i = i + 1;
        }
        proof {
            assert forall|a: int, b: int| 0 <= a < b < vs.len() implies (#[trigger] vs[a]).0 < (
            #[trigger] vs[b]).0 by {
                lemma_adjacent_increasing(vs, a, b);
            }
        }
        let r = MembershipView { entries };
        proof {
            assert(r@ =~= vs);
        }
        Some(r)
    }

    /// The view without the entry filed under `id`, if there is one.
    pub fn others(&self, id: u32) -> (r: MembershipView)
        ensures
            r@ == self@.filter(alive_pred(seq![id])),
            self.wf() ==> r.wf(),
    {
        let mut r = self.clone();
        let mut dead: Vec<u32> = Vec::new();
        dead.push(id);
        proof {
            assert(dead@ =~= seq![id]);
        }
        r.remove_ids(&dead);
        r
    }

    /// Removes every entry whose id stands in `dead`.
    pub fn remove_ids(&mut self, dead: &Vec<u32>)
        ensures
            final(self)@ == old(self)@.filter(alive_pred(dead@)),
            old(self).wf() ==> final(self).wf(),
    {
        let ghost pred = alive_pred(dead@);
        let ghost all = self@;
        let n = self.entries.len();
        let mut kept: Vec<(u32, String)> = Vec::new();
        let mut i: usize = 0;
        while i < n
            invariant
                0 <= i <= n,
                n == self@.len(),
                all == self@,
                pred == alive_pred(dead@),
                view_of(kept@) == all.subrange(0, i as int).filter(pred),
            decreases n - i,
        {
            let ghost prefix = all.subrange(0, i as int);
            let ghost prefix2 = all.subrange(0, i + 1);
            let dead_now = ids_contain(dead, self.entries[i].0);
            proof {
                reveal(Seq::filter);
                assert(all[i as int] == (self.entries@[i as int].0, self.entries@[i as int].1@));
                assert(dead_now == dead@.contains(all[i as int].0));
                assert(pred(all[i as int]) == !dead_now);
                assert(prefix2.drop_last() =~= prefix);
                assert(prefix2.last() == all[i as int]);
                assert(prefix2.filter(pred) == if pred(all[i as int]) {
                    prefix.filter(pred).push(all[i as int])
                } else {
                    prefix.filter(pred)
                });
            }
            if !dead_now {
                let id = self.entries[i].0;
                let addr = self.entries[i].1.clone();
                let ghost kept_pre = view_of(kept@);
                kept.push((id, addr));
                proof {
                    assert(view_of(kept@) =~= kept_pre.push(all[i as int]));
                }
            }
            i = i + 1;
        }
        proof {
            assert(all.subrange(0, n as int) =~= all);
        }
        self.entries = kept;
        proof {
            let filtered = all.filter(pred);
            if ids_increasing(all) {
                assert forall|a: int, b: int| 0 <= a < b < filtered.len() implies
                    filtered[a].0 < filtered[b].0 by {
                    lemma_filter_keeps_order(all, pred, a, b);
                }
            }
        }
    }
}

/// Ids that increase between neighbours increase between any two places.
proof fn lemma_adjacent_increasing(s: Seq<(u32, Seq<char>)>, a: int, b: int)
    requires
        forall|k: int| 0 <= k < s.len() - 1 ==> (#[trigger] s[k]).0 < s[k + 1].0,
        0 <= a < b < s.len(),
    ensures
        s[a].0 < s[b].0,
    decreases b - a,
{
    if a + 1 < b {
        lemma_adjacent_increasing(s, a + 1, b);
    }
}

/// Keeps exactly the entries whose id is not in `dead`.
pub open spec fn alive_pred(dead: Seq<u32>) -> spec_fn((u32, Seq<char>)) -> bool {
    |e: (u32, Seq<char>)| !dead.contains(e.0)
}

/// The view a vector of entries would have as a `MembershipView`.
pub open spec fn view_of(entries: Seq<(u32, String)>) -> Seq<(u32, Seq<char>)> {
    Seq::new(entries.len(), |i: int| (entries[i].0, entries[i].1@))
}

/// A filtered sequence keeps the order of what it keeps: any two kept
/// entries stem from two source entries in the same order.
proof fn lemma_filter_keeps_order(
    s: Seq<(u32, Seq<char>)>,
    pred: spec_fn((u32, Seq<char>)) -> bool,
    a: int,
    b: int,
)
    requires
        ids_increasing(s),
        0 <= a < b < s.filter(pred).len(),
    ensures
        s.filter(pred)[a].0 < s.filter(pred)[b].0,
    decreases s.len(),
{
    reveal(Seq::filter);
    if s.len() > 0 {
        let rest = s.drop_last();
        let f = s.filter(pred);
        if pred(s.last()) {
            if b < f.len() - 1 {
                lemma_filter_keeps_order(rest, pred, a, b);
            } else {
                // f[b] is s.last(); f[a] stands in rest's filtering
                rest.lemma_filter_pred(pred, a);
                lemma_filter_member_index(rest, pred, a);
            }
        } else {
            lemma_filter_keeps_order(rest, pred, a, b);
        }
    }
}

/// Every kept entry is an entry of the source.
pub proof fn lemma_filter_member_index(
    s: Seq<(u32, Seq<char>)>,
    pred: spec_fn((u32, Seq<char>)) -> bool,
    a: int,
)
    requires
        0 <= a < s.filter(pred).len(),
    ensures
        exists|i: int| 0 <= i < s.len() && s[i] == s.filter(pred)[a],
    decreases s.len(),
{
    reveal(Seq::filter);
    if s.len() > 0 {
        let rest = s.drop_last();
        let f = s.filter(pred);
        if pred(s.last()) && a == f.len() - 1 {
            assert(s[s.len() - 1] == f[a]);
        } else {
            lemma_filter_member_index(rest, pred, a);
            let i = choose|i: int| 0 <= i < rest.len() && rest[i] == f[a];
            assert(s[i] == f[a]);
        }
    }
}

/// True iff `ids` holds `id`.
fn ids_contain(ids: &Vec<u32>, id: u32) -> (r: bool)
    ensures
        r == ids@.contains(id),
{
    let n = ids.len();
    let mut i: usize = 0;
    while i < n
        invariant
            0 <= i <= n,
            n == ids@.len(),
            forall|k: int| 0 <= k < i ==> ids@[k] != id,
        decreases n - i,
    {
        if ids[i] == id {
            return true;
        }
        i = i + 1;
    }
    false
}

proof fn lemma_seq_get_found(s: Seq<(u32, Seq<char>)>, id: u32, k: int)
    requires
        0 <= k < s.len(),
        s[k].0 == id,
        forall|i: int| 0 <= i < k ==> (#[trigger] s[i]).0 != id,
    ensures
        seq_get(s, id) == Some(s[k].1),
    decreases k,
{
    if k > 0 {
        lemma_seq_get_found(s.drop_first(), id, k - 1);
    }
}

proof fn lemma_seq_get_missing(s: Seq<(u32, Seq<char>)>, id: u32)
    requires
        forall|i: int| 0 <= i < s.len() ==> (#[trigger] s[i]).0 != id,
    ensures
        seq_get(s, id) is None,
    decreases s.len(),
{
    if s.len() > 0 {
        lemma_seq_get_missing(s.drop_first(), id);
    }
}

impl Clone for MembershipView {
    /// A copy with the same entries.
    fn clone(&self) -> (r: Self)
        ensures
            r@ == self@,
    {
        let n = self.entries.len();
        let mut entries: Vec<(u32, String)> = Vec::new();
        let mut i: usize = 0;
        while i < n
            invariant
                0 <= i <= n,
                n == self@.len(),
                view_of(entries@) == self@.subrange(0, i as int),
            decreases n - i,
        {
            let ghost pre = view_of(entries@);
            entries.push((self.entries[i].0, self.entries[i].1.clone()));
            proof {
                assert(view_of(entries@) =~= pre.push(self@[i as int]));
                assert(pre.push(self@[i as int]) =~= self@.subrange(0, i + 1));
            }
            i = i + 1;
        }
        let r = MembershipView { entries };
        proof {
            assert(r@ =~= self@.subrange(0, n as int));
            assert(self@.subrange(0, n as int) =~= self@);
        }
        r
    }
}

} // verus!
