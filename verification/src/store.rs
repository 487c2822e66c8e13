//! The recency store: a bounded, deduplicating queue of file paths,
//! most recently used first, together with the exact text that mirrors
//! it to its backing file.

use crate::text::{get_filename, lemma_line_break_at, spec_basename, spec_split_lines};
use std::collections::VecDeque;
use vstd::multiset::Multiset;
use vstd::prelude::*;
use vstd::seq_lib::group_seq_properties;

verus! {

/// One recently opened archive: its path, and the display name derived
/// from that path.
pub struct HoppFile {
    /// The display name of the archive.
    pub name: String,
    /// The file path of the archive.
    pub path: String,
}

/// The recent history handed to a caller, most recent first.
pub struct History {
    /// The recently opened files, most recent first.
    pub history: Vec<HoppFile>,
}

/// The store of recently opened files: an ordered queue of paths, most
/// recent first, bounded and deduplicated. Loading from and mirroring
/// to the backing file happen through [`Database::new`] and
/// [`Database::render`]; the queue itself never does I/O.
pub struct Database {
    /// The greatest number of paths the store keeps.
    max_entries: usize,
    /// The queue in memory, most recent at the front.
    queue: VecDeque<String>,
}

/// The first index at which `p` occurs in `q`, or `-1` when it does
/// not occur.
pub open spec fn spec_first_index(q: Seq<Seq<char>>, p: Seq<char>) -> int
    decreases q.len(),
{
    if q.len() == 0 {
        -1
    } else if q[0] == p {
        0
    } else {
        let r = spec_first_index(q.drop_first(), p);
        if r < 0 {
            -1
        } else {
            r + 1
        }
    }
}

/// `spec_first_index` finds the first occurrence exactly when there is
/// one.
pub proof fn lemma_first_index(q: Seq<Seq<char>>, p: Seq<char>)
    ensures
        spec_first_index(q, p) >= 0 <==> q.contains(p),
        spec_first_index(q, p) >= 0 ==> {
            &&& spec_first_index(q, p) < q.len()
            &&& q[spec_first_index(q, p)] == p
            &&& forall|i: int| 0 <= i < spec_first_index(q, p) ==> q[i] != p
        },
    decreases q.len(),
{
    if q.len() > 0 && q[0] != p {
        lemma_first_index(q.drop_first(), p);
        assert forall|i: int| 0 <= i < q.len() && q[i] == p implies q.contains(p) by {}
        if q.drop_first().contains(p) {
            let w = choose|i: int| 0 <= i < q.drop_first().len() && q.drop_first()[i] == p;
            assert(q[w + 1] == p);
        }
        if q.contains(p) {
            let w = choose|i: int| 0 <= i < q.len() && q[i] == p;
            assert(w > 0 && q.drop_first()[w - 1] == p);
        }
        if spec_first_index(q, p) >= 0 {
            assert forall|i: int| 0 <= i < spec_first_index(q, p) implies q[i] != p by {
                if i > 0 {
                    assert(q.drop_first()[i - 1] == q[i]);
                }
            }
        }
    }
}

/// One insertion into the queue model: an existing occurrence of the
/// path is removed, else the oldest (back) entry is evicted when the
/// queue is already full; the path then goes to the front.
pub open spec fn spec_insert(q: Seq<Seq<char>>, cap: nat, p: Seq<char>) -> Seq<Seq<char>> {
    let trimmed = if spec_first_index(q, p) >= 0 {
        q.remove(spec_first_index(q, p))
    } else if q.len() >= cap && q.len() > 0 {
        q.drop_last()
    } else {
        q
    };
    seq![p] + trimmed
}

/// The full text that mirrors a queue to the backing file: one path
/// per line, front to back, each line closed by a line break.
pub open spec fn spec_render(q: Seq<Seq<char>>) -> Seq<char>
    decreases q.len(),
{
    if q.len() == 0 {
        Seq::empty()
    } else {
        q[0] + seq!['\n'] + spec_render(q.drop_first())
    }
}

/// Rendering one more path at the back appends that line.
proof fn lemma_render_snoc(q: Seq<Seq<char>>, x: Seq<char>)
    ensures
        spec_render(q.push(x)) == spec_render(q) + x + seq!['\n'],
    decreases q.len(),
{
    if q.len() == 0 {
        assert(q.push(x).drop_first() =~= q);
        assert(q.push(x)[0] == x);
        assert(spec_render(q) == Seq::<char>::empty());
        assert(spec_render(q.push(x)) == x + seq!['\n'] + spec_render(q));
        assert(x + seq!['\n'] + Seq::<char>::empty() =~= x + seq!['\n']);
        assert(spec_render(q) + x + seq!['\n'] =~= x + seq!['\n']);
    } else {
        assert(q.push(x).drop_first() =~= q.drop_first().push(x));
        lemma_render_snoc(q.drop_first(), x);
        assert(spec_render(q.push(x)) =~= spec_render(q) + x + seq!['\n']);
    }
}

impl Database {
    /// The paths held, most recent first.
    pub closed spec fn paths(&self) -> Seq<Seq<char>> {
        self.queue.deep_view()
    }

    /// The bound on how many paths the store keeps.
    pub closed spec fn capacity(&self) -> nat {
        self.max_entries as nat
    }

    /// Builds the store that the given backing-file lines describe:
    /// every line becomes one path, file order kept, top of the file
    /// most recent.
    #[verifier::loop_isolation(false)]
    pub fn new(lines: &Vec<String>, max_entries: usize) -> (db: Database)
        ensures
            db.paths() == lines.deep_view(),
            db.capacity() == max_entries,
    {
        let mut queue: VecDeque<String> = VecDeque::new();
        let mut i: usize = 0;
        proof {
            assert(queue.deep_view() =~= lines.deep_view().take(0));
        }
        while i < lines.len()
            invariant
                i <= lines.len(),
                queue.deep_view() == lines.deep_view().take(i as int),
            decreases lines.len() - i,
        {
            let line = lines[i].clone();
            let ghost pre = queue.deep_view();
            queue.push_back(line);
            proof {
                assert(queue.deep_view() =~= pre.push(line@));
                assert(queue.deep_view() =~= lines.deep_view().take(i as int + 1));
            }
            i += 1;
        }
        proof {
            assert(lines.deep_view().take(lines@.len() as int) =~= lines.deep_view());
        }
        Database { max_entries, queue }
    }

    /// Inserts a path: an already-present path moves to the front,
    /// otherwise the path is added at the front, evicting the oldest
    /// entry when the store is already full.
    #[verifier::loop_isolation(false)]
    pub fn insert(&mut self, data: &str)
        ensures
            final(self).paths() == spec_insert(old(self).paths(), old(self).capacity(), data@),
            final(self).capacity() == old(self).capacity(),
    {
        let d = String::from_str(data);
        let n = self.queue.len();
        let mut idx: usize = n;
        let mut i: usize = 0;
        while i < n
            invariant
                i <= n,
                n == self.queue@.len(),
                self == old(self),
                d@ == data@,
                idx == n || (idx < i && self.paths()[idx as int] == data@ && forall|j: int|
                    0 <= j < idx ==> self.paths()[j] != data@),
                idx == n ==> forall|j: int| 0 <= j < i ==> self.paths()[j] != data@,
            decreases n - i,
        {
            if idx == n {
                if self.queue[i] == d {
                    idx = i;
                }
            }
            i += 1;
        }
        proof {
            lemma_first_index(self.paths(), data@);
            if idx < n {
                assert(spec_first_index(self.paths(), data@) == idx as int) by {
                    if spec_first_index(self.paths(), data@) < idx as int {
                        assert(self.paths()[spec_first_index(self.paths(), data@)] == data@);
                    }
                    if spec_first_index(self.paths(), data@) > idx as int {
                        assert(self.paths()[idx as int] == data@);
                    }
                }
            } else {
                assert(!self.paths().contains(data@)) by {
                    if self.paths().contains(data@) {
                        let w = choose|j: int|
                            0 <= j < self.paths().len() && self.paths()[j] == data@;
                        assert(self.paths()[w] != data@);
                    }
                }
            }
        }
        let ghost q0 = self.paths();
        if idx < n {
            let _ = self.queue.remove(idx);
            proof {
                assert(self.queue.deep_view() =~= q0.remove(idx as int));
            }
        } else if self.queue.len() >= self.max_entries {
            let _ = self.queue.pop_back();
            proof {
                if q0.len() > 0 {
                    assert(self.queue.deep_view() =~= q0.drop_last());
                } else {
                    assert(self.queue.deep_view() =~= q0);
                }
            }
        }
        let ghost trimmed = self.queue.deep_view();
        self.queue.push_front(d);
        proof {
            assert(self.queue.deep_view() =~= seq![data@] + trimmed);
            assert(self.paths() =~= spec_insert(q0, old(self).capacity(), data@));
        }
    }

    /// Renders the queue as the full text of the backing file: one
    /// path per line, most recent first, each line closed by a line
    /// break.
    #[verifier::loop_isolation(false)]
    pub fn render(&self) -> (text: String)
        ensures
            text@ == spec_render(self.paths()),
    {
        let mut text = String::new();
        let n = self.queue.len();
        let mut i: usize = 0;
        proof {
            assert(self.paths().take(0) =~= Seq::<Seq<char>>::empty());
            assert(spec_render(self.paths().take(0)) =~= Seq::<char>::empty());
        }
        while i < n
            invariant
                i <= n,
                n == self.queue@.len(),
                text@ == spec_render(self.paths().take(i as int)),
            decreases n - i,
        {
            text.append(self.queue[i].as_str());
            text.append("\n");
            proof {
                reveal_strlit("\n");
                assert("\n"@ =~= seq!['\n']);
                assert(self.paths().take(i as int).push(self.paths()[i as int]) =~= self.paths()
                    .take(i as int + 1));
                lemma_render_snoc(self.paths().take(i as int), self.paths()[i as int]);
            }
            i += 1;
        }
        proof {
            assert(self.paths().take(n as int) =~= self.paths());
        }
        text
    }

    /// Returns everything the store holds, most recent first, each
    /// path together with its derived display name.
    #[verifier::loop_isolation(false)]
    pub fn refresh(&self) -> (h: History)
        ensures
            h.history@.len() == self.paths().len(),
            forall|i: int| 0 <= i < self.paths().len() ==> {
                &&& (#[trigger] h.history@[i]).path@ == self.paths()[i]
                &&& h.history@[i].name@ == spec_basename(self.paths()[i])
            },
    {
        let mut history: Vec<HoppFile> = Vec::new();
        let n = self.queue.len();
        let mut i: usize = 0;
        while i < n
            invariant
                i <= n,
                n == self.queue@.len(),
                history@.len() == i,
                forall|j: int| 0 <= j < i ==> {
                    &&& (#[trigger] history@[j]).path@ == self.paths()[j]
                    &&& history@[j].name@ == spec_basename(self.paths()[j])
                },
            decreases n - i,
        {
            let value = &self.queue[i];
            let name = get_filename(value.as_str());
            let path = value.clone();
            history.push(HoppFile { name, path });
            i += 1;
        }
        History { history }
    }
}

/// Law: an insert never grows the queue past its capacity and always
/// leaves the inserted path at the front; a new path joins a queue
/// with room unchanged behind it, and evicts exactly the oldest entry
/// of a full queue.
pub proof fn lemma_insert_bounded(q: Seq<Seq<char>>, cap: nat, p: Seq<char>)
    requires
        q.len() <= cap,
        cap >= 1,
    ensures
        spec_insert(q, cap, p).len() <= cap,
        spec_insert(q, cap, p)[0] == p,
        !q.contains(p) && q.len() < cap ==> spec_insert(q, cap, p) == seq![p] + q,
        !q.contains(p) && q.len() == cap ==> spec_insert(q, cap, p) == seq![p] + q.drop_last(),
{
    lemma_first_index(q, p);
}

/// Law: inserting a path the store already holds does not change how
/// many paths are held, nor which ones: it only moves the path to the
/// front.
pub proof fn lemma_insert_existing(q: Seq<Seq<char>>, cap: nat, p: Seq<char>)
    requires
        q.contains(p),
    ensures
        spec_insert(q, cap, p).len() == q.len(),
        spec_insert(q, cap, p)[0] == p,
        spec_insert(q, cap, p).to_multiset() == q.to_multiset(),
{
    broadcast use vstd::seq_lib::group_to_multiset_ensures;

    lemma_first_index(q, p);
    let fi = spec_first_index(q, p);
    let trimmed = q.remove(fi);
    vstd::seq_lib::lemma_multiset_commutative(seq![p], trimmed);
    assert(trimmed.to_multiset() =~= q.to_multiset().remove(p));
    assert(seq![p].to_multiset() =~= Multiset::<Seq<char>>::empty().insert(p)) by {
        assert(seq![p].drop_first() =~= Seq::<Seq<char>>::empty());
    }
    assert(q.to_multiset().count(p) > 0);
    assert(spec_insert(q, cap, p).to_multiset() =~= q.to_multiset());
}

/// Holds when no path occurs twice.
pub open spec fn spec_distinct(q: Seq<Seq<char>>) -> bool {
    forall|i: int, j: int| 0 <= i < j < q.len() ==> q[i] != q[j]
}

/// The queue after inserting every path of `ps` in order, starting
/// from `q`.
pub open spec fn spec_insert_all(q: Seq<Seq<char>>, cap: nat, ps: Seq<Seq<char>>) -> Seq<
    Seq<char>,
>
    decreases ps.len(),
{
    if ps.len() == 0 {
        q
    } else {
        spec_insert_all(spec_insert(q, cap, ps[0]), cap, ps.drop_first())
    }
}

/// Distinct paths that all fit pile up in front of what was there, in
/// reverse insertion order (the latest insert in front).
proof fn lemma_insert_all_fits(q: Seq<Seq<char>>, cap: nat, ps: Seq<Seq<char>>)
    requires
        spec_distinct(ps),
        forall|i: int| 0 <= i < ps.len() ==> !q.contains(#[trigger] ps[i]),
        q.len() + ps.len() <= cap,
    ensures
        spec_insert_all(q, cap, ps) == ps.reverse() + q,
    decreases ps.len(),
{
    if ps.len() == 0 {
        assert(ps.reverse() + q =~= q);
    } else {
        let head = ps[0];
        lemma_first_index(q, head);
        assert(!q.contains(head));
        let q1 = spec_insert(q, cap, head);
        assert(q1 =~= seq![head] + q);
        let rest = ps.drop_first();
        assert forall|i: int| 0 <= i < rest.len() implies !q1.contains(#[trigger] rest[i]) by {
            assert(rest[i] == ps[i + 1]);
            assert(rest[i] != head);
            if q1.contains(rest[i]) {
                let w = choose|k: int| 0 <= k < q1.len() && q1[k] == rest[i];
                assert(w > 0 && q[w - 1] == rest[i]);
                assert(q.contains(rest[i]));
            }
        }
        assert forall|i: int, j: int| 0 <= i < j < rest.len() implies rest[i] != rest[j] by {
            assert(rest[i] == ps[i + 1] && rest[j] == ps[j + 1]);
        }
        lemma_insert_all_fits(q1, cap, rest);
        assert(spec_insert_all(q, cap, ps) == rest.reverse() + q1);
        assert(rest.reverse() + (seq![head] + q) =~= (rest.reverse() + seq![head]) + q);
        assert(rest.reverse() + seq![head] =~= ps.reverse());
    }
}

/// Law: inserting one more distinct path than the store's capacity
/// into an empty store retains exactly the capacity's worth of paths,
/// most recent first, with the first-inserted path the one evicted.
pub proof fn lemma_fill_past_capacity(cap: nat, ps: Seq<Seq<char>>)
    requires
        spec_distinct(ps),
        ps.len() == cap + 1,
        cap >= 1,
    ensures
        spec_insert_all(Seq::empty(), cap, ps) == ps.skip(1).reverse(),
{
    let first = ps.take(cap as int);
    let last = ps[cap as int];
    assert forall|i: int, j: int| 0 <= i < j < first.len() implies first[i] != first[j] by {
        assert(first[i] == ps[i] && first[j] == ps[j]);
    }
    assert forall|i: int| 0 <= i < first.len() implies !Seq::<Seq<char>>::empty().contains(
        #[trigger] first[i],
    ) by {}
    lemma_insert_all_fits(Seq::empty(), cap, first);
    let q_full = spec_insert_all(Seq::empty(), cap, first);
    assert(q_full =~= first.reverse());
    assert(q_full.len() == cap);
    assert(!q_full.contains(last)) by {
        if q_full.contains(last) {
            let w = choose|k: int| 0 <= k < q_full.len() && q_full[k] == last;
            assert(q_full[w] == first[first.len() - 1 - w]);
            assert(ps[first.len() - 1 - w] == ps[cap as int]);
        }
    }
    lemma_first_index(q_full, last);
    let result = spec_insert(q_full, cap, last);
    assert(result =~= seq![last] + q_full.drop_last());
    lemma_insert_all_split(Seq::empty(), cap, first, seq![last]);
    assert(first + seq![last] =~= ps);
    assert(seq![last][0] == last);
    assert(seq![last].drop_first() =~= Seq::<Seq<char>>::empty());
    assert(spec_insert_all(result, cap, Seq::<Seq<char>>::empty()) == result);
    assert(spec_insert_all(q_full, cap, seq![last]) == result);
    assert(spec_insert_all(Seq::empty(), cap, ps) == result);
    assert forall|k: int| 0 <= k < result.len() implies result[k] == ps.skip(1).reverse()[k] by {
        if k > 0 {
            assert(result[k] == q_full[k - 1]);
            assert(q_full[k - 1] == first[cap - k]);
            assert(ps.skip(1).reverse()[k] == ps.skip(1)[cap - 1 - k]);
            assert(ps.skip(1)[cap - 1 - k] == ps[cap - k]);
        } else {
            assert(ps.skip(1).reverse()[0] == ps.skip(1)[cap - 1]);
            assert(ps.skip(1)[cap - 1] == ps[cap as int]);
        }
    }
    assert(result =~= ps.skip(1).reverse());
}

/// Inserting a concatenation of path sequences is inserting the one,
/// then the other.
proof fn lemma_insert_all_split(
    q: Seq<Seq<char>>,
    cap: nat,
    ps1: Seq<Seq<char>>,
    ps2: Seq<Seq<char>>,
)
    ensures
        spec_insert_all(q, cap, ps1 + ps2) == spec_insert_all(spec_insert_all(q, cap, ps1), cap, ps2),
    decreases ps1.len(),
{
    if ps1.len() == 0 {
        assert(ps1 + ps2 =~= ps2);
    } else {
        assert((ps1 + ps2)[0] == ps1[0]);
        assert((ps1 + ps2).drop_first() =~= ps1.drop_first() + ps2);
        lemma_insert_all_split(spec_insert(q, cap, ps1[0]), cap, ps1.drop_first(), ps2);
    }
}

/// Law: an insert keeps the stored paths distinct.
pub proof fn lemma_insert_distinct(q: Seq<Seq<char>>, cap: nat, p: Seq<char>)
    requires
        spec_distinct(q),
    ensures
        spec_distinct(spec_insert(q, cap, p)),
{
    lemma_first_index(q, p);
    let r = spec_insert(q, cap, p);
    let fi = spec_first_index(q, p);
    assert forall|i: int, j: int| 0 <= i < j < r.len() implies r[i] != r[j] by {
        if fi >= 0 {
            let t = q.remove(fi);
            assert forall|k: int| 0 <= k < q.len() && k != fi implies q[k] != p by {
                if q[k] == p {
                    if k < fi {
                        assert(q[k] != p);
                    } else {
                        assert(q[fi] == p && q[k] == p && fi < k);
                    }
                }
            }
            if i == 0 {
                lemma_remove_elem(q, fi, j - 1);
            } else {
                lemma_remove_elem(q, fi, i - 1);
                lemma_remove_elem(q, fi, j - 1);
            }
        } else {
            let t = if q.len() >= cap && q.len() > 0 {
                q.drop_last()
            } else {
                q
            };
            assert(r == seq![p] + t);
            if i == 0 {
                assert(t[j - 1] == q[j - 1]);
                if q[j - 1] == p {
                    assert(q.contains(p));
                }
            } else {
                assert(t[i - 1] == q[i - 1] && t[j - 1] == q[j - 1]);
            }
        }
    }
}

/// One element of a sequence with index `fi` removed comes from the
/// old sequence, before or after the removed spot.
proof fn lemma_remove_elem(q: Seq<Seq<char>>, fi: int, k: int)
    requires
        0 <= fi < q.len(),
        0 <= k < q.len() - 1,
    ensures
        k < fi ==> q.remove(fi)[k] == q[k],
        k >= fi ==> q.remove(fi)[k] == q[k + 1],
{
}

/// Law: reloading a store from the very text it rendered restores the
/// same queue, provided no stored path contains a line break.
pub proof fn lemma_render_round_trip(q: Seq<Seq<char>>)
    requires
        forall|i: int| 0 <= i < q.len() ==> !(#[trigger] q[i]).contains('\n'),
    ensures
        spec_split_lines(spec_render(q)) == q,
    decreases q.len(),
{
    broadcast use group_seq_properties;

    if q.len() > 0 {
        let s = spec_render(q);
        let head = q[0];
        let w = head.len() as int;
        assert forall|i: int| 0 <= i < w implies s[i] != '\n' by {
            assert(s[i] == head[i]);
            assert(!head.contains('\n'));
            assert(head[i] != '\n');
        }
        assert(s[w] == '\n');
        lemma_line_break_at(s, w);
        assert(s.take(w) =~= head);
        assert(s.skip(w + 1) =~= spec_render(q.drop_first()));
        assert forall|i: int| 0 <= i < q.drop_first().len() implies !(#[trigger] q.drop_first()[i])
            .contains('\n') by {
            assert(q.drop_first()[i] == q[i + 1]);
        }
        lemma_render_round_trip(q.drop_first());
        assert(spec_split_lines(s) =~= seq![head] + q.drop_first());
        assert(seq![head] + q.drop_first() =~= q);
    }
}

} // verus!
