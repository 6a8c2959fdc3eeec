//! The route table: routing keys mapped to upstream base URLs.
use vstd::prelude::*;
use crate::text::chars_of;

verus! {

/// The map a list of `(key, target)` entries stands for; a later entry for
/// a key overrides an earlier one.
pub open spec fn entries_map(s: Seq<(Seq<char>, Seq<char>)>) -> Map<Seq<char>, Seq<char>>
    decreases s.len(),
{
    if s.len() == 0 {
        Map::empty()
    } else {
        entries_map(s.drop_last()).insert(s.last().0, s.last().1)
    }
}

pub open spec fn keys_unique(s: Seq<(Seq<char>, Seq<char>)>) -> bool {
    forall|i: int, j: int| 0 <= i < j < s.len() ==> #[trigger] s[i].0 != #[trigger] s[j].0
}

pub proof fn lemma_entries_map(s: Seq<(Seq<char>, Seq<char>)>, k: Seq<char>)
    requires
        keys_unique(s),
    ensures
        entries_map(s).contains_key(k) <==> exists|i: int| 0 <= i < s.len() && #[trigger] s[i].0
            == k,
        forall|i: int| 0 <= i < s.len() && #[trigger] s[i].0 == k ==> entries_map(s)[k] == s[i].1,
    decreases s.len(),
{
    if s.len() > 0 {
        let t = s.drop_last();
        assert(keys_unique(t)) by {
            assert forall|i: int, j: int| 0 <= i < j < t.len() implies #[trigger] t[i].0
                != #[trigger] t[j].0 by {
                assert(t[i] == s[i] && t[j] == s[j]);
            }
        }
        lemma_entries_map(t, k);
        if exists|i: int| 0 <= i < s.len() && #[trigger] s[i].0 == k {
            let i = choose|i: int| 0 <= i < s.len() && #[trigger] s[i].0 == k;
            if i < t.len() {
                assert(t[i] == s[i]);
            }
        }
        assert forall|i: int| 0 <= i < s.len() && #[trigger] s[i].0 == k implies entries_map(s)[k]
            == s[i].1 by {
            if i < t.len() {
                assert(t[i] == s[i]);
                assert(s[i].0 != s[s.len() - 1].0);
            }
        }
        if entries_map(t).contains_key(k) {
            let i = choose|i: int| 0 <= i < t.len() && #[trigger] t[i].0 == k;
            assert(s[i] == t[i]);
        }
    }
}

/// The entries of a vector of string pairs, as text.
pub open spec fn views_of(v: Seq<(String, String)>) -> Seq<(Seq<char>, Seq<char>)> {
    v.map_values(|e: (String, String)| (e.0@, e.1@))
}

/// `a` sorts strictly before `b`, comparing characters by code point and a
/// proper prefix before the longer text (the order of `str`'s `Ord`).
pub open spec fn text_lt(a: Seq<char>, b: Seq<char>) -> bool {
    exists|i: int|
        0 <= i <= a.len() && i <= b.len() && #[trigger] a.take(i) == b.take(i) && ((i == a.len()
            && i < b.len()) || (i < a.len() && i < b.len() && a[i] < b[i]))
}

/// Entries whose keys strictly increase.
pub open spec fn keys_sorted(s: Seq<(Seq<char>, Seq<char>)>) -> bool {
    forall|i: int, j: int| 0 <= i < j < s.len() ==> text_lt(#[trigger] s[i].0, #[trigger] s[j].0)
}

pub proof fn lemma_text_lt_trans(a: Seq<char>, b: Seq<char>, c: Seq<char>)
    requires
        text_lt(a, b),
        text_lt(b, c),
    ensures
        text_lt(a, c),
{
    let i = choose|i: int|
        0 <= i <= a.len() && i <= b.len() && #[trigger] a.take(i) == b.take(i) && ((i == a.len()
            && i < b.len()) || (i < a.len() && i < b.len() && a[i] < b[i]));
    let j = choose|j: int|
        0 <= j <= b.len() && j <= c.len() && #[trigger] b.take(j) == c.take(j) && ((j == b.len()
            && j < c.len()) || (j < b.len() && j < c.len() && b[j] < c[j]));
    let m = if i < j {
        i
    } else {
        j
    };
    assert(a.take(m) =~= c.take(m)) by {
        assert forall|k: int| 0 <= k < m implies #[trigger] a.take(m)[k] == c.take(m)[k] by {
            assert(a.take(i)[k] == b.take(i)[k]);
            assert(b.take(j)[k] == c.take(j)[k]);
        }
    }
    if i < j {
        assert(b.take(j)[i] == c.take(j)[i]);
    } else if j < i {
        assert(a.take(i)[j] == b.take(i)[j]);
    }
    assert(0 <= m <= a.len() && m <= c.len() && a.take(m) == c.take(m) && ((m == a.len() && m
        < c.len()) || (m < a.len() && m < c.len() && a[m] < c[m])));
}

pub proof fn lemma_text_lt_total(a: Seq<char>, b: Seq<char>)
    ensures
        a == b || text_lt(a, b) || text_lt(b, a),
    decreases a.len(),
{
    assert(a.take(0) =~= b.take(0));
    if a.len() == 0 || b.len() == 0 {
        if a.len() == 0 && b.len() == 0 {
            assert(a =~= b);
        }
    } else if a[0] != b[0] {
    } else {
        let a1 = a.drop_first();
        let b1 = b.drop_first();
        lemma_text_lt_total(a1, b1);
        if a1 == b1 {
            assert forall|k: int| 0 <= k < a.len() implies #[trigger] a[k] == b[k] by {
                if k > 0 {
                    assert(a[k] == a1[k - 1] && b[k] == b1[k - 1]);
                }
            }
            assert(a =~= b);
        } else if text_lt(a1, b1) {
            let i = choose|i: int|
                0 <= i <= a1.len() && i <= b1.len() && #[trigger] a1.take(i) == b1.take(i) && ((i
                    == a1.len() && i < b1.len()) || (i < a1.len() && i < b1.len() && a1[i]
                    < b1[i]));
            assert(a.take(i + 1) =~= b.take(i + 1)) by {
                assert forall|k: int| 0 <= k < i + 1 implies #[trigger] a.take(i + 1)[k] == b.take(i + 1)[k] by {
                    if k > 0 {
                        assert(a1.take(i)[k - 1] == b1.take(i)[k - 1]);
                    }
                }
            }
            if i < a1.len() && i < b1.len() {
                assert(a[i + 1] == a1[i] && b[i + 1] == b1[i]);
            }
        } else {
            let i = choose|i: int|
                0 <= i <= b1.len() && i <= a1.len() && #[trigger] b1.take(i) == a1.take(i) && ((i
                    == b1.len() && i < a1.len()) || (i < b1.len() && i < a1.len() && b1[i]
                    < a1[i]));
            assert(b.take(i + 1) =~= a.take(i + 1)) by {
                assert forall|k: int| 0 <= k < i + 1 implies #[trigger] b.take(i + 1)[k] == a.take(i + 1)[k] by {
                    if k > 0 {
                        assert(b1.take(i)[k - 1] == a1.take(i)[k - 1]);
                    }
                }
            }
            if i < a1.len() && i < b1.len() {
                assert(a[i + 1] == a1[i] && b[i + 1] == b1[i]);
            }
        }
    }
}

/// Whether `a` sorts strictly before `b`.
pub fn text_lt_exec(a: &Vec<char>, b: &Vec<char>) -> (r: bool)
    ensures
        r == text_lt(a@, b@),
{
    let mut i: usize = 0;
    while i < a.len() && i < b.len() && a[i] == b[i]
        invariant
            i <= a.len(),
            i <= b.len(),
            a@.take(i as int) == b@.take(i as int),
        decreases a.len() - i,
    {
        assert(a@.take(i + 1) =~= a@.take(i as int).push(a@[i as int]));
        assert(b@.take(i + 1) =~= b@.take(i as int).push(b@[i as int]));
        i = i + 1;
    }
    let r = if i == a.len() {
        i < b.len()
    } else if i == b.len() {
        false
    } else {
        a[i] < b[i]
    };
    if !r {
        assert forall|j: int|
            0 <= j <= a@.len() && j <= b@.len() && #[trigger] a@.take(j) == b@.take(j) implies !((j
            == a@.len() && j < b@.len()) || (j < a@.len() && j < b@.len() && a@[j] < b@[j])) by {
            if j < i {
                assert(a@.take(i as int)[j] == b@.take(i as int)[j]);
            } else if j > i {
                assert(a@.take(j)[i as int] == b@.take(j)[i as int]);
            }
        }
    }
    r
}

/// An immutable-by-convention mapping from routing key to upstream target,
/// held as entries with distinct keys.
pub struct RouteTable {
    entries: Vec<(String, String)>,
}

impl View for RouteTable {
    type V = Map<Seq<char>, Seq<char>>;

    open spec fn view(&self) -> Map<Seq<char>, Seq<char>> {
        entries_map(self.pairs())
    }
}

impl RouteTable {
    pub closed spec fn pairs(&self) -> Seq<(Seq<char>, Seq<char>)> {
        views_of(self.entries@)
    }

    pub closed spec fn wf(&self) -> bool {
        keys_unique(self.pairs())
    }

    pub fn new() -> (r: RouteTable)
        ensures
            r.wf(),
            r@ == Map::<Seq<char>, Seq<char>>::empty(),
    {
        let r = RouteTable { entries: Vec::new() };
        assert(r.pairs() =~= Seq::<(Seq<char>, Seq<char>)>::empty());
        r
    }

    /// The number of keys in the table.
    pub fn len(&self) -> (r: usize)
        requires
            self.wf(),
        ensures
            r == self@.len(),
    {
        proof {
            self.lemma_len();
        }
        self.entries.len()
    }

    proof fn lemma_len(&self)
        requires
            self.wf(),
        ensures
            self@.len() == self.entries@.len(),
            self@.dom().finite(),
    {
        lemma_unique_len(self.pairs());
    }

    /// Where `key` is found among the entries.
    fn position(&self, key: &String) -> (r: Option<usize>)
        requires
            self.wf(),
        ensures
            r is Some ==> r->0 < self.entries.len() && self.pairs()[r->0 as int].0 == key@,
            r is None ==> forall|i: int| 0 <= i < self.entries.len() ==> self.pairs()[i].0 != key@,
    {
        let mut i: usize = 0;
        while i < self.entries.len()
            invariant
                i <= self.entries.len(),
                forall|k: int| 0 <= k < i ==> self.pairs()[k].0 != key@,
            decreases self.entries.len() - i,
        {
            if self.entries[i].0 == *key {
                return Some(i);
            }
            i = i + 1;
        }
        None
    }

    /// The target `key` routes to.
    pub fn get(&self, key: &str) -> (r: Option<&String>)
        requires
            self.wf(),
        ensures
            r is Some <==> self@.contains_key(key@),
            r is Some ==> r->0@ == self@[key@],
    {
        let k = String::from_str(key);
        proof {
            lemma_entries_map(self.pairs(), key@);
        }
        match self.position(&k) {
            Some(i) => Some(&self.entries[i].1),
            None => None,
        }
    }

    /// Routes `key` to `target`, replacing and returning what it routed to before.
    pub fn insert(&mut self, key: String, target: String) -> (r: Option<String>)
        requires
            old(self).wf(),
        ensures
            final(self).wf(),
            final(self)@ == old(self)@.insert(key@, target@),
            r is Some <==> old(self)@.contains_key(key@),
            r is Some ==> r->0@ == old(self)@[key@],
    {
        proof {
            lemma_entries_map(self.pairs(), key@);
        }
        match self.position(&key) {
            Some(i) => {
                let ghost before = self.pairs();
                let prev = self.entries[i].1.clone();
                self.entries.set(i, (key, target));
                proof {
                    let after = self.pairs();
                    assert(after =~= before.update(i as int, (key@, target@)));
                    assert(keys_unique(after)) by {
                        assert forall|a: int, b: int| 0 <= a < b < after.len() implies #[trigger] after[a].0
                            != #[trigger] after[b].0 by {
                            assert(before[a].0 != before[b].0);
                        }
                    }
                    lemma_update_map(before, i as int, target@);
                }
                Some(prev)
            },
            None => {
                let ghost before = self.pairs();
                self.entries.push((key, target));
                proof {
                    let after = self.pairs();
                    assert(after =~= before.push((key@, target@)));
                    assert(after.drop_last() =~= before);
                    assert(keys_unique(after)) by {
                        assert forall|a: int, b: int| 0 <= a < b < after.len() implies #[trigger] after[a].0
                            != #[trigger] after[b].0 by {
                            if b < before.len() {
                                assert(before[a].0 != before[b].0);
                            }
                        }
                    }
                }
                None
            },
        }
    }

    /// Drops the route of `key`, returning the target it had.
    pub fn remove(&mut self, key: &str) -> (r: Option<String>)
        requires
            old(self).wf(),
        ensures
            final(self).wf(),
            final(self)@ == old(self)@.remove(key@),
            r is Some <==> old(self)@.contains_key(key@),
            r is Some ==> r->0@ == old(self)@[key@],
    {
        let k = String::from_str(key);
        proof {
            lemma_entries_map(self.pairs(), key@);
        }
        match self.position(&k) {
            Some(i) => {
                let ghost before = self.pairs();
                let (_, prev) = self.entries.remove(i);
                proof {
                    let after = self.pairs();
                    assert(after =~= before.remove(i as int));
                    assert(keys_unique(after)) by {
                        assert forall|a: int, b: int| 0 <= a < b < after.len() implies #[trigger] after[a].0
                            != #[trigger] after[b].0 by {
                            if a < i {
                                if b < i {
                                    assert(before[a].0 != before[b].0);
                                } else {
                                    assert(before[a].0 != before[b + 1].0);
                                }
                            } else {
                                assert(before[a + 1].0 != before[b + 1].0);
                            }
                        }
                    }
                    lemma_remove_map(before, i as int);
                }
                Some(prev)
            },
            None => {
                proof {
                    assert(!self@.contains_key(key@));
                    assert(self@.remove(key@) =~= self@);
                }
                None
            },
        }
    }

    /// Where the least key stands among the entries.
    fn least_key(&self) -> (r: usize)
        requires
            self.wf(),
            self.entries.len() > 0,
        ensures
            r < self.entries.len(),
            forall|j: int| 0 <= j < self.entries.len() ==> !text_lt(self.pairs()[j].0, self.pairs()[r as int].0),
    {
        let mut best: usize = 0;
        let mut best_key = chars_of(self.entries[0].0.as_str());
        let mut i: usize = 1;
        while i < self.entries.len()
            invariant
                best < i <= self.entries.len(),
                best_key@ == self.pairs()[best as int].0,
                forall|j: int| 0 <= j < i ==> !text_lt(self.pairs()[j].0, self.pairs()[best as int].0),
            decreases self.entries.len() - i,
        {
            let k = chars_of(self.entries[i].0.as_str());
            if text_lt_exec(&k, &best_key) {
                proof {
                    assert forall|j: int| 0 <= j < i implies !text_lt(self.pairs()[j].0, self.pairs()[i as int].0) by {
                        if text_lt(self.pairs()[j].0, self.pairs()[i as int].0) {
                            lemma_text_lt_trans(self.pairs()[j].0, self.pairs()[i as int].0, self.pairs()[best as int].0);
                        }
                    }
                    assert(!text_lt(k@, k@)) by {
                        if text_lt(k@, k@) {
                            let m = choose|m: int| 0 <= m <= k@.len() && m <= k@.len() && #[trigger] k@.take(m) == k@.take(m) && ((m == k@.len() && m < k@.len()) || (m < k@.len() && m < k@.len() && k@[m] < k@[m]));
                        }
                    }
                }
                best = i;
                best_key = k;
            }
            i = i + 1;
        }
        best
    }

    /// The entries ordered by key.
    pub fn sorted_entries(&self) -> (r: Vec<(String, String)>)
        requires
            self.wf(),
        ensures
            keys_unique(views_of(r@)),
            keys_sorted(views_of(r@)),
            entries_map(views_of(r@)) == self@,
    {
        let mut work = RouteTable { entries: Vec::new() };
        let mut i: usize = 0;
        while i < self.entries.len()
            invariant
                i <= self.entries.len(),
                work.pairs() == self.pairs().take(i as int),
            decreases self.entries.len() - i,
        {
            let ghost prev = work.entries@;
            let e = (self.entries[i].0.clone(), self.entries[i].1.clone());
            work.entries.push(e);
            proof {
                assert(work.entries@ == prev.push(e));
                assert(views_of(work.entries@) =~= views_of(prev).push(self.pairs()[i as int]));
                assert(self.pairs().take(i + 1) =~= self.pairs().take(i as int).push(
                    self.pairs()[i as int],
                ));
            }
            i = i + 1;
        }
        assert(self.pairs().take(self.entries.len() as int) =~= self.pairs());
        let mut out: Vec<(String, String)> = Vec::new();
        let ghost total = self@;
        while work.entries.len() > 0
            invariant
                work.wf(),
                total == self@,
                keys_unique(views_of(out@)),
                keys_sorted(views_of(out@)),
                forall|a: int, b: int| 0 <= a < out.len() && 0 <= b < work.entries.len() ==> text_lt(
                    #[trigger] views_of(out@)[a].0,
                    #[trigger] work.pairs()[b].0,
                ),
                entries_map(views_of(out@)).union_prefer_right(work@) == total,
                entries_map(views_of(out@)).dom().disjoint(work@.dom()),
            decreases work.entries.len(),
        {
            let ghost ov = views_of(out@);
            let ghost wv = work.pairs();
            let m = work.least_key();
            let (key, target) = work.entries.remove(m);
            proof {
                let k = wv[m as int].0;
                let nw = work.pairs();
                assert(nw =~= wv.remove(m as int));
                lemma_remove_map(wv, m as int);
                lemma_entries_map(wv, k);
                assert(keys_unique(nw)) by {
                    assert forall|a: int, b: int| 0 <= a < b < nw.len() implies #[trigger] nw[a].0
                        != #[trigger] nw[b].0 by {
                        if a < m {
                            if b < m {
                                assert(wv[a].0 != wv[b].0);
                            } else {
                                assert(wv[a].0 != wv[b + 1].0);
                            }
                        } else {
                            assert(wv[a + 1].0 != wv[b + 1].0);
                        }
                    }
                }
            }
            out.push((key, target));
            proof {
                let k = wv[m as int].0;
                let v = wv[m as int].1;
                let nw = work.pairs();
                let no = views_of(out@);
                assert(no =~= ov.push((k, v)));
                assert(no.drop_last() =~= ov);
                assert(entries_map(no) == entries_map(ov).insert(k, v));
                lemma_entries_map(ov, k);
                assert(!entries_map(ov).contains_key(k));
                if exists|a: int| 0 <= a < ov.len() && #[trigger] ov[a].0 == k {
                    let a = choose|a: int| 0 <= a < ov.len() && #[trigger] ov[a].0 == k;
                    assert(text_lt(ov[a].0, wv[m as int].0));
                    assert(!text_lt(k, k)) by {
                        if text_lt(k, k) {
                            let q = choose|q: int| 0 <= q <= k.len() && q <= k.len() && #[trigger] k.take(q) == k.take(q) && ((q == k.len() && q < k.len()) || (q < k.len() && q < k.len() && k[q] < k[q]));
                        }
                    }
                }
                assert forall|a: int, b: int| 0 <= a < b < no.len() implies #[trigger] no[a].0
                    != #[trigger] no[b].0 by {
                    if b == no.len() - 1 {
                        assert(no[a] == ov[a]);
                    } else {
                        assert(no[a] == ov[a] && no[b] == ov[b]);
                    }
                }
                assert forall|a: int, b: int| 0 <= a < b < no.len() implies text_lt(
                    #[trigger] no[a].0,
                    #[trigger] no[b].0,
                ) by {
                    assert(no[a] == ov[a]);
                    if b == no.len() - 1 {
                        assert(text_lt(ov[a].0, wv[m as int].0));
                    } else {
                        assert(no[b] == ov[b]);
                    }
                }
                assert forall|a: int, b: int| 0 <= a < no.len() && 0 <= b < nw.len() implies text_lt(
                    #[trigger] no[a].0,
                    #[trigger] nw[b].0,
                ) by {
                    let wb = if b < m { b } else { b + 1 };
                    assert(nw[b] == wv[wb]);
                    if a < ov.len() {
                        assert(no[a] == ov[a]);
                    } else {
                        assert(wv[wb].0 != wv[m as int].0);
                        assert(!text_lt(wv[wb].0, wv[m as int].0));
                        lemma_text_lt_total(wv[wb].0, wv[m as int].0);
                    }
                }
                lemma_entries_map(wv, k);
                assert(entries_map(wv).contains_key(k));
                assert(entries_map(wv)[k] == v);
                assert(entries_map(no).union_prefer_right(entries_map(nw)) =~= total);
                assert(entries_map(no).dom().disjoint(entries_map(nw).dom()));
            }
        }
        proof {
            assert(work.pairs().len() == 0);
            assert(work@ =~= Map::<Seq<char>, Seq<char>>::empty());
            let ov = views_of(out@);
            assert(entries_map(ov).union_prefer_right(work@) =~= entries_map(ov));
        }
        out
    }

    /// The entries, each key once, in the order they were first added.
    pub fn entries(&self) -> (r: &Vec<(String, String)>)
        requires
            self.wf(),
        ensures
            keys_unique(views_of(r@)),
            entries_map(views_of(r@)) == self@,
    {
        &self.entries
    }
}

proof fn lemma_unique_len(s: Seq<(Seq<char>, Seq<char>)>)
    requires
        keys_unique(s),
    ensures
        entries_map(s).dom().finite(),
        entries_map(s).len() == s.len(),
    decreases s.len(),
{
    if s.len() > 0 {
        let t = s.drop_last();
        assert(keys_unique(t)) by {
            assert forall|i: int, j: int| 0 <= i < j < t.len() implies #[trigger] t[i].0
                != #[trigger] t[j].0 by {
                assert(t[i] == s[i] && t[j] == s[j]);
            }
        }
        lemma_unique_len(t);
        lemma_entries_map(t, s.last().0);
        if entries_map(t).contains_key(s.last().0) {
            let i = choose|i: int| 0 <= i < t.len() && #[trigger] t[i].0 == s.last().0;
            assert(s[i] == t[i]);
        }
    }
}

proof fn lemma_update_map(s: Seq<(Seq<char>, Seq<char>)>, i: int, v: Seq<char>)
    requires
        keys_unique(s),
        0 <= i < s.len(),
    ensures
        entries_map(s.update(i, (s[i].0, v))) == entries_map(s).insert(s[i].0, v),
{
    let u = s.update(i, (s[i].0, v));
    assert(keys_unique(u)) by {
        assert forall|a: int, b: int| 0 <= a < b < u.len() implies #[trigger] u[a].0
            != #[trigger] u[b].0 by {
            assert(s[a].0 != s[b].0);
        }
    }
    assert forall|k: Seq<char>| #[trigger] entries_map(u).contains_key(k) == entries_map(s).insert(
        s[i].0,
        v,
    ).contains_key(k) && (entries_map(u).contains_key(k) ==> entries_map(u)[k] == entries_map(
        s,
    ).insert(s[i].0, v)[k]) by {
        lemma_entries_map(s, k);
        lemma_entries_map(u, k);
        assert(u[i].0 == s[i].0);
        if exists|j: int| 0 <= j < s.len() && #[trigger] s[j].0 == k {
            let j = choose|j: int| 0 <= j < s.len() && #[trigger] s[j].0 == k;
            assert(u[j].0 == k);
        }
        if exists|j: int| 0 <= j < u.len() && #[trigger] u[j].0 == k {
            let j = choose|j: int| 0 <= j < u.len() && #[trigger] u[j].0 == k;
            assert(s[j].0 == k);
        }
    }
    assert(entries_map(u) =~= entries_map(s).insert(s[i].0, v));
}

proof fn lemma_remove_map(s: Seq<(Seq<char>, Seq<char>)>, i: int)
    requires
        keys_unique(s),
        0 <= i < s.len(),
    ensures
        entries_map(s.remove(i)) == entries_map(s).remove(s[i].0),
{
    let u = s.remove(i);
    assert(keys_unique(u)) by {
        assert forall|a: int, b: int| 0 <= a < b < u.len() implies #[trigger] u[a].0
            != #[trigger] u[b].0 by {
            if a < i {
                if b < i {
                    assert(s[a].0 != s[b].0);
                } else {
                    assert(s[a].0 != s[b + 1].0);
                }
            } else {
                assert(s[a + 1].0 != s[b + 1].0);
            }
        }
    }
    assert forall|k: Seq<char>| #[trigger] entries_map(u).contains_key(k) == entries_map(s).remove(
        s[i].0,
    ).contains_key(k) && (entries_map(u).contains_key(k) ==> entries_map(u)[k] == entries_map(
        s,
    )[k]) by {
        lemma_entries_map(s, k);
        lemma_entries_map(u, k);
        if exists|j: int| 0 <= j < u.len() && #[trigger] u[j].0 == k {
            let j = choose|j: int| 0 <= j < u.len() && #[trigger] u[j].0 == k;
            if j < i {
                assert(u[j] == s[j]);
                assert(s[j].0 != s[i].0);
            } else {
                assert(u[j] == s[j + 1]);
                assert(s[j + 1].0 != s[i].0);
            }
        }
        if exists|j: int| 0 <= j < s.len() && #[trigger] s[j].0 == k && k != s[i].0 {
            let j = choose|j: int| 0 <= j < s.len() && #[trigger] s[j].0 == k && k != s[i].0;
            if j < i {
                assert(u[j] == s[j]);
            } else {
                assert(u[j - 1] == s[j]);
            }
        }
    }
    assert(entries_map(u) =~= entries_map(s).remove(s[i].0));
}

} // verus!
