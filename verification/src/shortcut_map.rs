//! A map from shortcut names to git commands, kept in ascending order of
//! name (the order in which a `BTreeMap<String, String>` holds its keys).
use vstd::prelude::*;
use crate::text::to_chars;

verus! {

/// Strict lexicographic order of character sequences (code point order,
/// which is also the byte order of their UTF-8 encodings).
pub open spec fn seq_lt(a: Seq<char>, b: Seq<char>) -> bool
    decreases a.len(),
{
    if a.len() == 0 {
        b.len() > 0
    } else if b.len() == 0 {
        false
    } else if a[0] != b[0] {
        a[0] < b[0]
    } else {
        seq_lt(a.drop_first(), b.drop_first())
    }
}

pub proof fn lemma_seq_lt_irreflexive(a: Seq<char>)
    ensures
        !seq_lt(a, a),
    decreases a.len(),
{
    if a.len() > 0 {
        lemma_seq_lt_irreflexive(a.drop_first());
    }
}

pub proof fn lemma_seq_lt_transitive(a: Seq<char>, b: Seq<char>, c: Seq<char>)
    requires
        seq_lt(a, b),
        seq_lt(b, c),
    ensures
        seq_lt(a, c),
    decreases a.len(),
{
    if a.len() > 0 && b.len() > 0 && c.len() > 0 && a[0] == b[0] && b[0] == c[0] {
        lemma_seq_lt_transitive(a.drop_first(), b.drop_first(), c.drop_first());
    }
}

pub proof fn lemma_seq_lt_total(a: Seq<char>, b: Seq<char>)
    requires
        a != b,
    ensures
        seq_lt(a, b) || seq_lt(b, a),
    decreases a.len(),
{
    if a.len() > 0 && b.len() > 0 && a[0] == b[0] {
        let a1 = a.drop_first();
        let b1 = b.drop_first();
        if a1 =~= b1 {
            assert(a.len() == b.len());
            assert forall|i: int| 0 <= i < a.len() implies a[i] == b[i] by {
                if i > 0 {
                    assert(a[i] == a1[i - 1]);
                    assert(b[i] == b1[i - 1]);
                }
            }
            assert(a =~= b);
        } else {
            lemma_seq_lt_total(a1, b1);
        }
    } else if a.len() == 0 && b.len() == 0 {
        assert(a =~= b);
    }
}

/// Compares two character sequences: negative, zero or positive as `a` is
/// below, equal to or above `b` in `seq_lt` order.
pub fn compare_chars(a: &Vec<char>, b: &Vec<char>) -> (r: i8)
    ensures
        (r < 0) == seq_lt(a@, b@),
        (r == 0) == (a@ == b@),
        (r > 0) == seq_lt(b@, a@),
{
    let mut i: usize = 0;
    assert(a@.skip(0) =~= a@);
    assert(b@.skip(0) =~= b@);
    loop
        invariant
            i <= a@.len(),
            i <= b@.len(),
            forall|j: int| 0 <= j < i ==> a@[j] == b@[j],
            seq_lt(a@, b@) == seq_lt(a@.skip(i as int), b@.skip(i as int)),
            seq_lt(b@, a@) == seq_lt(b@.skip(i as int), a@.skip(i as int)),
        decreases a@.len() - i,
    {
        if i == a.len() || i == b.len() {
            proof {
                if i == a@.len() && i == b@.len() {
                    assert(a@ =~= b@);
                    lemma_seq_lt_irreflexive(a@);
                }
                if a@ == b@ {
                    assert(i == a@.len() && i == b@.len());
                }
            }
            if i == a.len() && i == b.len() {
                return 0;
            } else if i == a.len() {
                return -1;
            } else {
                return 1;
            }
        }
        if a[i] != b[i] {
            proof {
                assert(a@.skip(i as int)[0] == a@[i as int]);
                assert(b@.skip(i as int)[0] == b@[i as int]);
                assert(a@ != b@ ==> true);
                if a@ == b@ {
                    assert(a@[i as int] == b@[i as int]);
                }
            }
            if a[i] < b[i] {
                return -1;
            } else {
                return 1;
            }
        }
        assert(a@.skip(i as int).drop_first() =~= a@.skip(i + 1));
        assert(b@.skip(i as int).drop_first() =~= b@.skip(i + 1));
        assert(a@.skip(i as int)[0] == a@[i as int]);
        assert(b@.skip(i as int)[0] == b@[i as int]);
        i = i + 1;
    }
}

/// The name and command of each entry, as character sequences.
pub open spec fn pairs_view(e: Seq<(String, String)>) -> Seq<(Seq<char>, Seq<char>)> {
    Seq::new(e.len(), |i: int| (e[i].0@, e[i].1@))
}

/// Names strictly ascending, hence distinct.
pub open spec fn strictly_sorted(p: Seq<(Seq<char>, Seq<char>)>) -> bool {
    forall|i: int, j: int| 0 <= i < j < p.len() ==> seq_lt(#[trigger] p[i].0, #[trigger] p[j].0)
}

pub open spec fn distinct_keys(p: Seq<(Seq<char>, Seq<char>)>) -> bool {
    forall|i: int, j: int| 0 <= i < j < p.len() ==> #[trigger] p[i].0 != #[trigger] p[j].0
}

/// The map that a list of entries describes.
pub open spec fn map_of(p: Seq<(Seq<char>, Seq<char>)>) -> Map<Seq<char>, Seq<char>>
    decreases p.len(),
{
    if p.len() == 0 {
        Map::empty()
    } else {
        map_of(p.drop_last()).insert(p.last().0, p.last().1)
    }
}

pub proof fn lemma_sorted_distinct(p: Seq<(Seq<char>, Seq<char>)>)
    requires
        strictly_sorted(p),
    ensures
        distinct_keys(p),
{
    assert forall|i: int, j: int| 0 <= i < j < p.len() implies #[trigger] p[i].0
        != #[trigger] p[j].0 by {
        lemma_seq_lt_irreflexive(p[i].0);
    }
}

/// For entries with distinct names, `map_of` holds exactly the entries.
pub proof fn lemma_map_of(p: Seq<(Seq<char>, Seq<char>)>)
    requires
        distinct_keys(p),
    ensures
        forall|i: int|
            0 <= i < p.len() ==> #[trigger] map_of(p).dom().contains(p[i].0) && map_of(p)[p[i].0]
                == p[i].1,
        forall|k: Seq<char>| #[trigger]
            map_of(p).dom().contains(k) ==> exists|i: int| 0 <= i < p.len() && p[i].0 == k,
        map_of(p).dom().finite(),
        map_of(p).dom().len() == p.len(),
    decreases p.len(),
{
    if p.len() > 0 {
        let q = p.drop_last();
        assert(distinct_keys(q)) by {
            assert forall|i: int, j: int| 0 <= i < j < q.len() implies #[trigger] q[i].0
                != #[trigger] q[j].0 by {
                assert(q[i] == p[i] && q[j] == p[j]);
            }
        }
        lemma_map_of(q);
        let last = p.last();
        assert(!map_of(q).dom().contains(last.0)) by {
            if map_of(q).dom().contains(last.0) {
                let i = choose|i: int| 0 <= i < q.len() && q[i].0 == last.0;
                assert(p[i].0 == p[p.len() - 1].0);
            }
        }
        assert forall|i: int| 0 <= i < p.len() implies #[trigger] map_of(p).dom().contains(p[i].0)
            && map_of(p)[p[i].0] == p[i].1 by {
            if i < p.len() - 1 {
                assert(q[i] == p[i]);
                assert(p[i].0 != p[p.len() - 1].0);
            }
        }
        assert forall|k: Seq<char>| #[trigger]
            map_of(p).dom().contains(k) implies exists|i: int| 0 <= i < p.len() && p[i].0 == k by {
            if k != last.0 {
                assert(map_of(q).dom().contains(k));
                let i = choose|i: int| 0 <= i < q.len() && q[i].0 == k;
                assert(p[i] == q[i]);
            } else {
                assert(p[p.len() - 1].0 == k);
            }
        }
    }
}

/// Two entry lists with distinct names and the same entries (in any order)
/// describe the same map.
pub proof fn lemma_map_of_same_entries(
    p: Seq<(Seq<char>, Seq<char>)>,
    m: Map<Seq<char>, Seq<char>>,
)
    requires
        distinct_keys(p),
        forall|i: int| 0 <= i < p.len() ==> #[trigger] m.dom().contains(p[i].0) && m[p[i].0] == p[i].1,
        forall|k: Seq<char>| #[trigger]
            m.dom().contains(k) ==> exists|i: int| 0 <= i < p.len() && p[i].0 == k,
    ensures
        map_of(p) == m,
{
    lemma_map_of(p);
    assert forall|k: Seq<char>| #[trigger] map_of(p).dom().contains(k) == m.dom().contains(k) by {
        if map_of(p).dom().contains(k) {
            let i = choose|i: int| 0 <= i < p.len() && p[i].0 == k;
            assert(m.dom().contains(p[i].0));
        }
        if m.dom().contains(k) {
            let i = choose|i: int| 0 <= i < p.len() && p[i].0 == k;
            assert(map_of(p).dom().contains(p[i].0));
        }
    }
    assert forall|k: Seq<char>| #[trigger] map_of(p).dom().contains(k) implies map_of(p)[k]
        == m[k] by {
        let i = choose|i: int| 0 <= i < p.len() && p[i].0 == k;
        assert(map_of(p)[p[i].0] == p[i].1);
        assert(m[p[i].0] == p[i].1);
    }
    assert(map_of(p) =~= m);
}

/// A map from shortcut names to git commands.
pub struct ShortcutMap {
    entries: Vec<(String, String)>,
}

impl ShortcutMap {
    #[verifier::type_invariant]
    closed spec fn inv(self) -> bool {
        strictly_sorted(pairs_view(self.entries@))
    }

    /// The entries, in ascending order of name.
    pub closed spec fn sorted_entries(self) -> Seq<(Seq<char>, Seq<char>)> {
        pairs_view(self.entries@)
    }

    /// An empty map.
    pub fn new() -> (r: Self)
        ensures
            r@ == Map::<Seq<char>, Seq<char>>::empty(),
            r.sorted_entries().len() == 0,
    {
        let r = ShortcutMap { entries: Vec::new() };
        assert(pairs_view(r.entries@) =~= Seq::<(Seq<char>, Seq<char>)>::empty());
        r
    }

    /// Number of entries strictly below `key`, and whether `key` is present.
    fn locate(&self, key: &Vec<char>) -> (r: (usize, bool))
        ensures
            r.0 <= self.sorted_entries().len(),
            forall|i: int| 0 <= i < r.0 ==> seq_lt(#[trigger] self.sorted_entries()[i].0, key@),
            forall|i: int|
                r.0 <= i < self.sorted_entries().len() ==> #[trigger] self.sorted_entries()[i].0
                    == key@ || seq_lt(key@, self.sorted_entries()[i].0),
            r.1 == (r.0 < self.sorted_entries().len() && self.sorted_entries()[r.0 as int].0
                == key@),
            r.1 == self@.dom().contains(key@),
            r.1 ==> self@[key@] == self.sorted_entries()[r.0 as int].1,
    {
        proof {
            use_type_invariant(self);
        }
        let ghost p = pairs_view(self.entries@);
        let n = self.entries.len();
        let mut pos: usize = 0;
        while pos < n
            invariant
                n == self.entries@.len(),
                p == pairs_view(self.entries@),
                strictly_sorted(p),
                pos <= n,
                forall|i: int| 0 <= i < pos ==> seq_lt(#[trigger] p[i].0, key@),
            ensures
                pos <= n,
                forall|i: int| 0 <= i < pos ==> seq_lt(#[trigger] p[i].0, key@),
                pos < n ==> !seq_lt(p[pos as int].0, key@),
            decreases n - pos,
        {
            let name = to_chars(self.entries[pos].0.as_str());
            let sign = compare_chars(&name, key);
            if sign >= 0 {
                break;
            }
            pos = pos + 1;
        }
        let found = pos < n && {
            let name = to_chars(self.entries[pos].0.as_str());
            compare_chars(&name, key) == 0
        };
        proof {
            lemma_sorted_distinct(p);
            lemma_map_of(p);
            if pos < n {
                let first = p[pos as int].0;
                if seq_lt(first, key@) {
                    // the loop stopped early only when the name was not below the key
                }
                assert forall|i: int| pos <= i < p.len() implies #[trigger] p[i].0 == key@
                    || seq_lt(key@, p[i].0) by {
                    if !seq_lt(first, key@) {
                        if first != key@ {
                            lemma_seq_lt_total(first, key@);
                        }
                        if i > pos {
                            assert(seq_lt(p[pos as int].0, p[i].0));
                            if first != key@ {
                                lemma_seq_lt_transitive(key@, first, p[i].0);
                            }
                        }
                    }
                }
            }
            if self@.dom().contains(key@) {
                let i = choose|i: int| 0 <= i < p.len() && p[i].0 == key@;
                if i < pos {
                    lemma_seq_lt_irreflexive(key@);
                }
                if i > pos {
                    assert(seq_lt(p[pos as int].0, p[i].0));
                    if p[pos as int].0 != key@ {
                        lemma_seq_lt_transitive(key@, p[pos as int].0, key@);
                        lemma_seq_lt_irreflexive(key@);
                    }
                }
            }
        }
        (pos, found)
    }
}

impl ShortcutMap {
    /// A map with the same shortcuts.
    pub fn copied(&self) -> (r: Self)
        ensures
            r@ == self@,
            r.sorted_entries() == self.sorted_entries(),
    {
        let entries = self.entry_list();
        ShortcutMap { entries }
    }

    /// Number of shortcuts.
    pub fn len(&self) -> (r: usize)
        ensures
            r == self@.dom().len(),
            self@.dom().finite(),
    {
        proof {
            use_type_invariant(self);
            lemma_sorted_distinct(pairs_view(self.entries@));
            lemma_map_of(pairs_view(self.entries@));
        }
        self.entries.len()
    }

    /// Whether there is no shortcut.
    pub fn is_empty(&self) -> (r: bool)
        ensures
            r == (self@.dom().len() == 0),
            r == (self@ == Map::<Seq<char>, Seq<char>>::empty()),
    {
        proof {
            use_type_invariant(self);
            lemma_sorted_distinct(pairs_view(self.entries@));
            lemma_map_of(pairs_view(self.entries@));
            if self.entries@.len() > 0 {
                assert(self@.dom().contains(pairs_view(self.entries@)[0].0));
            } else {
                assert(self@ =~= Map::<Seq<char>, Seq<char>>::empty());
            }
        }
        self.entries.len() == 0
    }

    /// Whether a shortcut of this name exists.
    pub fn contains_key(&self, key: &str) -> (r: bool)
        ensures
            r == self@.dom().contains(key@),
    {
        let k = to_chars(key);
        let (_, found) = self.locate(&k);
        found
    }

    /// The command of the shortcut of this name.
    pub fn get(&self, key: &str) -> (r: Option<String>)
        ensures
            r is Some == self@.dom().contains(key@),
            r is Some ==> r->0@ == self@[key@],
    {
        let k = to_chars(key);
        let (pos, found) = self.locate(&k);
        if found {
            Some(self.entries[pos].1.clone())
        } else {
            None
        }
    }

    /// Sets the command of a shortcut; tells whether the name existed.
    pub fn insert(&mut self, key: String, value: String) -> (existed: bool)
        ensures
            final(self)@ == old(self)@.insert(key@, value@),
            existed == old(self)@.dom().contains(key@),
    {
        proof {
            use_type_invariant(&*self);
        }
        let k = to_chars(key.as_str());
        let (pos, found) = self.locate(&k);
        let ghost p = pairs_view(self.entries@);
        let ghost kv = key@;
        let ghost vv = value@;
        let ghost m = self@.insert(kv, vv);
        let mut entries: Vec<(String, String)> = Vec::new();
        std::mem::swap(&mut entries, &mut self.entries);
        assert(pairs_view(entries@) == p);
        proof {
            lemma_sorted_distinct(p);
            lemma_map_of(p);
        }
        if found {
            entries.set(pos, (key, value));
            proof {
                let q = pairs_view(entries@);
                assert(q =~= p.update(pos as int, (kv, vv)));
                assert(strictly_sorted(q)) by {
                    assert forall|i: int, j: int| 0 <= i < j < q.len() implies seq_lt(
                        #[trigger] q[i].0,
                        #[trigger] q[j].0,
                    ) by {
                        assert(q[i].0 == p[i].0 && q[j].0 == p[j].0);
                    }
                }
                lemma_sorted_distinct(q);
                assert forall|i: int| 0 <= i < q.len() implies #[trigger] m.dom().contains(q[i].0)
                    && m[q[i].0] == q[i].1 by {
                    if i != pos {
                        assert(q[i] == p[i]);
                        assert(p[i].0 != p[pos as int].0);
                    }
                }
                assert forall|kk: Seq<char>| #[trigger] m.dom().contains(kk) implies exists|i: int|
                    0 <= i < q.len() && q[i].0 == kk by {
                    if kk != kv {
                        let i = choose|i: int| 0 <= i < p.len() && p[i].0 == kk;
                        assert(q[i].0 == kk);
                    } else {
                        assert(q[pos as int].0 == kk);
                    }
                }
                lemma_map_of_same_entries(q, m);
            }
        } else {
            entries.insert(pos, (key, value));
            proof {
                let q = pairs_view(entries@);
                assert(q =~= p.insert(pos as int, (kv, vv)));
                assert(strictly_sorted(q)) by {
                    assert forall|i: int, j: int| 0 <= i < j < q.len() implies seq_lt(
                        #[trigger] q[i].0,
                        #[trigger] q[j].0,
                    ) by {
                        if j < pos {
                            assert(q[i] == p[i] && q[j] == p[j]);
                        } else if j == pos {
                            assert(q[i] == p[i]);
                        } else if i == pos {
                            assert(q[j] == p[j - 1]);
                            assert(p[j - 1].0 == kv || seq_lt(kv, p[j - 1].0));
                        } else if i < pos {
                            assert(q[i] == p[i] && q[j] == p[j - 1]);
                            assert(seq_lt(p[i].0, kv));
                            assert(p[j - 1].0 == kv || seq_lt(kv, p[j - 1].0));
                            if p[j - 1].0 != kv {
                                lemma_seq_lt_transitive(p[i].0, kv, p[j - 1].0);
                            }
                        } else {
                            assert(q[i] == p[i - 1] && q[j] == p[j - 1]);
                        }
                    }
                }
                lemma_sorted_distinct(q);
                assert forall|i: int| 0 <= i < q.len() implies #[trigger] m.dom().contains(q[i].0)
                    && m[q[i].0] == q[i].1 by {
                    if i < pos {
                        assert(q[i] == p[i]);
                        assert(q[i].0 != q[pos as int].0);
                    } else if i > pos {
                        assert(q[i] == p[i - 1]);
                        assert(q[i].0 != q[pos as int].0);
                    }
                }
                assert forall|kk: Seq<char>| #[trigger] m.dom().contains(kk) implies exists|i: int|
                    0 <= i < q.len() && q[i].0 == kk by {
                    if kk != kv {
                        let i = choose|i: int| 0 <= i < p.len() && p[i].0 == kk;
                        if i < pos {
                            assert(q[i].0 == kk);
                        } else {
                            assert(q[i + 1].0 == kk);
                        }
                    } else {
                        assert(q[pos as int].0 == kk);
                    }
                }
                lemma_map_of_same_entries(q, m);
            }
        }
        self.entries = entries;
        found
    }

    /// Removes a shortcut; gives back its command if it existed.
    pub fn remove(&mut self, key: &str) -> (r: Option<String>)
        ensures
            final(self)@ == old(self)@.remove(key@),
            r is Some == old(self)@.dom().contains(key@),
            r is Some ==> r->0@ == old(self)@[key@],
    {
        proof {
            use_type_invariant(&*self);
        }
        let k = to_chars(key);
        let (pos, found) = self.locate(&k);
        if !found {
            assert(self@.remove(key@) =~= self@);
            return None;
        }
        let ghost p = pairs_view(self.entries@);
        let ghost kv = key@;
        let ghost m = self@.remove(kv);
        let mut entries: Vec<(String, String)> = Vec::new();
        std::mem::swap(&mut entries, &mut self.entries);
        assert(pairs_view(entries@) == p);
        proof {
            lemma_sorted_distinct(p);
            lemma_map_of(p);
        }
        let removed = entries.remove(pos);
        proof {
            let q = pairs_view(entries@);
            assert(q =~= p.remove(pos as int));
            assert(strictly_sorted(q)) by {
                assert forall|i: int, j: int| 0 <= i < j < q.len() implies seq_lt(
                    #[trigger] q[i].0,
                    #[trigger] q[j].0,
                ) by {
                    if j < pos {
                        assert(q[i] == p[i] && q[j] == p[j]);
                    } else if i < pos {
                        assert(q[i] == p[i] && q[j] == p[j + 1]);
                    } else {
                        assert(q[i] == p[i + 1] && q[j] == p[j + 1]);
                    }
                }
            }
            lemma_sorted_distinct(q);
            assert forall|i: int| 0 <= i < q.len() implies #[trigger] m.dom().contains(q[i].0)
                && m[q[i].0] == q[i].1 by {
                if i < pos {
                    assert(q[i] == p[i]);
                    assert(p[i].0 != p[pos as int].0);
                } else {
                    assert(q[i] == p[i + 1]);
                    assert(p[i + 1].0 != p[pos as int].0);
                }
            }
            assert forall|kk: Seq<char>| #[trigger] m.dom().contains(kk) implies exists|i: int|
                0 <= i < q.len() && q[i].0 == kk by {
                let i = choose|i: int| 0 <= i < p.len() && p[i].0 == kk;
                assert(i != pos);
                if i < pos {
                    assert(q[i].0 == kk);
                } else {
                    assert(q[i - 1].0 == kk);
                }
            }
            lemma_map_of_same_entries(q, m);
        }
        self.entries = entries;
        Some(removed.1)
    }

    /// Removes every shortcut.
    pub fn clear(&mut self)
        ensures
            final(self)@ == Map::<Seq<char>, Seq<char>>::empty(),
    {
        self.entries = Vec::new();
        assert(pairs_view(self.entries@) =~= Seq::<(Seq<char>, Seq<char>)>::empty());
    }

    /// The shortcuts, in ascending order of name.
    pub fn entry_list(&self) -> (r: Vec<(String, String)>)
        ensures
            pairs_view(r@) == self.sorted_entries(),
            strictly_sorted(pairs_view(r@)),
            map_of(pairs_view(r@)) == self@,
    {
        proof {
            use_type_invariant(self);
        }
        let mut r: Vec<(String, String)> = Vec::new();
        let mut i: usize = 0;
        while i < self.entries.len()
            invariant
                i <= self.entries@.len(),
                pairs_view(r@) =~= pairs_view(self.entries@).take(i as int),
            decreases self.entries@.len() - i,
        {
            let name = self.entries[i].0.clone();
            let command = self.entries[i].1.clone();
            let ghost before = r@;
            r.push((name, command));
            assert(r@ == before.push((name, command)));
            assert(pairs_view(r@) =~= pairs_view(before).push((name@, command@)));
            i = i + 1;
        }
        assert(pairs_view(self.entries@).take(self.entries@.len() as int) =~= pairs_view(
            self.entries@,
        ));
        r
    }
}

impl View for ShortcutMap {
    type V = Map<Seq<char>, Seq<char>>;

    closed spec fn view(&self) -> Map<Seq<char>, Seq<char>> {
        map_of(pairs_view(self.entries@))
    }
}

} // verus!
