use crate::transaction::{strs_view, Transaction, TransactionView};
use vstd::prelude::*;

verus! {

/// The views of a sequence of transactions.
pub open spec fn txn_views(s: Seq<Transaction>) -> Seq<TransactionView> {
    s.map_values(|t: Transaction| t@)
}

/// No two entries carry the same id.
pub open spec fn ids_unique(s: Seq<TransactionView>) -> bool {
    forall|i: int, j: int| 0 <= i < s.len() && 0 <= j < s.len() && i != j ==> s[i].id != s[j].id
}

/// Some entry of `s` carries the id `k`.
pub open spec fn has_id(s: Seq<TransactionView>, k: Seq<char>) -> bool {
    exists|i: int| 0 <= i < s.len() && s[i].id == k
}

/// The transactions of `s` keyed by their ids.
pub open spec fn index_map(s: Seq<TransactionView>) -> Map<Seq<char>, TransactionView> {
    Map::new(
        |k: Seq<char>| has_id(s, k),
        |k: Seq<char>| s[choose|i: int| 0 <= i < s.len() && s[i].id == k],
    )
}

/// Every id of `parents` is a transaction of `m`.
pub open spec fn parents_present(
    m: Map<Seq<char>, TransactionView>,
    parents: Seq<Seq<char>>,
) -> bool {
    forall|i: int| 0 <= i < parents.len() ==> m.contains_key(#[trigger] parents[i])
}

/// Every transaction's parents are themselves transactions of `m`.
pub open spec fn parent_closed(m: Map<Seq<char>, TransactionView>) -> bool {
    forall|k: Seq<char>| #[trigger] m.contains_key(k) ==> parents_present(m, m[k].parents)
}

/// Every transaction is stored under its own id.
pub open spec fn keyed_by_id(m: Map<Seq<char>, TransactionView>) -> bool {
    forall|k: Seq<char>| #[trigger] m.contains_key(k) ==> m[k].id == k
}

/// What adding `t` does to the DAG `m`: it is stored under its id when all
/// its parents are present, and `m` is left as it is otherwise.
pub open spec fn add_spec(m: Map<Seq<char>, TransactionView>, t: TransactionView) -> Map<
    Seq<char>,
    TransactionView,
> {
    if parents_present(m, t.parents) {
        m.insert(t.id, t)
    } else {
        m
    }
}


/// `rank` gives every transaction of `m` a number larger than those of its
/// parents in `m`.
pub open spec fn ranked(m: Map<Seq<char>, TransactionView>, rank: Map<Seq<char>, nat>) -> bool {
    &&& forall|k: Seq<char>| #[trigger] m.contains_key(k) ==> rank.contains_key(k)
    &&& forall|k: Seq<char>, i: int|
        #![trigger m[k].parents[i]]
        m.contains_key(k) && 0 <= i < m[k].parents.len() && m.contains_key(m[k].parents[i])
            ==> rank[m[k].parents[i]] < rank[k]
}

/// The parent edges of `m` form no cycle: some ranking decreases along every edge.
pub open spec fn acyclic(m: Map<Seq<char>, TransactionView>) -> bool {
    exists|rank: Map<Seq<char>, nat>| ranked(m, rank)
}

/// The largest rank among `parents` (0 when there are none).
pub open spec fn max_rank(parents: Seq<Seq<char>>, rank: Map<Seq<char>, nat>) -> nat
    decreases parents.len(),
{
    if parents.len() == 0 {
        0
    } else {
        let r = max_rank(parents.drop_last(), rank);
        if rank[parents.last()] > r {
            rank[parents.last()]
        } else {
            r
        }
    }
}

proof fn lemma_max_rank_bounds(parents: Seq<Seq<char>>, rank: Map<Seq<char>, nat>, i: int)
    requires
        0 <= i < parents.len(),
    ensures
        rank[parents[i]] <= max_rank(parents, rank),
    decreases parents.len(),
{
    if i < parents.len() - 1 {
        lemma_max_rank_bounds(parents.drop_last(), rank, i);
        assert(parents.drop_last()[i] == parents[i]);
    }
}

/// The empty DAG has no cycle.
pub proof fn lemma_empty_acyclic()
    ensures
        acyclic(Map::<Seq<char>, TransactionView>::empty()),
{
    let rank = Map::<Seq<char>, nat>::empty();
    assert(ranked(Map::<Seq<char>, TransactionView>::empty(), rank));
}

/// Adding a transaction to a parent-closed DAG without a cycle leaves it
/// without a cycle, provided the id is new or already names this very
/// transaction (as it does when the id is the digest of the contents).
pub proof fn lemma_add_keeps_acyclic(m: Map<Seq<char>, TransactionView>, t: TransactionView)
    requires
        parent_closed(m),
        acyclic(m),
        !m.contains_key(t.id) || m[t.id] == t,
    ensures
        acyclic(add_spec(m, t)),
{
    let rank = choose|rank: Map<Seq<char>, nat>| ranked(m, rank);
    if !parents_present(m, t.parents) {
        assert(add_spec(m, t) == m);
    } else if m.contains_key(t.id) {
        assert(add_spec(m, t) =~= m);
    } else {
        let m2 = add_spec(m, t);
        let top = max_rank(t.parents, rank) + 1;
        let rank2 = rank.insert(t.id, top as nat);
        assert forall|k: Seq<char>, i: int|
            #![trigger m2[k].parents[i]]
            m2.contains_key(k) && 0 <= i < m2[k].parents.len() && m2.contains_key(m2[k].parents[i])
                implies rank2[m2[k].parents[i]] < rank2[k] by {
            if k == t.id {
                let p = t.parents[i];
                assert(m.contains_key(p));
                lemma_max_rank_bounds(t.parents, rank, i);
            } else {
                assert(m.contains_key(k));
                let p = m[k].parents[i];
                assert(parents_present(m, m[k].parents));
                assert(m.contains_key(p));
                assert(m[k].parents[i] == p);
            }
        }
        assert(ranked(m2, rank2));
    }
}

/// Adding a transaction whose parents are all present stores exactly that
/// transaction (its id, data and parents in their order) under its id, and
/// leaves every other entry as it was; otherwise the DAG is unchanged.
pub proof fn lemma_add_stores_exactly(m: Map<Seq<char>, TransactionView>, t: TransactionView)
    ensures
        parents_present(m, t.parents) ==> add_spec(m, t).contains_key(t.id) && add_spec(m, t)[t.id]
            == t,
        forall|k: Seq<char>|
            k != t.id ==> (#[trigger] add_spec(m, t).contains_key(k) == m.contains_key(k)),
        forall|k: Seq<char>|
            k != t.id && m.contains_key(k) ==> #[trigger] add_spec(m, t)[k] == m[k],
        !parents_present(m, t.parents) ==> add_spec(m, t) == m,
{
}

/// Adding the same transaction a second time changes nothing.
pub proof fn lemma_add_idempotent(m: Map<Seq<char>, TransactionView>, t: TransactionView)
    ensures
        add_spec(add_spec(m, t), t) == add_spec(m, t),
{
    let m2 = add_spec(m, t);
    if parents_present(m, t.parents) {
        assert forall|i: int| 0 <= i < t.parents.len() implies m2.contains_key(
            #[trigger] t.parents[i],
        ) by {
            assert(m.contains_key(t.parents[i]));
        }
        assert(m2.insert(t.id, t) =~= m2);
    }
}

/// Parents that are valid in a DAG stay valid after any further addition.
pub proof fn lemma_validation_monotone(
    m: Map<Seq<char>, TransactionView>,
    t: TransactionView,
    parents: Seq<Seq<char>>,
)
    requires
        parents_present(m, parents),
    ensures
        parents_present(add_spec(m, t), parents),
{
    assert forall|i: int| 0 <= i < parents.len() implies add_spec(m, t).contains_key(
        #[trigger] parents[i],
    ) by {
        assert(m.contains_key(parents[i]));
    }
}

/// The DAG of transactions, keyed by transaction id.
pub struct DAG {
    transactions: Vec<Transaction>,
}

impl View for DAG {
    type V = Map<Seq<char>, TransactionView>;

    closed spec fn view(&self) -> Map<Seq<char>, TransactionView> {
        index_map(txn_views(self.transactions@))
    }
}

proof fn lemma_index_map_at(s: Seq<TransactionView>, i: int)
    requires
        ids_unique(s),
        0 <= i < s.len(),
    ensures
        index_map(s).contains_key(s[i].id),
        index_map(s)[s[i].id] == s[i],
{
    assert(has_id(s, s[i].id));
    let j = choose|j: int| 0 <= j < s.len() && s[j].id == s[i].id;
    assert(j == i);
}

proof fn lemma_index_map_keyed(s: Seq<TransactionView>)
    requires
        ids_unique(s),
    ensures
        keyed_by_id(index_map(s)),
{
    assert forall|k: Seq<char>| #[trigger] index_map(s).contains_key(k) implies index_map(s)[k].id
        == k by {
        let i = choose|i: int| 0 <= i < s.len() && s[i].id == k;
        lemma_index_map_at(s, i);
    }
}

proof fn lemma_index_map_push(s: Seq<TransactionView>, t: TransactionView)
    requires
        ids_unique(s),
        !has_id(s, t.id),
    ensures
        ids_unique(s.push(t)),
        index_map(s.push(t)) =~= index_map(s).insert(t.id, t),
{
    let s2 = s.push(t);
    assert(ids_unique(s2));
    assert forall|k: Seq<char>| #[trigger] has_id(s2, k) <==> (has_id(s, k) || k == t.id) by {
        if has_id(s2, k) {
            let i = choose|i: int| 0 <= i < s2.len() && s2[i].id == k;
            if i < s.len() {
                assert(s[i].id == k);
            }
        }
        if has_id(s, k) {
            let i = choose|i: int| 0 <= i < s.len() && s[i].id == k;
            assert(s2[i].id == k);
        }
        if k == t.id {
            assert(s2[s.len() as int].id == k);
        }
    }
    assert forall|k: Seq<char>| #[trigger] index_map(s2).contains_key(k) implies index_map(s2)[k]
        == index_map(s).insert(t.id, t)[k] by {
        let i = choose|i: int| 0 <= i < s2.len() && s2[i].id == k;
        lemma_index_map_at(s2, i);
        if i < s.len() {
            assert(s2[i] == s[i]);
            lemma_index_map_at(s, i);
        }
    }
}

proof fn lemma_index_map_update(s: Seq<TransactionView>, i: int, t: TransactionView)
    requires
        ids_unique(s),
        0 <= i < s.len(),
        s[i].id == t.id,
    ensures
        ids_unique(s.update(i, t)),
        index_map(s.update(i, t)) =~= index_map(s).insert(t.id, t),
{
    let s2 = s.update(i, t);
    assert(ids_unique(s2));
    assert forall|k: Seq<char>| #[trigger] has_id(s2, k) <==> has_id(s, k) by {
        if has_id(s2, k) {
            let j = choose|j: int| 0 <= j < s2.len() && s2[j].id == k;
            assert(s[j].id == k);
        }
        if has_id(s, k) {
            let j = choose|j: int| 0 <= j < s.len() && s[j].id == k;
            assert(s2[j].id == k);
        }
    }
    assert(has_id(s, t.id));
    assert forall|k: Seq<char>| #[trigger] index_map(s2).contains_key(k) implies index_map(s2)[k]
        == index_map(s).insert(t.id, t)[k] by {
        let j = choose|j: int| 0 <= j < s2.len() && s2[j].id == k;
        lemma_index_map_at(s2, j);
        if j != i {
            assert(s2[j] == s[j]);
            lemma_index_map_at(s, j);
        }
    }
}

proof fn lemma_index_map_len(s: Seq<TransactionView>)
    requires
        ids_unique(s),
    ensures
        index_map(s).dom().finite(),
        index_map(s).dom().len() == s.len(),
    decreases s.len(),
{
    if s.len() == 0 {
        assert(index_map(s).dom() =~= Set::empty());
    } else {
        let w = s.drop_last();
        assert(ids_unique(w));
        lemma_index_map_len(w);
        assert(!has_id(w, s.last().id)) by {
            if has_id(w, s.last().id) {
                let i = choose|i: int| 0 <= i < w.len() && w[i].id == s.last().id;
                assert(s[i].id == s[s.len() - 1].id);
            }
        }
        lemma_index_map_push(w, s.last());
        assert(w.push(s.last()) =~= s);
        assert(!index_map(w).dom().contains(s.last().id));
        assert(index_map(s).dom() =~= index_map(w).dom().insert(s.last().id));
    }
}

/// Adding a transaction never drops one and keeps the DAG parent-closed and
/// keyed by id.
pub proof fn lemma_add_keeps_parent_closed(m: Map<Seq<char>, TransactionView>, t: TransactionView)
    requires
        parent_closed(m),
    ensures
        parent_closed(add_spec(m, t)),
        m.dom().subset_of(add_spec(m, t).dom()),
{
    let m2 = add_spec(m, t);
    if parents_present(m, t.parents) {
        assert forall|k: Seq<char>| #[trigger] m2.contains_key(k) implies parents_present(
            m2,
            m2[k].parents,
        ) by {
            if k == t.id {
                assert forall|i: int| 0 <= i < t.parents.len() implies m2.contains_key(
                    #[trigger] t.parents[i],
                ) by {
                    assert(m.contains_key(t.parents[i]));
                }
            } else {
                assert(m.contains_key(k));
                assert(parents_present(m, m[k].parents));
                assert forall|i: int| 0 <= i < m2[k].parents.len() implies m2.contains_key(
                    #[trigger] m2[k].parents[i],
                ) by {
                    assert(m.contains_key(m[k].parents[i]));
                }
            }
        }
    }
}

impl DAG {
    #[verifier::type_invariant]
    spec fn well_formed(self) -> bool {
        &&& ids_unique(txn_views(self.transactions@))
        &&& parent_closed(index_map(txn_views(self.transactions@)))
    }

    /// An empty DAG.
    pub fn new() -> (dag: Self)
        ensures
            dag@ == Map::<Seq<char>, TransactionView>::empty(),
            parent_closed(dag@),
    {
        let dag = DAG { transactions: Vec::new() };
        assert(dag@ =~= Map::<Seq<char>, TransactionView>::empty());
        dag
    }

    /// Position of the transaction with id `id`, if any.
    fn position(&self, id: &String) -> (r: Option<usize>)
        ensures
            match r {
                Some(i) => i < self.transactions@.len() && self.transactions@[i as int].id@ == id@,
                None => !has_id(txn_views(self.transactions@), id@),
            },
    {
        let n = self.transactions.len();
        for i in 0..n
            invariant
                n == self.transactions@.len(),
                forall|j: int| 0 <= j < i ==> self.transactions@[j].id@ != id@,
        {
            if self.transactions[i].id == *id {
                return Some(i);
            }
        }
        None
    }

    /// Whether the DAG holds a transaction with id `id`.
    pub fn contains(&self, id: &String) -> (b: bool)
        ensures
            b == self@.contains_key(id@),
    {
        match self.position(id) {
            Some(i) => {
                assert(txn_views(self.transactions@)[i as int].id == id@);
                true
            },
            None => false,
        }
    }

    /// Whether every parent id names a transaction of the DAG.
    pub fn validate_parents(&self, parents: &[String]) -> (valid: bool)
        ensures
            valid == parents_present(self@, strs_view(parents@)),
    {
        let n = parents.len();
        for i in 0..n
            invariant
                n == parents@.len(),
                forall|j: int| 0 <= j < i ==> self@.contains_key(#[trigger] strs_view(parents@)[j]),
        {
            if !self.contains(&parents[i]) {
                assert(!self@.contains_key(strs_view(parents@)[i as int]));
                return false;
            }
        }
        true
    }

    /// Adds `txn` under its id when all its parents are in the DAG (replacing
    /// a transaction with the same id), and leaves the DAG unchanged
    /// otherwise; the result says which happened.
    pub fn add_transaction(&mut self, txn: Transaction) -> (added: bool)
        ensures
            added == parents_present(old(self)@, txn@.parents),
            added == (forall|i: int|
                0 <= i < txn.parents@.len() ==> old(self)@.contains_key(
                    #[trigger] txn.parents@[i]@,
                )),
            added ==> final(self)@.contains_key(txn.id@) && final(self)@[txn.id@] == txn@,
            added ==> forall|k: Seq<char>|
                k != txn.id@ ==> (#[trigger] final(self)@.contains_key(k) == old(self)@.contains_key(
                    k,
                )),
            added ==> forall|k: Seq<char>|
                k != txn.id@ && old(self)@.contains_key(k) ==> #[trigger] final(self)@[k] == old(
                    self,
                )@[k],
            !added ==> final(self)@ == old(self)@,
            final(self)@ == add_spec(old(self)@, txn@),
            parent_closed(final(self)@),
            keyed_by_id(final(self)@),
    {
        proof {
            use_type_invariant(&*self);
        }
        let ghost old_view = self@;
        let valid = self.validate_parents(txn.parents.as_slice());
        proof {
            assert forall|i: int| 0 <= i < txn.parents@.len() implies #[trigger] txn@.parents[i]
                == txn.parents@[i]@ by {}
            assert(txn@.parents.len() == txn.parents@.len());
            if valid {
                assert forall|i: int| 0 <= i < txn.parents@.len() implies old_view.contains_key(
                    #[trigger] txn.parents@[i]@,
                ) by {
                    assert(old_view.contains_key(txn@.parents[i]));
                }
            } else {
                let i = choose|i: int|
                    0 <= i < txn@.parents.len() && !old_view.contains_key(#[trigger] txn@.parents[i]);
                assert(!old_view.contains_key(txn.parents@[i]@));
            }
        }
        if !valid {
            proof {
                lemma_index_map_keyed(txn_views(self.transactions@));
            }
            return false;
        }
        let pos = self.position(&txn.id);
        let mut v: Vec<Transaction> = Vec::new();
        std::mem::swap(&mut v, &mut self.transactions);
        let ghost s = txn_views(v@);
        let ghost tv = txn@;
        match pos {
            Some(i) => {
                v.set(i, txn);
                proof {
                    lemma_index_map_update(s, i as int, tv);
                    assert(txn_views(v@) =~= s.update(i as int, tv));
                }
            },
            None => {
                v.push(txn);
                proof {
                    lemma_index_map_push(s, tv);
                    assert(txn_views(v@) =~= s.push(tv));
                }
            },
        }
        proof {
            lemma_add_keeps_parent_closed(old_view, tv);
            lemma_index_map_keyed(txn_views(v@));
        }
        self.transactions = v;
        true
    }
    /// The transaction with id `id`, if any.
    pub fn get(&self, id: &String) -> (r: Option<&Transaction>)
        ensures
            match r {
                Some(t) => self@.contains_key(id@) && t@ == self@[id@],
                None => !self@.contains_key(id@),
            },
    {
        proof {
            use_type_invariant(self);
        }
        match self.position(id) {
            Some(i) => {
                proof {
                    lemma_index_map_at(txn_views(self.transactions@), i as int);
                }
                Some(&self.transactions[i])
            },
            None => None,
        }
    }

    /// A copy of every transaction of the DAG, each once. (Every DAG is
    /// parent-closed and keyed by id.)
    pub fn get_all_transactions(&self) -> (all: Vec<Transaction>)
        ensures
            ids_unique(txn_views(all@)),
            index_map(txn_views(all@)) == self@,
            all@.len() == self@.dom().len(),
            parent_closed(self@),
            keyed_by_id(self@),
    {
        let mut all: Vec<Transaction> = Vec::new();
        let n = self.transactions.len();
        for i in 0..n
            invariant
                n == self.transactions@.len(),
                txn_views(all@) == txn_views(self.transactions@).take(i as int),
        {
            let t = self.transactions[i].clone();
            let ghost prev = all@;
            assert(txn_views(prev).len() == prev.len());
            assert(prev.len() == i);
            all.push(t);
            assert(all@ == prev.push(t));
            assert(all@.len() == i + 1);
            assert forall|j: int| 0 <= j <= i implies #[trigger] txn_views(all@)[j] == txn_views(
                self.transactions@,
            )[j] by {
                if j < i {
                    assert(all@[j] == prev[j]);
                    assert(txn_views(prev)[j] == txn_views(self.transactions@)[j]);
                }
            }
            assert(txn_views(all@) =~= txn_views(self.transactions@).take(i + 1));
        }
        proof {
            use_type_invariant(self);
            lemma_index_map_keyed(txn_views(self.transactions@));
            lemma_index_map_len(txn_views(self.transactions@));
            assert(txn_views(self.transactions@).take(n as int) =~= txn_views(self.transactions@));
        }
        all
    }
}

} // verus!
