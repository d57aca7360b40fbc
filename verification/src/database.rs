//! The store model: a table of node records keyed by public key, with
//! full-row replace semantics on write.

use vstd::prelude::*;

verus! {

/// A stored node record: every field is already in its persisted textual
/// form (capacity as a decimal BTC string, first_seen as a UTC calendar
/// rendering).
pub struct Node {
    pub public_key: String,
    pub alias: String,
    pub capacity: String,
    pub first_seen: String,
}

/// The mathematical image of a stored record: each field as a sequence of
/// characters.
pub ghost struct NodeView {
    pub public_key: Seq<char>,
    pub alias: Seq<char>,
    pub capacity: Seq<char>,
    pub first_seen: Seq<char>,
}

impl View for Node {
    type V = NodeView;

    open spec fn view(&self) -> NodeView {
        NodeView {
            public_key: self.public_key@,
            alias: self.alias@,
            capacity: self.capacity@,
            first_seen: self.first_seen@,
        }
    }
}

impl Node {
    /// An exact copy of the record.
    pub fn duplicate(&self) -> (r: Node)
        ensures
            r@ == self@,
    {
        Node {
            public_key: self.public_key.clone(),
            alias: self.alias.clone(),
            capacity: self.capacity.clone(),
            first_seen: self.first_seen.clone(),
        }
    }
}

/// The table a row sequence stands for: later rows override earlier ones
/// with the same key (the store itself keeps keys distinct, so no
/// override ever happens in a well-formed store).
pub open spec fn rows_to_map(rows: Seq<NodeView>) -> Map<Seq<char>, NodeView>
    decreases rows.len(),
{
    if rows.len() == 0 {
        Map::empty()
    } else {
        rows_to_map(rows.drop_last()).insert(rows.last().public_key, rows.last())
    }
}

/// The store model: at most one row per public key, every write a
/// full-row replace. Its observable state is a map from public key to
/// stored record.
pub struct Database {
    rows: Vec<Node>,
}

impl View for Database {
    type V = Map<Seq<char>, NodeView>;

    closed spec fn view(&self) -> Map<Seq<char>, NodeView> {
        rows_to_map(self.rows@.map_values(|n: Node| n@))
    }
}

impl Database {
    /// Well-formed: the rows hold pairwise distinct public keys.
    pub closed spec fn wf(&self) -> bool {
        forall|i: int, j: int|
            0 <= i < j < self.rows@.len() ==> self.rows@[i]@.public_key != self.rows@[j]@.public_key
    }

    /// An empty store.
    pub fn new() -> (db: Database)
        ensures
            db.wf(),
            db@ == Map::<Seq<char>, NodeView>::empty(),
    {
        Database { rows: Vec::new() }
    }

    /// Inserts a new row, or fully replaces the row sharing the record's
    /// public key. The observable state gains exactly this record under
    /// its key; every other key is untouched.
    #[verifier::loop_isolation(false)]
    pub fn insert_node(&mut self, node: Node)
        requires
            old(self).wf(),
        ensures
            final(self).wf(),
            final(self)@ == old(self)@.insert(node@.public_key, node@),
    {
        let ghost pre = self.rows@.map_values(|n: Node| n@);
        let n = self.rows.len();
        let mut i: usize = 0;
        while i < n
            invariant
                i <= n,
                n == self.rows@.len(),
                self == old(self),
                forall|k: int| 0 <= k < i ==> self.rows@[k]@.public_key != node@.public_key,
            decreases n - i,
        {
            if self.rows[i].public_key == node.public_key {
                proof {
                    assert(pre.len() == self.rows@.len());
                    assert(forall|k: int| 0 <= k < pre.len() ==> pre[k] == #[trigger] self.rows@[k]@);
                }
                self.rows.set(i, node);
                proof {
                    let post = self.rows@.map_values(|n: Node| n@);
                    assert(post =~= pre.update(i as int, node@));
                    lemma_rows_to_map_update(pre, i as int, node@);
                }
                return ;
            }
            i = i + 1;
        }
        self.rows.push(node);
        proof {
            let post = self.rows@.map_values(|n: Node| n@);
            assert(post.drop_last() =~= pre);
            assert(post.last() == node@);
        }
    }

    /// Returns every row: as many records as the store holds keys, each
    /// present in the observable state, with pairwise distinct keys.
    /// Order is unspecified.
    #[verifier::loop_isolation(false)]
    pub fn get_nodes(&self) -> (r: Vec<Node>)
        requires
            self.wf(),
        ensures
            r@.len() == self@.dom().len(),
            forall|i: int|
                0 <= i < r@.len() ==> #[trigger] self@.contains_pair(r@[i]@.public_key, r@[i]@),
            forall|i: int, j: int| 0 <= i < j < r@.len() ==> r@[i]@.public_key != r@[j]@.public_key,
            forall|k: Seq<char>|
                self@.contains_key(k) ==> exists|i: int|
                    0 <= i < r@.len() && #[trigger] r@[i]@.public_key == k,
    {
        let ghost mapped = self.rows@.map_values(|n: Node| n@);
        proof {
            assert(forall|k: int| 0 <= k < mapped.len() ==> mapped[k] == #[trigger] self.rows@[k]@);
            lemma_rows_to_map_props(mapped);
        }
        let n = self.rows.len();
        let mut r: Vec<Node> = Vec::new();
        let mut i: usize = 0;
        while i < n
            invariant
                i <= n,
                n == self.rows@.len(),
                r@.len() == i,
                forall|k: int| 0 <= k < i ==> r@[k]@ == self.rows@[k]@,
            decreases n - i,
        {
            let node = self.rows[i].duplicate();
            r.push(node);
            i = i + 1;
        }
        proof {
            assert forall|k: int| 0 <= k < r@.len() implies #[trigger] self@.contains_pair(
                r@[k]@.public_key,
                r@[k]@,
            ) by {
                assert(r@[k]@ == mapped[k]);
                assert(self@.contains_pair(mapped[k].public_key, mapped[k]));
            }
            assert forall|k: Seq<char>| self@.contains_key(k) implies exists|j: int|
                0 <= j < r@.len() && #[trigger] r@[j]@.public_key == k by {
                let j = choose|j: int| 0 <= j < mapped.len() && mapped[j].public_key == k;
                assert(r@[j]@.public_key == k);
            }
        }
        r
    }
}

/// Replacing the row that already holds a key is, on the table level, an
/// insert of the new record under that key.
proof fn lemma_rows_to_map_update(rows: Seq<NodeView>, i: int, v: NodeView)
    requires
        0 <= i < rows.len(),
        rows[i].public_key == v.public_key,
        forall|p: int, q: int| 0 <= p < q < rows.len() ==> rows[p].public_key != rows[q].public_key,
    ensures
        rows_to_map(rows.update(i, v)) == rows_to_map(rows).insert(v.public_key, v),
    decreases rows.len(),
{
    let upd = rows.update(i, v);
    if i == rows.len() - 1 {
        assert(upd.drop_last() =~= rows.drop_last());
        assert(upd.last() == v);
        assert(rows_to_map(rows.drop_last()).insert(rows.last().public_key, rows.last()).insert(
            v.public_key,
            v,
        ) =~= rows_to_map(rows.drop_last()).insert(v.public_key, v));
    } else {
        assert(upd.drop_last() =~= rows.drop_last().update(i, v));
        assert(upd.last() == rows.last());
        lemma_rows_to_map_update(rows.drop_last(), i, v);
        assert(rows[i].public_key != rows.last().public_key);
        assert(rows_to_map(rows.drop_last()).insert(v.public_key, v).insert(
            rows.last().public_key,
            rows.last(),
        ) =~= rows_to_map(rows.drop_last()).insert(rows.last().public_key, rows.last()).insert(
            v.public_key,
            v,
        ));
    }
}

/// With pairwise distinct keys, the table holds exactly the rows: its
/// domain has one key per row, and each row is the value under its key.
proof fn lemma_rows_to_map_props(rows: Seq<NodeView>)
    requires
        forall|p: int, q: int| 0 <= p < q < rows.len() ==> rows[p].public_key != rows[q].public_key,
    ensures
        rows_to_map(rows).dom().finite(),
        rows_to_map(rows).dom().len() == rows.len(),
        forall|i: int|
            0 <= i < rows.len() ==> #[trigger] rows_to_map(rows).contains_pair(
                rows[i].public_key,
                rows[i],
            ),
        forall|k: Seq<char>|
            rows_to_map(rows).contains_key(k) ==> exists|i: int|
                0 <= i < rows.len() && rows[i].public_key == k,
    decreases rows.len(),
{
    if rows.len() > 0 {
        lemma_rows_to_map_props(rows.drop_last());
        let m0 = rows_to_map(rows.drop_last());
        assert(!m0.contains_key(rows.last().public_key)) by {
            if m0.contains_key(rows.last().public_key) {
                let i = choose|i: int|
                    0 <= i < rows.drop_last().len() && rows.drop_last()[i].public_key
                        == rows.last().public_key;
                assert(rows[i].public_key == rows.last().public_key);
            }
        }
        assert forall|i: int| 0 <= i < rows.len() implies #[trigger] rows_to_map(
            rows,
        ).contains_pair(rows[i].public_key, rows[i]) by {
            if i < rows.len() - 1 {
                assert(rows.drop_last()[i] == rows[i]);
                assert(m0.contains_pair(rows[i].public_key, rows[i]));
                assert(rows[i].public_key != rows.last().public_key);
            }
        }
    }
}

/// Law: upserting the same record twice leaves the store in the same
/// observable state as a single upsert.
pub proof fn lemma_upsert_idempotent(m: Map<Seq<char>, NodeView>, x: NodeView)
    ensures
        m.insert(x.public_key, x).insert(x.public_key, x) == m.insert(x.public_key, x),
{
    assert(m.insert(x.public_key, x).insert(x.public_key, x) =~= m.insert(x.public_key, x));
}

/// Law: upserting a record and then another with the same public key
/// leaves exactly one row for that key, holding the second record's
/// fields — a full replacement, not a merge.
pub proof fn lemma_upsert_replaces(m: Map<Seq<char>, NodeView>, x: NodeView, y: NodeView)
    requires
        x.public_key == y.public_key,
    ensures
        m.insert(x.public_key, x).insert(y.public_key, y) == m.insert(y.public_key, y),
        m.insert(x.public_key, x).insert(y.public_key, y)[y.public_key] == y,
        m.insert(x.public_key, x).insert(y.public_key, y).dom() == m.dom().insert(y.public_key),
{
    assert(m.insert(x.public_key, x).insert(y.public_key, y) =~= m.insert(y.public_key, y));
    assert(m.insert(x.public_key, x).insert(y.public_key, y).dom() =~= m.dom().insert(
        y.public_key,
    ));
}

} // verus!
