//! Truth tables: finite maps from boolean input vectors to boolean output
//! vectors, together with the binary enumeration of input patterns that the
//! compilation algorithm walks and the textual rendering of patterns used by
//! the persistence format.

use vstd::prelude::*;
use vstd::string::*;

verus! {

/// 2 to the power `w`.
pub open spec fn two_pow(w: nat) -> nat
    decreases w,
{
    if w == 0 {
        1nat
    } else {
        2 * two_pow((w - 1) as nat)
    }
}

pub proof fn lemma_two_pow_monotonic(a: nat, b: nat)
    requires
        a <= b,
    ensures
        two_pow(a) <= two_pow(b),
    decreases b,
{
    if a < b {
        lemma_two_pow_monotonic(a, (b - 1) as nat);
    }
}

/// The `i`-th input combination of a `w`-input component, most significant
/// bit first: combination 0 is all-false, combination `two_pow(w) - 1` is
/// all-true.
pub open spec fn pattern_of(i: nat, w: nat) -> Seq<bool>
    decreases w,
{
    if w == 0 {
        Seq::empty()
    } else {
        pattern_of(i / 2, (w - 1) as nat).push(i % 2 == 1)
    }
}

pub proof fn lemma_pattern_len(i: nat, w: nat)
    ensures
        pattern_of(i, w).len() == w,
    decreases w,
{
    if w > 0 {
        lemma_pattern_len(i / 2, (w - 1) as nat);
    }
}

/// The number a pattern denotes in binary, most significant bit first.
pub open spec fn value_of(s: Seq<bool>) -> nat
    decreases s.len(),
{
    if s.len() == 0 {
        0nat
    } else {
        2 * value_of(s.drop_last()) + (if s.last() {
            1nat
        } else {
            0nat
        })
    }
}

pub proof fn lemma_value_of_bound(s: Seq<bool>)
    ensures
        value_of(s) < two_pow(s.len()),
    decreases s.len(),
{
    if s.len() > 0 {
        lemma_value_of_bound(s.drop_last());
    }
}

pub proof fn lemma_value_of_pattern(i: nat, w: nat)
    requires
        i < two_pow(w),
    ensures
        value_of(pattern_of(i, w)) == i,
    decreases w,
{
    if w > 0 {
        assert(i / 2 < two_pow((w - 1) as nat)) by {
            assert(i < 2 * two_pow((w - 1) as nat));
        }
        lemma_value_of_pattern(i / 2, (w - 1) as nat);
        let p = pattern_of(i, w);
        assert(p.drop_last() =~= pattern_of(i / 2, (w - 1) as nat));
        assert(i == 2 * (i / 2) + i % 2);
    }
}

pub proof fn lemma_pattern_of_value(s: Seq<bool>)
    ensures
        pattern_of(value_of(s), s.len()) == s,
    decreases s.len(),
{
    if s.len() > 0 {
        lemma_pattern_of_value(s.drop_last());
        let v = value_of(s);
        let b: nat = if s.last() {
            1nat
        } else {
            0nat
        };
        assert(v == 2 * value_of(s.drop_last()) + b);
        assert(v / 2 == value_of(s.drop_last()) && v % 2 == b) by {
            assert((2 * value_of(s.drop_last()) + b) / 2 == value_of(s.drop_last())
                && (2 * value_of(s.drop_last()) + b) % 2 == b) by (nonlinear_arith)
                requires b == 0 || b == 1;
        }
        assert(pattern_of(v, s.len()) =~= s);
    }
}

/// Recording the `i`-th combination in a table that holds exactly the
/// combinations below `i` yields a table that holds exactly those below
/// `i + 1`; the new key was not yet present.
pub proof fn lemma_pattern_insert_step(
    pre: Map<Seq<bool>, Seq<bool>>,
    post: Map<Seq<bool>, Seq<bool>>,
    i: nat,
    n: nat,
    v: Seq<bool>,
)
    requires
        i < two_pow(n),
        forall|k: Seq<bool>| #[trigger] pre.contains_key(k) <==> exists|j: int|
            0 <= j < i && k == #[trigger] pattern_of(j as nat, n),
        post == pre.insert(pattern_of(i, n), v),
    ensures
        !pre.contains_key(pattern_of(i, n)),
        forall|k: Seq<bool>| #[trigger] post.contains_key(k) <==> exists|j: int|
            0 <= j < i + 1 && k == #[trigger] pattern_of(j as nat, n),
{
    assert(!pre.contains_key(pattern_of(i, n))) by {
        if pre.contains_key(pattern_of(i, n)) {
            let j = choose|j: int| 0 <= j < i && pattern_of(i, n) == #[trigger] pattern_of(
                j as nat,
                n,
            );
            lemma_pattern_injective(i, j as nat, n);
        }
    }
    assert forall|k: Seq<bool>| #[trigger] post.contains_key(k) implies exists|j: int|
        0 <= j < i + 1 && k == #[trigger] pattern_of(j as nat, n) by {
        if k == pattern_of(i, n) {
            let j: int = i as int;
            assert(0 <= j < i + 1 && k == pattern_of(j as nat, n));
        } else {
            assert(pre.contains_key(k));
            let j = choose|j: int| 0 <= j < i && k == #[trigger] pattern_of(j as nat, n);
            assert(0 <= j < i + 1 && k == pattern_of(j as nat, n));
        }
    }
    assert forall|k: Seq<bool>|
        (exists|j: int| 0 <= j < i + 1 && k == #[trigger] pattern_of(j as nat, n))
        implies #[trigger] post.contains_key(k) by {
        let j = choose|j: int| 0 <= j < i + 1 && k == #[trigger] pattern_of(j as nat, n);
        if j < i {
            assert(pre.contains_key(k));
        } else {
            assert(k == pattern_of(i, n));
        }
    }
}

/// A table holding exactly the combinations below `two_pow(n)` covers the
/// full input space of width `n`: its keys are exactly the vectors of that
/// length.
pub proof fn lemma_pattern_domain_complete(m: Map<Seq<bool>, Seq<bool>>, n: nat)
    requires
        forall|k: Seq<bool>| #[trigger] m.contains_key(k) <==> exists|j: int|
            0 <= j < two_pow(n) && k == #[trigger] pattern_of(j as nat, n),
    ensures
        forall|k: Seq<bool>| #[trigger] m.contains_key(k) <==> k.len() == n,
{
    assert forall|k: Seq<bool>| #[trigger] m.contains_key(k) <==> k.len() == n by {
        if m.contains_key(k) {
            let j = choose|j: int| 0 <= j < two_pow(n) && k == #[trigger] pattern_of(j as nat, n);
            lemma_pattern_len(j as nat, n);
        }
        if k.len() == n {
            lemma_value_of_bound(k);
            lemma_pattern_of_value(k);
            let j: int = value_of(k) as int;
            assert(0 <= j < two_pow(n) && k == pattern_of(j as nat, n));
        }
    }
}

/// Distinct combination numbers below `two_pow(w)` give distinct patterns.
pub proof fn lemma_pattern_injective(i: nat, j: nat, w: nat)
    requires
        i < two_pow(w),
        j < two_pow(w),
        pattern_of(i, w) == pattern_of(j, w),
    ensures
        i == j,
{
    lemma_value_of_pattern(i, w);
    lemma_value_of_pattern(j, w);
}

/// 2 to the power `w`, executably.
pub fn pow2_usize(w: usize) -> (r: usize)
    requires
        two_pow(w as nat) <= usize::MAX,
    ensures
        r == two_pow(w as nat),
{
    let mut r: usize = 1;
    let mut k: usize = 0;
    while k < w
        invariant
            k <= w,
            r == two_pow(k as nat),
            two_pow(w as nat) <= usize::MAX,
        decreases w - k,
    {
        proof {
            lemma_two_pow_monotonic((k + 1) as nat, w as nat);
        }
        r = r * 2;
        k = k + 1;
    }
    r
}

/// The `i`-th input combination of a `w`-input component, executably.
pub fn index_to_pattern(i: usize, w: usize) -> (r: Vec<bool>)
    ensures
        r@ == pattern_of(i as nat, w as nat),
    decreases w,
{
    if w == 0 {
        Vec::new()
    } else {
        let mut r = index_to_pattern(i / 2, w - 1);
        r.push(i % 2 == 1);
        r
    }
}

/// '1' for true and '0' for false, one character per pin.
pub open spec fn bools_to_chars(s: Seq<bool>) -> Seq<char> {
    s.map_values(
        |b: bool|
            if b {
                '1'
            } else {
                '0'
            },
    )
}

/// True exactly for the character '1'.
pub open spec fn chars_to_bools(s: Seq<char>) -> Seq<bool> {
    s.map_values(|c: char| c == '1')
}

/// Rendering a pattern as '0'/'1' text and reading it back loses nothing.
pub proof fn lemma_chars_round_trip(s: Seq<bool>)
    ensures
        chars_to_bools(bools_to_chars(s)) == s,
{
    assert(chars_to_bools(bools_to_chars(s)) =~= s);
}

/// Render a boolean vector as a string of '0' and '1' characters.
pub fn vec_bool_to_string(v: &Vec<bool>) -> (r: String)
    ensures
        r@ == bools_to_chars(v@),
{
    let mut r = String::new();
    let mut i: usize = 0;
    while i < v.len()
        invariant
            i <= v@.len(),
            r@ == bools_to_chars(v@.take(i as int)),
        decreases v@.len() - i,
    {
        if v[i] {
            r.append("1");
        } else {
            r.append("0");
        }
        proof {
            reveal_strlit("1");
            reveal_strlit("0");
            assert(bools_to_chars(v@.take(i + 1)) =~= bools_to_chars(v@.take(i as int)).push(
                if v@[i as int] {
                    '1'
                } else {
                    '0'
                },
            ));
        }
        i = i + 1;
    }
    proof {
        assert(v@.take(v@.len() as int) =~= v@);
    }
    r
}

/// Read a string of characters back as a boolean vector, true exactly at '1'.
pub fn string_to_vec_bool(s: &str) -> (r: Vec<bool>)
    ensures
        r@ == chars_to_bools(s@),
{
    let n = s.unicode_len();
    let mut r: Vec<bool> = Vec::new();
    let mut i: usize = 0;
    while i < n
        invariant
            n == s@.len(),
            i <= n,
            r@ == chars_to_bools(s@.take(i as int)),
        decreases n - i,
    {
        let c = s.get_char(i);
        r.push(c == '1');
        proof {
            assert(chars_to_bools(s@.take(i + 1)) =~= chars_to_bools(s@.take(i as int)).push(
                s@[i as int] == '1',
            ));
        }
        i = i + 1;
    }
    proof {
        assert(s@.take(n as int) =~= s@);
    }
    r
}

/// Exhaustive input-vector -> output-vector mapping for a memory-free
/// component.
///
/// Rows are kept in insertion order and keys are unique (`wf`), so the rows
/// denote a finite map from input vectors to output vectors.
#[derive(Debug)]
pub struct TruthTable {
    pub rows: Vec<(Vec<bool>, Vec<bool>)>,
}

/// The finite map denoted by a sequence of rows; a later row with the same
/// key overrides an earlier one, mirroring repeated insertion.
pub open spec fn map_of_rows(rows: Seq<(Seq<bool>, Seq<bool>)>) -> Map<Seq<bool>, Seq<bool>>
    decreases rows.len(),
{
    if rows.len() == 0 {
        Map::empty()
    } else {
        map_of_rows(rows.drop_last()).insert(rows.last().0, rows.last().1)
    }
}

/// The rows of a table, with each vector abstracted to a sequence.
pub open spec fn rows_view(rows: Seq<(Vec<bool>, Vec<bool>)>) -> Seq<(Seq<bool>, Seq<bool>)> {
    rows.map_values(|r: (Vec<bool>, Vec<bool>)| (r.0@, r.1@))
}

impl View for TruthTable {
    type V = Map<Seq<bool>, Seq<bool>>;

    open spec fn view(&self) -> Map<Seq<bool>, Seq<bool>> {
        map_of_rows(rows_view(self.rows@))
    }
}

/// A key occurs in the map of some rows exactly when some row holds it.
pub proof fn lemma_map_of_rows_contains(rows: Seq<(Seq<bool>, Seq<bool>)>, k: Seq<bool>)
    ensures
        map_of_rows(rows).contains_key(k) <==> (exists|i: int|
            0 <= i < rows.len() && rows[i].0 == k),
    decreases rows.len(),
{
    if rows.len() > 0 {
        lemma_map_of_rows_contains(rows.drop_last(), k);
        if map_of_rows(rows).contains_key(k) {
            if rows.last().0 != k {
                let i = choose|i: int| 0 <= i < rows.drop_last().len() && rows.drop_last()[i].0 == k;
                assert(rows[i].0 == k);
            }
        }
        if exists|i: int| 0 <= i < rows.len() && rows[i].0 == k {
            let i = choose|i: int| 0 <= i < rows.len() && rows[i].0 == k;
            if i < rows.len() - 1 {
                assert(rows.drop_last()[i].0 == k);
            }
        }
    }
}

/// When keys are unique, each row's key maps to that row's value.
pub proof fn lemma_map_of_rows_value(rows: Seq<(Seq<bool>, Seq<bool>)>, i: int)
    requires
        0 <= i < rows.len(),
        forall|p: int, q: int| 0 <= p < q < rows.len() ==> rows[p].0 != rows[q].0,
    ensures
        map_of_rows(rows)[rows[i].0] == rows[i].1,
    decreases rows.len(),
{
    if i == rows.len() - 1 {
    } else {
        assert(rows.drop_last()[i] == rows[i]);
        lemma_map_of_rows_value(rows.drop_last(), i);
    }
}

impl TruthTable {
    /// Keys are pairwise distinct, so the rows denote the map faithfully.
    pub open spec fn wf(&self) -> bool {
        forall|i: int, j: int|
            0 <= i < j < self.rows@.len() ==> self.rows@[i].0@ != self.rows@[j].0@
    }

    /// Number of rows, which under `wf` is the size of the mapping.
    pub open spec fn spec_len(&self) -> nat {
        self.rows@.len()
    }

    pub fn new() -> (r: TruthTable)
        ensures
            r@ == Map::<Seq<bool>, Seq<bool>>::empty(),
            r.wf(),
            r.spec_len() == 0,
    {
        TruthTable { rows: Vec::new() }
    }

    pub fn len(&self) -> (r: usize)
        ensures
            r == self.spec_len(),
    {
        self.rows.len()
    }

    /// Index of the row holding `key`, if any.
    fn find_row(&self, key: &Vec<bool>) -> (r: Option<usize>)
        ensures
            match r {
                Some(i) => i < self.rows@.len() && self.rows@[i as int].0@ == key@,
                None => forall|i: int| 0 <= i < self.rows@.len() ==> self.rows@[i].0@ != key@,
            },
    {
        let mut i: usize = 0;
        while i < self.rows.len()
            invariant
                i <= self.rows@.len(),
                forall|j: int| 0 <= j < i ==> self.rows@[j].0@ != key@,
            decreases self.rows@.len() - i,
        {
            if self.rows[i].0 == *key {
                return Some(i);
            }
            i = i + 1;
        }
        None
    }

    pub fn contains_key(&self, key: &Vec<bool>) -> (r: bool)
        ensures
            r == self@.contains_key(key@),
    {
        let r = self.find_row(key);
        proof {
            lemma_map_of_rows_contains(rows_view(self.rows@), key@);
        }
        match r {
            Some(i) => {
                proof {
                    assert(rows_view(self.rows@)[i as int].0 == key@);
                }
                true
            },
            None => {
                proof {
                    assert(forall|j: int|
                        0 <= j < self.rows@.len() ==> #[trigger] rows_view(self.rows@)[j].0
                            == self.rows@[j].0@);
                }
                false
            },
        }
    }

    /// Record the pair, overriding any earlier row with the same inputs.
    pub fn add(&mut self, inputs: Vec<bool>, outputs: Vec<bool>)
        requires
            old(self).wf(),
        ensures
            final(self).wf(),
            final(self)@ == old(self)@.insert(inputs@, outputs@),
            final(self).spec_len() == if old(self)@.contains_key(inputs@) {
                old(self).spec_len()
            } else {
                old(self).spec_len() + 1
            },
    {
        proof {
            lemma_map_of_rows_contains(rows_view(self.rows@), inputs@);
        }
        let found = self.find_row(&inputs);
        match found {
            Some(i) => {
                proof {
                    assert(rows_view(self.rows@)[i as int].0 == inputs@);
                }
                self.rows[i] = (inputs, outputs);
                proof {
                    lemma_rows_update_is_insert(rows_view(old(self).rows@), i as int, inputs@, outputs@);
                    assert(rows_view(self.rows@) =~= rows_view(old(self).rows@).update(
                        i as int,
                        (inputs@, outputs@),
                    ));
                }
            },
            None => {
                proof {
                    assert(forall|j: int|
                        0 <= j < self.rows@.len() ==> #[trigger] rows_view(self.rows@)[j].0
                            == self.rows@[j].0@);
                }
                self.rows.push((inputs, outputs));
                proof {
                    assert(rows_view(self.rows@).drop_last() =~= rows_view(old(self).rows@));
                    assert(rows_view(self.rows@).last() == (inputs@, outputs@));
                }
            },
        }
    }

    /// Look the inputs up; absent keys are a caller error, never exercised by
    /// exhaustively compiled tables.
    pub fn get(&self, inputs: Vec<bool>) -> (r: Vec<bool>)
        requires
            self.wf(),
            self@.contains_key(inputs@),
        ensures
            r@ == self@[inputs@],
    {
        proof {
            lemma_map_of_rows_contains(rows_view(self.rows@), inputs@);
        }
        let found = self.find_row(&inputs);
        match found {
            Some(i) => {
                proof {
                    lemma_map_of_rows_value(rows_view(self.rows@), i as int);
                }
                let r = self.rows[i].1.clone();
                assert(r@ =~= self.rows@[i as int].1@);
                r
            },
            None => {
                proof {
                    assert(false);
                }
                Vec::new()
            },
        }
    }

    /// A deep copy with the same rows.
    pub fn clone_table(&self) -> (r: TruthTable)
        ensures
            rows_view(r.rows@) == rows_view(self.rows@),
            r@ == self@,
            r.wf() == self.wf(),
    {
        let mut rows: Vec<(Vec<bool>, Vec<bool>)> = Vec::new();
        let mut i: usize = 0;
        while i < self.rows.len()
            invariant
                i <= self.rows@.len(),
                rows@.len() == i,
                forall|j: int| #![auto] 0 <= j < i ==> rows@[j].0@ == self.rows@[j].0@
                    && rows@[j].1@ == self.rows@[j].1@,
            decreases self.rows@.len() - i,
        {
            let k = self.rows[i].0.clone();
            let v = self.rows[i].1.clone();
            assert(k@ =~= self.rows@[i as int].0@);
            assert(v@ =~= self.rows@[i as int].1@);
            rows.push((k, v));
            i = i + 1;
        }
        let r = TruthTable { rows };
        proof {
            assert(rows_view(r.rows@) =~= rows_view(self.rows@));
            if self.wf() {
                assert forall|p: int, q: int|
                    0 <= p < q < r.rows@.len() implies r.rows@[p].0@ != r.rows@[q].0@ by {
                    assert(r.rows@[p].0@ == self.rows@[p].0@);
                    assert(r.rows@[q].0@ == self.rows@[q].0@);
                }
            }
            if r.wf() {
                assert forall|p: int, q: int|
                    0 <= p < q < self.rows@.len() implies self.rows@[p].0@ != self.rows@[q].0@ by {
                    assert(r.rows@[p].0@ == self.rows@[p].0@);
                    assert(r.rows@[q].0@ == self.rows@[q].0@);
                }
            }
        }
        r
    }

    /// Whether the two tables denote the same mapping.
    pub fn same_mapping(&self, other: &TruthTable) -> (r: bool)
        requires
            self.wf(),
            other.wf(),
        ensures
            r == (self@ == other@),
    {
        let fwd = self.submapping_of(other);
        let bwd = other.submapping_of(self);
        proof {
            if fwd && bwd {
                assert(self@ =~= other@);
            }
        }
        fwd && bwd
    }

    /// Whether every row of `self` is mapped identically by `other`.
    fn submapping_of(&self, other: &TruthTable) -> (r: bool)
        requires
            self.wf(),
            other.wf(),
        ensures
            r == forall|k: Seq<bool>|
                self@.contains_key(k) ==> #[trigger] other@.contains_key(k) && other@[k]
                    == self@[k],
    {
        let ghost rv = rows_view(self.rows@);
        let mut i: usize = 0;
        while i < self.rows.len()
            invariant
                self.wf(),
                other.wf(),
                i <= self.rows@.len(),
                rv == rows_view(self.rows@),
                forall|j: int| 0 <= j < i ==> #[trigger] other@.contains_key(rv[j].0)
                    && other@[rv[j].0] == rv[j].1,
            decreases self.rows@.len() - i,
        {
            proof {
                assert(rv[i as int].0 == self.rows@[i as int].0@);
                assert(rv[i as int].1 == self.rows@[i as int].1@);
            }
            let key_ref = &self.rows[i].0;
            if !other.contains_key(key_ref) {
                proof {
                    lemma_map_of_rows_contains(rv, rv[i as int].0);
                }
                return false;
            }
            let key = key_ref.clone();
            assert(key@ =~= rv[i as int].0);
            let got = other.get(key);
            if !vec_bool_eq(&got, &self.rows[i].1) {
                proof {
                    lemma_map_of_rows_contains(rv, rv[i as int].0);
                    lemma_map_of_rows_value(rv, i as int);
                }
                return false;
            }
            proof {
                lemma_map_of_rows_value(rv, i as int);
            }
            i = i + 1;
        }
        proof {
            assert forall|k: Seq<bool>| self@.contains_key(k) implies #[trigger] other@.contains_key(
                k,
            ) && other@[k] == self@[k] by {
                lemma_map_of_rows_contains(rv, k);
                let j = choose|j: int| 0 <= j < rv.len() && rv[j].0 == k;
                lemma_map_of_rows_value(rv, j);
            }
        }
        true
    }
}

/// Two boolean vectors hold the same values.
pub fn vec_bool_eq(a: &Vec<bool>, b: &Vec<bool>) -> (r: bool)
    ensures
        r == (a@ == b@),
{
    if a.len() != b.len() {
        return false;
    }
    let mut i: usize = 0;
    while i < a.len()
        invariant
            a@.len() == b@.len(),
            i <= a@.len(),
            forall|j: int| 0 <= j < i ==> a@[j] == b@[j],
        decreases a@.len() - i,
    {
        if a[i] != b[i] {
            return false;
        }
        i = i + 1;
    }
    proof {
        assert(a@ =~= b@);
    }
    true
}

/// Updating one row in place, keeping its key, denotes the same map update
/// as re-inserting the key.
proof fn lemma_rows_update_is_insert(
    rows: Seq<(Seq<bool>, Seq<bool>)>,
    i: int,
    k: Seq<bool>,
    v: Seq<bool>,
)
    requires
        0 <= i < rows.len(),
        rows[i].0 == k,
        forall|p: int, q: int| 0 <= p < q < rows.len() ==> rows[p].0 != rows[q].0,
    ensures
        map_of_rows(rows.update(i, (k, v))) == map_of_rows(rows).insert(k, v),
        forall|p: int, q: int|
            0 <= p < q < rows.update(i, (k, v)).len() ==> rows.update(i, (k, v))[p].0
                != rows.update(i, (k, v))[q].0,
    decreases rows.len(),
{
    let upd = rows.update(i, (k, v));
    if i == rows.len() - 1 {
        assert(upd.drop_last() =~= rows.drop_last());
        assert(upd.last() == (k, v));
    } else {
        assert(upd.drop_last() =~= rows.drop_last().update(i, (k, v)));
        assert(upd.last() == rows.last());
        lemma_rows_update_is_insert(rows.drop_last(), i, k, v);
        assert(rows.last().0 != k);
        assert(map_of_rows(upd) =~= map_of_rows(rows).insert(k, v)) by {
            assert(map_of_rows(upd) == map_of_rows(rows.drop_last()).insert(k, v).insert(
                rows.last().0,
                rows.last().1,
            ));
        }
    }
}

} // verus!
