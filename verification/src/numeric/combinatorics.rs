use vstd::prelude::*;

verus! {

broadcast use vstd::prelude::Seq::lemma_flatten_push;

/// Binomial coefficient `C(n, k)`, defined by Pascal's recurrence.
pub open spec fn spec_binomial(n: nat, k: nat) -> nat
    decreases n,
{
    if k == 0 {
        1
    } else if k > n {
        0
    } else {
        spec_binomial((n - 1) as nat, (k - 1) as nat) + spec_binomial((n - 1) as nat, k)
    }
}

/// Integer power `base^e`.
pub open spec fn spec_pow(base: int, e: nat) -> int
    decreases e,
{
    if e == 0 {
        1
    } else {
        base * spec_pow(base, (e - 1) as nat)
    }
}

/// Sum of a sequence of integers, taken in index order.
pub open spec fn sum_int(s: Seq<int>) -> int
    decreases s.len(),
{
    if s.len() == 0 {
        0
    } else {
        sum_int(s.drop_last()) + s.last()
    }
}

/// A binomial coefficient over the whole row is at least one on the diagonal
/// and the left edge: `C(n, n) == 1`.
pub proof fn lemma_binomial_diagonal(n: nat)
    ensures
        spec_binomial(n, n) == 1,
    decreases n,
{
    if n > 0 {
        lemma_binomial_diagonal((n - 1) as nat);
        assert(spec_binomial(n, n) == 1) by {
            reveal_with_fuel(spec_binomial, 2);
        }
    }
}

/// The sum of a sequence can also be peeled from the front.
pub proof fn lemma_sum_int_first(s: Seq<int>)
    requires
        s.len() > 0,
    ensures
        sum_int(s) == s[0] + sum_int(s.drop_first()),
    decreases s.len(),
{
    if s.len() == 1 {
        assert(s.drop_first() =~= Seq::<int>::empty());
        assert(s.drop_last() =~= Seq::<int>::empty());
    } else {
        lemma_sum_int_first(s.drop_last());
        assert(s.drop_last().drop_first() =~= s.drop_first().drop_last());
        assert(s.drop_last()[0] == s[0]);
        assert(s.drop_first().last() == s.last());
    }
}

/// A positive power of zero is zero.
pub proof fn lemma_pow_zero_base(e: nat)
    requires
        e > 0,
    ensures
        spec_pow(0, e) == 0,
    decreases e,
{
    if e > 1 {
        lemma_pow_zero_base((e - 1) as nat);
    } else {
        assert(spec_pow(0, 1) == 0) by {
            reveal_with_fuel(spec_pow, 2);
        }
    }
}

/// Negating the base factors out a power of minus one.
pub proof fn lemma_pow_neg(x: int, e: nat)
    ensures
        spec_pow(-x, e) == spec_pow(-1, e) * spec_pow(x, e),
    decreases e,
{
    if e > 0 {
        lemma_pow_neg(x, (e - 1) as nat);
        let a = spec_pow(-1, (e - 1) as nat);
        let p = spec_pow(x, (e - 1) as nat);
        assert((-x) * (a * p) == ((-1) * a) * (x * p)) by (nonlinear_arith);
    }
}

/// Powers add over exponent sums.
pub proof fn lemma_pow_add(x: int, m: nat, n: nat)
    ensures
        spec_pow(x, m + n) == spec_pow(x, m) * spec_pow(x, n),
    decreases m,
{
    if m > 0 {
        lemma_pow_add(x, (m - 1) as nat, n);
        let a = spec_pow(x, (m - 1) as nat);
        let p = spec_pow(x, n);
        assert(x * (a * p) == (x * a) * p) by (nonlinear_arith);
        assert((m + n) as nat - 1 == (m - 1) as nat + n);
    }
}

/// A power of a nonzero base is nonzero.
pub proof fn lemma_pow_nonzero(base: int, e: nat)
    requires
        base != 0,
    ensures
        spec_pow(base, e) != 0,
    decreases e,
{
    if e > 0 {
        lemma_pow_nonzero(base, (e - 1) as nat);
        let p = spec_pow(base, (e - 1) as nat);
        assert(base * p != 0) by (nonlinear_arith)
            requires
                base != 0,
                p != 0,
        ;
    }
}

/// A sequence of zeros sums to zero.
pub proof fn lemma_sum_int_zero(s: Seq<int>)
    requires
        forall|i: int| 0 <= i < s.len() ==> s[i] == 0,
    ensures
        sum_int(s) == 0,
    decreases s.len(),
{
    if s.len() > 0 {
        lemma_sum_int_zero(s.drop_last());
    }
}

/// Scaling every entry scales the sum.
pub proof fn lemma_sum_int_scale(s: Seq<int>, c: int)
    ensures
        sum_int(s.map_values(|x: int| c * x)) == c * sum_int(s),
    decreases s.len(),
{
    if s.len() == 0 {
        assert(s.map_values(|x: int| c * x) =~= Seq::<int>::empty());
    } else {
        lemma_sum_int_scale(s.drop_last(), c);
        assert(s.map_values(|x: int| c * x).drop_last() =~= s.drop_last().map_values(
            |x: int| c * x,
        ));
        assert(s.map_values(|x: int| c * x).last() == c * s.last());
        assert(c * (sum_int(s.drop_last()) + s.last()) == c * sum_int(s.drop_last()) + c
            * s.last()) by (nonlinear_arith);
    }
}

/// Reversing a sequence does not change its sum.
pub proof fn lemma_sum_int_reverse(s: Seq<int>)
    ensures
        sum_int(s.reverse()) == sum_int(s),
    decreases s.len(),
{
    if s.len() > 0 {
        lemma_sum_int_reverse(s.drop_first());
        assert(s.reverse().drop_last() =~= s.drop_first().reverse());
        assert(s.reverse().last() == s[0]);
        lemma_sum_int_first(s);
    }
}

/// A binomial coefficient on or below the diagonal is positive.
pub proof fn lemma_binomial_pos(n: nat, k: nat)
    requires
        k <= n,
    ensures
        spec_binomial(n, k) >= 1,
    decreases n,
{
    if k > 0 {
        lemma_binomial_pos((n - 1) as nat, (k - 1) as nat);
    }
}

/// Powers of two are positive.
pub proof fn lemma_pow2_pos(n: nat)
    ensures
        spec_pow(2, n) >= 1,
    decreases n,
{
    if n > 0 {
        lemma_pow2_pos((n - 1) as nat);
    }
}

/// Powers of two are monotone in the exponent.
pub proof fn lemma_pow2_mono(m: nat, n: nat)
    requires
        m <= n,
    ensures
        spec_pow(2, m) <= spec_pow(2, n),
    decreases n,
{
    if m < n {
        lemma_pow2_mono(m, (n - 1) as nat);
        lemma_pow2_pos((n - 1) as nat);
    }
}

/// Every entry of row `n` of Pascal's triangle is at most `2^n`.
pub proof fn lemma_binomial_le_pow2(n: nat, k: nat)
    ensures
        spec_binomial(n, k) <= spec_pow(2, n),
    decreases n,
{
    if k == 0 {
        lemma_pow2_pos(n);
    } else if k > n {
        lemma_pow2_pos(n);
    } else {
        lemma_binomial_le_pow2((n - 1) as nat, (k - 1) as nat);
        lemma_binomial_le_pow2((n - 1) as nat, k);
    }
}

/// Compute the binomial coefficient `C(n, k)` by Pascal's recurrence.
/// The bound on `n` keeps every row entry at most `2^31`, so the additions
/// fit a 32-bit `usize`.
pub fn binomial_coefficient(n: usize, k: usize) -> (r: usize)
    requires
        n <= 31,
    ensures
        r == spec_binomial(n as nat, k as nat),
{
    if k > n {
        return 0;
    }
    let mut row: Vec<usize> = Vec::new();
    row.push(1);
    let mut i: usize = 0;
    while i < n
        invariant
            i <= n <= 31,
            row@.len() == i + 1,
            forall|j: int| 0 <= j <= i ==> row@[j] == spec_binomial(i as nat, j as nat),
        decreases n - i,
    {
        let mut next: Vec<usize> = Vec::new();
        next.push(1);
        let mut j: usize = 1;
        while j <= i
            invariant
                1 <= j <= i + 1,
                i < n <= 31,
                row@.len() == i + 1,
                forall|t: int| 0 <= t <= i ==> row@[t] == spec_binomial(i as nat, t as nat),
                next@.len() == j,
                forall|t: int| 0 <= t < j ==> next@[t] == spec_binomial((i + 1) as nat, t as nat),
            decreases i + 1 - j,
        {
            proof {
                lemma_binomial_le_pow2(i as nat, (j - 1) as nat);
                lemma_binomial_le_pow2(i as nat, j as nat);
                lemma_pow2_mono((i + 1) as nat, 31);
                assert(spec_pow(2, 31) == 0x8000_0000) by {
                    reveal_with_fuel(spec_pow, 33);
                }
            }
            next.push(row[j - 1] + row[j]);
            j = j + 1;
        }
        proof {
            lemma_binomial_diagonal((i + 1) as nat);
        }
        next.push(1);
        row = next;
        i = i + 1;
    }
    row[k]
}

/// The increasing sequence `0, 1, ..., n-1` of vertex indices.
pub open spec fn spec_range(n: nat) -> Seq<usize> {
    Seq::new(n, |i: int| i as usize)
}

/// Build the vertex index sequence `0, 1, ..., n-1`.
pub fn range_vec(n: usize) -> (r: Vec<usize>)
    ensures
        r@ == spec_range(n as nat),
{
    let mut r: Vec<usize> = Vec::new();
    let mut i: usize = 0;
    while i < n
        invariant
            i <= n,
            r@ == spec_range(i as nat),
        decreases n - i,
    {
        r.push(i);
        assert(r@ =~= spec_range((i + 1) as nat));
        i = i + 1;
    }
    r
}

/// All `k`-element subsequences of `s`, in lexicographic order of the index
/// positions they keep: those containing the first element come first.
/// For a strictly increasing `s` this is lexicographic order of the values.
pub open spec fn spec_combinations(s: Seq<usize>, k: nat) -> Seq<Seq<usize>>
    decreases s.len(),
{
    if k == 0 {
        seq![Seq::<usize>::empty()]
    } else if s.len() == 0 {
        Seq::<Seq<usize>>::empty()
    } else {
        spec_combinations(s.drop_first(), (k - 1) as nat).map_values(
            |c: Seq<usize>| seq![s[0]] + c,
        ) + spec_combinations(s.drop_first(), k)
    }
}

/// There are exactly `C(len(s), k)` combinations of size `k`.
pub proof fn lemma_combinations_count(s: Seq<usize>, k: nat)
    ensures
        spec_combinations(s, k).len() == spec_binomial(s.len(), k),
    decreases s.len(),
{
    if k == 0 {
    } else if s.len() == 0 {
    } else {
        lemma_combinations_count(s.drop_first(), (k - 1) as nat);
        lemma_combinations_count(s.drop_first(), k);
    }
}

/// Every combination of size `k` has exactly `k` entries.
pub proof fn lemma_combinations_elem_len(s: Seq<usize>, k: nat)
    ensures
        forall|i: int|
            0 <= i < spec_combinations(s, k).len() ==> (#[trigger] spec_combinations(s, k)[i]).len()
                == k,
    decreases s.len(),
{
    if k == 0 {
    } else if s.len() == 0 {
    } else {
        lemma_combinations_elem_len(s.drop_first(), (k - 1) as nat);
        lemma_combinations_elem_len(s.drop_first(), k);
        let a = spec_combinations(s.drop_first(), (k - 1) as nat).map_values(
            |c: Seq<usize>| seq![s[0]] + c,
        );
        let b = spec_combinations(s.drop_first(), k);
        assert forall|i: int| 0 <= i < (a + b).len() implies (#[trigger] (a + b)[i]).len() == k by {
            if i < a.len() {
                assert((a + b)[i] == seq![s[0]] + spec_combinations(s.drop_first(), (k - 1) as nat)[i]);
            } else {
                assert((a + b)[i] == b[i - a.len()]);
            }
        }
    }
}

/// Asking for more elements than the sequence holds yields no combination.
pub proof fn lemma_combinations_none(s: Seq<usize>, k: nat)
    requires
        s.len() < k,
    ensures
        spec_combinations(s, k) =~= Seq::<Seq<usize>>::empty(),
    decreases s.len(),
{
    if s.len() > 0 {
        lemma_combinations_none(s.drop_first(), (k - 1) as nat);
        lemma_combinations_none(s.drop_first(), k);
    }
}

/// Flattening rows of one common width `w` yields `len * w` entries.
pub proof fn lemma_flatten_uniform_len(rows: Seq<Seq<usize>>, w: nat)
    requires
        forall|i: int| 0 <= i < rows.len() ==> (#[trigger] rows[i]).len() == w,
    ensures
        rows.flatten().len() == rows.len() * w,
    decreases rows.len(),
{
    if rows.len() == 0 {
    } else {
        lemma_flatten_uniform_len(rows.drop_first(), w);
        assert(rows.flatten() == rows.first() + rows.drop_first().flatten());
        assert(w + (rows.len() - 1) * w == rows.len() * w) by (nonlinear_arith);
    }
}

/// In a flattening of rows of common width `w`, the entry at `i * w + j` is
/// entry `j` of row `i`.
pub proof fn lemma_flatten_uniform_at(rows: Seq<Seq<usize>>, w: nat, i: int, j: int)
    requires
        forall|t: int| 0 <= t < rows.len() ==> (#[trigger] rows[t]).len() == w,
        0 <= i < rows.len(),
        0 <= j < w,
    ensures
        0 <= i * w + j < rows.flatten().len(),
        rows.flatten()[i * w + j] == rows[i][j],
    decreases i,
{
    lemma_flatten_uniform_len(rows, w);
    assert(0 <= i * w + j < rows.len() * w) by (nonlinear_arith)
        requires
            0 <= i < rows.len(),
            0 <= j < w,
    ;
    assert(rows.flatten() == rows.first() + rows.drop_first().flatten());
    if i == 0 {
        assert(i * w + j == j) by (nonlinear_arith)
            requires
                i == 0,
        ;
        assert(rows.flatten()[j] == rows[0][j]);
    } else {
        lemma_flatten_uniform_at(rows.drop_first(), w, i - 1, j);
        assert(i * w + j - w == (i - 1) * w + j) by (nonlinear_arith);
        assert(i * w + j >= w) by (nonlinear_arith)
            requires
                1 <= i,
                0 <= j,
                w >= 0,
        ;
        assert(rows.flatten()[i * w + j] == rows.drop_first().flatten()[(i - 1) * w + j]);
        assert(rows.drop_first()[i - 1] == rows[i]);
        assert(rows.flatten()[i * w + j] == rows[i][j]);
    }
}

/// Copy a vector of indices.
pub fn copy_indices(v: &Vec<usize>) -> (r: Vec<usize>)
    ensures
        r@ == v@,
{
    let mut r: Vec<usize> = Vec::new();
    let mut i: usize = 0;
    while i < v.len()
        invariant
            i <= v@.len(),
            r@ == v@.take(i as int),
        decreases v@.len() - i,
    {
        r.push(v[i]);
        assert(r@ =~= v@.take(i + 1));
        i = i + 1;
    }
    assert(v@.take(v@.len() as int) =~= v@);
    r
}

/// Append all entries of `v` to `out`.
pub fn append_indices(out: &mut Vec<usize>, v: &Vec<usize>)
    ensures
        final(out)@ == old(out)@ + v@,
{
    let mut i: usize = 0;
    while i < v.len()
        invariant
            i <= v@.len(),
            out@ == old(out)@ + v@.take(i as int),
        decreases v@.len() - i,
    {
        out.push(v[i]);
        assert(out@ =~= old(out)@ + v@.take(i + 1));
        i = i + 1;
    }
    assert(old(out)@ + v@.take(v@.len() as int) =~= old(out)@ + v@);
}

/// The views of a vector of index vectors.
pub open spec fn views_of(s: Seq<Vec<usize>>) -> Seq<Seq<usize>> {
    s.map_values(|v: Vec<usize>| v@)
}

/// Enumerate all `k`-element subsequences of `items`, in the lexicographic
/// order fixed by `spec_combinations`.
pub fn combinations(items: &Vec<usize>, k: usize) -> (r: Vec<Vec<usize>>)
    ensures
        views_of(r@) == spec_combinations(items@, k as nat),
    decreases items@.len(), k,
{
    if k == 0 {
        let mut r: Vec<Vec<usize>> = Vec::new();
        r.push(Vec::new());
        assert(views_of(r@) =~= spec_combinations(items@, 0));
        return r;
    }
    if items.len() < k {
        proof {
            lemma_combinations_none(items@, k as nat);
        }
        let r: Vec<Vec<usize>> = Vec::new();
        assert(views_of(r@) =~= spec_combinations(items@, k as nat));
        return r;
    }
    let ghost rest_s = items@.drop_first();
    let ghost a = spec_combinations(rest_s, (k - 1) as nat).map_values(
        |c: Seq<usize>| seq![items@[0]] + c,
    );
    let ghost b = spec_combinations(rest_s, k as nat);
    let first = items[0];
    let mut rest: Vec<usize> = Vec::new();
    let mut i: usize = 1;
    while i < items.len()
        invariant
            1 <= i <= items@.len(),
            rest@ == items@.subrange(1, i as int),
        decreases items@.len() - i,
    {
        rest.push(items[i]);
        assert(rest@ =~= items@.subrange(1, i + 1));
        i = i + 1;
    }
    assert(rest@ =~= rest_s);
    let tails = combinations(&rest, k - 1);
    let mut result: Vec<Vec<usize>> = Vec::new();
    let mut ti: usize = 0;
    while ti < tails.len()
        invariant
            ti <= tails@.len(),
            views_of(tails@) == spec_combinations(rest_s, (k - 1) as nat),
            result@.len() == ti,
            forall|t: int|
                0 <= t < ti ==> (#[trigger] result@[t])@ == seq![first] + tails@[t]@,
        decreases tails@.len() - ti,
    {
        let mut c: Vec<usize> = Vec::new();
        c.push(first);
        let tail = &tails[ti];
        let mut j: usize = 0;
        while j < tail.len()
            invariant
                j <= tail@.len(),
                c@ == seq![first] + tail@.take(j as int),
            decreases tail@.len() - j,
        {
            c.push(tail[j]);
            assert(c@ =~= seq![first] + tail@.take(j + 1));
            j = j + 1;
        }
        assert(c@ =~= seq![first] + tail@);
        result.push(c);
        ti = ti + 1;
    }
    let others = combinations(&rest, k);
    let ghost base = tails@.len() as int;
    let mut oi: usize = 0;
    while oi < others.len()
        invariant
            oi <= others@.len(),
            views_of(others@) == b,
            views_of(tails@) == spec_combinations(rest_s, (k - 1) as nat),
            base == tails@.len() as int,
            result@.len() == base + oi,
            forall|t: int|
                0 <= t < base ==> (#[trigger] result@[t])@ == seq![first] + tails@[t]@,
            forall|t: int|
                0 <= t < oi ==> result@[base + t]@ == (#[trigger] others@[t])@,
        decreases others@.len() - oi,
    {
        let c2 = copy_indices(&others[oi]);
        result.push(c2);
        oi = oi + 1;
    }
    proof {
        assert(items@[0] == first);
        assert(views_of(tails@).len() == tails@.len());
        assert(a.len() == tails@.len());
        assert(views_of(result@).len() == (a + b).len());
        assert forall|t: int| 0 <= t < views_of(result@).len() implies views_of(result@)[t] =~= (a
            + b)[t] by {
            assert(views_of(result@)[t] == result@[t]@);
            if t < base {
                assert(a[t] == seq![items@[0]] + spec_combinations(rest_s, (k - 1) as nat)[t]);
                assert(views_of(tails@)[t] == tails@[t]@);
                assert(result@[t]@ == seq![first] + tails@[t]@);
            } else {
                assert((a + b)[t] == b[t - base]);
                assert(views_of(others@)[t - base] == others@[t - base]@);
                assert(result@[t]@ == others@[t - base]@);
            }
        }
        assert(views_of(result@) =~~= a + b);
        assert(spec_combinations(items@, k as nat) =~~= a + b);
    }
    result
}

} // verus!
