use vstd::prelude::*;

use crate::builder::RbfError;

verus! {

/// The binomial coefficient `C(n, k)`, by Pascal's rule.
pub open spec fn binomial(n: nat, k: nat) -> nat
    decreases n,
{
    if k == 0 {
        1
    } else if n == 0 {
        0
    } else {
        binomial((n - 1) as nat, (k - 1) as nat) + binomial((n - 1) as nat, k)
    }
}

/// The exponent tuples over `vars` variables whose total is exactly `total`
/// and whose first exponent is below `firsts`, in enumeration order: the first
/// exponent ascending, and for each of its values the remaining budget spread
/// over the other variables in the same order. A single variable takes the
/// whole budget.
pub open spec fn distributions(vars: nat, total: nat, firsts: nat) -> Seq<Seq<nat>>
    decreases vars, firsts,
{
    if vars <= 1 {
        seq![seq![total]]
    } else if firsts == 0 {
        Seq::empty()
    } else {
        let first = (firsts - 1) as nat;
        let rest = (total - first) as nat;
        distributions(vars, total, first) + prefixed(
            seq![first],
            distributions((vars - 1) as nat, rest, rest + 1),
        )
    }
}

/// Every tuple of `tuples` with `prefix` put in front of it.
pub open spec fn prefixed(prefix: Seq<nat>, tuples: Seq<Seq<nat>>) -> Seq<Seq<nat>> {
    tuples.map_values(|t: Seq<nat>| prefix + t)
}

/// All exponent tuples over `vars` variables whose total is exactly `total`.
pub open spec fn compositions(vars: nat, total: nat) -> Seq<Seq<nat>> {
    distributions(vars, total, total + 1)
}

/// The exponent tuples of total degree below `bound`, graded by total degree.
pub open spec fn graded(vars: nat, bound: nat) -> Seq<Seq<nat>>
    decreases bound,
{
    if bound == 0 {
        Seq::empty()
    } else {
        graded(vars, (bound - 1) as nat) + compositions(vars, (bound - 1) as nat)
    }
}

/// The monomial basis over `vars` variables up to total degree `degree`.
pub open spec fn monomials(vars: nat, degree: nat) -> Seq<Seq<nat>> {
    graded(vars, degree + 1)
}

/// An exponent tuple as natural numbers.
pub open spec fn naturals(e: Seq<u32>) -> Seq<nat> {
    e.map_values(|x: u32| x as nat)
}

/// A list of exponent tuples as natural numbers.
pub open spec fn exponent_rows(rows: Seq<Vec<u32>>) -> Seq<Seq<nat>> {
    rows.map_values(|e: Vec<u32>| naturals(e@))
}

proof fn lemma_binomial_above(n: nat, k: nat)
    requires
        k > n,
    ensures
        binomial(n, k) == 0,
    decreases n,
{
    if n > 0 {
        lemma_binomial_above((n - 1) as nat, (k - 1) as nat);
        lemma_binomial_above((n - 1) as nat, k);
    }
}

proof fn lemma_binomial_diagonal(n: nat)
    ensures
        binomial(n, n) == 1,
    decreases n,
{
    if n > 0 {
        lemma_binomial_diagonal((n - 1) as nat);
        lemma_binomial_above((n - 1) as nat, n);
    }
}

/// Over `vars >= 2` variables, the tuples with total `total` whose first
/// exponent is below `firsts` number `C(vars - 1 + total, total)` less those
/// whose first exponent is at least `firsts`.
proof fn lemma_distributions_len(vars: nat, total: nat, firsts: nat)
    requires
        vars >= 2,
        firsts <= total + 1,
    ensures
        firsts <= total ==> distributions(vars, total, firsts).len() + binomial(
            (vars - 1 + total - firsts) as nat,
            (total - firsts) as nat,
        ) == binomial((vars - 1 + total) as nat, total),
        firsts == total + 1 ==> distributions(vars, total, firsts).len() == binomial(
            (vars - 1 + total) as nat,
            total,
        ),
    decreases vars, firsts,
{
    if firsts > 0 {
        let first = (firsts - 1) as nat;
        let rest = (total - first) as nat;
        lemma_distributions_len(vars, total, first);
        lemma_compositions_len((vars - 1) as nat, rest);
        let block = distributions((vars - 1) as nat, rest, rest + 1);
        assert(prefixed(seq![first], block).len() == block.len());
        if firsts == total + 1 {
            assert(binomial((vars - 1) as nat, 0) == 1);
            assert(binomial((vars - 2) as nat, 0) == 1);
        } else {
            assert(binomial((vars - 1 + rest) as nat, rest) == binomial(
                (vars - 2 + rest) as nat,
                (rest - 1) as nat,
            ) + binomial((vars - 2 + rest) as nat, rest));
        }
    }
}

/// There are `C(vars - 1 + total, total)` tuples over `vars` variables with
/// total `total`.
proof fn lemma_compositions_len(vars: nat, total: nat)
    requires
        vars >= 1,
    ensures
        compositions(vars, total).len() == binomial((vars - 1 + total) as nat, total),
    decreases vars, total + 2,
{
    if vars == 1 {
        lemma_binomial_diagonal(total);
    } else {
        lemma_distributions_len(vars, total, total + 1);
    }
}

proof fn lemma_graded_len(vars: nat, bound: nat)
    requires
        vars >= 1,
        bound >= 1,
    ensures
        graded(vars, bound).len() == binomial((vars - 1 + bound) as nat, (bound - 1) as nat),
    decreases bound,
{
    lemma_compositions_len(vars, (bound - 1) as nat);
    if bound > 1 {
        lemma_graded_len(vars, (bound - 1) as nat);
        assert(binomial((vars - 1 + bound) as nat, (bound - 1) as nat) == binomial(
            (vars - 2 + bound) as nat,
            (bound - 2) as nat,
        ) + binomial((vars - 2 + bound) as nat, (bound - 1) as nat));
    } else {
        assert(graded(vars, 0).len() == 0);
        assert(binomial(vars, 0) == 1);
        assert(binomial((vars - 1) as nat, 0) == 1);
    }
}

/// The monomial basis over `vars >= 1` variables up to total degree `degree`
/// has exactly `C(vars + degree, degree)` members.
pub proof fn lemma_monomial_count(vars: nat, degree: nat)
    requires
        vars >= 1,
    ensures
        monomials(vars, degree).len() == binomial(vars + degree, degree),
{
    lemma_graded_len(vars, degree + 1);
}

proof fn lemma_prefixed_concat(prefix: Seq<nat>, a: Seq<Seq<nat>>, b: Seq<Seq<nat>>)
    ensures
        prefixed(prefix, a + b) == prefixed(prefix, a) + prefixed(prefix, b),
{
    assert(prefixed(prefix, a + b) =~= prefixed(prefix, a) + prefixed(prefix, b));
}

proof fn lemma_prefixed_nested(prefix: Seq<nat>, first: nat, tuples: Seq<Seq<nat>>)
    ensures
        prefixed(prefix, prefixed(seq![first], tuples)) == prefixed(prefix.push(first), tuples),
{
    assert forall|k: int| 0 <= k < tuples.len() implies prefixed(
        prefix,
        prefixed(seq![first], tuples),
    )[k] == #[trigger] prefixed(prefix.push(first), tuples)[k] by {
        assert(prefix + (seq![first] + tuples[k]) =~= prefix.push(first) + tuples[k]);
    }
    assert(prefixed(prefix, prefixed(seq![first], tuples)) =~= prefixed(
        prefix.push(first),
        tuples,
    ));
}

/// Appends to `out`, in enumeration order, every exponent tuple that keeps the
/// first `var` exponents of `cur` and spreads `remain` over the others.
fn distribute(cur: &mut Vec<u32>, remain: u32, var: usize, out: &mut Vec<Vec<u32>>)
    requires
        var < old(cur).len(),
    ensures
        final(cur).len() == old(cur).len(),
        final(cur)@.subrange(0, var as int) == old(cur)@.subrange(0, var as int),
        exponent_rows(final(out)@) == exponent_rows(old(out)@) + prefixed(
            naturals(old(cur)@.subrange(0, var as int)),
            compositions((old(cur).len() - var) as nat, remain as nat),
        ),
    decreases old(cur).len() - var,
{
    let ghost prefix = naturals(old(cur)@.subrange(0, var as int));
    let ghost rows0 = exponent_rows(old(out)@);
    let n = cur.len();
    if var + 1 == n {
        cur.set(var, remain);
        let row = cur.clone();
        proof {
            assert(row@ =~= cur@);
            assert(naturals(row@) =~= prefix.push(remain as nat));
            assert(cur@.subrange(0, var as int) =~= old(cur)@.subrange(0, var as int));
        }
        out.push(row);
        proof {
            assert(exponent_rows(out@) =~= rows0.push(naturals(row@)));
            assert(compositions(1, remain as nat) == seq![seq![remain as nat]]);
            assert(prefix + seq![remain as nat] =~= prefix.push(remain as nat));
            assert(prefixed(prefix, compositions(1, remain as nat)) =~= seq![
                prefix.push(remain as nat),
            ]);
        }
    } else {
        let mut i: u64 = 0;
        while i <= remain as u64
            invariant
                var + 1 < n,
                n == old(cur).len(),
                i <= remain as u64 + 1,
                cur.len() == n,
                cur@.subrange(0, var as int) == old(cur)@.subrange(0, var as int),
                prefix == naturals(old(cur)@.subrange(0, var as int)),
                rows0 == exponent_rows(old(out)@),
                exponent_rows(out@) == rows0 + prefixed(
                    prefix,
                    distributions((n - var) as nat, remain as nat, i as nat),
                ),
            decreases remain as u64 + 1 - i,
        {
            let ghost rows1 = exponent_rows(out@);
            let first = i as u32;
            cur.set(var, first);
            proof {
                assert(naturals(cur@.subrange(0, var + 1)) =~= prefix.push(first as nat));
            }
            distribute(cur, remain - first, var + 1, out);
            proof {
                let vars = (n - var) as nat;
                let rest = (remain - first) as nat;
                let block = compositions((vars - 1) as nat, rest);
                assert(cur@.subrange(0, var as int) =~= cur@.subrange(0, var + 1).subrange(
                    0,
                    var as int,
                ));
                assert(distributions(vars, remain as nat, (i + 1) as nat) == distributions(
                    vars,
                    remain as nat,
                    i as nat,
                ) + prefixed(seq![first as nat], block));
                lemma_prefixed_concat(
                    prefix,
                    distributions(vars, remain as nat, i as nat),
                    prefixed(seq![first as nat], block),
                );
                lemma_prefixed_nested(prefix, first as nat, block);
                assert(exponent_rows(out@) == rows1 + prefixed(prefix.push(first as nat), block));
            }
            i = i + 1;
        }
    }
}

/// The exponent tuples of the monomials over `variables` variables up to total
/// degree `degree`: graded by total degree, and within one total degree the
/// first exponent ascending, the remaining budget spread over the other
/// variables in the same order.
pub fn monomial_exponents(variables: usize, degree: u32) -> (r: Result<Vec<Vec<u32>>, RbfError>)
    ensures
        match r {
            Ok(rows) => variables >= 1 && exponent_rows(rows@) == monomials(
                variables as nat,
                degree as nat,
            ),
            Err(e) => variables == 0 && e == RbfError::InvalidConfiguration,
        },
{
    if variables == 0 {
        return Err(RbfError::InvalidConfiguration);
    }
    let mut result: Vec<Vec<u32>> = Vec::new();
    let mut total: u64 = 0;
    while total <= degree as u64
        invariant
            variables >= 1,
            total <= degree as u64 + 1,
            exponent_rows(result@) == graded(variables as nat, total as nat),
        decreases degree as u64 + 1 - total,
    {
        let mut cur: Vec<u32> = vec![0u32; variables];
        distribute(&mut cur, total as u32, 0, &mut result);
        proof {
            let c = compositions(variables as nat, total as nat);
            assert(naturals(cur@.subrange(0, 0)) =~= Seq::<nat>::empty());
            assert(prefixed(Seq::<nat>::empty(), c) =~= c);
        }
        total = total + 1;
    }
    Ok(result)
}

} // verus!
