use vstd::prelude::*;

use crate::cmd::{is_binary, Cmd};
use crate::compile::{compiles, depth, first_underflow, underflows_at};

verus! {

/// A bytebeat unit: a run of instructions that, started on a stack of any
/// depth, never pops below where it started and leaves exactly one more
/// value than it found (`t`, `t 2 *` and `t 8 >>` are units).
pub open spec fn is_unit(u: Seq<Cmd>) -> bool {
    first_underflow(u, u.len() as int) is None && depth(u, u.len() as int) == 1
}

/// No instruction among the first `n` underflows.
pub open spec fn clean(s: Seq<Cmd>, n: int) -> bool {
    forall|i: int| 0 <= i < n ==> !underflows_at(s, i)
}

pub proof fn lemma_clean_iff(s: Seq<Cmd>, n: int)
    requires
        0 <= n <= s.len(),
    ensures
        first_underflow(s, n) is None <==> clean(s, n),
    decreases n,
{
    if n > 0 {
        lemma_clean_iff(s, n - 1);
    }
}

pub proof fn lemma_depth_prefix(a: Seq<Cmd>, b: Seq<Cmd>, k: int)
    requires
        0 <= k <= a.len(),
    ensures
        depth(a + b, k) == depth(a, k),
    decreases k,
{
    if k > 0 {
        lemma_depth_prefix(a, b, k - 1);
        assert((a + b)[k - 1] == a[k - 1]);
    }
}

pub proof fn lemma_depth_concat(a: Seq<Cmd>, b: Seq<Cmd>, k: int)
    requires
        0 <= k <= b.len(),
    ensures
        depth(a + b, a.len() + k) == depth(a, a.len() as int) + depth(b, k),
    decreases k,
{
    if k > 0 {
        lemma_depth_concat(a, b, k - 1);
        assert((a + b)[a.len() + k - 1] == b[k - 1]);
    } else {
        lemma_depth_prefix(a, b, a.len() as int);
    }
}

proof fn lemma_depth_nonneg_clean(s: Seq<Cmd>, n: int)
    requires
        0 <= n <= s.len(),
        clean(s, n),
    ensures
        depth(s, n) >= 0,
    decreases n,
{
    if n > 0 {
        assert(!underflows_at(s, n - 1));
        lemma_depth_nonneg_clean(s, n - 1);
    }
}

/// Two units followed by an operator that pops two values and pushes one
/// make a unit.
pub proof fn lemma_compose_units(a: Seq<Cmd>, b: Seq<Cmd>, op: Cmd)
    requires
        is_unit(a),
        is_unit(b),
        is_binary(op),
    ensures
        is_unit(a + b + seq![op]),
{
    let ab = a + b;
    let s = ab + seq![op];
    lemma_clean_iff(a, a.len() as int);
    lemma_clean_iff(b, b.len() as int);
    assert forall|i: int| 0 <= i < s.len() implies !underflows_at(s, i) by {
        if i < a.len() {
            assert(s[i] == a[i]);
            lemma_depth_prefix(a, b, i);
            lemma_depth_prefix(ab, seq![op], i);
            assert(!underflows_at(a, i));
        } else if i < ab.len() {
            let j = i - a.len();
            assert(s[i] == b[j]);
            lemma_depth_concat(a, b, j);
            lemma_depth_prefix(ab, seq![op], i);
            assert(!underflows_at(b, j));
        } else {
            lemma_depth_concat(a, b, b.len() as int);
            lemma_depth_prefix(ab, seq![op], ab.len() as int);
            assert(s[i] == op);
        }
    }
    lemma_clean_iff(s, s.len() as int);
    lemma_depth_concat(a, b, b.len() as int);
    lemma_depth_prefix(ab, seq![op], ab.len() as int);
    assert(s[ab.len() as int] == op);
}

/// Placing a unit anywhere in a program that `compile` accepts gives a
/// program that `compile` accepts.
pub proof fn lemma_unit_anywhere(p: Seq<Cmd>, u: Seq<Cmd>, q: Seq<Cmd>)
    requires
        compiles(p + q),
        is_unit(u),
    ensures
        compiles(p + u + q),
{
    let pq = p + q;
    let s = p + u + q;
    let pu = p + u;
    lemma_clean_iff(pq, pq.len() as int);
    lemma_clean_iff(u, u.len() as int);
    lemma_depth_prefix(p, q, p.len() as int);
    lemma_depth_prefix(p, u, p.len() as int);
    assert(clean(p, p.len() as int)) by {
        assert forall|i: int| 0 <= i < p.len() implies !underflows_at(p, i) by {
            assert(!underflows_at(pq, i));
            assert(pq[i] == p[i]);
            lemma_depth_prefix(p, q, i);
        }
    }
    lemma_depth_nonneg_clean(p, p.len() as int);
    assert forall|i: int| 0 <= i < s.len() implies !underflows_at(s, i) by {
        if i < p.len() {
            assert(s[i] == p[i]);
            assert(pq[i] == p[i]);
            assert(!underflows_at(pq, i));
            lemma_depth_prefix(p, q, i);
            lemma_depth_prefix(p, u, i);
            lemma_depth_prefix(pu, q, i);
        } else if i < pu.len() {
            let j = i - p.len();
            assert(s[i] == u[j]);
            assert(!underflows_at(u, j));
            lemma_depth_concat(p, u, j);
            lemma_depth_prefix(pu, q, i);
        } else {
            let j = i - pu.len();
            assert(s[i] == q[j]);
            assert(pq[p.len() + j] == q[j]);
            assert(!underflows_at(pq, p.len() + j));
            lemma_depth_concat(pu, q, j);
            lemma_depth_concat(p, u, u.len() as int);
            lemma_depth_concat(p, q, j);
        }
    }
    lemma_clean_iff(s, s.len() as int);
    lemma_depth_concat(pu, q, q.len() as int);
    lemma_depth_concat(p, u, u.len() as int);
    lemma_depth_concat(p, q, q.len() as int);
    lemma_depth_nonneg_clean(pq, pq.len() as int);
}

/// A unit is a program that `compile` accepts.
pub proof fn lemma_unit_compiles(u: Seq<Cmd>)
    requires
        is_unit(u),
    ensures
        compiles(u),
{
}

} // verus!
