//! What holds of bulk evaluation for every expression, stated over the two
//! meanings of an expression (see [`crate::expr`]). [`crate::rewrite::run`]
//! is proved to compute the bulk meaning.
use vstd::prelude::*;

use crate::expr::{
    collect, collect_all, direct, failures, failures_all, lemma_agree, lemma_markerless,
    lemma_sites_all_len, lemma_sites_len, markers, sites, sites_all, under, Expr,
};
use crate::value::Op;

verus! {

/// A tree without may-fail markers evaluates, rewritten, to the value that
/// ordinary evaluation gives, and records no failure.
pub proof fn lemma_identity(e: Expr)
    requires
        markers(e) == 0,
    ensures
        direct(e) is Ok,
        collect(e) is Ok,
        collect(e)->Ok_0 == direct(e)->Ok_0,
        failures(e) == Seq::<Seq<char>>::empty(),
{
    lemma_markerless(e);
    lemma_agree(e);
}

/// Where exactly one failure is recorded, it is the failure at which ordinary
/// evaluation stops.
pub proof fn lemma_single_failure(e: Expr)
    requires
        failures(e).len() == 1,
    ensures
        collect(e) is Err,
        direct(e) is Err,
        failures(e) == seq![direct(e)->Err_0],
{
    lemma_agree(e);
    assert(failures(e) =~= seq![direct(e)->Err_0]);
}

/// Failures are recorded in source order: those of a list of sibling
/// expressions are those of any left part followed by those of the rest.
pub proof fn lemma_source_order(s: Seq<Expr>, t: Seq<Expr>)
    ensures
        failures_all(s + t) == failures_all(s) + failures_all(t),
    decreases t.len(),
{
    if t.len() == 0 {
        assert(s + t =~= s);
        assert(failures_all(s) + failures_all(t) =~= failures_all(s));
    } else {
        let u = s + t;
        let tp = t.subrange(0, t.len() - 1);
        lemma_source_order(s, tp);
        assert(u.subrange(0, u.len() - 1) =~= s + tp);
        assert(u[u.len() - 1] == t[t.len() - 1]);
        let a = failures_all(s);
        let b = failures_all(tp);
        let c = failures(t[t.len() - 1]);
        assert(failures_all(t) == b + c);
        assert(failures_all(u) == (a + b) + c);
        assert((a + b) + c =~= a + (b + c));
    }
}

/// A call records the failures of its arguments in order, and a method call
/// those of its receiver before those of its arguments; the first of them is
/// where ordinary evaluation stops.
pub proof fn lemma_call_failures(op: Op, recv: Expr, args: Vec<Expr>)
    ensures
        failures(Expr::Call(op, args)) == failures_all(args@),
        failures(Expr::Method(Box::new(recv), op, args)) == failures(recv) + failures_all(args@),
        failures(Expr::Call(op, args)).len() > 0 ==> direct(Expr::Call(op, args)) == Err::<
            crate::value::Val,
            Seq<char>,
        >(failures(Expr::Call(op, args))[0]),
{
    lemma_agree(Expr::Call(op, args));
    let m = Expr::Method(Box::new(recv), op, args);
    if collect(recv) is Ok {
        assert(failures(recv) + failures_all(args@) =~= failures_all(args@));
    }
    if collect_all(args@) is Ok {
        assert(failures(recv) + failures_all(args@) =~= failures(recv));
    }
}

/// Bulk evaluation succeeds exactly where ordinary evaluation does, with the
/// same value.
pub proof fn lemma_round_trip(e: Expr)
    ensures
        (collect(e) is Ok) == (direct(e) is Ok),
        collect(e) is Ok ==> collect(e)->Ok_0 == direct(e)->Ok_0,
        (failures(e).len() == 0) == (collect(e) is Ok),
{
    lemma_agree(e);
}

proof fn lemma_under_distinct(i: nat, ps: Seq<Seq<nat>>)
    requires
        ps.no_duplicates(),
    ensures
        under(i, ps).no_duplicates(),
        forall|j: int|
            0 <= j < ps.len() ==> #[trigger] under(i, ps)[j].len() > 0 && under(i, ps)[j][0] == i,
{
    let u = under(i, ps);
    assert forall|j: int, k: int| 0 <= j < u.len() && 0 <= k < u.len() && j != k implies u[j]
        != u[k] by {
        assert(u[j].subrange(1, u[j].len() as int) =~= ps[j]);
        assert(u[k].subrange(1, u[k].len() as int) =~= ps[k]);
    }
}

proof fn lemma_concat_distinct(a: Seq<Seq<nat>>, b: Seq<Seq<nat>>)
    requires
        a.no_duplicates(),
        b.no_duplicates(),
        forall|j: int, k: int| 0 <= j < a.len() && 0 <= k < b.len() ==> a[j] != b[k],
    ensures
        (a + b).no_duplicates(),
{
    let c = a + b;
    assert forall|j: int, k: int| 0 <= j < c.len() && 0 <= k < c.len() && j != k implies c[j]
        != c[k] by {
        if j < a.len() && k >= a.len() {
            assert(c[k] == b[k - a.len()]);
        } else if k < a.len() && j >= a.len() {
            assert(c[j] == b[j - a.len()]);
        }
    }
}

proof fn lemma_sites_distinct(e: Expr)
    ensures
        sites(e).no_duplicates(),
    decreases e,
{
    match e {
        Expr::Leaf(inner) => {
            lemma_sites_distinct(*inner);
            lemma_under_distinct(0, sites(*inner));
            let u = under(0, sites(*inner));
            assert forall|j: int| 0 <= j < u.len() implies u[j] != Seq::<nat>::empty() by {
                assert(u[j].len() > 0);
            }
            lemma_concat_distinct(u, seq![Seq::<nat>::empty()]);
            assert(u.push(Seq::<nat>::empty()) =~= u + seq![Seq::<nat>::empty()]);
        },
        Expr::Call(_, args) => lemma_sites_all_distinct(args@, 0),
        Expr::Field(base, _) => {
            lemma_sites_distinct(*base);
            lemma_under_distinct(0, sites(*base));
        },
        Expr::Method(recv, _, args) => {
            lemma_sites_distinct(*recv);
            lemma_under_distinct(0, sites(*recv));
            lemma_sites_all_distinct(args@, 1);
            let a = under(0, sites(*recv));
            let b = sites_all(args@, 1);
            assert forall|j: int, k: int| 0 <= j < a.len() && 0 <= k < b.len() implies a[j]
                != b[k] by {
                assert(a[j][0] == 0);
                assert(b[k].len() > 0 && 1 <= b[k][0]);
            }
            lemma_concat_distinct(a, b);
        },
        Expr::Record(_, _, vals) => lemma_sites_all_distinct(vals@, 0),
        _ => {},
    }
}

proof fn lemma_sites_all_distinct(s: Seq<Expr>, base: nat)
    ensures
        sites_all(s, base).no_duplicates(),
        forall|j: int|
            #![trigger sites_all(s, base)[j]]
            0 <= j < sites_all(s, base).len() ==> sites_all(s, base)[j].len() > 0 && base
                <= sites_all(s, base)[j][0] && sites_all(s, base)[j][0] < base + s.len(),
    decreases s,
{
    if s.len() > 0 {
        let p = s.subrange(0, s.len() - 1);
        let last = s[s.len() - 1];
        let i = (base + s.len() - 1) as nat;
        lemma_sites_all_distinct(p, base);
        lemma_sites_distinct(last);
        lemma_under_distinct(i, sites(last));
        let a = sites_all(p, base);
        let b = under(i, sites(last));
        assert forall|j: int, k: int| 0 <= j < a.len() && 0 <= k < b.len() implies a[j] != b[k] by {
            assert(a[j].len() > 0 && a[j][0] < base + p.len());
            assert(a[j][0] < i);
            assert(b[k][0] == i);
        }
        lemma_concat_distinct(a, b);
        let c = a + b;
        assert(c == sites_all(s, base));
        assert forall|j: int| #![trigger c[j]] 0 <= j < c.len() implies c[j].len() > 0 && base
            <= c[j][0] && c[j][0] < base + s.len() by {
            if j >= a.len() {
                assert(c[j] == b[j - a.len()]);
            }
        }
    }
}

/// Each may-fail marker is evaluated exactly once: a run records the sites
/// of the markers it evaluates ([`crate::rewrite::Report::visited`] is
/// `sites(e)`), and these are one per marker, no two the same.
pub proof fn lemma_each_marker_once(e: Expr)
    ensures
        sites(e).len() == markers(e),
        sites(e).no_duplicates(),
{
    lemma_sites_len(e);
    lemma_sites_distinct(e);
}

} // verus!
