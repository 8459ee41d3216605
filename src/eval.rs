//! Ordinary (short-circuit) evaluation of expression trees.
use vstd::prelude::*;

use crate::expr::{direct, direct_all, lookup, member, result_view, unwrap_outcome, Expr};
use crate::value::{lemma_models, models, texts, Val, Value};

verus! {

pub open spec fn values_view(r: Result<Vec<Value>, String>) -> Result<Seq<Val>, Seq<char>> {
    match r {
        Ok(xs) => Ok(models(xs@)),
        Err(m) => Err(m@),
    }
}

/// The member of that name of a record value; `Unit` where there is none.
pub fn member_value(v: Value, m: &String) -> (r: Value)
    ensures
        r@ == member(v@, m@),
{
    let ghost whole = v;
    match v {
        Value::Record(n, keys, vals) => {
            let ghost ks = texts(keys@);
            assert(whole@ == Val::Record(n@, ks, models(vals@)));
            let mut vals = vals;
            proof {
                lemma_models(vals@);
            }
            let mut i: usize = 0;
            while i < keys.len() && i < vals.len()
                invariant
                    ks == texts(keys@),
                    whole == v,
                    whole@ == Val::Record(n@, ks, models(vals@)),
                    models(vals@).len() == vals.len(),
                    forall|j: int| 0 <= j < vals.len() ==> #[trigger] models(vals@)[j] == vals@[j]@,
                    lookup(ks, models(vals@), m@, 0) == lookup(ks, models(vals@), m@, i as nat),
                decreases keys.len() - i,
            {
                if keys[i] == *m {
                    assert(ks[i as int] == m@);
                    assert(ks.len() == keys.len());
                    assert(lookup(ks, models(vals@), m@, i as nat) == models(vals@)[i as int]);
                    let x = vals.remove(i);
                    assert(x@ == member(whole@, m@));
                    return x;
                }
                assert(ks[i as int] != m@);
                i = i + 1;
            }
            assert(lookup(ks, models(vals@), m@, i as nat) == Val::Unit);
            Value::Unit
        },
        _ => Value::Unit,
    }
}

/// What a may-fail marker makes of a value: `Okay` is unwrapped, `Fail` is an
/// error, any other value passes unchanged.
pub fn unwrap_value(v: Value) -> (r: Result<Value, String>)
    ensures
        result_view(r) == unwrap_outcome(v@),
{
    match v {
        Value::Okay(x) => Ok(*x),
        Value::Fail(m) => Err(m),
        other => Ok(other),
    }
}

/// Evaluates the tree as ordinary code would: the first failing marker stops
/// the evaluation, and its message is the error.
pub fn evaluate_direct(e: Expr) -> (r: Result<Value, String>)
    ensures
        result_view(r) == direct(e),
    decreases e,
{
    match e {
        Expr::Atomic(v) => Ok(v),
        Expr::Other(_) => Ok(Value::Unit),
        Expr::Leaf(inner) => match evaluate_direct(*inner) {
            Ok(v) => unwrap_value(v),
            Err(m) => Err(m),
        },
        Expr::Call(op, args) => match evaluate_direct_all(args) {
            Ok(vs) => Ok(op.invoke(vs)),
            Err(m) => Err(m),
        },
        Expr::Field(base, m) => match evaluate_direct(*base) {
            Ok(v) => Ok(member_value(v, &m)),
            Err(f) => Err(f),
        },
        Expr::Method(recv, op, args) => match evaluate_direct(*recv) {
            Ok(r) => match evaluate_direct_all(args) {
                Ok(vs) => {
                    let mut all = vs;
                    let ghost before = all@;
                    all.insert(0, r);
                    proof {
                        lemma_models(before);
                        lemma_models(all@);
                        assert(models(all@) =~= seq![r@] + models(before));
                    }
                    Ok(op.invoke(all))
                },
                Err(m) => Err(m),
            },
            Err(m) => Err(m),
        },
        Expr::Record(name, keys, vals) => match evaluate_direct_all(vals) {
            Ok(vs) => Ok(Value::Record(name, keys, vs)),
            Err(m) => Err(m),
        },
    }
}

/// A failure in a prefix is the failure of the whole list.
pub proof fn lemma_direct_all_stops(s: Seq<Expr>, k: int)
    requires
        0 <= k <= s.len(),
        direct_all(s.subrange(0, k)) is Err,
    ensures
        direct_all(s) == direct_all(s.subrange(0, k)),
    decreases s.len() - k,
{
    if k < s.len() {
        let q = s.subrange(0, k + 1);
        assert(q.subrange(0, q.len() - 1) =~= s.subrange(0, k));
        lemma_direct_all_stops(s, k + 1);
    } else {
        assert(s.subrange(0, k) =~= s);
    }
}

/// Evaluates the trees from left to right, stopping at the first failure.
pub fn evaluate_direct_all(v: Vec<Expr>) -> (r: Result<Vec<Value>, String>)
    ensures
        values_view(r) == direct_all(v@),
    decreases v,
{
    let ghost orig = v@;
    let n: usize = v.len();
    let mut rest = v;
    let mut out: Vec<Value> = Vec::new();
    let mut i: usize = 0;
    proof {
        assert(orig.subrange(0, 0) =~= Seq::<Expr>::empty());
        assert(models(out@) =~= Seq::<Val>::empty());
    }
    while rest.len() > 0
        invariant
            i <= orig.len(),
            orig.len() == n,
            orig == v@,
            rest@ == orig.subrange(i as int, orig.len() as int),
            rest.len() == orig.len() - i,
            direct_all(orig.subrange(0, i as int)) == Ok::<Seq<Val>, Seq<char>>(models(out@)),
        decreases rest.len(),
    {
        assert(i < orig.len());
        let x = rest.remove(0);
        assert(x == v[i as int]);
        let ghost pre = orig.subrange(0, i as int + 1);
        assert(pre.subrange(0, pre.len() - 1) =~= orig.subrange(0, i as int));
        match evaluate_direct(x) {
            Ok(val) => {
                let ghost before = out@;
                out.push(val);
                proof {
                    lemma_models(before);
                    lemma_models(out@);
                    assert(models(out@) =~= models(before).push(val@));
                }
            },
            Err(m) => {
                proof {
                    lemma_direct_all_stops(orig, i as int + 1);
                }
                return Err(m);
            },
        }
        i = i + 1;
    }
    assert(orig.subrange(0, i as int) =~= orig);
    Ok(out)
}

} // verus!
