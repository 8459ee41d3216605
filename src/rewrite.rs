//! The rewriter: turns an expression into a plan that evaluates every
//! independent may-fail sub-computation, and the driver that runs such a plan
//! against a fresh error group.
use vstd::prelude::*;

use crate::eval::{evaluate_direct, member_value, unwrap_value};
use crate::expr::{
    collect, collect_all, failures, fault, fault_all, lemma_agree, lemma_agree_all, lemma_markerless,
    lemma_placed_concat, lemma_placed_push, lemma_placed_root, lemma_placed_under, lemma_sites_len,
    markers, markers_all, placed, sites, sites_all, under, Expr, Fault,
};
use crate::group::ErrorGroup;
use crate::value::{lemma_models, models, Op, Value};

verus! {

/// The label of the error group of a run that was given none.
pub const BULK_LABEL: &'static str = "Bulk Try Aggregation";

/// The advisory of a run over a tree without may-fail markers.
pub const NO_MARKERS: &'static str = "No fallible markers found: the rewrite is a no-op";

/// Why an expression cannot be rewritten; the whole rewrite stops.
#[derive(Debug, PartialEq)]
pub enum TransformError {
    /// A node kind that no handler covers, by name.
    UnsupportedConstruct(String),
    /// A record literal whose member names and initializers differ in number,
    /// by the record's type name.
    MalformedInput(String),
}

impl View for TransformError {
    type V = Fault;

    open spec fn view(&self) -> Fault {
        match self {
            TransformError::UnsupportedConstruct(k) => Fault::Unsupported(k@),
            TransformError::MalformedInput(n) => Fault::Malformed(n@),
        }
    }
}

/// The rewritten form of an expression: each node that holds a may-fail
/// marker below it becomes a node that evaluates all of its children and
/// decides afterwards; every other subtree stays as it was.
#[derive(Debug)]
pub enum Plan {
    /// A subtree without markers, evaluated as it stands.
    Plain(Expr),
    /// A may-fail marker over the rewritten inner expression.
    Check(Box<Plan>),
    Call(Op, Vec<Plan>),
    Field(Box<Plan>, String),
    Method(Box<Plan>, Op, Vec<Plan>),
    Record(String, Vec<String>, Vec<Plan>),
}

/// The result of rewriting a tree: the plan and the number of may-fail
/// markers found in it (held at `u64::MAX` beyond that).
#[derive(Debug)]
pub struct Transformed {
    pub leaf_count: u64,
    pub plan: Plan,
}

/// A count held at `u64::MAX`.
pub open spec fn capped(n: int) -> int {
    if n > u64::MAX {
        u64::MAX as int
    } else {
        n
    }
}

/// The plan rewrites the expression: the same shape, with every subtree that
/// holds no marker kept as it is.
pub open spec fn realizes(p: Plan, e: Expr) -> bool
    decreases p,
{
    match p {
        Plan::Plain(x) => x == e && markers(e) == 0,
        Plan::Check(q) => match e {
            Expr::Leaf(inner) => realizes(*q, *inner),
            _ => false,
        },
        Plan::Call(op, ps) => match e {
            Expr::Call(op2, args) => op == op2 && realizes_all(ps@, args@),
            _ => false,
        },
        Plan::Field(q, m) => match e {
            Expr::Field(base, m2) => m == m2 && realizes(*q, *base),
            _ => false,
        },
        Plan::Method(q, op, ps) => match e {
            Expr::Method(recv, op2, args) => op == op2 && realizes(*q, *recv) && realizes_all(
                ps@,
                args@,
            ),
            _ => false,
        },
        Plan::Record(n, ks, ps) => match e {
            Expr::Record(n2, ks2, vals) => n == n2 && ks == ks2 && realizes_all(ps@, vals@),
            _ => false,
        },
    }
}

pub open spec fn realizes_all(ps: Seq<Plan>, es: Seq<Expr>) -> bool
    decreases ps,
{
    ps.len() == es.len() && (ps.len() == 0 || (realizes_all(
        ps.subrange(0, ps.len() - 1),
        es.subrange(0, es.len() - 1),
    ) && realizes(ps[ps.len() - 1], es[es.len() - 1])))
}

proof fn lemma_realizes_index(ps: Seq<Plan>, es: Seq<Expr>, i: int)
    requires
        realizes_all(ps, es),
        0 <= i < ps.len(),
    ensures
        realizes(ps[i], es[i]),
    decreases ps.len(),
{
    if i < ps.len() - 1 {
        lemma_realizes_index(ps.subrange(0, ps.len() - 1), es.subrange(0, es.len() - 1), i);
    }
}

proof fn lemma_fault_index(s: Seq<Expr>, i: int)
    requires
        fault_all(s) is None,
        0 <= i < s.len(),
    ensures
        fault(s[i]) is None,
    decreases s.len(),
{
    if i < s.len() - 1 {
        lemma_fault_index(s.subrange(0, s.len() - 1), i);
    }
}

fn saturating_add(a: u64, b: u64) -> (r: u64)
    ensures
        r == capped(a + b),
{
    if a > u64::MAX - b {
        u64::MAX
    } else {
        a + b
    }
}

/// The number of may-fail markers in the tree, held at `u64::MAX`.
pub fn count_markers(e: &Expr) -> (r: u64)
    ensures
        r == capped(markers(*e) as int),
    decreases e,
{
    match e {
        Expr::Atomic(_) => 0,
        Expr::Other(_) => 0,
        Expr::Leaf(inner) => saturating_add(count_markers(inner), 1),
        Expr::Call(_, args) => count_markers_all(args),
        Expr::Field(base, _) => count_markers(base),
        Expr::Method(recv, _, args) => saturating_add(count_markers(recv), count_markers_all(args)),
        Expr::Record(_, _, vals) => count_markers_all(vals),
    }
}

fn count_markers_all(v: &Vec<Expr>) -> (r: u64)
    ensures
        r == capped(markers_all(v@) as int),
    decreases v,
{
    let mut total: u64 = 0;
    let mut i: usize = 0;
    assert(v@.subrange(0, 0) =~= Seq::<Expr>::empty());
    while i < v.len()
        invariant
            i <= v.len(),
            total == capped(markers_all(v@.subrange(0, i as int)) as int),
        decreases v.len() - i,
    {
        let ghost pre = v@.subrange(0, i as int + 1);
        assert(pre.subrange(0, pre.len() - 1) =~= v@.subrange(0, i as int));
        total = saturating_add(total, count_markers(&v[i]));
        i = i + 1;
    }
    assert(v@.subrange(0, i as int) =~= v@);
    total
}

/// The first node, depth-first from the left, that no handler takes.
pub fn find_fault(e: &Expr) -> (r: Option<TransformError>)
    ensures
        r matches Some(f) ==> fault(*e) == Some(f@),
        r is None ==> fault(*e) is None,
    decreases e,
{
    match e {
        Expr::Atomic(_) => None,
        Expr::Other(k) => Some(TransformError::UnsupportedConstruct(k.clone())),
        Expr::Leaf(inner) => find_fault(inner),
        Expr::Call(_, args) => find_fault_all(args),
        Expr::Field(base, _) => find_fault(base),
        Expr::Method(recv, _, args) => match find_fault(recv) {
            Some(f) => Some(f),
            None => find_fault_all(args),
        },
        Expr::Record(name, keys, vals) => if keys.len() != vals.len() {
            Some(TransformError::MalformedInput(name.clone()))
        } else {
            find_fault_all(vals)
        },
    }
}

fn find_fault_all(v: &Vec<Expr>) -> (r: Option<TransformError>)
    ensures
        r matches Some(f) ==> fault_all(v@) == Some(f@),
        r is None ==> fault_all(v@) is None,
    decreases v,
{
    let mut i: usize = 0;
    assert(v@.subrange(0, 0) =~= Seq::<Expr>::empty());
    while i < v.len()
        invariant
            i <= v.len(),
            fault_all(v@.subrange(0, i as int)) is None,
        decreases v.len() - i,
    {
        let ghost pre = v@.subrange(0, i as int + 1);
        assert(pre.subrange(0, pre.len() - 1) =~= v@.subrange(0, i as int));
        match find_fault(&v[i]) {
            Some(f) => {
                proof {
                    lemma_fault_stops(v@, i as int + 1);
                }
                return Some(f);
            },
            None => {},
        }
        i = i + 1;
    }
    assert(v@.subrange(0, i as int) =~= v@);
    None
}

proof fn lemma_fault_stops(s: Seq<Expr>, k: int)
    requires
        0 <= k <= s.len(),
        fault_all(s.subrange(0, k)) is Some,
    ensures
        fault_all(s) == fault_all(s.subrange(0, k)),
    decreases s.len() - k,
{
    if k < s.len() {
        let q = s.subrange(0, k + 1);
        assert(q.subrange(0, q.len() - 1) =~= s.subrange(0, k));
        lemma_fault_stops(s, k + 1);
    } else {
        assert(s.subrange(0, k) =~= s);
    }
}

fn build(e: Expr) -> (p: Plan)
    requires
        fault(e) is None,
    ensures
        realizes(p, e),
        markers(e) == 0 ==> p == Plan::Plain(e),
        markers(e) > 0 ==> !(p is Plain),
    decreases e,
{
    if count_markers(&e) == 0 {
        return Plan::Plain(e);
    }
    match e {
        Expr::Leaf(inner) => Plan::Check(Box::new(build(*inner))),
        Expr::Call(op, args) => Plan::Call(op, build_all(args)),
        Expr::Field(base, m) => Plan::Field(Box::new(build(*base)), m),
        Expr::Method(recv, op, args) => {
            let q = build(*recv);
            Plan::Method(Box::new(q), op, build_all(args))
        },
        Expr::Record(n, ks, vals) => Plan::Record(n, ks, build_all(vals)),
        Expr::Atomic(v) => Plan::Plain(Expr::Atomic(v)),
        Expr::Other(k) => Plan::Plain(Expr::Other(k)),
    }
}

fn build_all(v: Vec<Expr>) -> (r: Vec<Plan>)
    requires
        fault_all(v@) is None,
    ensures
        realizes_all(r@, v@),
    decreases v,
{
    let ghost orig = v@;
    let n: usize = v.len();
    let mut rest = v;
    let mut out: Vec<Plan> = Vec::new();
    let mut i: usize = 0;
    assert(orig.subrange(0, 0) =~= Seq::<Expr>::empty());
    while rest.len() > 0
        invariant
            i <= n,
            orig.len() == n,
            orig == v@,
            fault_all(orig) is None,
            rest@ == orig.subrange(i as int, n as int),
            rest.len() == n - i,
            realizes_all(out@, orig.subrange(0, i as int)),
        decreases rest.len(),
    {
        let x = rest.remove(0);
        assert(x == v[i as int]);
        proof {
            lemma_fault_index(orig, i as int);
        }
        let p = build(x);
        let ghost before = out@;
        out.push(p);
        let ghost pre = orig.subrange(0, i as int + 1);
        assert(pre.subrange(0, pre.len() - 1) =~= orig.subrange(0, i as int));
        assert(out@.subrange(0, out@.len() - 1) =~= before);
        i = i + 1;
    }
    assert(orig.subrange(0, n as int) =~= orig);
    out
}

/// Rewrites the tree. Fails, with nothing produced, on the first node that no
/// handler takes; otherwise the plan keeps every subtree without markers as
/// it is, and the whole tree exactly when it holds no marker.
pub fn transform(e: Expr) -> (r: Result<Transformed, TransformError>)
    ensures
        r is Err <==> fault(e) is Some,
        r matches Err(f) ==> fault(e) == Some(f@),
        r matches Ok(t) ==> {
            &&& t.leaf_count == capped(markers(e) as int)
            &&& realizes(t.plan, e)
            &&& (t.leaf_count == 0) == (t.plan == Plan::Plain(e))
        },
{
    match find_fault(&e) {
        Some(f) => Err(f),
        None => {
            let leaf_count = count_markers(&e);
            let plan = build(e);
            Ok(Transformed { leaf_count, plan })
        },
    }
}

fn bump(t: &mut u64)
    ensures
        *final(t) == capped(*old(t) + 1),
{
    if *t < u64::MAX {
        *t = *t + 1;
    }
}

/// The markers evaluated so far: how many (held at `u64::MAX`), and where
/// each stands, in the order of evaluation.
struct Tally {
    count: u64,
    visited: Ghost<Seq<Seq<nat>>>,
}

/// Evaluates a plan of `e`, which stands at site `at` of the whole tree: every
/// failure is added to the group, in source order, each marker is recorded as
/// visited once it is evaluated, and `None` stands for a failed subtree. is added to the group, in source
/// order, and `None` stands for a failed subtree.
fn eval_plan(
    p: Plan,
    Ghost(e): Ghost<Expr>,
    Ghost(at): Ghost<Seq<nat>>,
    group: &mut ErrorGroup,
    tally: &mut Tally,
) -> (r: Option<Value>)
    requires
        realizes(p, e),
    ensures
        final(group)@.label == old(group)@.label,
        final(tally).count == capped(old(tally).count + markers(e)),
        final(tally).visited@ == old(tally).visited@ + placed(at, sites(e)),
        collect(e) matches Ok(v) ==> r matches Some(x) && x@ == v && final(group)@.entries == old(group)@.entries,
        collect(e) matches Err(es) ==> r is None && final(group)@.entries == old(group)@.entries
            + es,
    decreases p,
{
    proof {
        lemma_agree(e);
        lemma_sites_len(e);
    }
    match p {
        Plan::Plain(x) => {
            proof {
                lemma_markerless(x);
                lemma_agree(x);
                assert(old(tally).visited@ + placed(at, sites(e)) =~= old(tally).visited@);
            }
            match evaluate_direct(x) {
                Ok(v) => Some(v),
                Err(_) => None,
            }
        },
        Plan::Check(q) => {
            let ghost inner = *e->Leaf_0;
            proof {
                lemma_agree(inner);
            }
            let before = group.len();
            let r = eval_plan(*q, Ghost(inner), Ghost(at.push(0)), group, tally);
            bump(&mut tally.count);
            tally.visited = Ghost(tally.visited@.push(at));
            proof {
                lemma_placed_under(at, 0, sites(inner));
                lemma_placed_push(at, under(0, sites(inner)), Seq::empty());
                assert(at + Seq::<nat>::empty() =~= at);
                assert(tally.visited@ =~= old(tally).visited@ + placed(at, sites(e)));
            }
            if group.len() != before {
                None
            } else {
                match r {
                    Some(v) => match unwrap_value(v) {
                        Ok(x) => Some(x),
                        Err(m) => {
                            group.append(m);
                            None
                        },
                    },
                    None => None,
                }
            }
        },
        Plan::Call(op, ps) => {
            let ghost args = e->Call_1@;
            proof {
                lemma_agree_all(args);
            }
            let before = group.len();
            let vals = eval_plans(ps, Ghost(args), Ghost(at), Ghost(0nat), group, tally);
            if group.len() == before {
                match vals {
                    Some(vs) => Some(op.invoke(vs)),
                    None => None,
                }
            } else {
                None
            }
        },
        Plan::Field(q, m) => {
            let ghost base = *e->Field_0;
            proof {
                lemma_agree(base);
            }
            let before = group.len();
            let r = eval_plan(*q, Ghost(base), Ghost(at.push(0)), group, tally);
            proof {
                lemma_placed_under(at, 0, sites(base));
            }
            if group.len() == before {
                match r {
                    Some(v) => Some(member_value(v, &m)),
                    None => None,
                }
            } else {
                None
            }
        },
        Plan::Method(q, op, ps) => {
            let ghost recv = *e->Method_0;
            let ghost args = e->Method_2@;
            proof {
                lemma_agree(recv);
                lemma_agree_all(args);
            }
            let before = group.len();
            let ghost g0 = group@.entries;
            let ghost v0 = tally.visited@;
            let r = eval_plan(*q, Ghost(recv), Ghost(at.push(0)), group, tally);
            let ghost g1 = group@.entries;
            let vals = eval_plans(ps, Ghost(args), Ghost(at), Ghost(1nat), group, tally);
            proof {
                lemma_placed_under(at, 0, sites(recv));
                lemma_placed_concat(at, under(0, sites(recv)), sites_all(args, 1));
                assert(tally.visited@ =~= v0 + placed(at, sites(e)));
                if collect(recv) is Err && collect_all(args) is Err {
                    assert(group@.entries =~= g0 + (collect(recv)->Err_0 + collect_all(
                        args,
                    )->Err_0));
                }
            }
            if group.len() == before {
                match (r, vals) {
                    (Some(rv), Some(vs)) => {
                        let mut all = vs;
                        let ghost tail = all@;
                        all.insert(0, rv);
                        proof {
                            lemma_models(tail);
                            lemma_models(all@);
                            assert(models(all@) =~= seq![rv@] + models(tail));
                        }
                        Some(op.invoke(all))
                    },
                    _ => None,
                }
            } else {
                None
            }
        },
        Plan::Record(n, ks, ps) => {
            let ghost vals = e->Record_2@;
            proof {
                lemma_agree_all(vals);
            }
            let before = group.len();
            let got = eval_plans(ps, Ghost(vals), Ghost(at), Ghost(0nat), group, tally);
            if group.len() == before {
                match got {
                    Some(vs) => Some(Value::Record(n, ks, vs)),
                    None => None,
                }
            } else {
                None
            }
        },
    }
}

/// Evaluates the plans of `es` from left to right, each one whatever became
/// of the others.
fn eval_plans(
    ps: Vec<Plan>,
    Ghost(es): Ghost<Seq<Expr>>,
    Ghost(at): Ghost<Seq<nat>>,
    Ghost(base): Ghost<nat>,
    group: &mut ErrorGroup,
    tally: &mut Tally,
) -> (r: Option<Vec<Value>>)
    requires
        realizes_all(ps@, es),
    ensures
        final(group)@.label == old(group)@.label,
        final(tally).count == capped(old(tally).count + markers_all(es)),
        final(tally).visited@ == old(tally).visited@ + placed(at, sites_all(es, base)),
        collect_all(es) matches Ok(vs) ==> r matches Some(xs) && models(xs@) == vs && final(group)@.entries == old(group)@.entries,
        collect_all(es) matches Err(fs) ==> r is None && final(group)@.entries == old(group)@.entries + fs,
    decreases ps,
{
    let ghost plans = ps@;
    let ghost g0 = group@.entries;
    let ghost t0 = tally.count;
    let ghost v0 = tally.visited@;
    let n: usize = ps.len();
    let mut rest = ps;
    let mut out: Vec<Value> = Vec::new();
    let mut failed = false;
    let mut i: usize = 0;
    assert(es.subrange(0, 0) =~= Seq::<Expr>::empty());
    assert(models(out@) =~= Seq::empty()) by {
        lemma_models(out@);
    }
    assert(g0 + Seq::<Seq<char>>::empty() =~= g0);
    assert(v0 + placed(at, sites_all(es.subrange(0, 0), base)) =~= v0);
    while rest.len() > 0
        invariant
            i <= n,
            plans.len() == n,
            plans == ps@,
            realizes_all(plans, es),
            rest@ == plans.subrange(i as int, n as int),
            rest.len() == n - i,
            group@.label == old(group)@.label,
            tally.count == capped(t0 + markers_all(es.subrange(0, i as int))),
            tally.visited@ == v0 + placed(at, sites_all(es.subrange(0, i as int), base)),
            collect_all(es.subrange(0, i as int)) matches Ok(vs) ==> !failed && models(out@) == vs
                && group@.entries == g0,
            collect_all(es.subrange(0, i as int)) matches Err(fs) ==> failed && group@.entries
                == g0 + fs,
        decreases rest.len(),
    {
        let p = rest.remove(0);
        assert(p == ps[i as int]);
        proof {
            lemma_realizes_index(plans, es, i as int);
        }
        let ghost pre = es.subrange(0, i as int + 1);
        assert(pre.subrange(0, pre.len() - 1) =~= es.subrange(0, i as int));
        assert(pre[pre.len() - 1] == es[i as int]);
        let ghost mid = group@.entries;
        let ghost vmid = tally.visited@;
        let r = eval_plan(p, Ghost(es[i as int]), Ghost(at.push((base + i) as nat)), group, tally);
        proof {
            let sub = es.subrange(0, i as int);
            lemma_placed_under(at, (base + i) as nat, sites(es[i as int]));
            lemma_placed_concat(at, sites_all(sub, base), under((base + i) as nat, sites(es[i as int])));
            assert(sites_all(pre, base) == sites_all(sub, base) + under((base + i) as nat, sites(es[i as int])));
            assert(tally.visited@ =~= v0 + placed(at, sites_all(pre, base)));
            if collect_all(es.subrange(0, i as int)) is Err && collect(es[i as int]) is Err {
                assert(group@.entries =~= g0 + (collect_all(es.subrange(0, i as int))->Err_0
                    + collect(es[i as int])->Err_0));
            }
            if collect_all(es.subrange(0, i as int)) is Ok && collect(es[i as int]) is Err {
                assert(group@.entries =~= g0 + collect(es[i as int])->Err_0);
            }
        }
        match r {
            Some(v) => {
                let ghost before = out@;
                out.push(v);
                proof {
                    lemma_models(before);
                    lemma_models(out@);
                    assert(models(out@) =~= models(before).push(v@));
                }
            },
            None => {
                failed = true;
            },
        }
        i = i + 1;
    }
    assert(es.subrange(0, n as int) =~= es);
    if failed {
        None
    } else {
        Some(out)
    }
}

/// How a run ended.
#[derive(Debug)]
pub enum Outcome {
    /// The composed value, every marker unwrapped.
    Success(Value),
    /// Every failure recorded, in source order.
    Failure(ErrorGroup),
}

/// What a run hands back.
pub struct Report {
    pub outcome: Outcome,
    /// How many may-fail markers were evaluated (held at `u64::MAX`).
    pub leaf_evaluations: u64,
    /// [`NO_MARKERS`] where the tree held no marker.
    pub advisory: Option<String>,
    /// The sites of the markers (see [`sites`]), in the order in which they
    /// were evaluated.
    pub visited: Ghost<Seq<Seq<nat>>>,
}

/// The label of a run's error group.
pub open spec fn run_label(label: Option<String>) -> Seq<char> {
    match label {
        Some(l) => l@,
        None => BULK_LABEL@,
    }
}

/// Rewrites the tree and evaluates it once against a fresh error group with
/// the given label (else [`BULK_LABEL`]). Success carries the composed value;
/// failure carries every failure, in source order.
pub fn run(e: Expr, label: Option<String>) -> (r: Result<Report, TransformError>)
    ensures
        r is Err <==> fault(e) is Some,
        r matches Err(f) ==> fault(e) == Some(f@),
        r matches Ok(rep) ==> {
            &&& rep.leaf_evaluations == capped(markers(e) as int)
            &&& rep.visited@ == sites(e)
            &&& (rep.advisory is Some) == (markers(e) == 0)
            &&& rep.advisory matches Some(a) ==> a@ == NO_MARKERS@
            &&& collect(e) matches Ok(v) ==> rep.outcome matches Outcome::Success(x) && x@ == v
            &&& collect(e) matches Err(es) ==> rep.outcome matches Outcome::Failure(g) && g@.label
                == Some(run_label(label)) && g@.entries == es
        },
{
    let t = match transform(e) {
        Ok(t) => t,
        Err(f) => {
            return Err(f);
        },
    };
    let advisory = if t.leaf_count == 0 {
        Some(String::from_str(NO_MARKERS))
    } else {
        None
    };
    let name = match label {
        Some(l) => l,
        None => String::from_str(BULK_LABEL),
    };
    let mut group = ErrorGroup::new(Some(name));
    let mut tally = Tally { count: 0, visited: Ghost(Seq::empty()) };
    let r = eval_plan(t.plan, Ghost(e), Ghost(Seq::empty()), &mut group, &mut tally);
    proof {
        lemma_placed_root(sites(e));
        assert(Seq::<Seq<nat>>::empty() + sites(e) =~= sites(e));
        lemma_agree(e);
        assert(Seq::<Seq<char>>::empty() + failures(e) =~= failures(e));
    }
    let outcome = if group.is_empty() {
        match r {
            Some(v) => Outcome::Success(v),
            None => Outcome::Failure(group),
        }
    } else {
        Outcome::Failure(group)
    };
    Ok(Report { outcome, leaf_evaluations: tally.count, advisory, visited: tally.visited })
}

} // verus!
