//! Expression trees with may-fail markers, and their two meanings: ordinary
//! short-circuit evaluation, and bulk evaluation that runs every independent
//! sub-computation and collects every failure.
use vstd::prelude::*;

use crate::value::{apply, lemma_models, model, models, texts, Op, Val, Value};

verus! {

/// An expression node.
#[derive(Debug, PartialEq)]
pub enum Expr {
    /// A literal, a bare name or a black box: evaluates to its value.
    Atomic(Value),
    /// The may-fail marker: the inner expression yields an outcome value that is
    /// unwrapped when `Okay` and recorded when `Fail`.
    Leaf(Box<Expr>),
    /// A call of a host operation on ordered arguments.
    Call(Op, Vec<Expr>),
    /// Access to a named member of the base's record value.
    Field(Box<Expr>, String),
    /// A method call: the operation applied to the receiver, then the arguments.
    Method(Box<Expr>, Op, Vec<Expr>),
    /// A record literal: its type name, member names and member initializers.
    Record(String, Vec<String>, Vec<Expr>),
    /// A construct of the host syntax that no handler covers, by name.
    Other(String),
}

/// Why a tree cannot be rewritten.
pub enum Fault {
    Unsupported(Seq<char>),
    Malformed(Seq<char>),
}

/// The number of may-fail markers in the tree.
pub open spec fn markers(e: Expr) -> nat
    decreases e,
{
    match e {
        Expr::Atomic(_) => 0,
        Expr::Other(_) => 0,
        Expr::Leaf(inner) => markers(*inner) + 1,
        Expr::Call(_, args) => markers_all(args@),
        Expr::Field(base, _) => markers(*base),
        Expr::Method(recv, _, args) => markers(*recv) + markers_all(args@),
        Expr::Record(_, _, vals) => markers_all(vals@),
    }
}

pub open spec fn markers_all(s: Seq<Expr>) -> nat
    decreases s,
{
    if s.len() == 0 {
        0
    } else {
        markers_all(s.subrange(0, s.len() - 1)) + markers(s[s.len() - 1])
    }
}

/// The first node, in depth-first left-to-right order, that no handler takes:
/// an unsupported construct, or a record literal whose member names and
/// initializers differ in number.
pub open spec fn fault(e: Expr) -> Option<Fault>
    decreases e,
{
    match e {
        Expr::Atomic(_) => None,
        Expr::Other(k) => Some(Fault::Unsupported(k@)),
        Expr::Leaf(inner) => fault(*inner),
        Expr::Call(_, args) => fault_all(args@),
        Expr::Field(base, _) => fault(*base),
        Expr::Method(recv, _, args) => match fault(*recv) {
            Some(f) => Some(f),
            None => fault_all(args@),
        },
        Expr::Record(name, keys, vals) => if keys.len() != vals.len() {
            Some(Fault::Malformed(name@))
        } else {
            fault_all(vals@)
        },
    }
}

pub open spec fn fault_all(s: Seq<Expr>) -> Option<Fault>
    decreases s,
{
    if s.len() == 0 {
        None
    } else {
        match fault_all(s.subrange(0, s.len() - 1)) {
            Some(f) => Some(f),
            None => fault(s[s.len() - 1]),
        }
    }
}

/// The value of a record's member: the first member of that name, else `Unit`.
pub open spec fn lookup(keys: Seq<Seq<char>>, vals: Seq<Val>, m: Seq<char>, i: nat) -> Val
    decreases keys.len() - i,
{
    if i < keys.len() && i < vals.len() {
        if keys[i as int] == m {
            vals[i as int]
        } else {
            lookup(keys, vals, m, i + 1)
        }
    } else {
        Val::Unit
    }
}

pub open spec fn member(v: Val, m: Seq<char>) -> Val {
    match v {
        Val::Record(_, keys, vals) => lookup(keys, vals, m, 0),
        _ => Val::Unit,
    }
}

/// What a may-fail marker makes of the value of its inner expression.
pub open spec fn unwrap_outcome(v: Val) -> Result<Val, Seq<char>> {
    match v {
        Val::Okay(x) => Ok(*x),
        Val::Fail(m) => Err(m),
        _ => Ok(v),
    }
}

/// Ordinary evaluation: the first failing marker stops the whole expression.
pub open spec fn direct(e: Expr) -> Result<Val, Seq<char>>
    decreases e,
{
    match e {
        Expr::Atomic(v) => Ok(model(v)),
        Expr::Other(_) => Ok(Val::Unit),
        Expr::Leaf(inner) => match direct(*inner) {
            Ok(v) => unwrap_outcome(v),
            Err(m) => Err(m),
        },
        Expr::Call(op, args) => match direct_all(args@) {
            Ok(vs) => Ok(apply(op, vs)),
            Err(m) => Err(m),
        },
        Expr::Field(base, m) => match direct(*base) {
            Ok(v) => Ok(member(v, m@)),
            Err(f) => Err(f),
        },
        Expr::Method(recv, op, args) => match direct(*recv) {
            Ok(r) => match direct_all(args@) {
                Ok(vs) => Ok(apply(op, seq![r] + vs)),
                Err(m) => Err(m),
            },
            Err(m) => Err(m),
        },
        Expr::Record(name, keys, vals) => match direct_all(vals@) {
            Ok(vs) => Ok(Val::Record(name@, texts(keys@), vs)),
            Err(m) => Err(m),
        },
    }
}

pub open spec fn direct_all(s: Seq<Expr>) -> Result<Seq<Val>, Seq<char>>
    decreases s,
{
    if s.len() == 0 {
        Ok(Seq::empty())
    } else {
        match direct_all(s.subrange(0, s.len() - 1)) {
            Ok(vs) => match direct(s[s.len() - 1]) {
                Ok(v) => Ok(vs.push(v)),
                Err(m) => Err(m),
            },
            Err(m) => Err(m),
        }
    }
}

/// Bulk evaluation: every independent child is evaluated; the result is the
/// composed value, or every failure recorded, in source order.
pub open spec fn collect(e: Expr) -> Result<Val, Seq<Seq<char>>>
    decreases e,
{
    match e {
        Expr::Atomic(v) => Ok(model(v)),
        Expr::Other(_) => Ok(Val::Unit),
        Expr::Leaf(inner) => match collect(*inner) {
            Ok(v) => match unwrap_outcome(v) {
                Ok(x) => Ok(x),
                Err(m) => Err(seq![m]),
            },
            Err(es) => Err(es),
        },
        Expr::Call(op, args) => match collect_all(args@) {
            Ok(vs) => Ok(apply(op, vs)),
            Err(es) => Err(es),
        },
        Expr::Field(base, m) => match collect(*base) {
            Ok(v) => Ok(member(v, m@)),
            Err(es) => Err(es),
        },
        Expr::Method(recv, op, args) => match (collect(*recv), collect_all(args@)) {
            (Ok(r), Ok(vs)) => Ok(apply(op, seq![r] + vs)),
            (Ok(_), Err(fs)) => Err(fs),
            (Err(es), Ok(_)) => Err(es),
            (Err(es), Err(fs)) => Err(es + fs),
        },
        Expr::Record(name, keys, vals) => match collect_all(vals@) {
            Ok(vs) => Ok(Val::Record(name@, texts(keys@), vs)),
            Err(es) => Err(es),
        },
    }
}

pub open spec fn collect_all(s: Seq<Expr>) -> Result<Seq<Val>, Seq<Seq<char>>>
    decreases s,
{
    if s.len() == 0 {
        Ok(Seq::empty())
    } else {
        match (collect_all(s.subrange(0, s.len() - 1)), collect(s[s.len() - 1])) {
            (Ok(vs), Ok(v)) => Ok(vs.push(v)),
            (Ok(_), Err(fs)) => Err(fs),
            (Err(es), Ok(_)) => Err(es),
            (Err(es), Err(fs)) => Err(es + fs),
        }
    }
}

/// The failures that bulk evaluation records, in source order.
pub open spec fn failures(e: Expr) -> Seq<Seq<char>> {
    match collect(e) {
        Ok(_) => Seq::empty(),
        Err(es) => es,
    }
}

pub open spec fn failures_all(s: Seq<Expr>) -> Seq<Seq<char>> {
    match collect_all(s) {
        Ok(_) => Seq::empty(),
        Err(es) => es,
    }
}

pub open spec fn result_view(r: Result<Value, String>) -> Result<Val, Seq<char>> {
    match r {
        Ok(v) => Ok(v@),
        Err(m) => Err(m@),
    }
}

/// Bulk evaluation fails only with at least one recorded failure, and ordinary
/// evaluation stops at the first of them; where bulk evaluation succeeds,
/// ordinary evaluation gives the same value.
pub proof fn lemma_agree(e: Expr)
    ensures
        collect(e) is Ok ==> direct(e) == Ok::<Val, Seq<char>>(collect(e)->Ok_0),
        collect(e) is Err ==> collect(e)->Err_0.len() > 0 && direct(e) == Err::<Val, Seq<char>>(
            collect(e)->Err_0[0],
        ),
    decreases e,
{
    match e {
        Expr::Leaf(inner) => lemma_agree(*inner),
        Expr::Call(_, args) => lemma_agree_all(args@),
        Expr::Field(base, _) => lemma_agree(*base),
        Expr::Method(recv, _, args) => {
            lemma_agree(*recv);
            lemma_agree_all(args@);
            if collect(*recv) is Err && collect_all(args@) is Err {
                let es = collect(*recv)->Err_0;
                let fs = collect_all(args@)->Err_0;
                assert((es + fs)[0] == es[0]);
            }
        },
        Expr::Record(_, _, vals) => lemma_agree_all(vals@),
        _ => {},
    }
}

pub proof fn lemma_agree_all(s: Seq<Expr>)
    ensures
        collect_all(s) is Ok ==> direct_all(s) == Ok::<Seq<Val>, Seq<char>>(collect_all(s)->Ok_0),
        collect_all(s) is Err ==> collect_all(s)->Err_0.len() > 0 && direct_all(s) == Err::<
            Seq<Val>,
            Seq<char>,
        >(collect_all(s)->Err_0[0]),
    decreases s,
{
    if s.len() > 0 {
        let p = s.subrange(0, s.len() - 1);
        lemma_agree_all(p);
        lemma_agree(s[s.len() - 1]);
        if collect_all(p) is Err && collect(s[s.len() - 1]) is Err {
            let es = collect_all(p)->Err_0;
            let fs = collect(s[s.len() - 1])->Err_0;
            assert((es + fs)[0] == es[0]);
        }
    }
}

/// A tree without markers evaluates without failure.
pub proof fn lemma_markerless(e: Expr)
    requires
        markers(e) == 0,
    ensures
        collect(e) is Ok,
    decreases e,
{
    match e {
        Expr::Call(_, args) => lemma_markerless_all(args@),
        Expr::Field(base, _) => lemma_markerless(*base),
        Expr::Method(recv, _, args) => {
            lemma_markerless(*recv);
            lemma_markerless_all(args@);
        },
        Expr::Record(_, _, vals) => lemma_markerless_all(vals@),
        _ => {},
    }
}

pub proof fn lemma_markerless_all(s: Seq<Expr>)
    requires
        markers_all(s) == 0,
    ensures
        collect_all(s) is Ok,
    decreases s,
{
    if s.len() > 0 {
        lemma_markerless_all(s.subrange(0, s.len() - 1));
        lemma_markerless(s[s.len() - 1]);
    }
}

/// The sites `ps`, each placed below child position `i`.
pub open spec fn under(i: nat, ps: Seq<Seq<nat>>) -> Seq<Seq<nat>> {
    ps.map_values(|q: Seq<nat>| seq![i] + q)
}

/// The sites `ps`, each placed below the site `at`.
pub open spec fn placed(at: Seq<nat>, ps: Seq<Seq<nat>>) -> Seq<Seq<nat>> {
    ps.map_values(|q: Seq<nat>| at + q)
}

/// Where the may-fail markers of the tree stand, each as the child positions
/// from the root down to it, in the source order of the markers: a marker
/// comes after the markers inside it, as `?` follows its operand. The
/// receiver of a method call is child 0 and its arguments follow.
pub open spec fn sites(e: Expr) -> Seq<Seq<nat>>
    decreases e,
{
    match e {
        Expr::Atomic(_) => Seq::empty(),
        Expr::Other(_) => Seq::empty(),
        Expr::Leaf(inner) => under(0, sites(*inner)).push(Seq::empty()),
        Expr::Call(_, args) => sites_all(args@, 0),
        Expr::Field(base, _) => under(0, sites(*base)),
        Expr::Method(recv, _, args) => under(0, sites(*recv)) + sites_all(args@, 1),
        Expr::Record(_, _, vals) => sites_all(vals@, 0),
    }
}

/// The marker sites of sibling trees whose first child position is `base`.
pub open spec fn sites_all(s: Seq<Expr>, base: nat) -> Seq<Seq<nat>>
    decreases s,
{
    if s.len() == 0 {
        Seq::empty()
    } else {
        sites_all(s.subrange(0, s.len() - 1), base) + under(
            (base + s.len() - 1) as nat,
            sites(s[s.len() - 1]),
        )
    }
}

pub proof fn lemma_placed_under(at: Seq<nat>, i: nat, ps: Seq<Seq<nat>>)
    ensures
        placed(at, under(i, ps)) == placed(at.push(i), ps),
{
    assert forall|j: int| 0 <= j < ps.len() implies #[trigger] placed(at, under(i, ps))[j]
        == placed(at.push(i), ps)[j] by {
        assert(at + (seq![i] + ps[j]) =~= at.push(i) + ps[j]);
    }
    assert(placed(at, under(i, ps)) =~= placed(at.push(i), ps));
}

pub proof fn lemma_placed_concat(at: Seq<nat>, a: Seq<Seq<nat>>, b: Seq<Seq<nat>>)
    ensures
        placed(at, a + b) == placed(at, a) + placed(at, b),
{
    assert(placed(at, a + b) =~= placed(at, a) + placed(at, b));
}

pub proof fn lemma_placed_push(at: Seq<nat>, a: Seq<Seq<nat>>, q: Seq<nat>)
    ensures
        placed(at, a.push(q)) == placed(at, a).push(at + q),
{
    assert(placed(at, a.push(q)) =~= placed(at, a).push(at + q));
}

pub proof fn lemma_placed_root(ps: Seq<Seq<nat>>)
    ensures
        placed(Seq::empty(), ps) == ps,
{
    assert forall|j: int| 0 <= j < ps.len() implies #[trigger] placed(Seq::empty(), ps)[j]
        == ps[j] by {
        assert(Seq::<nat>::empty() + ps[j] =~= ps[j]);
    }
    assert(placed(Seq::empty(), ps) =~= ps);
}

/// There is one site per marker.
pub proof fn lemma_sites_len(e: Expr)
    ensures
        sites(e).len() == markers(e),
    decreases e,
{
    match e {
        Expr::Leaf(inner) => lemma_sites_len(*inner),
        Expr::Call(_, args) => lemma_sites_all_len(args@, 0),
        Expr::Field(base, _) => lemma_sites_len(*base),
        Expr::Method(recv, _, args) => {
            lemma_sites_len(*recv);
            lemma_sites_all_len(args@, 1);
        },
        Expr::Record(_, _, vals) => lemma_sites_all_len(vals@, 0),
        _ => {},
    }
}

pub proof fn lemma_sites_all_len(s: Seq<Expr>, base: nat)
    ensures
        sites_all(s, base).len() == markers_all(s),
    decreases s,
{
    if s.len() > 0 {
        lemma_sites_all_len(s.subrange(0, s.len() - 1), base);
        lemma_sites_len(s[s.len() - 1]);
    }
}

} // verus!
