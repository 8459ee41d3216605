//! Runtime values of the expression interpreter, their mathematical model,
//! and the host operations that call nodes apply.
use vstd::prelude::*;

verus! {

/// A value produced while evaluating an expression.
///
/// `Okay` and `Fail` are outcome values: a may-fail marker unwraps the first
/// and records the message of the second.
#[derive(Debug, PartialEq)]
pub enum Value {
    Unit,
    Int(i64),
    Bool(bool),
    Text(String),
    List(Vec<Value>),
    /// An enum variant such as `Some(x)`: the variant's name and its payload.
    Tagged(String, Vec<Value>),
    /// A record: its type name, its member names and its member values.
    Record(String, Vec<String>, Vec<Value>),
    Okay(Box<Value>),
    Fail(String),
}

/// The mathematical model of a [`Value`].
pub enum Val {
    Unit,
    Int(i64),
    Bool(bool),
    Text(Seq<char>),
    List(Seq<Val>),
    Tagged(Seq<char>, Seq<Val>),
    Record(Seq<char>, Seq<Seq<char>>, Seq<Val>),
    Okay(Box<Val>),
    Fail(Seq<char>),
}

pub open spec fn texts(s: Seq<String>) -> Seq<Seq<char>> {
    s.map_values(|t: String| t@)
}

pub open spec fn model(v: Value) -> Val
    decreases v,
{
    match v {
        Value::Unit => Val::Unit,
        Value::Int(n) => Val::Int(n),
        Value::Bool(b) => Val::Bool(b),
        Value::Text(t) => Val::Text(t@),
        Value::List(xs) => Val::List(models(xs@)),
        Value::Tagged(t, xs) => Val::Tagged(t@, models(xs@)),
        Value::Record(n, ks, xs) => Val::Record(n@, texts(ks@), models(xs@)),
        Value::Okay(b) => Val::Okay(Box::new(model(*b))),
        Value::Fail(m) => Val::Fail(m@),
    }
}

pub open spec fn models(s: Seq<Value>) -> Seq<Val>
    decreases s,
{
    if s.len() == 0 {
        Seq::empty()
    } else {
        models(s.subrange(0, s.len() - 1)).push(model(s[s.len() - 1]))
    }
}

impl View for Value {
    type V = Val;

    open spec fn view(&self) -> Val {
        model(*self)
    }
}

pub proof fn lemma_models(s: Seq<Value>)
    ensures
        models(s).len() == s.len(),
        forall|i: int| 0 <= i < s.len() ==> #[trigger] models(s)[i] == model(s[i]),
    decreases s.len(),
{
    if s.len() > 0 {
        lemma_models(s.subrange(0, s.len() - 1));
    }
}

/// A host operation that a call node applies to its evaluated arguments.
#[derive(Debug, PartialEq)]
pub enum Op {
    /// Builds the enum variant of this name over the arguments (`Some(x)`).
    Construct(String),
    /// Hands back its first argument (`Box::new(x)`); `Unit` without one.
    Identity,
    /// Gathers the arguments into a list.
    Gather,
    /// Adds the integer arguments from left to right, counting any other
    /// argument as zero; `Unit` where a partial sum leaves `i64`.
    Sum,
    /// Checks that the first argument, an integer `n`, is below the bound:
    /// `Okay(n)` if so, else `Fail` with the message followed by `n` in decimal.
    /// `Unit` where the first argument is not an integer.
    Below(i64, String),
}

pub open spec fn int_of(v: Val) -> int {
    match v {
        Val::Int(n) => n as int,
        _ => 0,
    }
}

/// The left-to-right sum of the integers of `s`, unless a partial sum leaves `i64`.
pub open spec fn checked_sum(s: Seq<Val>) -> Option<i64>
    decreases s.len(),
{
    if s.len() == 0 {
        Some(0i64)
    } else {
        match checked_sum(s.drop_last()) {
            None => None,
            Some(a) => {
                let t = a + int_of(s.last());
                if i64::MIN <= t <= i64::MAX {
                    Some(t as i64)
                } else {
                    None
                }
            },
        }
    }
}

pub open spec fn digit_char(d: int) -> char {
    if d == 0 {
        '0'
    } else if d == 1 {
        '1'
    } else if d == 2 {
        '2'
    } else if d == 3 {
        '3'
    } else if d == 4 {
        '4'
    } else if d == 5 {
        '5'
    } else if d == 6 {
        '6'
    } else if d == 7 {
        '7'
    } else if d == 8 {
        '8'
    } else {
        '9'
    }
}

/// The decimal digits of a natural number, without leading zeros.
pub open spec fn decimal(n: nat) -> Seq<char>
    decreases n,
{
    if n < 10 {
        seq![digit_char(n as int)]
    } else {
        decimal(n / 10) + seq![digit_char((n % 10) as int)]
    }
}

/// An integer in decimal, with a leading `-` when negative.
pub open spec fn signed_decimal(n: int) -> Seq<char> {
    if n < 0 {
        seq!['-'] + decimal((-n) as nat)
    } else {
        decimal(n as nat)
    }
}

pub open spec fn apply(op: Op, args: Seq<Val>) -> Val {
    match op {
        Op::Construct(t) => Val::Tagged(t@, args),
        Op::Identity => if args.len() > 0 {
            args[0]
        } else {
            Val::Unit
        },
        Op::Gather => Val::List(args),
        Op::Sum => match checked_sum(args) {
            Some(n) => Val::Int(n),
            None => Val::Unit,
        },
        Op::Below(bound, msg) => if args.len() > 0 && args[0] is Int {
            let n = args[0]->Int_0;
            if n < bound {
                Val::Okay(Box::new(Val::Int(n)))
            } else {
                Val::Fail(msg@ + signed_decimal(n as int))
            }
        } else {
            Val::Unit
        },
    }
}

fn digit_text(d: u64) -> (r: &'static str)
    requires
        d < 10,
    ensures
        r@ == seq![digit_char(d as int)],
{
    proof {
        reveal_strlit("0");
        reveal_strlit("1");
        reveal_strlit("2");
        reveal_strlit("3");
        reveal_strlit("4");
        reveal_strlit("5");
        reveal_strlit("6");
        reveal_strlit("7");
        reveal_strlit("8");
        reveal_strlit("9");
    }
    match d {
        0 => "0",
        1 => "1",
        2 => "2",
        3 => "3",
        4 => "4",
        5 => "5",
        6 => "6",
        7 => "7",
        8 => "8",
        _ => "9",
    }
}

/// Appends the decimal digits of `n` to `s`.
pub fn push_decimal(s: &mut String, n: u64)
    ensures
        final(s)@ == old(s)@ + decimal(n as nat),
    decreases n,
{
    if n >= 10 {
        push_decimal(s, n / 10);
    }
    s.append(digit_text(n % 10));
    proof {
        if n >= 10 {
            assert(final(s)@ =~= old(s)@ + decimal(n as nat));
        } else {
            assert(final(s)@ =~= old(s)@ + decimal(n as nat));
        }
    }
}

/// Appends `n` in decimal, with a leading `-` when negative.
pub fn push_signed_decimal(s: &mut String, n: i64)
    ensures
        final(s)@ == old(s)@ + signed_decimal(n as int),
{
    proof {
        reveal_strlit("-");
    }
    if n < 0 {
        s.append("-");
        let m: u64 = (0i128 - n as i128) as u64;
        push_decimal(s, m);
        assert(final(s)@ =~= old(s)@ + signed_decimal(n as int));
    } else {
        push_decimal(s, n as u64);
    }
}

impl Op {
    /// Applies the operation to the evaluated arguments.
    pub fn invoke(self, args: Vec<Value>) -> (r: Value)
        ensures
            r@ == apply(self, models(args@)),
    {
        proof {
            lemma_models(args@);
        }
        match self {
            Op::Construct(t) => Value::Tagged(t, args),
            Op::Identity => {
                let mut args = args;
                if args.len() > 0 {
                    args.remove(0)
                } else {
                    Value::Unit
                }
            },
            Op::Gather => Value::List(args),
            Op::Sum => match sum_values(&args) {
                Some(n) => Value::Int(n),
                None => Value::Unit,
            },
            Op::Below(bound, msg) => {
                if args.len() > 0 {
                    match &args[0] {
                        Value::Int(n) => {
                            let n = *n;
                            if n < bound {
                                Value::Okay(Box::new(Value::Int(n)))
                            } else {
                                let mut text = msg;
                                push_signed_decimal(&mut text, n);
                                Value::Fail(text)
                            }
                        },
                        _ => Value::Unit,
                    }
                } else {
                    Value::Unit
                }
            },
        }
    }
}

fn sum_values(args: &Vec<Value>) -> (r: Option<i64>)
    ensures
        r == checked_sum(models(args@)),
{
    proof {
        lemma_models(args@);
    }
    let mut acc: Option<i64> = Some(0);
    let mut i: usize = 0;
    while i < args.len()
        invariant
            i <= args.len(),
            models(args@).len() == args.len(),
            forall|j: int| 0 <= j < args.len() ==> #[trigger] models(args@)[j] == model(args@[j]),
            acc == checked_sum(models(args@).subrange(0, i as int)),
        decreases args.len() - i,
    {
        let ghost prefix = models(args@).subrange(0, i as int + 1);
        assert(prefix.drop_last() =~= models(args@).subrange(0, i as int));
        let x: i64 = match &args[i] {
            Value::Int(n) => *n,
            _ => 0,
        };
        assert(x == int_of(prefix.last()));
        acc = match acc {
            None => None,
            Some(a) => a.checked_add(x),
        };
        i = i + 1;
    }
    assert(models(args@).subrange(0, i as int) =~= models(args@));
    acc
}

} // verus!
