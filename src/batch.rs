//! Accumulate the results of running groups of functions against a single
//! value: every error is kept, none stops the batch.
use vstd::prelude::*;

use crate::group::{err_texts, ErrorGroup, GroupView, Grouper};

verus! {

/// The label of a new batch's error group.
pub const BATCH_LABEL: &'static str = "Batch Errors";

/// The label of the error group of [`BatchResult::foreach`].
pub const FOREACH_LABEL: &'static str = "ForEach loop result";

/// The pretty Debug rendering (`{:#?}`) of a text: the text quoted, with its
/// special characters escaped.
pub uninterp spec fn debug_of(s: Seq<char>) -> Seq<char>;

/// Relies on std's `Debug` for `String`, through `format!("{:#?}")`: the
/// rendering depends on the text alone.
#[verifier::external_body]
fn debug_text(s: &String) -> (r: String)
    ensures
        r@ == debug_of(s@),
{
    format!("{:#?}", s)
}

/// The Debug renderings of the errors of a list of results, in order.
pub open spec fn debug_errors(rs: Seq<Result<(), String>>) -> Seq<Seq<char>> {
    err_texts(rs).map_values(|m: Seq<char>| debug_of(m))
}

proof fn lemma_debug_errors_push(rs: Seq<Result<(), String>>, res: Result<(), String>)
    ensures
        res is Ok ==> debug_errors(rs.push(res)) == debug_errors(rs),
        res matches Err(m) ==> debug_errors(rs.push(res)) == debug_errors(rs).push(debug_of(m@)),
{
    assert(rs.push(res).drop_last() =~= rs);
    match res {
        Ok(_) => {
            assert(debug_errors(rs.push(res)) =~= debug_errors(rs));
        },
        Err(m) => {
            assert(debug_errors(rs.push(res)) =~= debug_errors(rs).push(debug_of(m@)));
        },
    }
}

proof fn lemma_debug_errors_empty()
    ensures
        debug_errors(Seq::<Result<(), String>>::empty()) == Seq::<Seq<char>>::empty(),
{
    assert(debug_errors(Seq::<Result<(), String>>::empty()) =~= Seq::<Seq<char>>::empty());
}

/// Some call of `func` on a reference to a value holding `before`, and on
/// `item`, returned `res`.
pub open spec fn folded<T, Item, F: Fn(&mut T, Item) -> Result<(), String>>(
    func: F,
    before: T,
    item: Item,
    res: Result<(), String>,
) -> bool {
    exists|a: &mut T| #[trigger] func.ensures((a, item), res) && mut_ref_current(a) == before
}

/// The results of applying several functions to one value.
#[derive(Debug)]
pub struct BatchResult<T> {
    count: u32,
    value: T,
    errors: ErrorGroup,
}

impl<T> BatchResult<T> {
    /// The number of functions run.
    pub closed spec fn runs(&self) -> u32 {
        self.count
    }

    /// The value the functions ran against.
    pub closed spec fn current(&self) -> T {
        self.value
    }

    /// The errors gathered.
    pub closed spec fn group(&self) -> GroupView {
        self.errors@
    }

    /// A batch over `init` with nothing run yet, labelled [`BATCH_LABEL`].
    pub fn new(init: T) -> (r: BatchResult<T>)
        ensures
            r.runs() == 0,
            r.current() == init,
            r.group().label == Some(BATCH_LABEL@),
            r.group().entries == Seq::<Seq<char>>::empty(),
    {
        BatchResult { count: 0, value: init, errors: ErrorGroup::new(Some(String::from_str(BATCH_LABEL))) }
    }

    /// The same batch with its error group under a new label.
    pub fn set_label(self, label: &str) -> (r: BatchResult<T>)
        ensures
            r.runs() == self.runs(),
            r.current() == self.current(),
            r.group().label == Some(label@),
            r.group().entries == self.group().entries,
    {
        BatchResult { count: self.count, value: self.value, errors: self.errors.set_label(String::from_str(label)) }
    }

    /// The number of errors gathered (its low 32 bits).
    pub fn count_error(&self) -> (r: u32)
        ensures
            r == self.group().entries.len() as u32,
    {
        self.errors.len() as u32
    }

    /// The number of runs that did not fail (never below zero).
    pub fn count_valid(&self) -> (r: u32)
        ensures
            r == if self.runs() >= self.group().entries.len() as u32 {
                (self.runs() - self.group().entries.len() as u32) as u32
            } else {
                0u32
            },
    {
        let e = self.count_error();
        if self.count >= e {
            self.count - e
        } else {
            0
        }
    }

    /// The number of functions run.
    pub fn count(&self) -> (r: u32)
        ensures
            r == self.runs(),
    {
        self.count
    }

    /// Whether no error was gathered.
    pub fn is_ok(&self) -> (r: bool)
        ensures
            r == (self.group().entries.len() == 0),
    {
        self.errors.is_empty()
    }

    /// Adds an error to the batch, kept as its Debug rendering.
    pub fn append(&mut self, err: String)
        ensures
            final(self).runs() == old(self).runs(),
            final(self).current() == old(self).current(),
            final(self).group().label == old(self).group().label,
            final(self).group().entries == old(self).group().entries.push(debug_of(err@)),
    {
        self.errors.append(debug_text(&err));
    }

    /// Runs every test against the value; each failure is kept, in order, as
    /// its Debug rendering.
    pub fn validate<F: FnOnce(&T) -> Result<(), String>>(value: T, tests: Vec<F>) -> (r:
        BatchResult<T>)
        requires
            tests.len() <= u32::MAX,
            forall|i: int, a: &T| 0 <= i < tests.len() ==> #[trigger] tests[i].requires((a,)),
        ensures
            r.runs() == tests.len(),
            r.current() == value,
            r.group().label is None,
            exists|rs: Seq<Result<(), String>>|
                {
                    &&& rs.len() == tests.len()
                    &&& forall|i: int| 0 <= i < rs.len() ==> #[trigger] tests[i].ensures((&value,), rs[i])
                    &&& r.group().entries == debug_errors(rs)
                },
    {
        let ghost orig = tests@;
        let n: usize = tests.len();
        let mut rest = tests;
        let mut errors = ErrorGroup::new(None);
        let mut count: u32 = 0;
        let ghost mut rs: Seq<Result<(), String>> = Seq::empty();
        proof {
            lemma_debug_errors_empty();
        }
        while rest.len() > 0
            invariant
                count <= n,
                n <= u32::MAX,
                orig.len() == n,
                orig == tests@,
                rest@ == orig.subrange(count as int, n as int),
                rest.len() == n - count,
                forall|i: int, a: &T| 0 <= i < orig.len() ==> #[trigger] orig[i].requires((a,)),
                rs.len() == count,
                forall|i: int| 0 <= i < rs.len() ==> #[trigger] orig[i].ensures((&value,), rs[i]),
                errors@.label is None,
                errors@.entries == debug_errors(rs),
            decreases rest.len(),
        {
            let test = rest.remove(0);
            assert(test == orig[count as int]);
            let res = test(&value);
            let ghost prev = rs;
            proof {
                lemma_debug_errors_push(rs, res);
                rs = rs.push(res);
            }
            match res {
                Ok(_) => {},
                Err(m) => errors.append(debug_text(&m)),
            }
            count = count + 1;
        }
        BatchResult { count, value, errors }
    }

    /// Runs one more function against the value; its error, if any, is kept
    /// as its Debug rendering (rendered once).
    ///
    /// An error may leave the value changed.
    pub fn apply<F: Fn(&mut T) -> Result<(), String>>(self, func: F) -> (r: BatchResult<T>)
        requires
            self.runs() < u32::MAX,
            forall|a: &mut T| #[trigger] func.requires((a,)),
        ensures
            r.runs() == self.runs() + 1,
            r.group().label == self.group().label,
            exists|a: &mut T, res: Result<(), String>|
                {
                    &&& #[trigger] func.ensures((a,), res)
                    &&& mut_ref_current(a) == self.current()
                    &&& mut_ref_future(a) == r.current()
                    &&& res is Ok ==> r.group().entries == self.group().entries
                    &&& res matches Err(m) ==> r.group().entries == self.group().entries.push(
                        debug_of(m@),
                    )
                },
    {
        let mut s = self;
        s.count = s.count + 1;
        let ghost before = s.value;
        let res = func(&mut s.value);
        match res {
            Ok(_) => {},
            Err(m) => s.append(m),
        }
        s
    }

    /// Folds each item into the accumulator, in order, keeping every error as
    /// its Debug rendering. Call `i` starts from `vals[i]`, the value the call
    /// before it left; `vals[0]` is the accumulator and the last is the result.
    ///
    /// An error may leave the accumulator changed.
    pub fn fold<Item, F: Fn(&mut T, Item) -> Result<(), String>>(
        accumulator: T,
        list: Vec<Item>,
        func: F,
    ) -> (r: BatchResult<T>)
        requires
            list.len() <= u32::MAX,
            forall|a: &mut T, x: Item| #[trigger] func.requires((a, x)),
        ensures
            r.runs() == list.len(),
            r.group().label == Some(BATCH_LABEL@),
            exists|rs: Seq<Result<(), String>>, vals: Seq<T>|
                {
                    &&& rs.len() == list.len()
                    &&& vals.len() == list.len() + 1
                    &&& vals[0] == accumulator
                    &&& vals[list.len() as int] == r.current()
                    &&& forall|i: int|
                        #![trigger rs[i]]
                        0 <= i < rs.len() ==> folded(func, vals[i], list[i], rs[i])
                    &&& r.group().entries == debug_errors(rs)
                },
    {
        let ghost orig = list@;
        let n: usize = list.len();
        let mut rest = list;
        let mut value = accumulator;
        let mut errors = ErrorGroup::new(Some(String::from_str(BATCH_LABEL)));
        let mut count: u32 = 0;
        let ghost mut rs: Seq<Result<(), String>> = Seq::empty();
        let ghost mut vals: Seq<T> = seq![value];
        proof {
            lemma_debug_errors_empty();
        }
        while rest.len() > 0
            invariant
                count <= n,
                n <= u32::MAX,
                orig.len() == n,
                orig == list@,
                rest@ == orig.subrange(count as int, n as int),
                rest.len() == n - count,
                forall|a: &mut T, x: Item| #[trigger] func.requires((a, x)),
                rs.len() == count,
                vals.len() == count + 1,
                vals[0] == accumulator,
                vals[count as int] == value,
                forall|i: int|
                    #![trigger rs[i]]
                    0 <= i < rs.len() ==> folded(func, vals[i], orig[i], rs[i]),
                errors@.label == Some(BATCH_LABEL@),
                errors@.entries == debug_errors(rs),
            decreases rest.len(),
        {
            let item = rest.remove(0);
            assert(item == orig[count as int]);
            let ghost before = value;
            let res = func(&mut value, item);
            proof {
                lemma_debug_errors_push(rs, res);
                let k = rs.len() as int;
                let rs2 = rs.push(res);
                let vals2 = vals.push(value);
                assert(rs2[k] == res);
                assert(vals2[k] == before);
                assert(vals2[k + 1] == value);
                assert(folded(func, vals2[k], orig[k], rs2[k]));
                assert forall|i: int| #![trigger rs2[i]] 0 <= i < k implies rs2[i] == rs[i] && vals2[i]
                    == vals[i] && vals2[i + 1] == vals[i + 1] by {}
                rs = rs2;
                vals = vals2;
            }
            count = count + 1;
            match res {
                Ok(_) => {},
                Err(m) => errors.append(debug_text(&m)),
            }
        }
        BatchResult { count, value, errors }
    }

    /// Calls the function on each item, as a loop would, keeping every error
    /// in order, as its Debug rendering.
    pub fn foreach<Item, F: FnMut(Item) -> Result<(), String>>(list: Vec<Item>, func: &mut F) -> (r:
        BatchResult<()>)
        requires
            list.len() <= u32::MAX,
            forall|x: Item| #[trigger] (*old(func)).requires((x,)),
        ensures
            r.runs() == list.len(),
            r.group().label == Some(FOREACH_LABEL@),
            exists|rs: Seq<Result<(), String>>|
                {
                    &&& rs.len() == list.len()
                    &&& forall|i: int| 0 <= i < rs.len() ==> #[trigger] (*old(func)).ensures((list[i],), rs[i])
                    &&& r.group().entries == debug_errors(rs)
                },
    {
        let ghost orig = list@;
        let ghost f0 = *func;
        let n: usize = list.len();
        let mut rest = list;
        let mut result = BatchResult {
            count: 0,
            value: (),
            errors: ErrorGroup::new(Some(String::from_str(FOREACH_LABEL))),
        };
        let ghost mut rs: Seq<Result<(), String>> = Seq::empty();
        proof {
            lemma_debug_errors_empty();
        }
        while rest.len() > 0
            invariant
                result.count <= n,
                n <= u32::MAX,
                orig.len() == n,
                orig == list@,
                rest@ == orig.subrange(result.count as int, n as int),
                rest.len() == n - result.count,
                *func == f0,
                forall|x: Item| #[trigger] f0.requires((x,)),
                rs.len() == result.count,
                forall|i: int| 0 <= i < rs.len() ==> #[trigger] f0.ensures((orig[i],), rs[i]),
                result.errors@.label == Some(FOREACH_LABEL@),
                result.errors@.entries == debug_errors(rs),
            decreases rest.len(),
        {
            let item = rest.remove(0);
            assert(item == orig[result.count as int]);
            let res = func(item);
            proof {
                lemma_debug_errors_push(rs, res);
                rs = rs.push(res);
            }
            result.count = result.count + 1;
            match res {
                Ok(_) => {},
                Err(err) => result.append(err),
            }
        }
        result
    }
}

impl<T> Grouper for BatchResult<T> {
    type Result = T;

    fn context(self, ctx: String) -> (r: BatchResult<T>)
        ensures
            r.runs() == self.runs(),
            r.current() == self.current(),
            r.group().label == Some(ctx@),
            r.group().entries == self.group().entries,
    {
        BatchResult { count: self.count, value: self.value, errors: self.errors.set_label(ctx) }
    }

    fn as_result(self) -> (r: Result<T, ErrorGroup>)
        ensures
            self.group().entries.len() == 0 ==> r == Ok::<T, ErrorGroup>(self.current()),
            self.group().entries.len() > 0 ==> (r matches Err(g) && g@ == self.group()),
    {
        if self.errors.is_empty() {
            Ok(self.value)
        } else {
            Err(self.errors)
        }
    }
}

} // verus!
