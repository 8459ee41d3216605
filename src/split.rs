//! Apply a function to each item of a list, sorting the values from the errors.
use vstd::prelude::*;

use crate::group::{err_texts, ok_values, ErrorGroup, GroupView, Grouper};

verus! {

/// The values that were produced, and the errors, if any.
#[derive(Debug)]
pub struct SplitResult<T> {
    values: Vec<T>,
    errors: Option<ErrorGroup>,
}

pub open spec fn group_view(g: Option<ErrorGroup>) -> Option<GroupView> {
    match g {
        Some(x) => Some(x@),
        None => None,
    }
}

impl<T> SplitResult<T> {
    /// The values produced, in order.
    pub closed spec fn produced(&self) -> Seq<T> {
        self.values@
    }

    /// The errors gathered, if any.
    pub closed spec fn group(&self) -> Option<GroupView> {
        group_view(self.errors)
    }

    /// Applies the function to each item, in order: values and errors are
    /// kept apart, and the group is there only where some item failed.
    pub fn map<U, F: Fn(U) -> Result<T, String>>(list: Vec<U>, func: F) -> (r: SplitResult<T>)
        requires
            forall|x: U| #[trigger] func.requires((x,)),
        ensures
            exists|rs: Seq<Result<T, String>>|
                {
                    &&& rs.len() == list.len()
                    &&& forall|i: int| 0 <= i < rs.len() ==> #[trigger] func.ensures((list[i],), rs[i])
                    &&& r.produced() == ok_values(rs)
                    &&& (r.group() is None) == (err_texts(rs).len() == 0)
                    &&& r.group() matches Some(g) ==> g.label is None && g.entries == err_texts(rs)
                },
    {
        let ghost orig = list@;
        let n: usize = list.len();
        let mut rest = list;
        let mut values: Vec<T> = Vec::new();
        let mut group = ErrorGroup::new(None);
        let mut i: usize = 0;
        let ghost mut rs: Seq<Result<T, String>> = Seq::empty();
        while rest.len() > 0
            invariant
                i <= n,
                orig.len() == n,
                orig == list@,
                rest@ == orig.subrange(i as int, n as int),
                rest.len() == n - i,
                forall|x: U| #[trigger] func.requires((x,)),
                rs.len() == i,
                forall|k: int| 0 <= k < rs.len() ==> #[trigger] func.ensures((orig[k],), rs[k]),
                values@ == ok_values(rs),
                group@.label is None,
                group@.entries == err_texts(rs),
            decreases rest.len(),
        {
            let item = rest.remove(0);
            assert(item == orig[i as int]);
            let res = func(item);
            let ghost prev = rs;
            proof {
                rs = rs.push(res);
                assert(rs.drop_last() =~= prev);
            }
            match res {
                Ok(value) => values.push(value),
                Err(err) => group.append(err),
            }
            i = i + 1;
        }
        let errors = if group.len() == 0 {
            None
        } else {
            Some(group)
        };
        SplitResult { values, errors }
    }
}

impl<T> Grouper for SplitResult<T> {
    type Result = Vec<T>;

    fn context(self, ctx: String) -> (r: SplitResult<T>)
        ensures
            r.produced() == self.produced(),
            r.group() matches Some(g) && g.label == Some(ctx@),
            self.group() matches Some(g0) ==> r.group()->0.entries == g0.entries,
            self.group() is None ==> r.group()->0.entries.len() == 0,
    {
        let errors = match self.errors {
            Some(group) => group.set_label(ctx),
            None => ErrorGroup::new(Some(ctx)),
        };
        SplitResult { values: self.values, errors: Some(errors) }
    }

    fn as_result(self) -> (r: Result<Vec<T>, ErrorGroup>)
        ensures
            self.group() is None ==> (r matches Ok(vs) && vs@ == self.produced()),
            self.group() matches Some(g) ==> (r matches Err(e) && e@ == g),
    {
        match self.errors {
            Some(err) => Err(err),
            None => Ok(self.values),
        }
    }
}

} // verus!
