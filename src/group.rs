//! An error accumulator: a labeled, ordered list of error messages.
use vstd::prelude::*;

use crate::value::{decimal, push_decimal, texts};

verus! {

/// The label shown for a group that was given none.
pub const DEFAULT_LABEL: &'static str = "Error Group";

/// The prefix of the error that [`ErrorGroup::extract`] hands back.
pub const EXTRACTED_PREFIX: &'static str = "(Extracted) - ";

/// An error accumulator: every error found is kept, in order, rather than
/// failing on the first.
#[derive(Debug)]
pub struct ErrorGroup {
    label: Option<String>,
    errors: Vec<String>,
}

/// The model of an [`ErrorGroup`].
pub struct GroupView {
    pub label: Option<Seq<char>>,
    pub entries: Seq<Seq<char>>,
}

pub open spec fn opt_text(s: Option<String>) -> Option<Seq<char>> {
    match s {
        Some(t) => Some(t@),
        None => None,
    }
}

impl View for ErrorGroup {
    type V = GroupView;

    closed spec fn view(&self) -> GroupView {
        GroupView { label: opt_text(self.label), entries: texts(self.errors@) }
    }
}

/// The error messages of a list of results, in order.
pub open spec fn err_texts<T>(s: Seq<Result<T, String>>) -> Seq<Seq<char>>
    decreases s.len(),
{
    if s.len() == 0 {
        Seq::empty()
    } else {
        let rest = err_texts(s.drop_last());
        match s.last() {
            Ok(_) => rest,
            Err(m) => rest.push(m@),
        }
    }
}

/// The values of a list of results, in order.
pub open spec fn ok_values<T>(s: Seq<Result<T, String>>) -> Seq<T>
    decreases s.len(),
{
    if s.len() == 0 {
        Seq::empty()
    } else {
        let rest = ok_values(s.drop_last());
        match s.last() {
            Ok(t) => rest.push(t),
            Err(_) => rest,
        }
    }
}

/// The numbered lines of a group's report: a tab, the 1-based position,
/// `") "`, the message and a newline, for each entry.
pub open spec fn numbered_lines(es: Seq<Seq<char>>) -> Seq<char>
    decreases es.len(),
{
    if es.len() == 0 {
        Seq::empty()
    } else {
        numbered_lines(es.drop_last()) + seq!['\t'] + decimal(es.len()) + seq![')', ' '] + es.last()
            + seq!['\n']
    }
}

/// The report of a group: its label (or [`DEFAULT_LABEL`]), `":\n"`, and its
/// numbered lines.
pub open spec fn report(g: GroupView) -> Seq<char> {
    let label = match g.label {
        Some(l) => l,
        None => DEFAULT_LABEL@,
    };
    label + seq![':', '\n'] + numbered_lines(g.entries)
}

/// Values that carry a group of errors beside their result.
pub trait Grouper: Sized {
    type Result;

    /// The same value with its errors under the given label.
    fn context(self, ctx: String) -> Self;

    /// The result where no error was gathered, else the group.
    fn as_result(self) -> Result<Self::Result, ErrorGroup>;
}

impl ErrorGroup {
    /// An empty group with the given label.
    pub fn new(label: Option<String>) -> (r: ErrorGroup)
        ensures
            r@.label == opt_text(label),
            r@.entries == Seq::<Seq<char>>::empty(),
    {
        let r = ErrorGroup { label, errors: Vec::new() };
        assert(r@.entries =~= Seq::<Seq<char>>::empty());
        r
    }

    /// The number of errors held.
    pub fn len(&self) -> (r: usize)
        ensures
            r == self@.entries.len(),
    {
        self.errors.len()
    }

    /// Whether the group holds no error.
    pub fn is_empty(&self) -> (r: bool)
        ensures
            r == (self@.entries.len() == 0),
    {
        self.errors.len() == 0
    }

    /// The same errors under a new label.
    pub fn set_label(self, label: String) -> (r: ErrorGroup)
        ensures
            r@.label == Some(label@),
            r@.entries == self@.entries,
    {
        ErrorGroup { label: Some(label), errors: self.errors }
    }

    /// Adds an error at the end.
    pub fn append(&mut self, error: String)
        ensures
            final(self)@.label == old(self)@.label,
            final(self)@.entries == old(self)@.entries.push(error@),
    {
        self.errors.push(error);
        assert(texts(self.errors@) =~= texts(old(self).errors@).push(error@));
    }

    /// Adds an error at the end, handing the group back for chaining.
    pub fn appendf(self, error: String) -> (r: ErrorGroup)
        ensures
            r@.label == self@.label,
            r@.entries == self@.entries.push(error@),
    {
        let mut g = self;
        g.append(error);
        g
    }

    /// Adds the error of each failed result of the list, in order.
    pub fn extend<T>(&mut self, list: Vec<Result<T, String>>)
        ensures
            final(self)@.label == old(self)@.label,
            final(self)@.entries == old(self)@.entries + err_texts(list@),
    {
        let ghost orig = list@;
        let n: usize = list.len();
        let mut rest = list;
        let mut i: usize = 0;
        assert(orig.subrange(0, 0) =~= Seq::<Result<T, String>>::empty());
        assert(old(self)@.entries + err_texts(orig.subrange(0, 0)) =~= old(self)@.entries);
        while rest.len() > 0
            invariant
                i <= n,
                orig.len() == n,
                rest@ == orig.subrange(i as int, n as int),
                rest.len() == n - i,
                self@.label == old(self)@.label,
                self@.entries == old(self)@.entries + err_texts(orig.subrange(0, i as int)),
            decreases rest.len(),
        {
            let item = rest.remove(0);
            let ghost pre = orig.subrange(0, i as int + 1);
            assert(pre.drop_last() =~= orig.subrange(0, i as int));
            match item {
                Ok(_) => {},
                Err(m) => {
                    self.append(m);
                    assert(self@.entries =~= old(self)@.entries + err_texts(pre));
                },
            }
            i = i + 1;
        }
        assert(orig.subrange(0, n as int) =~= orig);
    }

    /// Passes a value through; an error is added to the group and handed back
    /// with [`EXTRACTED_PREFIX`] before its message.
    pub fn extract<T>(&mut self, result: Result<T, String>) -> (r: Result<T, String>)
        ensures
            final(self)@.label == old(self)@.label,
            match result {
                Ok(t) => r == Ok::<T, String>(t) && final(self)@.entries == old(self)@.entries,
                Err(m) => r is Err && r->Err_0@ == EXTRACTED_PREFIX@ + m@ && final(self)@.entries
                    == old(self)@.entries.push(m@),
            },
    {
        match result {
            Ok(t) => Ok(t),
            Err(err) => {
                let mut shown = String::from_str(EXTRACTED_PREFIX);
                shown.append(err.as_str());
                self.append(err);
                Err(shown)
            },
        }
    }

    /// Splits a list of results into its values and, where any failed, a group
    /// of its errors.
    pub fn unwrap_all<T>(results: Vec<Result<T, String>>) -> (r: (Vec<T>, Option<ErrorGroup>))
        ensures
            r.0@ == ok_values(results@),
            (r.1 is None) == (err_texts(results@).len() == 0),
            r.1 matches Some(g) ==> g@.label is None && g@.entries == err_texts(results@),
    {
        let ghost orig = results@;
        let n: usize = results.len();
        let mut rest = results;
        let mut values: Vec<T> = Vec::new();
        let mut errors = ErrorGroup::new(None);
        let mut i: usize = 0;
        assert(orig.subrange(0, 0) =~= Seq::<Result<T, String>>::empty());
        while rest.len() > 0
            invariant
                i <= n,
                orig.len() == n,
                rest@ == orig.subrange(i as int, n as int),
                rest.len() == n - i,
                values@ == ok_values(orig.subrange(0, i as int)),
                errors@.label is None,
                errors@.entries == err_texts(orig.subrange(0, i as int)),
            decreases rest.len(),
        {
            let item = rest.remove(0);
            let ghost pre = orig.subrange(0, i as int + 1);
            assert(pre.drop_last() =~= orig.subrange(0, i as int));
            match item {
                Ok(x) => values.push(x),
                Err(m) => errors.append(m),
            }
            i = i + 1;
        }
        assert(orig.subrange(0, n as int) =~= orig);
        if errors.len() == 0 {
            (values, None)
        } else {
            (values, Some(errors))
        }
    }

    /// The report: the label, `":\n"`, then one numbered line per error.
    pub fn render(&self) -> (r: String)
        ensures
            r@ == report(self@),
    {
        proof {
            reveal_strlit(":\n");
        }
        let mut out = match &self.label {
            Some(l) => l.clone(),
            None => String::from_str(DEFAULT_LABEL),
        };
        out.append(":\n");
        let ghost head = out@;
        let ghost es = self@.entries;
        let mut i: usize = 0;
        assert(es.subrange(0, 0) =~= Seq::<Seq<char>>::empty());
        while i < self.errors.len()
            invariant
                i <= self.errors.len(),
                es == texts(self.errors@),
                out@ == head + numbered_lines(es.subrange(0, i as int)),
            decreases self.errors.len() - i,
        {
            let ghost pre = es.subrange(0, i as int + 1);
            assert(pre.drop_last() =~= es.subrange(0, i as int));
            let ghost before = out@;
            proof {
                reveal_strlit("\t");
                reveal_strlit(") ");
                reveal_strlit("\n");
            }
            assert(pre.last() == self.errors@[i as int]@);
            assert(pre.len() == i + 1);
            out.append("\t");
            assert(out@ =~= before + seq!['\t']);
            push_decimal(&mut out, (i + 1) as u64);
            assert(out@ =~= before + seq!['\t'] + decimal(pre.len()));
            out.append(") ");
            assert(out@ =~= before + seq!['\t'] + decimal(pre.len()) + seq![')', ' ']);
            out.append(self.errors[i].as_str());
            assert(out@ =~= before + seq!['\t'] + decimal(pre.len()) + seq![')', ' '] + pre.last());
            out.append("\n");
            assert(out@ =~= before + seq!['\t'] + decimal(pre.len()) + seq![')', ' '] + pre.last()
                + seq!['\n']);
            i = i + 1;
            assert(out@ =~= head + numbered_lines(pre));
        }
        assert(es.subrange(0, i as int) =~= es);
        out
    }
}

} // verus!
