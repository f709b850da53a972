use vstd::prelude::*;

use crate::errors::{
    describable, error_description, error_printable, message_text, same_error, Error,
    ErrorDescription,
};
use crate::text::push_str;

verus! {

/// The errors found so far, in the order in which they were found.
#[derive(Debug)]
pub struct Diagnostics {
    errors: Vec<Error>,
}

impl Diagnostics {
    /// The errors, in order.
    pub closed spec fn errors(&self) -> Seq<Error> {
        self.errors@
    }

    /// No errors.
    pub fn new() -> (r: Self)
        ensures
            r.errors() == Seq::<Error>::empty(),
    {
        Diagnostics { errors: Vec::new() }
    }

    /// Records `error` after the others.
    pub fn add_error(&mut self, error: Error)
        ensures
            final(self).errors() == old(self).errors().push(error),
    {
        self.errors.push(error);
    }

    /// Whether any error was recorded.
    pub fn has_errors(&self) -> (r: bool)
        ensures
            r == (self.errors().len() > 0),
    {
        self.errors.len() != 0
    }

    /// The number of errors.
    pub fn count(&self) -> (r: usize)
        ensures
            r == self.errors().len(),
    {
        self.errors.len()
    }

    /// A copy of the errors, in order.
    pub fn get_errors(&self) -> (r: Vec<Error>)
        ensures
            r@.len() == self.errors().len(),
            forall|i: int| 0 <= i < r@.len() ==> same_error(#[trigger] r@[i], self.errors()[i]),
    {
        let mut copies: Vec<Error> = Vec::new();
        let mut i: usize = 0;
        while i < self.errors.len()
            invariant
                i <= self.errors.len(),
                copies@.len() == i,
                forall|j: int| 0 <= j < i ==> same_error(#[trigger] copies@[j], self.errors@[j]),
            decreases self.errors.len() - i,
        {
            copies.push(self.errors[i].clone());
            i += 1;
        }
        copies
    }
}

/// The texts of `errors`, each followed by a line break.
pub open spec fn errors_text(errors: Seq<Error>) -> Seq<char>
    decreases errors.len(),
{
    if errors.len() == 0 {
        Seq::empty()
    } else {
        errors_text(errors.drop_last()) + message_text(errors.last()) + "\n"@
    }
}

impl Diagnostics {
    /// The texts of the errors, one per line.
    pub fn to_string(&self) -> (r: String)
        requires
            forall|i: int| 0 <= i < self.errors().len() ==> describable(#[trigger] self.errors()[i]),
        ensures
            r@ == errors_text(self.errors()),
    {
        let mut text = String::new();
        let mut i: usize = 0;
        while i < self.errors.len()
            invariant
                i <= self.errors.len(),
                forall|j: int| 0 <= j < self.errors().len() ==> describable(#[trigger] self.errors()[j]),
                text@ == errors_text(self.errors@.subrange(0, i as int)),
            decreases self.errors.len() - i,
        {
            proof {
                assert(describable(self.errors()[i as int]));
            }
            let line = self.errors[i].to_string();
            push_str(&mut text, line.as_str());
            push_str(&mut text, "\n");
            proof {
                let next = self.errors@.subrange(0, i + 1);
                assert(next.drop_last() =~= self.errors@.subrange(0, i as int));
            }
            i += 1;
        }
        proof {
            assert(self.errors@.subrange(0, i as int) =~= self.errors@);
        }
        text
    }

    /// The description of each error on `source`, in order.
    pub fn print(&self, source: &str) -> (r: Vec<String>)
        requires
            forall|i: int|
                0 <= i < self.errors().len() ==> error_printable(#[trigger] self.errors()[i], source@),
        ensures
            r@.len() == self.errors().len(),
            forall|i: int|
                0 <= i < r@.len() ==> (#[trigger] r@[i])@ == error_description(
                    self.errors()[i],
                    source@,
                ),
    {
        let mut texts: Vec<String> = Vec::new();
        let mut i: usize = 0;
        while i < self.errors.len()
            invariant
                i <= self.errors.len(),
                texts@.len() == i,
                forall|j: int|
                    0 <= j < self.errors().len() ==> error_printable(#[trigger] self.errors()[j], source@),
                forall|j: int|
                    0 <= j < i ==> (#[trigger] texts@[j])@ == error_description(self.errors@[j], source@),
            decreases self.errors.len() - i,
        {
            proof {
                assert(error_printable(self.errors()[i as int], source@));
            }
            texts.push(self.errors[i].print(source));
            i += 1;
        }
        texts
    }
}

impl Default for Diagnostics {
    fn default() -> (r: Self)
        ensures
            r.errors() == Seq::<Error>::empty(),
    {
        Self::new()
    }
}

} // verus!
