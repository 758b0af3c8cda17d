//! From search options to the predicate set that they ask for.
use crate::filter::{rules_of, DateFilter, ExtensionFilter, Predicate, Rule, SizeFilter};
use vstd::prelude::*;

verus! {

/// The options of one search.
pub struct Args {
    /// The directory to search in.
    pub path: String,
    /// The extension to look for, if any.
    pub ext: Option<String>,
    /// The size that a reported entry exceeds, if any.
    pub size: Option<u64>,
    /// The time after which a reported entry was created, if any.
    pub created_after: Option<u64>,
}

impl Args {
    /// The rules that the options ask for: one for each option that is set,
    /// extension first, then size, then creation time.
    pub open spec fn rules(self) -> Seq<Rule> {
        let by_extension = match self.ext {
            Some(extension) => seq![Rule::Extension(extension@)],
            None => seq![],
        };
        let by_size = match self.size {
            Some(size) => seq![Rule::Size(size as nat)],
            None => seq![],
        };
        let by_date = match self.created_after {
            Some(date) => seq![Rule::Date(date as nat)],
            None => seq![],
        };
        by_extension + by_size + by_date
    }
}

/// Builds the predicate set that the options ask for.
pub fn parse_filter_args(args: &Args) -> (filters: Vec<Predicate>)
    ensures
        rules_of(filters@) == args.rules(),
{
    let mut filters: Vec<Predicate> = Vec::new();
    match &args.ext {
        Some(v) => {
            filters.push(Predicate::Extension(ExtensionFilter::new(v.clone())));
        },
        None => (),
    }
    match &args.size {
        Some(v) => {
            filters.push(Predicate::Size(SizeFilter::new(*v)));
        },
        None => (),
    }
    match &args.created_after {
        Some(v) => {
            filters.push(Predicate::Date(DateFilter::new(*v)));
        },
        None => (),
    }
    assert(rules_of(filters@) =~= args.rules());
    filters
}

} // verus!
