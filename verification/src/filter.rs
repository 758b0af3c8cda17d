//! Predicates over entries, and what it means for a set of them to accept one.
use crate::node::{INode, NodeView};
use vstd::prelude::*;

verus! {

/// A rule that an entry either satisfies or does not. What `apply` answers
/// depends on the predicate and on the entry alone.
pub trait Filter {
    /// The rule, as a function of the entry's model.
    spec fn matches(&self, node: NodeView) -> bool;

    /// Decides whether `value` satisfies the rule.
    fn apply(&self, value: &INode) -> (matched: bool)
        ensures
            matched == self.matches(value@),
    ;
}

/// Accepts the entries that have exactly one given extension.
pub struct ExtensionFilter {
    extension: String,
}

impl View for ExtensionFilter {
    type V = Seq<char>;

    /// The extension that is asked for.
    closed spec fn view(&self) -> Seq<char> {
        self.extension@
    }
}

impl ExtensionFilter {
    /// A filter for the entries whose extension is `extension`.
    pub fn new(extension: String) -> (filter: Self)
        ensures
            filter@ == extension@,
    {
        ExtensionFilter { extension }
    }
}

impl Filter for ExtensionFilter {
    open spec fn matches(&self, node: NodeView) -> bool {
        node.extension == self@
    }

    fn apply(&self, value: &INode) -> (matched: bool)
        ensures
            matched == (value@.extension == self@),
    {
        self.extension == *value.extension()
    }
}

/// Accepts the entries that are larger than a given number of bytes.
pub struct SizeFilter {
    size: u64,
}

impl View for SizeFilter {
    type V = nat;

    /// The size that an entry has to exceed.
    closed spec fn view(&self) -> nat {
        self.size as nat
    }
}

impl SizeFilter {
    /// A filter for the entries of more than `size` bytes.
    pub fn new(size: u64) -> (filter: Self)
        ensures
            filter@ == size,
    {
        SizeFilter { size }
    }
}

impl Filter for SizeFilter {
    open spec fn matches(&self, node: NodeView) -> bool {
        node.size > self@
    }

    fn apply(&self, value: &INode) -> (matched: bool)
        ensures
            matched == (value@.size > self@),
    {
        self.size < value.size()
    }
}

/// Accepts the entries that were created after a given time.
pub struct DateFilter {
    date: u64,
}

impl View for DateFilter {
    type V = nat;

    /// The time after which an entry has to have been created.
    closed spec fn view(&self) -> nat {
        self.date as nat
    }
}

impl DateFilter {
    /// A filter for the entries created after `date`.
    pub fn new(date: u64) -> (filter: Self)
        ensures
            filter@ == date,
    {
        DateFilter { date }
    }
}

impl Filter for DateFilter {
    open spec fn matches(&self, node: NodeView) -> bool {
        node.create_time > self@
    }

    fn apply(&self, value: &INode) -> (matched: bool)
        ensures
            matched == (value@.create_time > self@),
    {
        self.date < value.create_time()
    }
}

/// A boxed predicate decides as the predicate in the box does, so that a set
/// may hold predicates of different kinds behind `Box<dyn Filter>`.
impl<T: Filter + ?Sized> Filter for Box<T> {
    open spec fn matches(&self, node: NodeView) -> bool {
        T::matches(&**self, node)
    }

    fn apply(&self, value: &INode) -> (matched: bool) {
        T::apply(&**self, value)
    }
}

/// One of the rules that the library provides, as a mathematical value.
pub ghost enum Rule {
    /// The entry has exactly this extension.
    Extension(Seq<char>),
    /// The entry is larger than this number of bytes.
    Size(nat),
    /// The entry was created after this time.
    Date(nat),
}

impl Rule {
    /// Whether `node` satisfies the rule.
    pub open spec fn accepts(self, node: NodeView) -> bool {
        match self {
            Rule::Extension(extension) => node.extension == extension,
            Rule::Size(size) => node.size > size,
            Rule::Date(date) => node.create_time > date,
        }
    }
}

/// Any one of the predicates that the library provides, so that a set may
/// hold predicates of different kinds by value.
pub enum Predicate {
    /// By extension.
    Extension(ExtensionFilter),
    /// By size.
    Size(SizeFilter),
    /// By creation time.
    Date(DateFilter),
}

impl View for Predicate {
    type V = Rule;

    /// The rule that the predicate applies.
    open spec fn view(&self) -> Rule {
        match self {
            Predicate::Extension(filter) => Rule::Extension(filter@),
            Predicate::Size(filter) => Rule::Size(filter@),
            Predicate::Date(filter) => Rule::Date(filter@),
        }
    }
}

impl Filter for Predicate {
    open spec fn matches(&self, node: NodeView) -> bool {
        self@.accepts(node)
    }

    fn apply(&self, value: &INode) -> (matched: bool) {
        match self {
            Predicate::Extension(filter) => filter.apply(value),
            Predicate::Size(filter) => filter.apply(value),
            Predicate::Date(filter) => filter.apply(value),
        }
    }
}

/// The rules that a sequence of predicates applies, in the same order.
pub open spec fn rules_of(filters: Seq<Predicate>) -> Seq<Rule> {
    filters.map_values(|filter: Predicate| filter@)
}

/// Whether at least one predicate of the set accepts `node`.
pub open spec fn any_match<F: Filter>(filters: Seq<F>, node: NodeView) -> bool {
    exists|i: int| 0 <= i < filters.len() && (#[trigger] filters[i]).matches(node)
}

/// Tests `value` against the predicates in order, up to the first that accepts it.
pub fn matches_any<F: Filter>(filters: &Vec<F>, value: &INode) -> (matched: bool)
    ensures
        matched == any_match(filters@, value@),
{
    let mut i: usize = 0;
    while i < filters.len()
        invariant
            i <= filters.len(),
            forall|j: int| 0 <= j < i ==> !(#[trigger] filters@[j]).matches(value@),
        decreases filters.len() - i,
    {
        if filters[i].apply(value) {
            return true;
        }
        i += 1;
    }
    false
}

} // verus!
