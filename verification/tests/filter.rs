use rind::filter::matches_any;
use rind::{DateFilter, ExtensionFilter, Filter, INode, Predicate, SizeFilter};

fn sized(size: u64) -> INode {
    INode::new(String::from("f"), false, size, String::new(), 0)
}

fn created(create_time: u64) -> INode {
    INode::new(String::from("f"), false, 0, String::new(), create_time)
}

fn with_extension(extension: &str) -> INode {
    INode::new(String::from("f"), false, 0, String::from(extension), 0)
}

#[test]
fn size_filter_excludes_the_threshold_itself() {
    assert!(!SizeFilter::new(100).apply(&sized(100)));
    assert!(!SizeFilter::new(100).apply(&sized(99)));
}

#[test]
fn size_filter_includes_one_byte_more() {
    assert!(SizeFilter::new(100).apply(&sized(101)));
}

#[test]
fn size_filter_at_the_ends_of_the_range() {
    assert!(SizeFilter::new(0).apply(&sized(1)));
    assert!(!SizeFilter::new(0).apply(&sized(0)));
    assert!(SizeFilter::new(u64::MAX - 1).apply(&sized(u64::MAX)));
    assert!(!SizeFilter::new(u64::MAX).apply(&sized(u64::MAX)));
}

#[test]
fn date_filter_excludes_the_threshold_itself() {
    assert!(!DateFilter::new(1_700_000_000).apply(&created(1_700_000_000)));
    assert!(!DateFilter::new(1_700_000_000).apply(&created(5)));
}

#[test]
fn date_filter_includes_one_unit_later() {
    assert!(DateFilter::new(1_700_000_000).apply(&created(1_700_000_001)));
}

#[test]
fn date_filter_ignores_size() {
    let node = INode::new(String::from("f"), false, 1_000, String::new(), 1);
    assert!(!DateFilter::new(1).apply(&node));
    assert!(DateFilter::new(0).apply(&node));
}

#[test]
fn size_filter_ignores_creation_time() {
    let node = INode::new(String::from("f"), false, 1, String::new(), 1_000);
    assert!(!SizeFilter::new(1).apply(&node));
    assert!(SizeFilter::new(0).apply(&node));
}

#[test]
fn extension_filter_matches_the_exact_extension_only() {
    let filter = ExtensionFilter::new(String::from("rs"));
    assert!(filter.apply(&with_extension("rs")));
    assert!(!filter.apply(&with_extension("rsx")));
    assert!(!filter.apply(&with_extension("")));
    assert!(!filter.apply(&with_extension("r")));
    assert!(!filter.apply(&with_extension("xrs")));
}

#[test]
fn extension_filter_is_case_sensitive() {
    let filter = ExtensionFilter::new(String::from("rs"));
    assert!(!filter.apply(&with_extension("RS")));
    assert!(!filter.apply(&with_extension("Rs")));
}

#[test]
fn extension_filter_reads_the_extension_not_the_name() {
    let filter = ExtensionFilter::new(String::from("rs"));
    let node = INode::new(String::from("a.rs"), false, 0, String::from("txt"), 0);
    assert!(!filter.apply(&node));
}

#[test]
fn empty_extension_filter_matches_entries_without_extension() {
    let filter = ExtensionFilter::new(String::new());
    assert!(filter.apply(&with_extension("")));
    assert!(!filter.apply(&with_extension("rs")));
}

#[test]
fn boxed_filter_decides_as_its_content() {
    let boxed: Box<dyn Filter> = Box::new(SizeFilter::new(10));
    assert!(boxed.apply(&sized(11)));
    assert!(!boxed.apply(&sized(10)));
    let nested: Box<Box<dyn Filter>> = Box::new(Box::new(ExtensionFilter::new(String::from("c"))));
    assert!(nested.apply(&with_extension("c")));
    assert!(!nested.apply(&with_extension("h")));
}

#[test]
fn predicate_decides_as_the_filter_it_holds() {
    let node = INode::new(String::from("f"), false, 50, String::from("md"), 20);
    assert!(Predicate::Extension(ExtensionFilter::new(String::from("md"))).apply(&node));
    assert!(!Predicate::Extension(ExtensionFilter::new(String::from("rs"))).apply(&node));
    assert!(Predicate::Size(SizeFilter::new(49)).apply(&node));
    assert!(!Predicate::Size(SizeFilter::new(50)).apply(&node));
    assert!(Predicate::Date(DateFilter::new(19)).apply(&node));
    assert!(!Predicate::Date(DateFilter::new(20)).apply(&node));
}

#[test]
fn matches_any_is_false_for_an_empty_set() {
    let filters: Vec<Box<dyn Filter>> = vec![];
    assert!(!matches_any(&filters, &sized(1_000)));
}

#[test]
fn matches_any_needs_only_one_predicate() {
    let node = INode::new(String::from("f"), false, 5, String::from("rs"), 0);
    let first: Vec<Box<dyn Filter>> = vec![
        Box::new(ExtensionFilter::new(String::from("rs"))),
        Box::new(SizeFilter::new(100)),
    ];
    let last: Vec<Box<dyn Filter>> = vec![
        Box::new(SizeFilter::new(100)),
        Box::new(DateFilter::new(100)),
        Box::new(ExtensionFilter::new(String::from("rs"))),
    ];
    let none: Vec<Box<dyn Filter>> = vec![
        Box::new(SizeFilter::new(100)),
        Box::new(DateFilter::new(100)),
        Box::new(ExtensionFilter::new(String::from("txt"))),
    ];
    assert!(matches_any(&first, &node));
    assert!(matches_any(&last, &node));
    assert!(!matches_any(&none, &node));
}

#[test]
fn matches_any_is_or_not_and() {
    let node = INode::new(String::from("f"), false, 5, String::from("rs"), 0);
    let filters = vec![SizeFilter::new(4), SizeFilter::new(5)];
    assert!(matches_any(&filters, &node));
}
