use rind::{parse_filter_args, Args, FileSystem, Filter, INode};

fn options(ext: Option<&str>, size: Option<u64>, created_after: Option<u64>) -> Args {
    Args { path: String::from("."), ext: ext.map(String::from), size, created_after }
}

fn node(size: u64, extension: &str, create_time: u64) -> INode {
    INode::new(String::from("n"), false, size, String::from(extension), create_time)
}

#[test]
fn no_option_gives_no_predicate() {
    assert!(parse_filter_args(&options(None, None, None)).is_empty());
}

#[test]
fn each_option_gives_one_predicate() {
    assert_eq!(parse_filter_args(&options(Some("rs"), None, None)).len(), 1);
    assert_eq!(parse_filter_args(&options(None, Some(1), None)).len(), 1);
    assert_eq!(parse_filter_args(&options(None, None, Some(1))).len(), 1);
    assert_eq!(parse_filter_args(&options(Some("rs"), Some(1), None)).len(), 2);
    assert_eq!(parse_filter_args(&options(Some("rs"), Some(1), Some(1))).len(), 3);
}

#[test]
fn extension_option_gives_an_extension_filter() {
    let filters = parse_filter_args(&options(Some("rs"), None, None));
    assert!(filters[0].apply(&node(0, "rs", 0)));
    assert!(!filters[0].apply(&node(1_000, "txt", 1_000)));
}

#[test]
fn size_option_gives_a_size_filter() {
    let filters = parse_filter_args(&options(None, Some(10), None));
    assert!(filters[0].apply(&node(11, "", 0)));
    assert!(!filters[0].apply(&node(10, "", 1_000)));
}

#[test]
fn created_after_option_gives_a_date_filter() {
    let filters = parse_filter_args(&options(None, None, Some(10)));
    assert!(filters[0].apply(&node(0, "", 11)));
    assert!(!filters[0].apply(&node(1_000, "", 10)));
}

#[test]
fn predicates_come_in_the_order_extension_size_date() {
    let filters = parse_filter_args(&options(Some("rs"), Some(10), Some(20)));
    let by_extension = node(0, "rs", 0);
    let by_size = node(11, "", 0);
    let by_date = node(0, "", 21);
    assert!(filters[0].apply(&by_extension));
    assert!(!filters[0].apply(&by_size) && !filters[0].apply(&by_date));
    assert!(filters[1].apply(&by_size));
    assert!(!filters[1].apply(&by_extension) && !filters[1].apply(&by_date));
    assert!(filters[2].apply(&by_date));
    assert!(!filters[2].apply(&by_extension) && !filters[2].apply(&by_size));
}

#[test]
fn path_is_not_a_predicate() {
    let mut args = options(None, Some(1), None);
    args.path = String::from("/some/where.rs");
    assert_eq!(parse_filter_args(&args).len(), 1);
}

#[test]
fn parsed_predicates_drive_a_query() {
    let mut root = INode::new(String::from("root"), true, 1, String::new(), 1);
    root.add_child(INode::from_entry(String::from("root/a.rs"), false, 5, 1));
    root.add_child(INode::from_entry(String::from("root/b.txt"), false, 500, 1));
    root.add_child(INode::from_entry(String::from("root/c.md"), false, 5, 1));
    let fs = FileSystem::new(root);
    let filters = parse_filter_args(&options(Some("rs"), Some(100), None));
    assert_eq!(fs.filter(&filters), vec!["root/a.rs", "root/b.txt"]);
}
