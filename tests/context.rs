use rustgym::context::{
    AdventOfCodeIndexRow, AppContext, GoogleIndexContext, GoogleIndexRow, HomeContext,
    LeetcodeIndexRow,
};
use rustgym::util::ListNode;

fn leetcode_row(id: i32, level: i32) -> LeetcodeIndexRow {
    LeetcodeIndexRow { id, title: "t".to_string(), level }
}

#[test]
fn level_names() {
    assert_eq!(leetcode_row(1, 1).level_str(), "Easy");
    assert_eq!(leetcode_row(1, 2).level_str(), "Medium");
    assert_eq!(leetcode_row(1, 3).level_str(), "Hard");
    assert_eq!(leetcode_row(1, 0).level_str(), "");
    assert_eq!(leetcode_row(1, 4).level_str(), "");
}

#[test]
fn leetcode_links() {
    assert_eq!(leetcode_row(1, 1).href(), "/leetcode/1");
    assert_eq!(leetcode_row(167, 1).href(), "/leetcode/167");
    assert_eq!(leetcode_row(0, 1).href(), "/leetcode/0");
    assert_eq!(leetcode_row(-42, 1).href(), "/leetcode/-42");
    assert_eq!(leetcode_row(i32::MAX, 1).href(), "/leetcode/2147483647");
    assert_eq!(leetcode_row(i32::MIN, 1).href(), "/leetcode/-2147483648");
}

#[test]
fn adventofcode_and_google_links() {
    let a = AdventOfCodeIndexRow { id: 2020, year: 2020, day: 1, title: String::new() };
    assert_eq!(a.href(), "/adventofcode/2020");
    let g = GoogleIndexRow { id: 10, division: 1, year: 2020, round: 2, title: "x".to_string() };
    assert_eq!(g.href(), "/google/10");
    let copy = g.duplicate();
    assert_eq!(copy.title, "x");
    assert_eq!(copy.round, 2);
}

#[test]
fn contexts_hold_their_fields() {
    let app = AppContext::new("RUST GYM".to_string(), "v1".to_string());
    assert_eq!(app.title, "RUST GYM");
    let home = HomeContext::new(app, "/".to_string());
    assert_eq!(home.app.tag, "v1");
    let g = GoogleIndexContext::new(AppContext::new(String::new(), String::new()), "/google".to_string(), vec![], vec![]);
    assert!(g.codejam_rows.is_empty());
}

#[test]
fn list_nodes_chain() {
    let list = ListNode::node(1, ListNode::node(2, None));
    let head = list.unwrap();
    assert_eq!(head.val, 1);
    assert_eq!(head.next.as_ref().unwrap().val, 2);
    assert!(head.next.unwrap().next.is_none());
}


#[test]
fn list_clone_is_deep_and_equal() {
    let list = ListNode::node(1, ListNode::node(2, ListNode::node(3, None))).unwrap();
    let copy = list.clone();
    assert_eq!(copy, list);
    assert_eq!(copy.next.as_ref().unwrap().next.as_ref().unwrap().val, 3);
}
