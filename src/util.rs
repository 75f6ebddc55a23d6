use vstd::prelude::*;

verus! {

/// A singly linked list node, as used by list-shaped problem fixtures.
#[derive(PartialEq, Eq, Debug)]
pub struct ListNode {
    pub val: i32,
    pub next: ListLink,
}

pub type ListLink = Option<Box<ListNode>>;

impl Clone for ListNode {
    /// Copies the whole list.
    fn clone(&self) -> (r: ListNode)
        ensures
            r == *self,
        decreases self,
    {
        let next = match &self.next {
            Some(b) => Some(Box::new((**b).clone())),
            None => None,
        };
        ListNode { val: self.val, next }
    }
}

impl ListNode {
    /// Prepends a node holding `val` to the list `next`.
    pub fn node(val: i32, next: ListLink) -> (r: ListLink)
        ensures
            r == Some(Box::new(ListNode { val, next })),
    {
        Some(Box::new(ListNode { val, next }))
    }
}

} // verus!
