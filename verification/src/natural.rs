//! The natural order of names, in which a run of digits counts as a number.

use std::cmp::Ordering;
use vstd::prelude::*;

verus! {

/// How one name stands to another.
#[derive(Clone, Copy, Debug, PartialEq, Eq, Structural)]
pub enum Order {
    Less,
    Equal,
    Greater,
}

/// How the name `a` stands to the name `b` in the natural order of
/// `alphanumeric_sort`.
pub uninterp spec fn natural_order(a: Seq<char>, b: Seq<char>) -> Order;

/// `alphanumeric_sort::compare_str` compares two strings character by
/// character and takes runs of digits as numbers. The contract gives the
/// outcome a name: it depends on the two strings alone.
#[verifier::external_body]
pub(crate) fn compare_names(a: &str, b: &str) -> (r: Order)
    ensures
        r == natural_order(a@, b@),
{
    match alphanumeric_sort::compare_str(a, b) {
        Ordering::Less => Order::Less,
        Ordering::Equal => Order::Equal,
        Ordering::Greater => Order::Greater,
    }
}

} // verus!
