//! Read-path query helpers.
//!
//! The stored-history read endpoint is an external collaborator; the
//! verified parts are the small decisions it makes before querying:
//! the sort direction and the page offset.

use vstd::prelude::*;

use crate::models::OrderType;

verus! {

/// The sort direction a request names: exactly `"ASC"` is ascending,
/// everything else descending.
pub fn order_type_of(order: &String) -> (r: OrderType)
    ensures
        r == (if order@ == "ASC"@ {
            OrderType::ASC
        } else {
            OrderType::DESC
        }),
{
    let asc = String::from_str("ASC");
    if order.eq(&asc) {
        OrderType::ASC
    } else {
        OrderType::DESC
    }
}

/// The row offset of a 1-based page.
pub fn page_offset(page: u64, limit: u64) -> (r: u64)
    requires
        page >= 1,
        (page - 1) * limit <= u64::MAX,
    ensures
        r == (page - 1) * limit,
{
    proof {
        assert((page - 1) * limit >= 0) by (nonlinear_arith)
            requires
                page >= 1,
        ;
    }
    (page - 1) * limit
}

} // verus!
