//! How many workgroups a kernel launch needs.

use vstd::prelude::*;

verus! {

/// Number of whole groups of `group` items needed to cover `items` items.
pub open spec fn groups_needed(items: int, group: int) -> int {
    (items + group - 1) / group
}

/// Rounds `items / group` up without overflowing.
pub fn div_ceil_u32(items: u32, group: u32) -> (groups: u32)
    requires
        group > 0,
    ensures
        groups == groups_needed(items as int, group as int),
{
    let q: u32 = items / group;
    let r: u32 = items % group;
    assert(items == q * group + r) by (nonlinear_arith)
        requires
            q == items / group,
            r == items % group,
            group > 0,
    ;
    if r == 0 {
        assert((q * group + group - 1) / (group as int) == q) by (nonlinear_arith)
            requires
                group > 0,
                q >= 0,
        ;
        q
    } else {
        assert((q * group + r + group - 1) / (group as int) == q + 1) by (nonlinear_arith)
            requires
                group > 0,
                0 < r < group,
                q >= 0,
        ;
        assert(q + 1 <= u32::MAX) by (nonlinear_arith)
            requires
                items == q * group + r,
                r > 0,
                group > 0,
                items <= u32::MAX,
        ;
        q + 1
    }
}

/// The groups cover the items, and one group less would not.
pub proof fn lemma_groups_cover(items: int, group: int)
    requires
        0 <= items,
        0 < group,
    ensures
        groups_needed(items, group) * group >= items,
        (groups_needed(items, group) - 1) * group < items || items == 0,
        items == 0 ==> groups_needed(items, group) == 0,
{
    let g = groups_needed(items, group);
    vstd::arithmetic::div_mod::lemma_fundamental_div_mod(items + group - 1, group);
    let r = (items + group - 1) % group;
    assert(items + group - 1 == group * g + r);
    assert(0 <= r < group);
    assert(g * group == group * g) by (nonlinear_arith);
    assert((g - 1) * group == group * g - group) by (nonlinear_arith);
    if items == 0 {
        assert(g == 0) by (nonlinear_arith)
            requires
                group - 1 == group * g + r,
                0 <= r < group,
        ;
    }
}

} // verus!
