use vstd::prelude::*;
use crate::record::Annotation;
use crate::validate::{FieldAttributes, attribute_table, cutoff_position};

verus! {

/// Positions `n-1, n-2, ..., 0`.
pub open spec fn descending(n: nat) -> Seq<usize> {
    Seq::new(n, |i: int| (n - 1 - i) as usize)
}

/// The positions below `k` whose flag in `excluded` is false, highest first.
pub open spec fn plan_below(k: int, excluded: Seq<bool>) -> Seq<usize>
    decreases k,
{
    if k <= 0 {
        seq![]
    } else {
        let rest = plan_below(k - 1, excluded);
        if excluded[k - 1] {
            rest
        } else {
            seq![(k - 1) as usize] + rest
        }
    }
}

/// One past the last position that may take part in teardown.
pub open spec fn boundary(cutoff: Option<usize>, n: nat) -> int {
    match cutoff {
        Some(c) => c as int,
        None => n as int,
    }
}

/// The teardown plan of a record.
pub open spec fn plan_of(m: Seq<Seq<Annotation>>) -> Seq<usize> {
    plan_below(boundary(cutoff_position(m), m.len()), attribute_table(m))
}

/// Orders the fields for teardown: the positions before the cutoff marker
/// (all positions when there is none), from the last to the first, leaving
/// out the excluded fields.
pub fn teardown_order(cutoff: Option<usize>, attrs: &Vec<FieldAttributes>) -> (plan: Vec<usize>)
    requires
        cutoff is Some ==> cutoff.unwrap() <= attrs.len(),
    ensures
        plan@ == plan_below(
            boundary(cutoff, attrs.len() as nat),
            attrs@.map_values(|a: FieldAttributes| a.excluded),
        ),
{
    let ghost flags = attrs@.map_values(|a: FieldAttributes| a.excluded);
    let end = match cutoff {
        Some(c) => c,
        None => attrs.len(),
    };
    let mut plan: Vec<usize> = Vec::new();
    let mut i: usize = end;
    while i > 0
        invariant
            end == boundary(cutoff, attrs.len() as nat),
            i <= end <= attrs.len(),
            flags == attrs@.map_values(|a: FieldAttributes| a.excluded),
            plan@ + plan_below(i as int, flags) == plan_below(end as int, flags),
        decreases i,
    {
        i -= 1;
        let ghost before = plan@;
        if !attrs[i].excluded {
            plan.push(i);
            assert(before + plan_below(i + 1, flags) =~= plan@ + plan_below(i as int, flags));
        }
    }
    assert(plan@ + plan_below(0, flags) =~= plan@);
    plan
}

} // verus!
