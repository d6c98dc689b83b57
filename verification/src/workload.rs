//! The workload of the demonstration program.

use vstd::prelude::*;

verus! {

/// The names on which transaction `i` of the workload depends: two that it shares
/// with every third transaction.
pub fn workload_deps(i: u32) -> (deps: Vec<String>)
    ensures
        deps@.len() == 2,
        deps@[0]@ == seq!['a', digit(i as int % 3)],
        deps@[1]@ == seq![digit(i as int % 3)],
{
    proof {
        reveal_strlit("a0");
        reveal_strlit("a1");
        reveal_strlit("a2");
        reveal_strlit("0");
        reveal_strlit("1");
        reveal_strlit("2");
    }
    let (shared, number) = match i % 3 {
        0 => ("a0", "0"),
        1 => ("a1", "1"),
        _ => ("a2", "2"),
    };
    let mut deps: Vec<String> = Vec::new();
    deps.push(shared.to_string());
    deps.push(number.to_string());
    assert(deps@[0]@ =~= seq!['a', digit(i as int % 3)]);
    assert(deps@[1]@ =~= seq![digit(i as int % 3)]);
    deps
}

/// The transactions of the workload, in order: the identifier of each and the names on
/// which it depends.
pub fn workload_plan() -> (plan: Vec<(u32, Vec<String>)>)
    ensures
        plan@.len() == 9,
        forall|j: int|
            0 <= j < 9 ==> {
                &&& (#[trigger] plan@[j]).0 == j + 1
                &&& plan@[j].1@.len() == 2
                &&& plan@[j].1@[0]@ == seq!['a', digit((j + 1) % 3)]
                &&& plan@[j].1@[1]@ == seq![digit((j + 1) % 3)]
            },
{
    let mut plan: Vec<(u32, Vec<String>)> = Vec::new();
    let mut i: u32 = 1;
    while i < 10
        invariant
            1 <= i <= 10,
            plan@.len() == i - 1,
            forall|j: int|
                0 <= j < i - 1 ==> {
                    &&& (#[trigger] plan@[j]).0 == j + 1
                    &&& plan@[j].1@.len() == 2
                    &&& plan@[j].1@[0]@ == seq!['a', digit((j + 1) % 3)]
                    &&& plan@[j].1@[1]@ == seq![digit((j + 1) % 3)]
                },
        decreases 10 - i,
    {
        plan.push((i, workload_deps(i)));
        i = i + 1;
    }
    plan
}

/// The decimal digit of `n`.
pub open spec fn digit(n: int) -> char
    recommends
        0 <= n < 10,
{
    ('0' as int + n) as char
}

} // verus!
