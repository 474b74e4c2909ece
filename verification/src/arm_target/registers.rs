//! The core registers of a Cortex-M target.
use vstd::prelude::*;

use crate::text::same;
use crate::words::{lemma_lower_upper, lower_of, to_ascii_lowercase, upper_of};

verus! {

/// How many core registers there are.
pub const CORE_REGS: usize = 17;

/// A core register: its name and its number in the remote protocol.
#[derive(Clone, Copy, Debug)]
pub struct ArmRegisterDesc {
    pub name: &'static str,
    pub index: usize,
}

/// The name of the core register of a number.
pub open spec fn core_name(index: int) -> Seq<char> {
    if index == 0 {
        "r0"@
    } else if index == 1 {
        "r1"@
    } else if index == 2 {
        "r2"@
    } else if index == 3 {
        "r3"@
    } else if index == 4 {
        "r4"@
    } else if index == 5 {
        "r5"@
    } else if index == 6 {
        "r6"@
    } else if index == 7 {
        "r7"@
    } else if index == 8 {
        "r8"@
    } else if index == 9 {
        "r9"@
    } else if index == 10 {
        "r10"@
    } else if index == 11 {
        "r11"@
    } else if index == 12 {
        "r12"@
    } else if index == 13 {
        "sp"@
    } else if index == 14 {
        "lr"@
    } else if index == 15 {
        "pc"@
    } else {
        "xpsr"@
    }
}

/// The name of the core register of a number.
fn core_reg_name(index: usize) -> (r: &'static str)
    ensures
        r@ == core_name(index as int),
{
    if index == 0 {
        "r0"
    } else if index == 1 {
        "r1"
    } else if index == 2 {
        "r2"
    } else if index == 3 {
        "r3"
    } else if index == 4 {
        "r4"
    } else if index == 5 {
        "r5"
    } else if index == 6 {
        "r6"
    } else if index == 7 {
        "r7"
    } else if index == 8 {
        "r8"
    } else if index == 9 {
        "r9"
    } else if index == 10 {
        "r10"
    } else if index == 11 {
        "r11"
    } else if index == 12 {
        "r12"
    } else if index == 13 {
        "sp"
    } else if index == 14 {
        "lr"
    } else if index == 15 {
        "pc"
    } else {
        "xpsr"
    }
}

/// The core register of a number.
pub fn core_reg(index: usize) -> (r: ArmRegisterDesc)
    ensures
        r.index == index,
        r.name@ == core_name(index as int),
{
    ArmRegisterDesc { name: core_reg_name(index), index }
}

/// The number of the first core register from `from` on that has a name.
pub open spec fn find_core(name: Seq<char>, from: int) -> Option<int>
    decreases CORE_REGS - from,
{
    if from >= CORE_REGS {
        None
    } else if core_name(from) == name {
        Some(from)
    } else {
        find_core(name, from + 1)
    }
}

/// The number of the core register that a user means by a name, in upper or lower case.
pub open spec fn core_index(name: Seq<char>) -> Option<int> {
    let lower = lower_of(name);
    if lower == "r13"@ {
        Some(13)
    } else if lower == "r14"@ {
        Some(14)
    } else if lower == "r15"@ {
        Some(15)
    } else {
        find_core(lower, 0)
    }
}

/// The core register that a user means by a name, in upper or lower case.
pub fn arm_register_from_name(name: &str) -> (r: Option<ArmRegisterDesc>)
    ensures
        match core_index(name@) {
            Some(index) => r matches Some(desc) && desc.index == index && 0 <= index < CORE_REGS
                && desc.name@ == core_name(index),
            None => r is None,
        },
{
    let lower = to_ascii_lowercase(name);
    if same(lower.as_str(), "r13") {
        return Some(core_reg(13));
    }
    if same(lower.as_str(), "r14") {
        return Some(core_reg(14));
    }
    if same(lower.as_str(), "r15") {
        return Some(core_reg(15));
    }
    for index in 0..CORE_REGS
        invariant
            lower@ == lower_of(name@),
            core_index(name@) == find_core(lower@, 0),
            find_core(lower@, 0) == find_core(lower@, index as int),
    {
        if same(core_reg_name(index), lower.as_str()) {
            return Some(core_reg(index));
        }
    }
    None
}

/// Every core register is found by its name, and three of them by their numbers too.
pub proof fn lemma_core_names(index: int)
    requires
        0 <= index < CORE_REGS,
    ensures
        core_index(core_name(index)) == Some(index),
        core_index("r13"@) == Some(13int),
        core_index("r14"@) == Some(14int),
        core_index("r15"@) == Some(15int),
{
    reveal_strlit("r0");
    reveal_strlit("r1");
    reveal_strlit("r2");
    reveal_strlit("r3");
    reveal_strlit("r4");
    reveal_strlit("r5");
    reveal_strlit("r6");
    reveal_strlit("r7");
    reveal_strlit("r8");
    reveal_strlit("r9");
    reveal_strlit("r10");
    reveal_strlit("r11");
    reveal_strlit("r12");
    reveal_strlit("sp");
    reveal_strlit("lr");
    reveal_strlit("pc");
    reveal_strlit("xpsr");
    reveal_strlit("r13");
    reveal_strlit("r14");
    reveal_strlit("r15");
    let name = core_name(index);
    assert(lower_of(name) =~= name);
    assert(lower_of("r13"@) =~= "r13"@);
    assert(lower_of("r14"@) =~= "r14"@);
    assert(lower_of("r15"@) =~= "r15"@);
    reveal_with_fuel(find_core, 18);
    assert forall|i: int, j: int| 0 <= i < j < CORE_REGS implies core_name(i) != core_name(j) by {
        assert(core_name(i).len() != core_name(j).len() || core_name(i)[0] != core_name(j)[0]
            || core_name(i)[1] != core_name(j)[1] || core_name(i)[2] != core_name(j)[2]);
    }
    assert(name != "r13"@ && name != "r14"@ && name != "r15"@) by {
        assert(name.len() != 3 || name[0] != 'r' || name[1] != '1' || name[2] <= '2');
    }
    assert("r14"@[2] != "r13"@[2] && "r15"@[2] != "r13"@[2] && "r15"@[2] != "r14"@[2]);
    lemma_find_core(name, index, 0);
}

/// Names that differ in the case of their letters only mean the same register.
pub proof fn lemma_names_in_any_case(a: Seq<char>, b: Seq<char>)
    requires
        lower_of(a) == lower_of(b),
    ensures
        core_index(a) == core_index(b),
{
}

/// Every core register is found by its name in capital letters.
pub proof fn lemma_upper_core_names(index: int)
    requires
        0 <= index < CORE_REGS,
    ensures
        core_index(upper_of(core_name(index))) == Some(index),
{
    lemma_core_names(index);
    lemma_lower_upper(core_name(index));
    lemma_names_in_any_case(upper_of(core_name(index)), core_name(index));
}

/// The first register with a name is found, where no earlier one has it.
proof fn lemma_find_core(name: Seq<char>, index: int, from: int)
    requires
        0 <= from <= index < CORE_REGS,
        core_name(index) == name,
        forall|i: int, j: int|
            0 <= i < j < CORE_REGS ==> #[trigger] core_name(i) != #[trigger] core_name(j),
    ensures
        find_core(name, from) == Some(index),
    decreases index - from,
{
    if from < index {
        assert(core_name(from) != core_name(index));
        lemma_find_core(name, index, from + 1);
    }
}

} // verus!
