use vstd::prelude::*;
use vstd::string::StringSliceAdditionalSpecFns;

verus! {

/// Whether entry `i` of `table` exports the name `required`.
pub open spec fn exports(table: Seq<(&str, u32)>, i: int, required: Seq<u8>) -> bool {
    table[i].0.spec_bytes() == required
}

/// Whether two byte strings are equal.
fn bytes_equal(a: &[u8], b: &[u8]) -> (r: bool)
    ensures
        r == (a@ == b@),
{
    if a.len() != b.len() {
        return false;
    }
    let mut i: usize = 0;
    while i < a.len()
        invariant
            a@.len() == b@.len(),
            i <= a@.len(),
            forall|j: int| 0 <= j < i ==> a@[j] == b@[j],
        decreases a@.len() - i,
    {
        if a[i] != b[i] {
            return false;
        }
        i = i + 1;
    }
    assert(a@ =~= b@);
    true
}

/// Looks up the address exported under the name `required`: that of the first
/// entry with exactly this name, or `None` where no entry has it.
pub fn resolve(table: &[(&str, u32)], required: &[u8]) -> (r: Option<u32>)
    ensures
        match r {
            Some(address) => exists|i: int|
                0 <= i < table@.len() && exports(table@, i, required@) && table@[i].1 == address
                    && forall|j: int| 0 <= j < i ==> !exports(table@, j, required@),
            None => forall|i: int| 0 <= i < table@.len() ==> !exports(table@, i, required@),
        },
{
    let mut i: usize = 0;
    while i < table.len()
        invariant
            i <= table@.len(),
            forall|j: int| 0 <= j < i ==> !exports(table@, j, required@),
        decreases table@.len() - i,
    {
        let (exported, address) = table[i];
        if bytes_equal(exported.as_bytes(), required) {
            assert(exports(table@, i as int, required@) && table@[i as int].1 == address);
            return Some(address);
        }
        i = i + 1;
    }
    None
}

} // verus!
