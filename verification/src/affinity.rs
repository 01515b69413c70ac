use vstd::prelude::*;

use nix::errno::Errno;
use nix::sched::CpuSet;

verus! {

#[verifier::external_type_specification]
#[verifier::external_body]
pub struct ExCpuSet(CpuSet);

#[verifier::external_type_specification]
#[verifier::external_body]
pub struct ExErrno(Errno);

/// The CPUs that a `CpuSet` holds.
pub uninterp spec fn cpu_set_members(set: CpuSet) -> Set<usize>;

/// How many CPUs a `CpuSet` can name: ids `0 .. capacity`.
pub uninterp spec fn cpu_set_capacity(set: CpuSet) -> nat;

/// `CpuSet::new`: nix documents it as a new, empty set.
#[verifier::external_body]
fn cpu_set_new() -> (r: CpuSet)
    ensures
        cpu_set_members(r) == Set::<usize>::empty(),
{
    CpuSet::new()
}

/// `CpuSet::count`: the number of CPU ids that a set can hold.
#[verifier::external_body]
fn cpu_set_count(set: &CpuSet) -> (r: usize)
    ensures
        r == cpu_set_capacity(*set),
{
    CpuSet::count()
}

/// `CpuSet::set`: in nix's source it fails with `EINVAL`, leaving the set as
/// it was, when `cpu >= CpuSet::count()`, and otherwise adds `cpu`.
#[verifier::external_body]
fn cpu_set_add(set: &mut CpuSet, cpu: usize) -> (r: Result<(), Errno>)
    ensures
        r is Ok <==> cpu < cpu_set_capacity(*old(set)),
        cpu_set_capacity(*final(set)) == cpu_set_capacity(*old(set)),
        r is Ok ==> cpu_set_members(*final(set)) == cpu_set_members(*old(set)).insert(cpu),
        r is Err ==> cpu_set_members(*final(set)) == cpu_set_members(*old(set)),
{
    set.set(cpu)
}

/// Why a thread could not be given its CPU.
#[derive(Clone, Copy, Debug, PartialEq, Eq, Structural)]
pub enum AffinityError {
    /// The CPU id is at or beyond what a CPU set can hold.
    CpuOutOfRange { cpu: usize, capacity: usize },
}

/// The CPU set that pins a thread to the one CPU `cpu`. When `cpu` is out of
/// range, the error reports the capacity of a CPU set (`CpuSet::count()`).
pub fn single_cpu_set(cpu: usize) -> (r: Result<CpuSet, AffinityError>)
    ensures
        match r {
            Ok(set) => cpu_set_members(set) == set![cpu] && cpu < cpu_set_capacity(set),
            Err(AffinityError::CpuOutOfRange { cpu: c, capacity }) => c == cpu && cpu >= capacity
                && exists|s: CpuSet|
                #![trigger cpu_set_capacity(s)]
                cpu_set_members(s) == Set::<usize>::empty() && cpu_set_capacity(s) == capacity,
        },
{
    let mut set = cpu_set_new();
    let capacity = cpu_set_count(&set);
    match cpu_set_add(&mut set, cpu) {
        Ok(()) => {
            assert(cpu_set_members(set) =~= set![cpu]);
            Ok(set)
        },
        Err(_) => {
            assert(cpu_set_members(set) == Set::<usize>::empty() && cpu_set_capacity(set)
                == capacity);
            Err(AffinityError::CpuOutOfRange { cpu, capacity })
        },
    }
}

} // verus!
