use vstd::prelude::*;

verus! {

/// A reason for forcing an immediate abort on panic.
#[derive(Debug, Clone, Copy, PartialEq, Eq, Structural)]
pub enum MustAbort {
    /// A panic happened while the panic hook ran.
    PanicInHook,
}

/// Panics in progress: over all CPUs, on this CPU, and whether this CPU is
/// running the panic hook. The count over all CPUs is kept by the code that
/// starts unwinding; `increase` records this CPU's share.
#[derive(Debug, Clone, Copy, PartialEq, Eq, Structural)]
pub struct PanicCount {
    pub global: usize,
    pub local: usize,
    pub in_panic_hook: bool,
}

impl PanicCount {
    /// No panic in progress.
    pub fn new() -> (r: Self)
        ensures
            r.global == 0 && r.local == 0 && !r.in_panic_hook,
    {
        PanicCount { global: 0, local: 0, in_panic_hook: false }
    }

}

/// Records the start of a panic, which runs the hook where `run_panic_hook`; a
/// panic inside the hook must abort instead.
pub fn increase(count: &mut PanicCount, run_panic_hook: bool) -> (r: Option<MustAbort>)
    requires
        old(count).local < usize::MAX,
    ensures
        old(count).in_panic_hook ==> r == Some(MustAbort::PanicInHook) && *final(count) == *old(count),
        !old(count).in_panic_hook ==> r is None && *final(count) == (PanicCount {
            local: (old(count).local + 1) as usize,
            in_panic_hook: run_panic_hook,
            ..*old(count)
        }),
{
    if count.in_panic_hook {
        return Some(MustAbort::PanicInHook);
    }
    count.local = count.local + 1;
    count.in_panic_hook = run_panic_hook;
    None
}

/// Records that the panic hook has returned.
pub fn finished_panic_hook(count: &mut PanicCount)
    ensures
        *final(count) == (PanicCount { in_panic_hook: false, ..*old(count) }),
{
    count.in_panic_hook = false;
}

/// Records that a panic was caught.
pub fn decrease(count: &mut PanicCount)
    requires
        old(count).global > 0,
        old(count).local > 0,
    ensures
        *final(count) == (PanicCount {
            global: (old(count).global - 1) as usize,
            local: (old(count).local - 1) as usize,
            in_panic_hook: false,
        }),
{
    count.global = count.global - 1;
    count.local = count.local - 1;
    count.in_panic_hook = false;
}

/// Whether this CPU has no panic in progress; where no CPU has one, the
/// per-CPU count is not consulted.
pub fn count_is_zero(count: &PanicCount) -> (r: bool)
    ensures
        r == (count.global == 0 || count.local == 0),
{
    if count.global == 0 {
        true
    } else {
        is_zero_slow_path(count)
    }
}

fn is_zero_slow_path(count: &PanicCount) -> (r: bool)
    ensures
        r == (count.local == 0),
{
    count.local == 0
}

/// Whether this CPU is unwinding because of a panic.
pub fn panicking(count: &PanicCount) -> (r: bool)
    ensures
        r == (count.global != 0 && count.local != 0),
{
    !count_is_zero(count)
}

} // verus!
