//! Process RAM tile-cache budget derived from system memory.
//!
//! The budget is a quarter of the installed RAM, clamped between a floor that
//! keeps weak machines usable and a cap that leaves room for the OS. A positive
//! `DITHER_RAM_BUDGET_MIB` value (read by the caller) overrides the computation.
use vstd::prelude::*;

verus! {

/// Floor of the budget: 512 MiB.
pub const MIN_RAM_BUDGET_BYTES: usize = 536870912;

/// Cap of the budget: 4 GiB (the shell is built for 64-bit targets only).
pub const MAX_RAM_BUDGET_BYTES: usize = 4294967296u64 as usize;

/// The floor as a 64-bit count.
pub const MIN_BYTES: u64 = 536870912;

/// The cap as a 64-bit count.
pub const MAX_BYTES: u64 = 4294967296;

/// One mebibyte, in bytes.
pub const MIB: u64 = 1048576;

/// How the session RAM budget was chosen.
#[derive(Debug, Clone, Copy, PartialEq, Eq, Structural)]
pub enum RamBudgetSource {
    Adaptive,
    MinFallback,
    EnvOverride,
    TestOverride,
}

/// The chosen budget with its provenance.
#[derive(Debug, Clone, Copy, PartialEq, Eq, Structural)]
pub struct RamBudget {
    pub bytes: usize,
    pub source: RamBudgetSource,
    pub total_system_ram: u64,
}

/// `x` clamped to `[lo, hi]`.
pub open spec fn clamp_spec(x: int, lo: int, hi: int) -> int {
    if x < lo {
        lo
    } else if x > hi {
        hi
    } else {
        x
    }
}

/// A quarter of the system RAM, bounded by the floor and the cap.
pub open spec fn ram_budget_spec(total_system_ram: u64) -> int {
    clamp_spec((total_system_ram / 4) as int, MIN_BYTES as int, MAX_BYTES as int)
}

/// Whether a quarter of the system RAM is at or below the floor.
pub open spec fn below_floor(total_system_ram: u64) -> bool {
    total_system_ram / 4 <= MIN_BYTES
}

/// Pure clamp: 25% of system RAM, bounded by `MIN_RAM_BUDGET_BYTES` and
/// `MAX_RAM_BUDGET_BYTES`.
pub fn compute_ram_budget(total_system_ram: u64) -> (r: usize)
    ensures
        r == ram_budget_spec(total_system_ram) as usize,
{
    let share: u64 = total_system_ram / 4;
    let clamped: u64 = if share < MIN_BYTES {
        MIN_BYTES
    } else if share > MAX_BYTES {
        MAX_BYTES
    } else {
        share
    };
    clamped as usize
}

/// Provenance of a computed budget: `MinFallback` when the quarter share does
/// not exceed the floor, `Adaptive` otherwise (whatever `bytes` holds).
pub fn ram_budget_source(total_system_ram: u64, bytes: usize) -> (r: RamBudgetSource)
    ensures
        r == (if below_floor(total_system_ram) {
            RamBudgetSource::MinFallback
        } else {
            RamBudgetSource::Adaptive
        }),
{
    if total_system_ram / 4 <= MIN_BYTES {
        RamBudgetSource::MinFallback
    } else if bytes == compute_ram_budget(total_system_ram) {
        RamBudgetSource::Adaptive
    } else {
        RamBudgetSource::Adaptive
    }
}

/// Whether `c` is an ASCII decimal digit.
pub open spec fn is_digit(c: char) -> bool {
    '0' <= c <= '9'
}

/// Value of a run of decimal digits.
pub open spec fn digits_value(s: Seq<char>) -> nat
    decreases s.len(),
{
    if s.len() == 0 {
        0
    } else {
        digits_value(s.drop_last()) * 10 + ((s.last() as int - '0' as int) as nat)
    }
}

/// The digits of an unsigned integer literal: `s` without an optional leading `+`.
pub open spec fn unsigned_digits(s: Seq<char>) -> Seq<char> {
    if s.len() > 0 && s[0] == '+' {
        s.drop_first()
    } else {
        s
    }
}

/// What `str::parse::<u64>` accepts: an optional `+`, then one or more decimal
/// digits whose value fits in a `u64`.
pub open spec fn parse_u64_spec(s: Seq<char>) -> Option<u64> {
    let d = unsigned_digits(s);
    if d.len() > 0 && (forall|i: int| 0 <= i < d.len() ==> is_digit(#[trigger] d[i]))
        && digits_value(d) <= u64::MAX {
        Some(digits_value(d) as u64)
    } else {
        None
    }
}

/// Parse an unsigned decimal integer the way `str::parse::<u64>` does.
pub fn parse_u64(s: &str) -> (r: Option<u64>)
    ensures
        r == parse_u64_spec(s@),
{
    let n = s.unicode_len();
    let ghost d = unsigned_digits(s@);
    let mut i: usize = 0;
    if n > 0 && s.get_char(0) == '+' {
        i = 1;
    }
    let start = i;
    proof {
        assert(d =~= s@.subrange(start as int, n as int));
    }
    if start == n {
        return None;
    }
    let mut value: u64 = 0;
    let mut overflow = false;
    while i < n
        invariant
            start <= i <= n,
            n == s@.len(),
            start < n,
            d == s@.subrange(start as int, n as int),
            d == unsigned_digits(s@),
            forall|k: int| 0 <= k < i - start ==> is_digit(#[trigger] d[k]),
            !overflow ==> value == digits_value(d.take(i - start)),
            overflow ==> digits_value(d.take(i - start)) > u64::MAX,
        decreases n - i,
    {
        let c = s.get_char(i);
        assert(d[i - start] == c);
        if !('0' <= c && c <= '9') {
            assert(!is_digit(d[i - start]));

            return None;
        }
        let digit: u64 = (c as u32 - '0' as u32) as u64;
        proof {
            assert(d.take(i + 1 - start).drop_last() =~= d.take(i - start));
            assert(d.take(i + 1 - start).last() == c);
        }
        if !overflow {
            if value > (u64::MAX - digit) / 10 {
                overflow = true;
                assert(digits_value(d.take(i + 1 - start)) > u64::MAX) by (nonlinear_arith)
                    requires
                        value > (u64::MAX - digit) / 10,
                        digits_value(d.take(i + 1 - start)) == value * 10 + digit,
                ;
            } else {
                assert(value * 10 + digit <= u64::MAX) by (nonlinear_arith)
                    requires
                        value <= (u64::MAX - digit) / 10,
                        digit <= 9,
                ;
                value = value * 10 + digit;
            }
        } else {
            assert(digits_value(d.take(i + 1 - start)) > u64::MAX) by (nonlinear_arith)
                requires
                    digits_value(d.take(i + 1 - start)) == digits_value(d.take(i - start)) * 10
                        + digit,
                    digits_value(d.take(i - start)) > u64::MAX,
            ;
        }
        i = i + 1;
    }
    proof {
        assert(d.take(n - start) =~= d);
    }
    if overflow {
        None
    } else {
        Some(value)
    }
}

/// `mib` mebibytes in bytes, saturating at `usize::MAX`.
pub open spec fn mib_to_bytes(mib: u64) -> usize {
    if mib * MIB > usize::MAX {
        usize::MAX
    } else {
        (mib * MIB) as usize
    }
}

/// The override that a raw `DITHER_RAM_BUDGET_MIB` value selects, if any.
pub open spec fn env_override_spec(total_system_ram: u64, raw: Option<Seq<char>>) -> Option<
    RamBudget,
> {
    match raw {
        Some(text) => match parse_u64_spec(text) {
            Some(mib) => if mib == 0 {
                None
            } else {
                Some(
                    RamBudget {
                        bytes: mib_to_bytes(mib),
                        source: RamBudgetSource::EnvOverride,
                        total_system_ram,
                    },
                )
            },
            None => None,
        },
        None => None,
    }
}

/// The view of an optional string slice.
pub open spec fn opt_str_view(raw: Option<&str>) -> Option<Seq<char>> {
    match raw {
        Some(s) => Some(s@),
        None => None,
    }
}

/// The budget for a machine with `total_system_ram` bytes, given the raw
/// override value.
pub open spec fn resolved_budget_spec(total_system_ram: u64, raw: Option<Seq<char>>) -> RamBudget {
    match env_override_spec(total_system_ram, raw) {
        Some(over) => over,
        None => RamBudget {
            bytes: ram_budget_spec(total_system_ram) as usize,
            source: if below_floor(total_system_ram) {
                RamBudgetSource::MinFallback
            } else {
                RamBudgetSource::Adaptive
            },
            total_system_ram,
        },
    }
}

/// The value of `DITHER_RAM_BUDGET_MIB` (`raw`, as read from the environment)
/// wins when it parses to a positive integer of mebibytes.
pub fn resolve_ram_budget_from_env(total_system_ram: u64, raw: Option<&str>) -> (r: Option<
    RamBudget,
>)
    ensures
        r == env_override_spec(total_system_ram, opt_str_view(raw)),
{
    let text = match raw {
        Some(t) => t,
        None => {
            return None;
        },
    };
    let mib = match parse_u64(text) {
        Some(m) => m,
        None => {
            return None;
        },
    };
    if mib == 0 {
        return None;
    }
    let limit: u64 = (usize::MAX as u64) / MIB;
    let bytes: usize = if mib > limit {
        assert(mib * MIB > usize::MAX) by (nonlinear_arith)
            requires
                mib > limit,
                limit == (usize::MAX as int) / (MIB as int),
        ;
        usize::MAX
    } else {
        assert(mib * MIB <= usize::MAX) by (nonlinear_arith)
            requires
                mib <= limit,
                limit == (usize::MAX as int) / (MIB as int),
        ;
        (mib * MIB) as usize
    };
    Some(RamBudget { bytes, source: RamBudgetSource::EnvOverride, total_system_ram })
}

/// Declares `sysinfo::System` so that it can be held in verified code.
#[verifier::external_type_specification]
#[verifier::external_body]
pub struct ExSystem(sysinfo::System);

/// Calls `sysinfo::System::new`, which creates a system handle with nothing
/// loaded yet; `None` where it reports an error. Nothing is claimed of the handle.
#[verifier::external_body]
fn new_system() -> (r: Option<sysinfo::System>) {
    sysinfo::System::new().ok()
}

/// Calls `sysinfo::System::refresh_memory`, which reloads the memory figures
/// from the operating system. Nothing is claimed of what it reads.
#[verifier::external_body]
fn refresh_memory(sys: &mut sysinfo::System) {
    sys.refresh_memory();
}

/// Calls `sysinfo::System::total_memory`: the installed RAM in bytes, as the
/// operating system reports it. Nothing is claimed of the value.
#[verifier::external_body]
fn total_memory(sys: &sysinfo::System) -> (r: u64) {
    sys.total_memory()
}

/// Installed RAM in bytes as the OS reports it; 0 where no system handle is had.
fn query_total_system_ram() -> u64 {
    match new_system() {
        Some(mut sys) => {
            refresh_memory(&mut sys);
            total_memory(&sys)
        },
        None => 0,
    }
}

/// The session budget: the override from `env_override_mib` (the value of
/// `DITHER_RAM_BUDGET_MIB`, if set) when it is a positive integer, else a
/// quarter of the installed RAM clamped to the floor and the cap.
pub fn resolve_ram_budget(env_override_mib: Option<&str>) -> (r: RamBudget)
    ensures
        r == resolved_budget_spec(r.total_system_ram, opt_str_view(env_override_mib)),
{
    let total = query_total_system_ram();
    if let Some(over) = resolve_ram_budget_from_env(total, env_override_mib) {
        return over;
    }
    let bytes = compute_ram_budget(total);
    let source = if total / 4 <= MIN_BYTES {
        RamBudgetSource::MinFallback
    } else {
        RamBudgetSource::Adaptive
    };
    RamBudget { bytes, source, total_system_ram: total }
}

/// The computed budget always lies between the floor and the cap.
pub proof fn law_budget_within_bounds(total_system_ram: u64)
    ensures
        MIN_BYTES <= ram_budget_spec(total_system_ram) <= MAX_BYTES,
{
}

/// More system RAM never yields a smaller budget.
pub proof fn law_budget_monotone(a: u64, b: u64)
    requires
        a <= b,
    ensures
        ram_budget_spec(a) <= ram_budget_spec(b),
{
}

/// An override, when one applies, is what the session uses.
pub proof fn law_override_wins(total_system_ram: u64, raw: Option<Seq<char>>)
    requires
        env_override_spec(total_system_ram, raw) is Some,
    ensures
        resolved_budget_spec(total_system_ram, raw) == env_override_spec(total_system_ram, raw).unwrap(),
        resolved_budget_spec(total_system_ram, raw).source == RamBudgetSource::EnvOverride,
{
}

/// The session budget for a machine reporting `total_system_ram` bytes and
/// the raw override `raw`: when `raw` parses as a positive number `mib`, the
/// override of `mib` MiB (saturating at `usize::MAX` bytes); otherwise the
/// clamped quarter of the RAM, `MinFallback` when that quarter does not exceed
/// the floor and `Adaptive` otherwise.
pub proof fn law_resolved_budget(total_system_ram: u64, raw: Option<Seq<char>>)
    ensures
        ({
            let r = resolved_budget_spec(total_system_ram, raw);
            &&& r.total_system_ram == total_system_ram
            &&& (raw matches Some(t) && parse_u64_spec(t) matches Some(mib) && mib > 0) ==> {
                let mib = parse_u64_spec(raw.unwrap()).unwrap();
                &&& r.source == RamBudgetSource::EnvOverride
                &&& r.bytes as int == if mib * MIB <= usize::MAX {
                    mib * MIB
                } else {
                    usize::MAX as int
                }
            }
            &&& !(raw matches Some(t) && parse_u64_spec(t) matches Some(mib) && mib > 0) ==> {
                &&& r.bytes == ram_budget_spec(total_system_ram) as usize
                &&& r.source == (if below_floor(total_system_ram) {
                    RamBudgetSource::MinFallback
                } else {
                    RamBudgetSource::Adaptive
                })
            }
        }),
{
}

} // verus!
