//! Throughput estimation: hash rate from a hardware descriptor, exhaustion
//! duration for a keyspace, and decomposition of a second count into calendar
//! units.

use vstd::prelude::*;
use vstd::arithmetic::div_mod::lemma_div_is_ordered_by_denominator;
use vstd::arithmetic::mul::lemma_mul_inequality;
use vstd::arithmetic::power2::pow2;
use crate::big::Big;
use crate::digits::{dec_digits, grouped, format_with_separators};

verus! {

/// Calibration constant: hashes per second contributed by one logical core
/// per megahertz of clock speed, i.e. 5 x 10^12 per core per gigahertz.
pub const BASE_HASHES_PER_CORE_MHZ: u64 = 5_000_000_000;

pub const SECONDS_PER_MINUTE: u64 = 60;

pub const SECONDS_PER_HOUR: u64 = 3600;

pub const SECONDS_PER_DAY: u64 = 86400;

/// 365 days; no leap-year correction.
pub const SECONDS_PER_YEAR: u64 = 31_536_000;

/// An immutable snapshot of the machine the scan would run on. Clock speed is
/// held in megahertz so that fractional gigahertz values stay in integers.
pub struct HardwareDescriptor {
    pub logical_cores: u64,
    pub cpu_speed_mhz: u64,
}

impl HardwareDescriptor {
    /// Both fields must be positive.
    pub open spec fn wf(&self) -> bool {
        self.logical_cores >= 1 && self.cpu_speed_mhz >= 1
    }
}

/// The mathematically exact hash rate: base rate times clock speed times
/// core count, with cores as a whole number.
pub open spec fn hash_rate(cores: nat, mhz: nat) -> nat {
    (BASE_HASHES_PER_CORE_MHZ as nat) * mhz * cores
}

/// Estimated hashes per second for one machine. The exact product is formed
/// in arbitrary precision; a product beyond the 64-bit range is reported as a
/// rate of zero, which `estimate_duration` then refuses as unknown.
pub fn estimate_hash_rate(hardware: &HardwareDescriptor) -> (r: u64)
    requires
        hardware.wf(),
    ensures
        hash_rate(hardware.logical_cores as nat, hardware.cpu_speed_mhz as nat)
            < 0x1_0000_0000_0000_0000 ==> r == hash_rate(
            hardware.logical_cores as nat,
            hardware.cpu_speed_mhz as nat,
        ),
        hash_rate(hardware.logical_cores as nat, hardware.cpu_speed_mhz as nat)
            >= 0x1_0000_0000_0000_0000 ==> r == 0,
{
    let base = Big::from_u64(BASE_HASHES_PER_CORE_MHZ);
    let speed = Big::from_u64(hardware.cpu_speed_mhz);
    let cores = Big::from_u64(hardware.logical_cores);
    let exact = base.mul_big(&speed).mul_big(&cores);
    match exact.to_u64() {
        Some(v) => v,
        None => 0,
    }
}

/// Total rate of a fleet: one machine's rate times the machine count, in
/// arbitrary precision so the product cannot overflow.
pub fn aggregate_rate(per_machine_rate: u64, machine_count: u64) -> (r: Big)
    ensures
        r@ == per_machine_rate * machine_count,
{
    let rate = Big::from_u64(per_machine_rate);
    let count = Big::from_u64(machine_count);
    rate.mul_big(&count)
}

/// A zero total rate gives no duration estimate; it is reported as unknown
/// rather than as a zero-second duration.
#[derive(Clone, Copy, Debug, PartialEq, Eq, Structural)]
pub enum EstimateError {
    RateUnknown,
}

/// Floor of seconds needed to exhaust `keyspace_size` candidates at
/// `total_rate` hashes per second; `RateUnknown` exactly when the rate is
/// zero.
pub fn estimate_duration(keyspace_size: &Big, total_rate: &Big) -> (r: Result<Big, EstimateError>)
    ensures
        total_rate@ > 0 ==> r is Ok && r->Ok_0@ == keyspace_size@ / total_rate@,
        total_rate@ == 0 ==> r == Result::<Big, EstimateError>::Err(EstimateError::RateUnknown),
{
    if total_rate.is_zero() {
        Err(EstimateError::RateUnknown)
    } else {
        let (q, _rem) = keyspace_size.divmod_big(total_rate);
        Ok(q)
    }
}

/// A second count split into calendar units: every field is the remainder
/// after all larger units are removed, so only `years` can be large.
pub struct DurationParts {
    pub years: Big,
    pub days: u64,
    pub hours: u64,
    pub minutes: u64,
    pub seconds: u64,
}

impl DurationParts {
    /// The decomposition of a total second count `s`, field by field.
    pub open spec fn decomposes(&self, s: nat) -> bool {
        &&& self.years@ == s / (SECONDS_PER_YEAR as nat)
        &&& self.days == (s % (SECONDS_PER_YEAR as nat)) / (SECONDS_PER_DAY as nat)
        &&& self.hours == (s % (SECONDS_PER_YEAR as nat)) % (SECONDS_PER_DAY as nat) / (
        SECONDS_PER_HOUR as nat)
        &&& self.minutes == (s % (SECONDS_PER_YEAR as nat)) % (SECONDS_PER_DAY as nat) % (
        SECONDS_PER_HOUR as nat) / (SECONDS_PER_MINUTE as nat)
        &&& self.seconds == (s % (SECONDS_PER_YEAR as nat)) % (SECONDS_PER_DAY as nat) % (
        SECONDS_PER_HOUR as nat) % (SECONDS_PER_MINUTE as nat)
    }

    /// True when every unit, years included, is zero.
    pub open spec fn all_zero(&self) -> bool {
        self.years@ == 0 && self.days == 0 && self.hours == 0 && self.minutes == 0
            && self.seconds == 0
    }
}

/// Splits a second count into years, days, hours, minutes and seconds by
/// successive division and remainder, largest unit first.
pub fn decompose(seconds: &Big) -> (r: DurationParts)
    ensures
        r.decomposes(seconds@),
        r.days < 365,
        r.hours < 24,
        r.minutes < 60,
        r.seconds < 60,
{
    let (years, rem_year) = seconds.divmod_big(&Big::from_u64(SECONDS_PER_YEAR));
    let rem: u64 = match rem_year.to_u64() {
        Some(v) => v,
        None => vstd::pervasive::unreached(),
    };
    let days = rem / SECONDS_PER_DAY;
    let rem = rem % SECONDS_PER_DAY;
    let hours = rem / SECONDS_PER_HOUR;
    let rem = rem % SECONDS_PER_HOUR;
    let minutes = rem / SECONDS_PER_MINUTE;
    let secs = rem % SECONDS_PER_MINUTE;
    DurationParts { years, days, hours, minutes, seconds: secs }
}

/// The duration estimate is non-increasing as the total rate increases, the
/// keyspace size held fixed.
pub proof fn lemma_duration_monotonic_in_rate(keyspace: nat, rate_a: nat, rate_b: nat)
    requires
        0 < rate_a <= rate_b,
    ensures
        keyspace / rate_b <= keyspace / rate_a,
{
    lemma_div_is_ordered_by_denominator(keyspace as int, rate_a as int, rate_b as int);
}

/// The duration estimate is non-increasing as the machine count increases,
/// the per-machine rate and the keyspace size held fixed.
pub proof fn lemma_duration_monotonic_in_machines(
    keyspace: nat,
    per_machine_rate: nat,
    count_a: nat,
    count_b: nat,
)
    requires
        per_machine_rate > 0,
        0 < count_a <= count_b,
    ensures
        keyspace / (per_machine_rate * count_b) <= keyspace / (per_machine_rate * count_a),
{
    lemma_mul_inequality(count_a as int, count_b as int, per_machine_rate as int);
    assert(per_machine_rate * count_a <= per_machine_rate * count_b) by {
        vstd::arithmetic::mul::lemma_mul_is_commutative(
            per_machine_rate as int,
            count_a as int,
        );
        vstd::arithmetic::mul::lemma_mul_is_commutative(
            per_machine_rate as int,
            count_b as int,
        );
    }
    assert(per_machine_rate * count_a > 0) by {
        vstd::arithmetic::mul::lemma_mul_strictly_positive(
            per_machine_rate as int,
            count_a as int,
        );
    }
    lemma_duration_monotonic_in_rate(
        keyspace,
        per_machine_rate * count_a,
        per_machine_rate * count_b,
    );
}

/// The unit names and separators around the four (or five) rendered fields.
pub open spec fn duration_tail_text(p: DurationParts) -> Seq<char> {
    grouped(dec_digits(p.days as nat)) + " days, "@ + grouped(dec_digits(p.hours as nat))
        + " hours, "@ + grouped(dec_digits(p.minutes as nat)) + " minutes, "@ + grouped(
        dec_digits(p.seconds as nat),
    ) + " seconds"@
}

/// The human-readable duration line: the day-to-second fields, prefixed with
/// years when nonzero, or a fixed line when every unit is zero.
pub open spec fn duration_text_spec(p: DurationParts) -> Seq<char> {
    if p.all_zero() {
        "Less than 1 second"@
    } else if p.years@ == 0 {
        duration_tail_text(p)
    } else {
        grouped(dec_digits(p.years@)) + " years, "@ + duration_tail_text(p)
    }
}

/// Renders a decomposed duration as its report line.
pub fn duration_text(p: &DurationParts) -> (r: String)
    ensures
        r@ == duration_text_spec(*p),
{
    if p.years.is_zero() && p.days == 0 && p.hours == 0 && p.minutes == 0 && p.seconds == 0 {
        let r = "Less than 1 second".to_owned();
        return r;
    }
    let mut r = String::new();
    if !p.years.is_zero() {
        let years = format_with_separators(&p.years);
        r.append(years.as_str());
        r.append(" years, ");
    }
    let days = format_with_separators(&Big::from_u64(p.days));
    r.append(days.as_str());
    r.append(" days, ");
    let hours = format_with_separators(&Big::from_u64(p.hours));
    r.append(hours.as_str());
    r.append(" hours, ");
    let minutes = format_with_separators(&Big::from_u64(p.minutes));
    r.append(minutes.as_str());
    r.append(" minutes, ");
    let seconds = format_with_separators(&Big::from_u64(p.seconds));
    r.append(seconds.as_str());
    r.append(" seconds");
    proof {
        assert(r@ =~= duration_text_spec(*p));
    }
    r
}

/// The machine count a report is computed for: one when none is given.
pub open spec fn machine_count_of(num_machines: Option<u64>) -> nat {
    match num_machines {
        Some(m) => m as nat,
        None => 1,
    }
}

/// `hash_rate` after truncation to the 64-bit range: zero when it does not
/// fit, as `estimate_hash_rate` reports it.
pub open spec fn truncated_rate(cores: nat, mhz: nat) -> nat {
    if hash_rate(cores, mhz) < 0x1_0000_0000_0000_0000 {
        hash_rate(cores, mhz)
    } else {
        0
    }
}

/// The rendered lines of one keyspace estimate.
pub struct KeyspaceReport {
    pub total_keys_text: String,
    pub hash_rate_text: String,
    pub duration: DurationParts,
    pub duration_text: String,
    pub block_count_text: String,
}

/// Computes the full keyspace estimate for one block of `block_bits` bits out
/// of a keyspace of `total_bits` bits: the key count, the fleet's hash rate,
/// the exhaustion duration decomposed and rendered, and the number of blocks
/// that cover the whole keyspace. A fleet rate of zero (a zero machine count,
/// or a per-machine rate beyond the 64-bit range) yields `RateUnknown`.
pub fn calc(
    hardware: &HardwareDescriptor,
    num_machines: Option<u64>,
    total_bits: u32,
    block_bits: u32,
) -> (r: Result<KeyspaceReport, EstimateError>)
    requires
        hardware.wf(),
        block_bits <= total_bits,
    ensures
        ({
            let rate = truncated_rate(hardware.logical_cores as nat, hardware.cpu_speed_mhz as nat);
            let total = rate * machine_count_of(num_machines);
            &&& total == 0 ==> r == Result::<KeyspaceReport, EstimateError>::Err(
                EstimateError::RateUnknown,
            )
            &&& total > 0 ==> r is Ok && ({
                let rep = r->Ok_0;
                &&& rep.total_keys_text@ == grouped(dec_digits(pow2(block_bits as nat)))
                &&& rep.hash_rate_text@ == grouped(dec_digits(rate))
                &&& rep.duration.decomposes(pow2(block_bits as nat) / total)
                &&& rep.duration_text@ == duration_text_spec(rep.duration)
                &&& rep.block_count_text@ == grouped(
                    dec_digits(pow2((total_bits - block_bits) as nat)),
                )
            })
        }),
{
    let per_machine = estimate_hash_rate(hardware);
    let machines: u64 = match num_machines {
        Some(m) => m,
        None => 1,
    };
    let total_rate = aggregate_rate(per_machine, machines);
    let total_keys = pow2_big(block_bits);
    let seconds = match estimate_duration(&total_keys, &total_rate) {
        Ok(s) => s,
        Err(e) => {
            return Err(e);
        },
    };
    let duration = decompose(&seconds);
    let text = duration_text(&duration);
    let blocks = pow2_big(total_bits - block_bits);
    Ok(
        KeyspaceReport {
            total_keys_text: format_with_separators(&total_keys),
            hash_rate_text: format_with_separators(&Big::from_u64(per_machine)),
            duration,
            duration_text: text,
            block_count_text: format_with_separators(&blocks),
        },
    )
}

/// Two raised to `bits`: the size of a keyspace of that bit width.
pub fn pow2_big(bits: u32) -> (r: Big)
    ensures
        r@ == pow2(bits as nat),
{
    let two = Big::from_u64(2);
    let mut acc = Big::from_u64(1);
    let mut i: u32 = 0;
    proof {
        vstd::arithmetic::power2::lemma_pow2(0);
        vstd::arithmetic::power::lemma_pow0(2);
    }
    while i < bits
        invariant
            i <= bits,
            two@ == 2,
            acc@ == pow2(i as nat),
        decreases bits - i,
    {
        acc = acc.mul_big(&two);
        proof {
            vstd::arithmetic::power2::lemma_pow2_unfold((i + 1) as nat);
        }
        i = i + 1;
    }
    acc
}

} // verus!
