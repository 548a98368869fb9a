//! Byte budget for finalized uploads in flight.
//!
//! The budget is counted in units of a fixed quantum. An upload is charged for
//! the memory its encoded payload grows to; one that is larger than the whole
//! budget runs alone.

use crate::validator::payloads::{metric, metric_i64};
use vstd::prelude::*;

verus! {

/// Memory an upload takes per encoded byte.
pub const FINALIZED_UPLOAD_AMPLIFICATION: u64 = 8;

/// Bytes in one unit of the budget.
pub const FINALIZED_UPLOAD_BUDGET_QUANTUM_BYTES: u64 = 65_536;

/// What admitting an upload takes from the budget.
#[derive(Clone, Copy, Debug, PartialEq, Eq, Structural)]
pub struct UploadCharge {
    pub encoded_bytes: u64,
    pub estimated_bytes: u64,
    pub permit_units: u32,
    pub oversized: bool,
}

/// Units of the budget that an admitted upload holds.
#[derive(Clone, Copy, Debug, PartialEq, Eq, Structural)]
pub struct UploadReservation {
    pub permit_units: u32,
    pub estimated_bytes: i64,
    pub encoded_bytes: i64,
}

/// Gauges and counters over the budget.
#[derive(Clone, Copy, Debug, PartialEq, Eq, Structural)]
pub struct UploadBudgetMetrics {
    pub configured_bytes: i64,
    pub reserved_bytes: i64,
    pub admitted_bytes: i64,
    pub waiting_bytes: i64,
    pub admitted: i64,
    pub admission_blocked: u64,
    pub oversized: u64,
}

/// A budget of upload memory.
#[derive(Clone, Copy, Debug, PartialEq, Eq, Structural)]
pub struct UploadBudget {
    pub total_units: u32,
    pub available_units: u32,
    pub metrics: UploadBudgetMetrics,
}

/// A budget that cannot be kept.
#[derive(Clone, Copy, Debug, PartialEq, Eq, Structural)]
pub enum BudgetFault {
    Zero,
    TooLarge,
}

/// `n / d`, rounded up.
pub open spec fn ceil_div(n: nat, d: nat) -> nat {
    ((n + d - 1) / (d as int)) as nat
}

fn div_ceil(n: u64, d: u64) -> (q: u64)
    requires
        d > 0,
    ensures
        q == ceil_div(n as nat, d as nat),
{
    let q: u64 = n / d;
    let r: u64 = n % d;
    proof {
        vstd::arithmetic::div_mod::lemma_fundamental_div_mod(n as int, d as int);
        if r == 0 {
            assert((n + d - 1) / (d as int) == q) by (nonlinear_arith)
                requires
                    n == d * q,
                    d > 0,
            ;
        } else {
            assert((n + d - 1) / (d as int) == q + 1) by (nonlinear_arith)
                requires
                    n == d * q + r,
                    0 < r < d,
            ;
            assert(q < u64::MAX) by (nonlinear_arith)
                requires
                    n == d * q + r,
                    0 < r < d,
                    d > 1,
                    n <= u64::MAX,
            ;
        }
    }
    if r == 0 {
        q
    } else {
        q + 1
    }
}

/// Units of a budget of `configured_bytes`.
pub open spec fn budget_units(configured_bytes: u64) -> nat {
    ceil_div(configured_bytes as nat, FINALIZED_UPLOAD_BUDGET_QUANTUM_BYTES as nat)
}

/// Memory estimated for an upload of `encoded_bytes`, capped at the largest count.
pub open spec fn estimated(encoded_bytes: u64) -> u64 {
    let bytes = encoded_bytes * FINALIZED_UPLOAD_AMPLIFICATION;
    if bytes > u64::MAX {
        u64::MAX
    } else {
        bytes as u64
    }
}

/// Units estimated for an upload of `encoded_bytes`, at least one.
pub open spec fn estimated_units(encoded_bytes: u64) -> nat {
    let units = ceil_div(
        estimated(encoded_bytes) as nat,
        FINALIZED_UPLOAD_BUDGET_QUANTUM_BYTES as nat,
    );
    if units == 0 {
        1
    } else {
        units
    }
}

/// The charge of an upload against a budget of `total_units`.
pub open spec fn charge_of(total_units: u32, encoded_bytes: u64) -> UploadCharge {
    let oversized = estimated_units(encoded_bytes) > total_units;
    UploadCharge {
        encoded_bytes,
        estimated_bytes: estimated(encoded_bytes),
        permit_units: if oversized {
            total_units
        } else {
            estimated_units(encoded_bytes) as u32
        },
        oversized,
    }
}

/// What a charge that was admitted holds.
pub open spec fn reservation_of(charge: UploadCharge) -> UploadReservation {
    UploadReservation {
        permit_units: charge.permit_units,
        estimated_bytes: metric(charge.estimated_bytes as nat),
        encoded_bytes: metric(charge.encoded_bytes as nat),
    }
}

impl UploadBudget {
    /// A budget has at least one unit, and no more than all are available.
    pub open spec fn wf(self) -> bool {
        0 < self.total_units && self.available_units <= self.total_units
    }

    /// Whether `charge` is admitted.
    pub open spec fn admits(self, charge: UploadCharge) -> bool {
        charge.permit_units <= self.available_units
    }

    /// The budget after `charge` was admitted.
    pub open spec fn reserved(self, charge: UploadCharge) -> UploadBudget {
        UploadBudget {
            available_units: (self.available_units - charge.permit_units) as u32,
            metrics: UploadBudgetMetrics {
                reserved_bytes: self.metrics.reserved_bytes.wrapping_add(
                    metric(charge.estimated_bytes as nat),
                ),
                admitted_bytes: self.metrics.admitted_bytes.wrapping_add(
                    metric(charge.encoded_bytes as nat),
                ),
                admitted: self.metrics.admitted.wrapping_add(1),
                oversized: if charge.oversized {
                    self.metrics.oversized.wrapping_add(1)
                } else {
                    self.metrics.oversized
                },
                ..self.metrics
            },
            ..self
        }
    }

    /// The budget while `charge` waits for admission.
    pub open spec fn blocked(self, charge: UploadCharge) -> UploadBudget {
        UploadBudget {
            metrics: UploadBudgetMetrics {
                waiting_bytes: metric(charge.estimated_bytes as nat),
                admission_blocked: self.metrics.admission_blocked.wrapping_add(1),
                ..self.metrics
            },
            ..self
        }
    }

    /// The budget once nothing waits for admission.
    pub open spec fn unblocked(self) -> UploadBudget {
        UploadBudget {
            metrics: UploadBudgetMetrics { waiting_bytes: 0, ..self.metrics },
            ..self
        }
    }

    /// The budget after `reservation` was given back.
    pub open spec fn released(self, reservation: UploadReservation) -> UploadBudget {
        UploadBudget {
            available_units: (self.available_units + reservation.permit_units) as u32,
            metrics: UploadBudgetMetrics {
                reserved_bytes: self.metrics.reserved_bytes.wrapping_sub(
                    reservation.estimated_bytes,
                ),
                admitted_bytes: self.metrics.admitted_bytes.wrapping_sub(
                    reservation.encoded_bytes,
                ),
                admitted: self.metrics.admitted.wrapping_sub(1),
                ..self.metrics
            },
            ..self
        }
    }

    /// A budget of `configured_bytes`, all of it available.
    pub open spec fn fresh(configured_bytes: u64) -> UploadBudget {
        UploadBudget {
            total_units: budget_units(configured_bytes) as u32,
            available_units: budget_units(configured_bytes) as u32,
            metrics: UploadBudgetMetrics {
                configured_bytes: metric(configured_bytes as nat),
                reserved_bytes: 0,
                admitted_bytes: 0,
                waiting_bytes: 0,
                admitted: 0,
                admission_blocked: 0,
                oversized: 0,
            },
        }
    }

    /// A budget of `configured_bytes`, or why there is none.
    pub open spec fn checked(configured_bytes: u64) -> Result<UploadBudget, BudgetFault> {
        if configured_bytes == 0 {
            Err(BudgetFault::Zero)
        } else if budget_units(configured_bytes) > u32::MAX {
            Err(BudgetFault::TooLarge)
        } else {
            Ok(UploadBudget::fresh(configured_bytes))
        }
    }

    /// A budget of `configured_bytes`. It must be positive, and its units must
    /// fit a 32-bit count.
    pub fn check_new(configured_bytes: u64) -> (result: Result<Self, BudgetFault>)
        ensures
            configured_bytes == 0 ==> result == Err::<Self, BudgetFault>(BudgetFault::Zero),
            budget_units(configured_bytes) > u32::MAX ==> result == Err::<Self, BudgetFault>(
                BudgetFault::TooLarge,
            ),
            configured_bytes > 0 && budget_units(configured_bytes) <= u32::MAX ==> result == Ok::<
                Self,
                BudgetFault,
            >(UploadBudget::fresh(configured_bytes)),
            result matches Ok(budget) ==> budget.wf(),
            result == UploadBudget::checked(configured_bytes),
    {
        if configured_bytes == 0 {
            return Err(BudgetFault::Zero);
        }
        let units: u64 = div_ceil(configured_bytes, FINALIZED_UPLOAD_BUDGET_QUANTUM_BYTES);
        if units > 0xffff_ffff {
            return Err(BudgetFault::TooLarge);
        }
        Ok(
            UploadBudget {
                total_units: units as u32,
                available_units: units as u32,
                metrics: UploadBudgetMetrics {
                    configured_bytes: metric_i64(configured_bytes),
                    reserved_bytes: 0,
                    admitted_bytes: 0,
                    waiting_bytes: 0,
                    admitted: 0,
                    admission_blocked: 0,
                    oversized: 0,
                },
            },
        )
    }

    /// A budget of `configured_bytes`.
    pub fn new(configured_bytes: u64) -> (budget: Self)
        requires
            configured_bytes > 0,
            budget_units(configured_bytes) <= u32::MAX,
        ensures
            budget == UploadBudget::fresh(configured_bytes),
            budget.wf(),
    {
        let units: u64 = div_ceil(configured_bytes, FINALIZED_UPLOAD_BUDGET_QUANTUM_BYTES);
        UploadBudget {
            total_units: units as u32,
            available_units: units as u32,
            metrics: UploadBudgetMetrics {
                configured_bytes: metric_i64(configured_bytes),
                reserved_bytes: 0,
                admitted_bytes: 0,
                waiting_bytes: 0,
                admitted: 0,
                admission_blocked: 0,
                oversized: 0,
            },
        }
    }

    /// What admitting an upload of `encoded_bytes` takes.
    pub fn charge(&self, encoded_bytes: u64) -> (charge: UploadCharge)
        ensures
            charge == charge_of(self.total_units, encoded_bytes),
    {
        let estimated_bytes: u64 = match encoded_bytes.checked_mul(FINALIZED_UPLOAD_AMPLIFICATION) {
            Some(bytes) => bytes,
            None => u64::MAX,
        };
        let quanta: u64 = div_ceil(estimated_bytes, FINALIZED_UPLOAD_BUDGET_QUANTUM_BYTES);
        let units: u64 = if quanta == 0 {
            1
        } else {
            quanta
        };
        let oversized: bool = units > self.total_units as u64;
        let permit_units: u32 = if oversized {
            self.total_units
        } else {
            units as u32
        };
        UploadCharge { encoded_bytes, estimated_bytes, permit_units, oversized }
    }

    /// Admits `charge` where its units are available.
    pub fn try_reserve(&mut self, charge: UploadCharge) -> (reservation: Option<UploadReservation>)
        requires
            old(self).wf(),
        ensures
            final(self).wf(),
            reservation is Some <==> old(self).admits(charge),
            charge.permit_units > old(self).available_units ==> reservation is None && *final(self)
                == *old(self),
            charge.permit_units <= old(self).available_units ==> reservation == Some(
                reservation_of(charge),
            ) && *final(self) == old(self).reserved(charge),
    {
        if charge.permit_units > self.available_units {
            return None;
        }
        let estimated_bytes: i64 = metric_i64(charge.estimated_bytes);
        let encoded_bytes: i64 = metric_i64(charge.encoded_bytes);
        self.available_units = self.available_units - charge.permit_units;
        self.metrics.reserved_bytes = self.metrics.reserved_bytes.wrapping_add(estimated_bytes);
        self.metrics.admitted_bytes = self.metrics.admitted_bytes.wrapping_add(encoded_bytes);
        self.metrics.admitted = self.metrics.admitted.wrapping_add(1);
        if charge.oversized {
            self.metrics.oversized = self.metrics.oversized.wrapping_add(1);
        }
        Some(
            UploadReservation { permit_units: charge.permit_units, estimated_bytes, encoded_bytes },
        )
    }

    /// Gives a reservation back.
    pub fn release(&mut self, reservation: UploadReservation)
        requires
            old(self).wf(),
            old(self).available_units + reservation.permit_units <= old(self).total_units,
        ensures
            final(self).wf(),
            *final(self) == old(self).released(reservation),
    {
        self.available_units = self.available_units + reservation.permit_units;
        self.metrics.reserved_bytes = self.metrics.reserved_bytes.wrapping_sub(
            reservation.estimated_bytes,
        );
        self.metrics.admitted_bytes = self.metrics.admitted_bytes.wrapping_sub(
            reservation.encoded_bytes,
        );
        self.metrics.admitted = self.metrics.admitted.wrapping_sub(1);
    }

    /// Notes that `charge` waits for admission.
    pub fn mark_waiting(&mut self, charge: UploadCharge)
        ensures
            *final(self) == old(self).blocked(charge),
    {
        self.metrics.waiting_bytes = metric_i64(charge.estimated_bytes);
        self.metrics.admission_blocked = self.metrics.admission_blocked.wrapping_add(1);
    }

    /// Notes that nothing waits for admission.
    pub fn clear_waiting(&mut self)
        ensures
            *final(self) == old(self).unblocked(),
    {
        self.metrics.waiting_bytes = 0;
    }
}

/// Giving a reservation back undoes its admission: the units and the byte and
/// admission gauges are what they were, and only the count of oversized
/// admissions may have moved.
pub proof fn release_undoes_reserve(budget: UploadBudget, charge: UploadCharge)
    requires
        budget.wf(),
        charge.permit_units <= budget.available_units,
    ensures
        budget.reserved(charge).released(reservation_of(charge)) == (UploadBudget {
            metrics: UploadBudgetMetrics {
                oversized: budget.reserved(charge).metrics.oversized,
                ..budget.metrics
            },
            ..budget
        }),
{
}

/// Every charge takes at least one unit and no more than the whole budget, so
/// an idle budget admits any upload.
pub proof fn charge_fits_an_idle_budget(budget: UploadBudget, encoded_bytes: u64)
    requires
        budget.wf(),
    ensures
        1 <= charge_of(budget.total_units, encoded_bytes).permit_units <= budget.total_units,
{
}

/// An oversized upload is admitted only when nothing else is, and then nothing
/// else is admitted beside it.
pub proof fn oversized_upload_runs_alone(budget: UploadBudget, encoded_bytes: u64, other: u64)
    requires
        budget.wf(),
        charge_of(budget.total_units, encoded_bytes).oversized,
        charge_of(budget.total_units, encoded_bytes).permit_units <= budget.available_units,
    ensures
        budget.available_units == budget.total_units,
        budget.reserved(charge_of(budget.total_units, encoded_bytes)).available_units == 0,
        charge_of(budget.total_units, other).permit_units > budget.reserved(
            charge_of(budget.total_units, encoded_bytes),
        ).available_units,
{
    charge_fits_an_idle_budget(budget, other);
}

/// A larger payload is never charged less.
pub proof fn charge_is_monotone(total_units: u32, smaller: u64, larger: u64)
    requires
        smaller <= larger,
    ensures
        charge_of(total_units, smaller).permit_units <= charge_of(total_units, larger).permit_units,
        charge_of(total_units, smaller).oversized ==> charge_of(total_units, larger).oversized,
{
}

/// An upload is charged for eight times its encoded size, in units of 64 KiB:
/// as few as hold that much, and at least one. It is oversized exactly if the
/// whole budget does not hold that much, and then takes all of it.
pub proof fn charge_covers_the_estimate(total_units: u32, encoded_bytes: u64)
    requires
        total_units > 0,
    ensures
        ({
            let charge = charge_of(total_units, encoded_bytes);
            &&& charge.encoded_bytes == encoded_bytes
            &&& 8 * encoded_bytes <= u64::MAX ==> charge.estimated_bytes == 8 * encoded_bytes
            &&& 8 * encoded_bytes > u64::MAX ==> charge.estimated_bytes == u64::MAX
            &&& charge.oversized <==> 8 * encoded_bytes > total_units * 65_536
            &&& charge.oversized ==> charge.permit_units == total_units
            &&& !charge.oversized ==> {
                &&& charge.permit_units >= 1
                &&& charge.permit_units * 65_536 >= 8 * encoded_bytes
                &&& charge.permit_units > 1 ==> (charge.permit_units - 1) * 65_536 < 8
                    * encoded_bytes
            }
        }),
{
}

/// A budget has as few units as hold the configured bytes, all of them
/// available, and nothing is admitted or waits.
pub proof fn budget_covers_the_configured_bytes(configured_bytes: u64)
    requires
        configured_bytes > 0,
        budget_units(configured_bytes) <= u32::MAX,
        configured_bytes <= i64::MAX,
    ensures
        ({
            let budget = UploadBudget::fresh(configured_bytes);
            &&& budget.total_units * 65_536 >= configured_bytes
            &&& (budget.total_units - 1) * 65_536 < configured_bytes
            &&& budget.available_units == budget.total_units
            &&& budget.metrics.configured_bytes == configured_bytes
            &&& budget.metrics.reserved_bytes == 0
            &&& budget.metrics.admitted_bytes == 0
            &&& budget.metrics.waiting_bytes == 0
            &&& budget.metrics.admitted == 0
        }),
{
}

/// The gauges say what their names say: admitting an upload adds its estimate to
/// the reserved bytes and its encoded size to the admitted bytes, counts one
/// more, and counts an oversized one as such; waiting shows the estimate of what
/// waits, and nothing once nothing does.
pub proof fn gauges_follow_admissions(budget: UploadBudget, charge: UploadCharge)
    requires
        budget.wf(),
        charge.permit_units <= budget.available_units,
        charge.estimated_bytes <= 0x3fff_ffff_ffff_ffff,
        charge.encoded_bytes <= 0x3fff_ffff_ffff_ffff,
        0 <= budget.metrics.reserved_bytes <= 0x3fff_ffff_ffff_ffff,
        0 <= budget.metrics.admitted_bytes <= 0x3fff_ffff_ffff_ffff,
        0 <= budget.metrics.admitted < i64::MAX,
        budget.metrics.oversized < u64::MAX,
        budget.metrics.admission_blocked < u64::MAX,
    ensures
        ({
            let after = budget.reserved(charge);
            let waits = budget.blocked(charge);
            &&& after.total_units == budget.total_units
            &&& after.available_units == budget.available_units - charge.permit_units
            &&& after.metrics.reserved_bytes == budget.metrics.reserved_bytes
                + charge.estimated_bytes
            &&& after.metrics.admitted_bytes == budget.metrics.admitted_bytes
                + charge.encoded_bytes
            &&& after.metrics.admitted == budget.metrics.admitted + 1
            &&& charge.oversized ==> after.metrics.oversized == budget.metrics.oversized + 1
            &&& !charge.oversized ==> after.metrics.oversized == budget.metrics.oversized
            &&& after.metrics.waiting_bytes == budget.metrics.waiting_bytes
            &&& after.metrics.configured_bytes == budget.metrics.configured_bytes
            &&& reservation_of(charge).permit_units == charge.permit_units
            &&& waits.metrics.waiting_bytes == charge.estimated_bytes
            &&& waits.metrics.admission_blocked == budget.metrics.admission_blocked + 1
            &&& waits.available_units == budget.available_units
            &&& waits.metrics.reserved_bytes == budget.metrics.reserved_bytes
            &&& waits.metrics.admitted_bytes == budget.metrics.admitted_bytes
            &&& waits.unblocked().metrics.waiting_bytes == 0
            &&& waits.unblocked().metrics.admission_blocked == waits.metrics.admission_blocked
        }),
{
}

/// An idle budget admits any upload, and every budget what it has units for to
/// the last; what is admitted leaves the units that it does not take.
pub proof fn budgets_admit_to_the_last_unit(budget: UploadBudget, encoded_bytes: u64)
    requires
        budget.wf(),
    ensures
        ({
            let charge = charge_of(budget.total_units, encoded_bytes);
            &&& budget.available_units == budget.total_units ==> budget.admits(charge)
            &&& charge.permit_units == budget.available_units ==> budget.admits(charge)
                && budget.reserved(charge).available_units == 0
            &&& charge.permit_units > budget.available_units ==> !budget.admits(charge)
            &&& budget.admits(charge) ==> budget.reserved(charge).available_units
                + charge.permit_units == budget.available_units
        }),
{
    charge_fits_an_idle_budget(budget, encoded_bytes);
}

/// A budget can be kept exactly if it is positive and no larger than as many
/// units of 64 KiB as a 32-bit count goes to.
pub proof fn budgets_fit_their_count(configured_bytes: u64)
    ensures
        UploadBudget::checked(configured_bytes) is Ok <==> 0 < configured_bytes <= 0xffff_ffff
            * 65_536,
        configured_bytes == 0 ==> UploadBudget::checked(configured_bytes) == Err::<
            UploadBudget,
            BudgetFault,
        >(BudgetFault::Zero),
        configured_bytes > 0xffff_ffff * 65_536 ==> UploadBudget::checked(configured_bytes)
            == Err::<UploadBudget, BudgetFault>(BudgetFault::TooLarge),
{
}

} // verus!
