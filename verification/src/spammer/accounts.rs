//! Deterministic spam account generation.

use crate::keys::{copy_bytes, private_key_from_seed, public_key, public_key_of, seed_key};
use crate::random::JitterRng;
use vstd::prelude::*;

verus! {

/// A spam account with its signing key.
#[derive(Debug)]
pub struct SpamAccount {
    pub private_key: Vec<u8>,
    pub public_key: Vec<u8>,
}

/// Seeds that no range of accounts can start at.
#[derive(Clone, Copy, Debug, PartialEq, Eq, Structural)]
pub enum SeedFault {
    AccountOverflow,
    NoAccounts,
    NoRoom,
}

impl SeedFault {
    /// The message of this fault.
    pub open spec fn message(self) -> Seq<char> {
        match self {
            SeedFault::AccountOverflow => "total account count overflow"@,
            SeedFault::NoAccounts => "need at least one spam account"@,
            SeedFault::NoRoom => "seed offset does not leave room for every spam account"@,
        }
    }

    /// The message of this fault as text.
    pub fn to_text(self) -> (text: String)
        ensures
            text@ == self.message(),
    {
        match self {
            SeedFault::AccountOverflow => "total account count overflow".to_owned(),
            SeedFault::NoAccounts => "need at least one spam account".to_owned(),
            SeedFault::NoRoom =>
                "seed offset does not leave room for every spam account".to_owned(),
        }
    }
}

impl SpamAccount {
    /// Whether this is the account of `seed`.
    pub open spec fn is_of_seed(&self, seed: u64) -> bool {
        self.private_key@ == seed_key(seed) && self.public_key@ == public_key(seed_key(seed))
    }

    /// Whether two accounts have the same keys.
    pub open spec fn same_as(&self, other: &SpamAccount) -> bool {
        self.private_key@ == other.private_key@ && self.public_key@ == other.public_key@
    }

    /// A copy of this account.
    pub fn copy(&self) -> (account: SpamAccount)
        ensures
            account.same_as(self),
    {
        SpamAccount {
            private_key: copy_bytes(&self.private_key),
            public_key: copy_bytes(&self.public_key),
        }
    }
}

/// Whether `accounts` are those of the seeds from `seed_offset` on.
pub open spec fn are_seeded(accounts: Seq<SpamAccount>, seed_offset: u64) -> bool {
    forall|i: int|
        0 <= i < accounts.len() ==> (#[trigger] accounts[i]).is_of_seed((seed_offset + i) as u64)
}

/// Generates `count` deterministic spam accounts from sequential seeds
/// starting at `seed_offset`.
pub fn generate_accounts(count: u32, seed_offset: u64) -> (accounts: Vec<SpamAccount>)
    requires
        count > 0 ==> seed_offset + count - 1 <= u64::MAX,
    ensures
        accounts.len() == count,
        forall|i: int|
            0 <= i < count ==> (#[trigger] accounts[i]).is_of_seed((seed_offset + i) as u64),
        are_seeded(accounts@, seed_offset),
{
    let mut accounts: Vec<SpamAccount> = Vec::new();
    let mut i: u32 = 0;
    while i < count
        invariant
            i <= count,
            count > 0 ==> seed_offset + count - 1 <= u64::MAX,
            accounts.len() == i,
            forall|j: int|
                0 <= j < i ==> (#[trigger] accounts[j]).is_of_seed((seed_offset + j) as u64),
        decreases count - i,
    {
        let private_key = private_key_from_seed(seed_offset + (i as u64));
        let public_key = public_key_of(private_key.as_slice());
        accounts.push(SpamAccount { private_key, public_key });
        i = i + 1;
    }
    accounts
}

/// The largest offset that leaves room for `total` seeds.
pub open spec fn last_offset(total: nat) -> int {
    u64::MAX - (total - 1)
}

/// Accounts of all submitters.
pub open spec fn account_total(accounts_per_submitter: u32, submitters: usize) -> nat {
    (accounts_per_submitter * submitters) as nat
}

/// Largest offset that leaves room for every submitter's accounts.
pub fn max_seed_offset(accounts_per_submitter: u32, submitters: usize) -> (result: Result<
    u64,
    SeedFault,
>)
    ensures
        result == (if account_total(accounts_per_submitter, submitters) > u64::MAX {
            Err::<u64, SeedFault>(SeedFault::AccountOverflow)
        } else if account_total(accounts_per_submitter, submitters) == 0 {
            Err::<u64, SeedFault>(SeedFault::NoAccounts)
        } else {
            Ok::<u64, SeedFault>(
                last_offset(account_total(accounts_per_submitter, submitters)) as u64,
            )
        }),
{
    proof {
        assert(accounts_per_submitter * submitters >= 0) by (nonlinear_arith)
            requires
                accounts_per_submitter >= 0,
                submitters >= 0,
        ;
    }
    match (accounts_per_submitter as u64).checked_mul(submitters as u64) {
        None => Err(SeedFault::AccountOverflow),
        Some(total) => {
            if total == 0 {
                return Err(SeedFault::NoAccounts);
            }
            Ok(u64::MAX - (total - 1))
        },
    }
}

/// The first seed: the configured one where it leaves room, or the drawn one.
pub open spec fn first_seed(configured: Option<u64>, max_offset: u64, drawn: u64) -> Result<
    u64,
    SeedFault,
> {
    match configured {
        None => Ok(drawn),
        Some(offset) => if offset <= max_offset {
            Ok(offset)
        } else {
            Err(SeedFault::NoRoom)
        },
    }
}

/// The first seed: the configured one, which must leave room for every
/// account, or the one that was drawn.
pub fn seed_offset_of(configured: Option<u64>, max_offset: u64, drawn: u64) -> (result: Result<
    u64,
    SeedFault,
>)
    ensures
        result == first_seed(configured, max_offset, drawn),
{
    match configured {
        None => Ok(drawn),
        Some(offset) => {
            if offset > max_offset {
                return Err(SeedFault::NoRoom);
            }
            Ok(offset)
        },
    }
}

/// Selects a seed range large enough for every submitter account.
pub fn resolve_seed_offset(
    configured: Option<u64>,
    accounts_per_submitter: u32,
    submitters: usize,
    rng: &mut JitterRng,
) -> (result: Result<u64, SeedFault>)
    ensures
        final(rng).seed() == old(rng).seed(),
        ({
            let total = account_total(accounts_per_submitter, submitters);
            if total > u64::MAX {
                result == Err::<u64, SeedFault>(SeedFault::AccountOverflow)
            } else if total == 0 {
                result == Err::<u64, SeedFault>(SeedFault::NoAccounts)
            } else {
                match configured {
                    Some(offset) => result == (if offset <= last_offset(total) {
                        Ok::<u64, SeedFault>(offset)
                    } else {
                        Err::<u64, SeedFault>(SeedFault::NoRoom)
                    }),
                    None => result matches Ok(offset) && offset <= last_offset(total),
                }
            }
        }),
{
    let max_offset: u64 = match max_seed_offset(accounts_per_submitter, submitters) {
        Err(fault) => {
            return Err(fault);
        },
        Ok(max_offset) => max_offset,
    };
    let drawn: u64 = if configured.is_none() {
        rng.range(0, max_offset)
    } else {
        0
    };
    seed_offset_of(configured, max_offset, drawn)
}

/// A selected offset leaves room for every account: the seed of the last one
/// still fits.
pub proof fn selected_range_fits(offset: u64, accounts_per_submitter: u32, submitters: usize)
    requires
        0 < account_total(accounts_per_submitter, submitters) <= u64::MAX,
        offset <= last_offset(account_total(accounts_per_submitter, submitters)),
    ensures
        offset + account_total(accounts_per_submitter, submitters) - 1 <= u64::MAX,
{
}

/// Ranges of accounts agree on the seeds that they share: the account of a seed
/// does not depend on the range that it is generated in.
pub proof fn accounts_depend_on_their_seed(
    a: Seq<SpamAccount>,
    b: Seq<SpamAccount>,
    a_offset: u64,
    b_offset: u64,
    i: int,
    j: int,
)
    requires
        are_seeded(a, a_offset),
        are_seeded(b, b_offset),
        0 <= i < a.len(),
        0 <= j < b.len(),
        a_offset + i == b_offset + j,
        a_offset + i <= u64::MAX,
    ensures
        a[i].same_as(&b[j]),
        a[i].private_key@ == seed_key((a_offset + i) as u64),
        a[i].public_key@ == public_key(a[i].private_key@),
{
    assert(a[i].is_of_seed((a_offset + i) as u64));
    assert(b[j].is_of_seed((b_offset + j) as u64));
}

/// The largest offset is the one whose last seed is the largest seed: one more
/// would not leave room. A configured seed is kept if it leaves room and refused
/// otherwise.
pub proof fn last_offset_is_the_largest(
    accounts_per_submitter: u32,
    submitters: usize,
    configured: u64,
    drawn: u64,
)
    requires
        0 < account_total(accounts_per_submitter, submitters) <= u64::MAX,
    ensures
        ({
            let total = account_total(accounts_per_submitter, submitters);
            let most = last_offset(total);
            &&& total == accounts_per_submitter * submitters
            &&& 0 <= most <= u64::MAX
            &&& most + total - 1 == u64::MAX
            &&& first_seed(Some(configured), most as u64, drawn) is Ok <==> configured + total - 1
                <= u64::MAX
            &&& first_seed(Some(configured), most as u64, drawn) matches Ok(first) ==> first
                == configured
            &&& first_seed(None, most as u64, drawn) == Ok::<u64, SeedFault>(drawn)
        }),
{
    assert(accounts_per_submitter * submitters >= 0) by (nonlinear_arith);
}

} // verus!
