use vstd::prelude::*;
use crate::types::{RuneId, Txid};

verus! {

/// The minting terms of a rune.
#[derive(Clone, Copy, Debug)]
pub struct Terms {
    /// Units created by each mint.
    pub amount: Option<u128>,
    /// Maximum number of mints.
    pub cap: Option<u128>,
    /// Absolute start and end heights of the minting window.
    pub height: (Option<u64>, Option<u64>),
    /// Start and end of the minting window, relative to the etching block.
    pub offset: (Option<u64>, Option<u64>),
}

/// A rune name with its spacers.
#[derive(Clone, Copy, Debug, PartialEq, Eq, Structural)]
pub struct SpacedRune {
    pub rune: u128,
    pub spacers: u32,
}

/// The id of an inscription: a transaction and an index in it.
#[derive(Clone, Copy, Debug)]
pub struct InscriptionId {
    pub txid: Txid,
    pub index: u32,
}

/// What an etching sets for a new rune.
#[derive(Clone, Copy, Debug)]
pub struct Etching {
    pub divisibility: Option<u8>,
    /// The name it etches, when it names one.
    pub rune: Option<u128>,
    pub premine: Option<u128>,
    pub spacers: Option<u32>,
    pub symbol: Option<char>,
    pub terms: Option<Terms>,
    pub turbo: bool,
}

/// Everything the index knows about one rune.
#[derive(Clone, Copy, Debug)]
pub struct RuneEntry {
    pub block: u64,
    pub burned: u128,
    pub divisibility: u8,
    pub etching: Txid,
    pub mints: u128,
    pub number: u64,
    pub premine: u128,
    pub spaced_rune: SpacedRune,
    pub symbol: Option<char>,
    pub terms: Option<Terms>,
    pub pending_burns: u128,
    pub pending_mints: u128,
    pub inscription_id: Option<InscriptionId>,
    pub timestamp: u64,
    pub turbo: bool,
}

/// Why a rune cannot be minted at some height.
#[derive(Clone, Copy, Debug, PartialEq, Eq, Structural)]
pub enum MintError {
    Unmintable,
    Start(u64),
    End(u64),
    Cap(u128),
}

/// The minting state of a rune that can be minted now.
#[derive(Clone, Copy, Debug)]
pub struct MintResponse {
    pub start: Option<u64>,
    pub end: Option<u64>,
    pub mintable: bool,
    pub cap: u128,
    pub amount: u128,
    pub mints: u128,
}

/// A rune as the API shows it.
#[derive(Clone, Copy, Debug)]
pub struct RuneResponse {
    pub id: RuneId,
    pub block: u64,
    pub burned: u128,
    pub divisibility: u8,
    pub etching: Txid,
    pub number: u64,
    pub premine: u128,
    pub supply: u128,
    pub max_supply: u128,
    pub spaced_rune: SpacedRune,
    pub symbol: Option<char>,
    pub mint: Option<MintResponse>,
    pub pending_burns: u128,
    pub pending_mints: u128,
    pub inscription_id: Option<InscriptionId>,
    pub timestamp: u64,
    pub turbo: bool,
}

/// Why a balance update was refused.
#[derive(Clone, Copy, Debug, PartialEq, Eq, Structural)]
pub enum BalanceError {
    /// The new balance would not fit.
    Overflow,
}

/// The value of an optional number, or zero.
pub open spec fn or_zero_u128(x: Option<u128>) -> u128 {
    match x {
        Some(v) => v,
        None => 0,
    }
}

/// `a + b`, or the largest `u64` if that does not fit.
pub open spec fn sat_add_u64(a: u64, b: u64) -> u64 {
    if a + b > u64::MAX {
        u64::MAX
    } else {
        (a + b) as u64
    }
}

/// The first height at which the rune can be minted: the later of the relative and absolute
/// starts, or whichever is set.
pub open spec fn spec_start(e: RuneEntry) -> Option<u64> {
    match e.terms {
        None => None,
        Some(t) => match (t.offset.0, t.height.0) {
            (Some(o), Some(h)) => Some(
                if sat_add_u64(e.block, o) >= h {
                    sat_add_u64(e.block, o)
                } else {
                    h
                },
            ),
            (Some(o), None) => Some(sat_add_u64(e.block, o)),
            (None, Some(h)) => Some(h),
            (None, None) => None,
        },
    }
}

/// The first height at which the rune can no longer be minted: the earlier of the relative and
/// absolute ends, or whichever is set.
pub open spec fn spec_end(e: RuneEntry) -> Option<u64> {
    match e.terms {
        None => None,
        Some(t) => match (t.offset.1, t.height.1) {
            (Some(o), Some(h)) => Some(
                if sat_add_u64(e.block, o) <= h {
                    sat_add_u64(e.block, o)
                } else {
                    h
                },
            ),
            (Some(o), None) => Some(sat_add_u64(e.block, o)),
            (None, Some(h)) => Some(h),
            (None, None) => None,
        },
    }
}

/// Whether a mint at `height` is allowed, and how much it creates.
pub open spec fn spec_mintable(e: RuneEntry, height: u64) -> Result<u128, MintError> {
    match e.terms {
        None => Err(MintError::Unmintable),
        Some(t) => if spec_start(e) is Some && height < spec_start(e)->0 {
            Err(MintError::Start(spec_start(e)->0))
        } else if spec_end(e) is Some && height >= spec_end(e)->0 {
            Err(MintError::End(spec_end(e)->0))
        } else if e.mints >= or_zero_u128(t.cap) {
            Err(MintError::Cap(or_zero_u128(t.cap)))
        } else {
            Ok(or_zero_u128(t.amount))
        },
    }
}

/// The amount of each mint, or zero.
pub open spec fn mint_amount(e: RuneEntry) -> u128 {
    match e.terms {
        Some(t) => or_zero_u128(t.amount),
        None => 0,
    }
}

/// The number of allowed mints, or zero.
pub open spec fn mint_cap(e: RuneEntry) -> u128 {
    match e.terms {
        Some(t) => or_zero_u128(t.cap),
        None => 0,
    }
}

/// The units in circulation: the premine plus the units of the mints so far.
pub open spec fn spec_supply(e: RuneEntry) -> int {
    e.premine + e.mints * mint_amount(e)
}

/// The most units there can ever be: the premine plus the units of every allowed mint.
pub open spec fn spec_max_supply(e: RuneEntry) -> int {
    e.premine + mint_cap(e) * mint_amount(e)
}

/// `x + d` if that is a `u128`, as `checked_add_signed` computes it.
pub open spec fn checked_add_signed(x: u128, d: int) -> Option<u128> {
    if 0 <= x + d <= u128::MAX {
        Some((x + d) as u128)
    } else {
        None
    }
}

/// `x + d`, clamped to the range of `u128`, as `saturating_add_signed` computes it.
pub open spec fn saturating_add_signed(x: u128, d: int) -> u128 {
    if x + d < 0 {
        0
    } else if x + d > u128::MAX {
        u128::MAX
    } else {
        (x + d) as u128
    }
}

/// The signed value of `amount` when its bits are read as an `i128`.
pub open spec fn as_signed(amount: u128) -> int {
    if amount <= i128::MAX {
        amount as int
    } else {
        amount - 0x1_0000_0000_0000_0000_0000_0000_0000_0000int
    }
}

/// The entry after one more mint: a pending one for a mempool transaction, a confirmed one
/// otherwise, the count stopping at its largest value.
pub open spec fn minted_entry(e: RuneEntry, mempool: bool) -> RuneEntry {
    if mempool {
        RuneEntry { pending_mints: saturating_add_signed(e.pending_mints, 1), ..e }
    } else {
        RuneEntry { mints: saturating_add_signed(e.mints, 1), ..e }
    }
}

/// The entry after one mint is taken back, the count stopping at zero.
pub open spec fn unminted_entry(e: RuneEntry, mempool: bool) -> RuneEntry {
    if mempool {
        RuneEntry { pending_mints: saturating_add_signed(e.pending_mints, -1), ..e }
    } else {
        RuneEntry { mints: saturating_add_signed(e.mints, -1), ..e }
    }
}

/// The entry after `amount` more burned units, read as an `i128`; `None` when the count
/// would not be a `u128`.
pub open spec fn burned_entry(e: RuneEntry, amount: u128, mempool: bool) -> Option<RuneEntry> {
    if mempool {
        match checked_add_signed(e.pending_burns, as_signed(amount)) {
            Some(v) => Some(RuneEntry { pending_burns: v, ..e }),
            None => None,
        }
    } else {
        match checked_add_signed(e.burned, as_signed(amount)) {
            Some(v) => Some(RuneEntry { burned: v, ..e }),
            None => None,
        }
    }
}

/// The entry after `amount` burned units are taken back: the pending burns less the amount,
/// kept as the pending burns for a mempool transaction and as the burned total otherwise;
/// `None` when that would be negative or too large.
pub open spec fn unburned_entry(e: RuneEntry, amount: u128, mempool: bool) -> Option<RuneEntry> {
    match checked_add_signed(e.pending_burns, -as_signed(amount)) {
        Some(v) => if mempool {
            Some(RuneEntry { pending_burns: v, ..e })
        } else {
            Some(RuneEntry { burned: v, ..e })
        },
        None => None,
    }
}

/// The entry of a rune etched at `block` by transaction `etching`, numbered `number`;
/// `fields` is what the etching sets, `None` for a cenotaph.
pub open spec fn new_rune_entry(
    block: u64,
    etching: Txid,
    number: u64,
    rune: u128,
    timestamp: u64,
    inscription_id: Option<InscriptionId>,
    fields: Option<Etching>,
) -> RuneEntry {
    match fields {
        None => RuneEntry {
            block,
            burned: 0,
            divisibility: 0,
            etching,
            terms: None,
            mints: 0,
            number,
            premine: 0,
            spaced_rune: SpacedRune { rune, spacers: 0 },
            symbol: None,
            pending_burns: 0,
            pending_mints: 0,
            inscription_id,
            timestamp,
            turbo: false,
        },
        Some(f) => RuneEntry {
            block,
            burned: 0,
            divisibility: match f.divisibility {
                Some(d) => d,
                None => 0,
            },
            etching,
            terms: f.terms,
            mints: 0,
            number,
            premine: or_zero_u128(f.premine),
            spaced_rune: SpacedRune {
                rune,
                spacers: match f.spacers {
                    Some(s) => s,
                    None => 0,
                },
            },
            symbol: f.symbol,
            pending_burns: 0,
            pending_mints: 0,
            inscription_id,
            timestamp,
            turbo: f.turbo,
        },
    }
}

/// The rune as the API shows it at `height`, with its minting state when it can be minted
/// there.
pub open spec fn rune_response(e: RuneEntry, id: RuneId, height: u64) -> RuneResponse {
    RuneResponse {
        id,
        block: e.block,
        burned: e.burned,
        divisibility: e.divisibility,
        etching: e.etching,
        number: e.number,
        premine: e.premine,
        supply: spec_supply(e) as u128,
        max_supply: spec_max_supply(e) as u128,
        spaced_rune: e.spaced_rune,
        symbol: e.symbol,
        mint: if spec_mintable(e, height) is Ok {
            Some(
                MintResponse {
                    start: spec_start(e),
                    end: spec_end(e),
                    mintable: true,
                    cap: mint_cap(e),
                    amount: mint_amount(e),
                    mints: e.mints,
                },
            )
        } else {
            None
        },
        pending_burns: e.pending_burns,
        pending_mints: e.pending_mints,
        inscription_id: e.inscription_id,
        timestamp: e.timestamp,
        turbo: e.turbo,
    }
}

fn checked_add_delta(x: u128, magnitude: u128, negative: bool) -> (r: Option<u128>)
    ensures
        r == checked_add_signed(x, if negative { -magnitude } else { magnitude as int }),
{
    if negative {
        if magnitude <= x {
            Some(x - magnitude)
        } else {
            None
        }
    } else {
        if magnitude <= u128::MAX - x {
            Some(x + magnitude)
        } else {
            None
        }
    }
}

/// Splits the `i128` reading of `amount` into sign and magnitude.
fn signed_parts(amount: u128) -> (r: (u128, bool))
    ensures
        as_signed(amount) == if r.1 { -r.0 } else { r.0 as int },
{
    if amount <= 0x7fff_ffff_ffff_ffff_ffff_ffff_ffff_ffffu128 {
        (amount, false)
    } else {
        (0xffff_ffff_ffff_ffff_ffff_ffff_ffff_ffffu128 - amount + 1, true)
    }
}

impl RuneEntry {
    /// The first height at which minting is open, if the terms bound it.
    pub fn start(&self) -> (r: Option<u64>)
        ensures
            r == spec_start(*self),
    {
        match self.terms {
            None => None,
            Some(t) => {
                let relative = match t.offset.0 {
                    Some(o) => Some(self.block.saturating_add(o)),
                    None => None,
                };
                match (relative, t.height.0) {
                    (Some(r), Some(h)) => Some(
                        if r >= h {
                            r
                        } else {
                            h
                        },
                    ),
                    (Some(r), None) => Some(r),
                    (None, Some(h)) => Some(h),
                    (None, None) => None,
                }
            },
        }
    }

    /// The first height at which minting is closed, if the terms bound it.
    pub fn end(&self) -> (r: Option<u64>)
        ensures
            r == spec_end(*self),
    {
        match self.terms {
            None => None,
            Some(t) => {
                let relative = match t.offset.1 {
                    Some(o) => Some(self.block.saturating_add(o)),
                    None => None,
                };
                match (relative, t.height.1) {
                    (Some(r), Some(h)) => Some(
                        if r <= h {
                            r
                        } else {
                            h
                        },
                    ),
                    (Some(r), None) => Some(r),
                    (None, Some(h)) => Some(h),
                    (None, None) => None,
                }
            },
        }
    }

    /// Whether the rune can be minted at `height`, and the amount of a mint if so.
    pub fn mintable(&self, height: u64) -> (r: Result<u128, MintError>)
        ensures
            r == spec_mintable(*self, height),
    {
        let terms = match self.terms {
            None => {
                return Err(MintError::Unmintable);
            },
            Some(t) => t,
        };
        if let Some(start) = self.start() {
            if height < start {
                return Err(MintError::Start(start));
            }
        }
        if let Some(end) = self.end() {
            if height >= end {
                return Err(MintError::End(end));
            }
        }
        let cap = match terms.cap {
            Some(c) => c,
            None => 0,
        };
        if self.mints >= cap {
            return Err(MintError::Cap(cap));
        }
        Ok(
            match terms.amount {
                Some(a) => a,
                None => 0,
            },
        )
    }

    /// The units in circulation.
    pub fn supply(&self) -> (s: u128)
        requires
            spec_supply(*self) <= u128::MAX,
        ensures
            s == spec_supply(*self),
    {
        let amount = match self.terms {
            Some(t) => match t.amount {
                Some(a) => a,
                None => 0,
            },
            None => 0,
        };
        proof {
            assert(0 <= self.mints * amount) by (nonlinear_arith);
        }
        self.premine + self.mints * amount
    }

    /// The most units there can ever be.
    pub fn max_supply(&self) -> (s: u128)
        requires
            spec_max_supply(*self) <= u128::MAX,
        ensures
            s == spec_max_supply(*self),
    {
        let (cap, amount) = match self.terms {
            Some(t) => (
                match t.cap {
                    Some(c) => c,
                    None => 0,
                },
                match t.amount {
                    Some(a) => a,
                    None => 0,
                },
            ),
            None => (0, 0),
        };
        proof {
            assert(0 <= cap * amount) by (nonlinear_arith);
        }
        self.premine + cap * amount
    }

    /// The rune as the API shows it at `height`, with its minting state when it can be minted
    /// there.
    pub fn to_rune_response(&self, id: RuneId, height: u64) -> (r: RuneResponse)
        requires
            spec_supply(*self) <= u128::MAX,
            spec_max_supply(*self) <= u128::MAX,
        ensures
            r == rune_response(*self, id, height),
            r.id == id && r.block == self.block && r.burned == self.burned,
            r.divisibility == self.divisibility && r.etching == self.etching,
            r.number == self.number && r.premine == self.premine,
            r.supply == spec_supply(*self) && r.max_supply == spec_max_supply(*self),
            r.spaced_rune == self.spaced_rune && r.symbol == self.symbol,
            r.pending_burns == self.pending_burns && r.pending_mints == self.pending_mints,
            r.inscription_id == self.inscription_id && r.timestamp == self.timestamp,
            r.turbo == self.turbo,
            r.mint == (if spec_mintable(*self, height) is Ok {
                Some(
                    MintResponse {
                        start: spec_start(*self),
                        end: spec_end(*self),
                        mintable: true,
                        cap: mint_cap(*self),
                        amount: mint_amount(*self),
                        mints: self.mints,
                    },
                )
            } else {
                None
            }),
    {
        let mintable = match self.mintable(height) {
            Ok(_) => true,
            Err(_) => false,
        };
        let mint = if mintable {
            let t = self.terms.unwrap();
            Some(
                MintResponse {
                    start: self.start(),
                    end: self.end(),
                    mintable,
                    cap: match t.cap {
                        Some(c) => c,
                        None => 0,
                    },
                    amount: match t.amount {
                        Some(a) => a,
                        None => 0,
                    },
                    mints: self.mints,
                },
            )
        } else {
            None
        };
        RuneResponse {
            id,
            block: self.block,
            burned: self.burned,
            divisibility: self.divisibility,
            etching: self.etching,
            number: self.number,
            premine: self.premine,
            supply: self.supply(),
            max_supply: self.max_supply(),
            spaced_rune: self.spaced_rune,
            symbol: self.symbol,
            mint,
            pending_burns: self.pending_burns,
            pending_mints: self.pending_mints,
            inscription_id: self.inscription_id,
            timestamp: self.timestamp,
            turbo: self.turbo,
        }
    }

    /// Counts one more mint: a pending one for a mempool transaction, a confirmed one otherwise.
    /// The count stops at its largest value.
    pub fn increment_mint(&mut self, mempool: bool)
        ensures
            *final(self) == minted_entry(*old(self), mempool),
            mempool ==> final(self).pending_mints == saturating_add_signed(old(self).pending_mints, 1)
                && final(self).mints == old(self).mints,
            !mempool ==> final(self).mints == saturating_add_signed(old(self).mints, 1)
                && final(self).pending_mints == old(self).pending_mints,
            final(self).burned == old(self).burned,
            final(self).pending_burns == old(self).pending_burns,
            final(self).number == old(self).number,
            final(self).terms == old(self).terms,
            final(self).premine == old(self).premine,
    {
        if mempool {
            self.pending_mints = self.pending_mints.saturating_add(1);
        } else {
            self.mints = self.mints.saturating_add(1);
        }
    }

    /// Undoes one mint when its transaction is reverted. The count stops at zero.
    pub fn revert_mint(&mut self, mempool: bool)
        ensures
            *final(self) == unminted_entry(*old(self), mempool),
            mempool ==> final(self).pending_mints == saturating_add_signed(old(self).pending_mints, -1)
                && final(self).mints == old(self).mints,
            !mempool ==> final(self).mints == saturating_add_signed(old(self).mints, -1)
                && final(self).pending_mints == old(self).pending_mints,
            final(self).burned == old(self).burned,
            final(self).pending_burns == old(self).pending_burns,
            final(self).number == old(self).number,
            final(self).terms == old(self).terms,
            final(self).premine == old(self).premine,
    {
        if mempool {
            self.pending_mints = self.pending_mints.saturating_sub(1);
        } else {
            self.mints = self.mints.saturating_sub(1);
        }
    }

    /// Adds `amount` burned units, the amount's bits read as an `i128`:
    /// to the pending burns for a mempool transaction, to the burned total otherwise. Fails,
    /// changing nothing, when the result would not be a `u128`.
    pub fn add_burn(&mut self, amount: u128, mempool: bool) -> (r: Result<(), BalanceError>)
        ensures
            match burned_entry(*old(self), amount, mempool) {
                Some(e) => r is Ok && *final(self) == e,
                None => r is Err && *final(self) == *old(self),
            },
            mempool ==> match checked_add_signed(old(self).pending_burns, as_signed(amount)) {
                Some(v) => r is Ok && final(self).pending_burns == v && final(self).burned == old(
                    self,
                ).burned,
                None => r == Err::<(), BalanceError>(BalanceError::Overflow) && *final(self) == *old(
                    self,
                ),
            },
            !mempool ==> match checked_add_signed(old(self).burned, as_signed(amount)) {
                Some(v) => r is Ok && final(self).burned == v && final(self).pending_burns == old(
                    self,
                ).pending_burns,
                None => r == Err::<(), BalanceError>(BalanceError::Overflow) && *final(self) == *old(
                    self,
                ),
            },
            final(self).mints == old(self).mints,
            final(self).pending_mints == old(self).pending_mints,
            final(self).number == old(self).number,
            final(self).terms == old(self).terms,
    {
        let (magnitude, negative) = signed_parts(amount);
        if mempool {
            match checked_add_delta(self.pending_burns, magnitude, negative) {
                Some(v) => {
                    self.pending_burns = v;
                    Ok(())
                },
                None => Err(BalanceError::Overflow),
            }
        } else {
            match checked_add_delta(self.burned, magnitude, negative) {
                Some(v) => {
                    self.burned = v;
                    Ok(())
                },
                None => Err(BalanceError::Overflow),
            }
        }
    }

    /// Takes back `amount` burned units when their transaction is reverted. For a mempool
    /// transaction the pending burns shrink; otherwise the burned total is set to the pending
    /// burns less `amount`. Fails, changing nothing, when the
    /// result would be negative. The amount whose `i128` reading is the most negative `i128`
    /// cannot be negated and is left out.
    pub fn revert_burn(&mut self, amount: u128, mempool: bool) -> (r: Result<(), BalanceError>)
        requires
            amount != 0x8000_0000_0000_0000_0000_0000_0000_0000u128,
        ensures
            match unburned_entry(*old(self), amount, mempool) {
                Some(e) => r is Ok && *final(self) == e,
                None => r is Err && *final(self) == *old(self),
            },
            match checked_add_signed(old(self).pending_burns, -as_signed(amount)) {
                Some(v) => r is Ok && if mempool {
                    final(self).pending_burns == v && final(self).burned == old(self).burned
                } else {
                    final(self).burned == v && final(self).pending_burns == old(self).pending_burns
                },
                None => r == Err::<(), BalanceError>(BalanceError::Overflow) && *final(self) == *old(
                    self,
                ),
            },
            final(self).mints == old(self).mints,
            final(self).pending_mints == old(self).pending_mints,
            final(self).number == old(self).number,
            final(self).terms == old(self).terms,
    {
        let (magnitude, negative) = signed_parts(amount);
        let (m2, n2) = if magnitude == 0 {
            (0u128, false)
        } else {
            (magnitude, !negative)
        };
        match checked_add_delta(self.pending_burns, m2, n2) {
            Some(v) => {
                if mempool {
                    self.pending_burns = v;
                } else {
                    self.burned = v;
                }
                Ok(())
            },
            None => Err(BalanceError::Overflow),
        }
    }

    /// The entry of a rune etched at `block` by transaction `etching`, numbered `number`.
    /// `etching_fields` is `None` for an etching found in a cenotaph, which gets no terms,
    /// premine, divisibility, spacers or symbol.
    pub fn from_etching(
        block: u64,
        etching: Txid,
        number: u64,
        rune: u128,
        timestamp: u64,
        inscription_id: Option<InscriptionId>,
        etching_fields: Option<Etching>,
    ) -> (e: RuneEntry)
        ensures
            e == new_rune_entry(block, etching, number, rune, timestamp, inscription_id, etching_fields),
            e.block == block,
            e.etching == etching,
            e.number == number,
            e.spaced_rune.rune == rune,
            e.timestamp == timestamp,
            e.inscription_id == inscription_id,
            e.burned == 0 && e.mints == 0 && e.pending_burns == 0 && e.pending_mints == 0,
            match etching_fields {
                None => e.terms is None && e.premine == 0 && e.divisibility == 0
                    && e.spaced_rune.spacers == 0 && e.symbol is None && !e.turbo,
                Some(f) => e.terms == f.terms && e.premine == or_zero_u128(f.premine)
                    && e.divisibility == (match f.divisibility {
                    Some(d) => d,
                    None => 0u8,
                }) && e.spaced_rune.spacers == (match f.spacers {
                    Some(s) => s,
                    None => 0u32,
                }) && e.symbol == f.symbol && e.turbo == f.turbo,
            },
    {
        match etching_fields {
            None => RuneEntry {
                block,
                burned: 0,
                divisibility: 0,
                etching,
                terms: None,
                mints: 0,
                number,
                premine: 0,
                spaced_rune: SpacedRune { rune, spacers: 0 },
                symbol: None,
                pending_burns: 0,
                pending_mints: 0,
                inscription_id,
                timestamp,
                turbo: false,
            },
            Some(f) => RuneEntry {
                block,
                burned: 0,
                divisibility: match f.divisibility {
                    Some(d) => d,
                    None => 0,
                },
                etching,
                terms: f.terms,
                mints: 0,
                number,
                premine: match f.premine {
                    Some(p) => p,
                    None => 0,
                },
                spaced_rune: SpacedRune {
                    rune,
                    spacers: match f.spacers {
                        Some(s) => s,
                        None => 0,
                    },
                },
                symbol: f.symbol,
                pending_burns: 0,
                pending_mints: 0,
                inscription_id,
                timestamp,
                turbo: f.turbo,
            },
        }
    }
}

/// A mint succeeds only for a rune with terms, at a height from its start and before its end,
/// while fewer mints than its cap were made; it then creates the terms' amount, and the supply
/// after it stays within the rune's maximum supply.
pub proof fn lemma_mint_stays_within_terms(e: RuneEntry, height: u64)
    ensures
        spec_mintable(e, height) is Ok ==> {
            &&& e.terms is Some
            &&& spec_start(e) matches Some(s) ==> s <= height
            &&& spec_end(e) matches Some(x) ==> height < x
            &&& e.mints < mint_cap(e)
            &&& spec_mintable(e, height) == Ok::<u128, MintError>(mint_amount(e))
            &&& spec_supply(e) + mint_amount(e) <= spec_max_supply(e)
        },
        e.terms is None ==> spec_mintable(e, height) == Err::<u128, MintError>(MintError::Unmintable),
{
    if spec_mintable(e, height) is Ok {
        let m = e.mints as int;
        let c = mint_cap(e) as int;
        let a = mint_amount(e) as int;
        assert((m + 1) * a <= c * a) by (nonlinear_arith)
            requires
                m + 1 <= c,
                a >= 0,
        ;
        assert(m * a + a == (m + 1) * a) by (nonlinear_arith);
    }
}

} // verus!
